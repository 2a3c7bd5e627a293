//! Frames and animations: the indices into a sprite sheet that one behaviour
//! of the duck plays, and how long each is shown.
use vstd::prelude::*;
use crate::hats_data::HatType;
use crate::ids::{id_after, id_after_many, IdSource};
use crate::ui_text::Translatable;

verus! {

/// The behaviour that starts an animation.
#[derive(Copy, Clone, Debug, PartialEq, Eq, Structural)]
pub enum AnimType {
    OnDefault,
    OnPressQuack,
    OnReleaseQuack,
    OnPetStop,
    OnPetApproach,
    OnDuckDeath,
    OnDuckJump,
    OnDuckLand,
    OnDuckGlide,
    OnDuckWalk,
    OnDuckSneak,
    OnDuckNetted,
    OnDuckSpawned,
    OnHatPickedUp,
}

impl Default for AnimType {
    fn default() -> (kind: AnimType)
        ensures
            kind == AnimType::OnDefault,
    {
        AnimType::OnDefault
    }
}

impl AnimType {
    /// Position of the kind in the declaration order, from 0 to 13.
    pub open spec fn index(self) -> nat {
        match self {
            AnimType::OnDefault => 0,
            AnimType::OnPressQuack => 1,
            AnimType::OnReleaseQuack => 2,
            AnimType::OnPetStop => 3,
            AnimType::OnPetApproach => 4,
            AnimType::OnDuckDeath => 5,
            AnimType::OnDuckJump => 6,
            AnimType::OnDuckLand => 7,
            AnimType::OnDuckGlide => 8,
            AnimType::OnDuckWalk => 9,
            AnimType::OnDuckSneak => 10,
            AnimType::OnDuckNetted => 11,
            AnimType::OnDuckSpawned => 12,
            AnimType::OnHatPickedUp => 13,
        }
    }

    /// Whether only a pet can play the kind.
    pub open spec fn pet_only(self) -> bool {
        self == AnimType::OnPetStop || self == AnimType::OnPetApproach
    }
}

impl Translatable for AnimType {
    open spec fn key(&self) -> Seq<char> {
        match self {
            AnimType::OnDefault => "0"@,
            AnimType::OnPressQuack => "1"@,
            AnimType::OnReleaseQuack => "2"@,
            AnimType::OnPetStop => "3"@,
            AnimType::OnPetApproach => "4"@,
            AnimType::OnDuckDeath => "5"@,
            AnimType::OnDuckJump => "6"@,
            AnimType::OnDuckLand => "7"@,
            AnimType::OnDuckGlide => "8"@,
            AnimType::OnDuckWalk => "9"@,
            AnimType::OnDuckSneak => "10"@,
            AnimType::OnDuckNetted => "11"@,
            AnimType::OnDuckSpawned => "12"@,
            AnimType::OnHatPickedUp => "13"@,
        }
    }

    fn translate_key(&self) -> (key: &str) {
        match self {
            AnimType::OnDefault => "0",
            AnimType::OnPressQuack => "1",
            AnimType::OnReleaseQuack => "2",
            AnimType::OnPetStop => "3",
            AnimType::OnPetApproach => "4",
            AnimType::OnDuckDeath => "5",
            AnimType::OnDuckJump => "6",
            AnimType::OnDuckLand => "7",
            AnimType::OnDuckGlide => "8",
            AnimType::OnDuckWalk => "9",
            AnimType::OnDuckSneak => "10",
            AnimType::OnDuckNetted => "11",
            AnimType::OnDuckSpawned => "12",
            AnimType::OnHatPickedUp => "13",
        }
    }
}

/// The animations that a pet may have: every kind, in declaration order.
pub open spec fn pet_animations() -> Seq<AnimType> {
    seq![
        AnimType::OnDefault,
        AnimType::OnPressQuack,
        AnimType::OnReleaseQuack,
        AnimType::OnPetStop,
        AnimType::OnPetApproach,
        AnimType::OnDuckDeath,
        AnimType::OnDuckJump,
        AnimType::OnDuckLand,
        AnimType::OnDuckGlide,
        AnimType::OnDuckWalk,
        AnimType::OnDuckSneak,
        AnimType::OnDuckNetted,
        AnimType::OnDuckSpawned,
        AnimType::OnHatPickedUp,
    ]
}

/// The animations that an element other than a pet may have: every kind but
/// the two that only a pet plays, in declaration order.
pub open spec fn non_pet_animations() -> Seq<AnimType> {
    seq![
        AnimType::OnDefault,
        AnimType::OnPressQuack,
        AnimType::OnReleaseQuack,
        AnimType::OnDuckDeath,
        AnimType::OnDuckJump,
        AnimType::OnDuckLand,
        AnimType::OnDuckGlide,
        AnimType::OnDuckWalk,
        AnimType::OnDuckSneak,
        AnimType::OnDuckNetted,
        AnimType::OnDuckSpawned,
        AnimType::OnHatPickedUp,
    ]
}

/// The animations that are legal for an element of the given kind.
pub open spec fn legal_animations(hat_type: HatType) -> Seq<AnimType> {
    if hat_type.is_pet() {
        pet_animations()
    } else {
        non_pet_animations()
    }
}

/// Every kind of animation is legal for a pet, and stands in the list at its
/// own index, so none stands there twice.
pub proof fn lemma_pet_animations_complete(kind: AnimType)
    ensures
        pet_animations().len() == 14,
        pet_animations()[kind.index() as int] == kind,
        pet_animations().contains(kind),
{
}

/// A kind of animation is legal for an element other than a pet exactly when
/// it is not one of the two that only a pet plays; no kind stands in the list
/// twice.
pub proof fn lemma_non_pet_animations(kind: AnimType)
    ensures
        non_pet_animations().len() == 12,
        non_pet_animations().contains(kind) <==> !kind.pet_only(),
        forall|i: int, j: int|
            0 <= i < j < 12 ==> non_pet_animations()[i] != non_pet_animations()[j],
{
    let list = non_pet_animations();
    if !kind.pet_only() {
        let at: int = if kind.index() < 3 {
            kind.index() as int
        } else {
            kind.index() as int - 2
        };
        assert(list[at] == kind);
    }
}

/// The animations that an element of the given kind may have. Every kind has
/// a list, so the result is never `None`.
pub fn avalible_animations(hat_type: HatType) -> (list: Option<Vec<AnimType>>)
    ensures
        list is Some,
        list->0@ == legal_animations(hat_type),
{
    match hat_type {
        HatType::FlyingPet | HatType::WalkingPet => {
            let list: Vec<AnimType> = vec![
                AnimType::OnDefault,
                AnimType::OnPressQuack,
                AnimType::OnReleaseQuack,
                AnimType::OnPetStop,
                AnimType::OnPetApproach,
                AnimType::OnDuckDeath,
                AnimType::OnDuckJump,
                AnimType::OnDuckLand,
                AnimType::OnDuckGlide,
                AnimType::OnDuckWalk,
                AnimType::OnDuckSneak,
                AnimType::OnDuckNetted,
                AnimType::OnDuckSpawned,
                AnimType::OnHatPickedUp,
            ];
            assert(list@ =~= pet_animations());
            Some(list)
        },
        _ => {
            let list: Vec<AnimType> = vec![
                AnimType::OnDefault,
                AnimType::OnPressQuack,
                AnimType::OnReleaseQuack,
                AnimType::OnDuckDeath,
                AnimType::OnDuckJump,
                AnimType::OnDuckLand,
                AnimType::OnDuckGlide,
                AnimType::OnDuckWalk,
                AnimType::OnDuckSneak,
                AnimType::OnDuckNetted,
                AnimType::OnDuckSpawned,
                AnimType::OnHatPickedUp,
            ];
            assert(list@ =~= non_pet_animations());
            Some(list)
        },
    }
}

/// Identity of a frame within one run of the program. It tells the items of
/// a list apart and says nothing about what a frame shows.
#[derive(Debug, Clone, Copy, Hash, Default, PartialEq, Eq, Structural)]
pub struct FrameId(pub u32);

/// Draws a fresh frame identity.
pub fn frame_id(ids: &mut IdSource) -> (id: FrameId)
    ensures
        id.0 == old(ids).next_frame(),
        final(ids).next_frame() == id_after(old(ids).next_frame()),
        final(ids).next_element() == old(ids).next_element(),
        final(ids).next_hat() == old(ids).next_hat(),
{
    FrameId(ids.take_frame())
}

/// One cell of a sprite sheet, and optionally how long it is shown, in
/// milliseconds.
#[derive(Debug)]
pub struct Frame {
    pub value: u32,
    pub delay: Option<u32>,
    pub id: FrameId,
}

/// What a frame shows, without its identity.
pub struct FrameView {
    pub value: u32,
    pub delay: Option<u32>,
}

impl View for Frame {
    type V = FrameView;

    open spec fn view(&self) -> FrameView {
        FrameView { value: self.value, delay: self.delay }
    }
}

impl Frame {
    /// A frame of the given cell, with a fresh identity and no delay of its
    /// own.
    pub fn new(value: u32, ids: &mut IdSource) -> (frame: Frame)
        ensures
            frame@ == (FrameView { value, delay: None }),
            frame.id.0 == old(ids).next_frame(),
            final(ids).next_frame() == id_after(old(ids).next_frame()),
            final(ids).next_element() == old(ids).next_element(),
            final(ids).next_hat() == old(ids).next_hat(),
    {
        Frame { value, id: frame_id(ids), delay: None }
    }

    /// A frame of the given cell that is shown for `delay` milliseconds.
    pub fn with_delay(value: u32, delay: u32, ids: &mut IdSource) -> (frame: Frame)
        ensures
            frame@ == (FrameView { value, delay: Some(delay) }),
            frame.id.0 == old(ids).next_frame(),
            final(ids).next_frame() == id_after(old(ids).next_frame()),
            final(ids).next_element() == old(ids).next_element(),
            final(ids).next_hat() == old(ids).next_hat(),
    {
        Frame { value, id: frame_id(ids), delay: Some(delay) }
    }

    pub fn id(&self) -> (id: FrameId)
        ensures
            id == self.id,
    {
        self.id
    }

    /// A copy that shows the same and has an identity of its own.
    pub fn duplicate(&self, ids: &mut IdSource) -> (copy: Frame)
        ensures
            copy@ == self@,
            copy.id.0 == old(ids).next_frame(),
            final(ids).next_frame() == id_after(old(ids).next_frame()),
            final(ids).next_element() == old(ids).next_element(),
            final(ids).next_hat() == old(ids).next_hat(),
    {
        Frame { value: self.value, id: frame_id(ids), delay: self.delay }
    }
}

impl From<Frame> for u32 {
    /// The cell that the frame shows.
    fn from(frame: Frame) -> (value: u32) {
        frame.value
    }
}

impl vstd::std_specs::convert::FromSpecImpl<Frame> for u32 {
    open spec fn obeys_from_spec() -> bool {
        true
    }

    open spec fn from_spec(frame: Frame) -> u32 {
        frame.value
    }
}

/// The views of a list of frames, in order.
pub open spec fn frame_views(frames: Seq<Frame>) -> Seq<FrameView> {
    Seq::new(frames.len(), |i: int| frames[i]@)
}

/// Whether the frames carry consecutive identities, the first of them `start`.
pub open spec fn frames_numbered_from(frames: Seq<Frame>, start: u32) -> bool {
    forall|i: int|
        0 <= i < frames.len() ==> (#[trigger] frames[i]).id.0 == id_after_many(start, i as nat)
}

/// A named sequence of frames. A negative `delay` of one second,
/// [`PER_FRAME_DELAY`], says that each frame brings its own delay. The three
/// `new_` fields hold what a user is typing into the editor; they are not
/// part of what the animation is.
#[derive(Debug)]
pub struct Animation {
    pub anim_type: AnimType,
    /// Milliseconds between two frames.
    pub delay: i32,
    pub looping: bool,
    pub frames: Vec<Frame>,
    pub new_frame: i32,
    pub new_range_start: i32,
    pub new_range_end: i32,
}

/// The delay of an animation whose frames bring their own: minus one second.
pub const PER_FRAME_DELAY: i32 = -1000;

/// What an animation is, without the identities of its frames and without
/// the editor's scratch fields.
pub struct AnimationView {
    pub anim_type: AnimType,
    pub delay: i32,
    pub looping: bool,
    pub frames: Seq<FrameView>,
}

impl View for Animation {
    type V = AnimationView;

    open spec fn view(&self) -> AnimationView {
        AnimationView {
            anim_type: self.anim_type,
            delay: self.delay,
            looping: self.looping,
            frames: frame_views(self.frames@),
        }
    }
}

impl Animation {
    pub fn new(anim_type: AnimType, delay: i32, looping: bool, frames: Vec<Frame>) -> (animation:
        Animation)
        ensures
            animation.anim_type == anim_type,
            animation.delay == delay,
            animation.looping == looping,
            animation.frames == frames,
            animation.new_frame == 1,
            animation.new_range_start == 1,
            animation.new_range_end == 1,
    {
        Animation {
            anim_type,
            delay,
            looping,
            frames,
            new_frame: 1,
            new_range_end: 1,
            new_range_start: 1,
        }
    }

    /// A copy with the same content whose frames have identities of their own,
    /// drawn in order.
    pub fn duplicate(&self, ids: &mut IdSource) -> (copy: Animation)
        ensures
            copy@ == self@,
            copy.new_frame == self.new_frame,
            copy.new_range_start == self.new_range_start,
            copy.new_range_end == self.new_range_end,
            frames_numbered_from(copy.frames@, old(ids).next_frame()),
            final(ids).next_frame() == id_after_many(
                old(ids).next_frame(),
                self.frames@.len(),
            ),
            final(ids).next_element() == old(ids).next_element(),
            final(ids).next_hat() == old(ids).next_hat(),
    {
        let frames = duplicate_frames(&self.frames, ids);
        Animation {
            anim_type: self.anim_type,
            delay: self.delay,
            looping: self.looping,
            frames,
            new_frame: self.new_frame,
            new_range_start: self.new_range_start,
            new_range_end: self.new_range_end,
        }
    }
}

/// Copies of the frames, in order, with consecutive fresh identities.
pub fn duplicate_frames(frames: &Vec<Frame>, ids: &mut IdSource) -> (copies: Vec<Frame>)
    ensures
        frame_views(copies@) == frame_views(frames@),
        frames_numbered_from(copies@, old(ids).next_frame()),
        final(ids).next_frame() == id_after_many(old(ids).next_frame(), frames@.len()),
        final(ids).next_element() == old(ids).next_element(),
        final(ids).next_hat() == old(ids).next_hat(),
{
    let ghost start = ids.next_frame();
    let mut copies: Vec<Frame> = Vec::new();
    let mut i: usize = 0;
    while i < frames.len()
        invariant
            i <= frames.len(),
            copies@.len() == i,
            forall|k: int| 0 <= k < i ==> (#[trigger] copies@[k])@ == frames@[k]@,
            frames_numbered_from(copies@, start),
            ids.next_frame() == id_after_many(start, i as nat),
            ids.next_element() == old(ids).next_element(),
            ids.next_hat() == old(ids).next_hat(),
        decreases frames.len() - i,
    {
        let copy = frames[i].duplicate(ids);
        copies.push(copy);
        i += 1;
    }
    assert(frame_views(copies@) =~= frame_views(frames@));
    copies
}

/// Whether every animation is of a kind that is legal for an element of the
/// given kind.
pub open spec fn kinds_legal(animations: Seq<Animation>, hat_type: HatType) -> bool {
    forall|i: int|
        0 <= i < animations.len() ==> legal_animations(hat_type).contains(
            (#[trigger] animations[i]).anim_type,
        )
}

/// Whether no two animations are of the same kind.
pub open spec fn kinds_distinct(animations: Seq<Animation>) -> bool {
    forall|i: int, j: int|
        0 <= i < j < animations.len() ==> (#[trigger] animations[i]).anim_type != (
        #[trigger] animations[j]).anim_type
}

/// Whether every frame of the animation shows one of `frame_count` cells.
pub open spec fn frames_in_sheet(animation: Animation, frame_count: int) -> bool {
    forall|k: int|
        0 <= k < animation.frames@.len() ==> (#[trigger] animation.frames@[k]).value < frame_count
}

/// Whether every frame of the animations shows one of `frame_count` cells.
pub open spec fn frames_within(animations: Seq<Animation>, frame_count: int) -> bool {
    forall|i: int|
        0 <= i < animations.len() ==> frames_in_sheet(#[trigger] animations[i], frame_count)
}

/// Whether the animations are what an element of the given kind may have
/// over a sprite sheet of `frame_count` cells: each is of a legal kind, no
/// two are of the same kind, and every frame shows a cell of the sheet.
pub open spec fn animations_valid(
    animations: Seq<Animation>,
    hat_type: HatType,
    frame_count: int,
) -> bool {
    &&& kinds_legal(animations, hat_type)
    &&& kinds_distinct(animations)
    &&& frames_within(animations, frame_count)
}

/// Tells whether an animation of the given kind is legal for an element of
/// the given kind.
pub fn is_legal_animation(hat_type: HatType, kind: AnimType) -> (legal: bool)
    ensures
        legal == legal_animations(hat_type).contains(kind),
{
    proof {
        lemma_pet_animations_complete(kind);
        lemma_non_pet_animations(kind);
    }
    let pet = match hat_type {
        HatType::FlyingPet | HatType::WalkingPet => true,
        _ => false,
    };
    let pet_only = match kind {
        AnimType::OnPetStop | AnimType::OnPetApproach => true,
        _ => false,
    };
    pet || !pet_only
}

/// Tells whether the animations are what an element of the given kind may
/// have over a sprite sheet of `frame_count` cells.
pub fn animations_are_valid(animations: &Vec<Animation>, hat_type: HatType, frame_count: u32) -> (valid:
    bool)
    ensures
        valid == animations_valid(animations@, hat_type, frame_count as int),
{
    let mut i: usize = 0;
    while i < animations.len()
        invariant
            i <= animations@.len(),
            forall|a: int|
                0 <= a < i ==> legal_animations(hat_type).contains(
                    (#[trigger] animations@[a]).anim_type,
                ),
            forall|a: int, b: int|
                0 <= a < b < i ==> (#[trigger] animations@[a]).anim_type != (
                #[trigger] animations@[b]).anim_type,
            forall|a: int| 0 <= a < i ==> frames_in_sheet(#[trigger] animations@[a], frame_count as int),
        decreases animations.len() - i,
    {
        let animation = &animations[i];
        if !is_legal_animation(hat_type, animation.anim_type) {
            return false;
        }
        let mut j: usize = 0;
        while j < i
            invariant
                j <= i < animations@.len(),
                animation == animations@[i as int],
                forall|a: int|
                    0 <= a < j ==> (#[trigger] animations@[a]).anim_type != animation.anim_type,
            decreases i - j,
        {
            if animations[j].anim_type == animation.anim_type {
                return false;
            }
            j += 1;
        }
        let mut k: usize = 0;
        while k < animation.frames.len()
            invariant
                k <= animation.frames@.len(),
                i < animations@.len(),
                animation == animations@[i as int],
                forall|f: int| 0 <= f < k ==> (#[trigger] animation.frames@[f]).value < frame_count,
            decreases animation.frames.len() - k,
        {
            if animation.frames[k].value >= frame_count {
                assert(!frames_in_sheet(animations@[i as int], frame_count as int));
                return false;
            }
            k += 1;
        }
        i += 1;
    }
    true
}

/// The views of a list of animations, in order.
pub open spec fn animation_views(animations: Seq<Animation>) -> Seq<AnimationView> {
    Seq::new(animations.len(), |i: int| animations[i]@)
}

/// How many frames the animations have, all together.
pub open spec fn total_frames(animations: Seq<Animation>) -> nat
    decreases animations.len(),
{
    if animations.len() == 0 {
        0
    } else {
        total_frames(animations.drop_last()) + animations.last().frames@.len()
    }
}

/// How many frames the animations have, all together, told from their
/// views.
pub open spec fn frames_in(animations: Seq<AnimationView>) -> nat
    decreases animations.len(),
{
    if animations.len() == 0 {
        0
    } else {
        frames_in(animations.drop_last()) + animations.last().frames.len()
    }
}

/// The views of animations have as many frames as the animations.
pub proof fn lemma_frames_in_views(animations: Seq<Animation>)
    ensures
        frames_in(animation_views(animations)) == total_frames(animations),
    decreases animations.len(),
{
    if animations.len() > 0 {
        lemma_frames_in_views(animations.drop_last());
        assert(animation_views(animations).drop_last() =~= animation_views(animations.drop_last()));
        assert(animation_views(animations).last() == animations.last()@);
    }
}

/// Whether the frames of the animations, read one animation after the other,
/// carry consecutive identities, the first of them `start`.
pub open spec fn animations_numbered_from(animations: Seq<Animation>, start: u32) -> bool {
    forall|a: int|
        0 <= a < animations.len() ==> frames_numbered_from(
            (#[trigger] animations[a]).frames@,
            id_after_many(start, total_frames(animations.take(a))),
        )
}

/// Copies of the animations, in order; their frames get consecutive fresh
/// identities.
pub fn duplicate_animations(animations: &Vec<Animation>, ids: &mut IdSource) -> (copies: Vec<
    Animation,
>)
    ensures
        animation_views(copies@) == animation_views(animations@),
        animations_numbered_from(copies@, old(ids).next_frame()),
        final(ids).next_frame() == id_after_many(
            old(ids).next_frame(),
            total_frames(animations@),
        ),
        final(ids).next_element() == old(ids).next_element(),
        final(ids).next_hat() == old(ids).next_hat(),
{
    let ghost start = ids.next_frame();
    let mut copies: Vec<Animation> = Vec::new();
    let mut i: usize = 0;
    while i < animations.len()
        invariant
            i <= animations.len(),
            copies@.len() == i,
            forall|k: int| 0 <= k < i ==> (#[trigger] copies@[k])@ == animations@[k]@,
            animations_numbered_from(copies@, start),
            total_frames(copies@) == total_frames(animations@.take(i as int)),
            ids.next_frame() == id_after_many(start, total_frames(copies@)),
            ids.next_element() == old(ids).next_element(),
            ids.next_hat() == old(ids).next_hat(),
        decreases animations.len() - i,
    {
        let ghost before = copies@;
        let copy = animations[i].duplicate(ids);
        copies.push(copy);
        proof {
            let grown = copies@;
            assert(grown.drop_last() =~= before);
            assert(animations@.take(i + 1).drop_last() =~= animations@.take(i as int));
            assert(copy@.frames.len() == copy.frames@.len());
            assert(animations@[i as int]@.frames.len() == animations@[i as int].frames@.len());
            crate::ids::lemma_id_after_many_add(
                start,
                total_frames(before),
                copy.frames@.len(),
            );
            assert forall|a: int| 0 <= a < grown.len() implies frames_numbered_from(
                (#[trigger] grown[a]).frames@,
                id_after_many(start, total_frames(grown.take(a))),
            ) by {
                if a < before.len() {
                    assert(grown.take(a) =~= before.take(a));
                    assert(grown[a] == before[a]);
                } else {
                    assert(grown.take(a) =~= before);
                }
            }
        }
        i += 1;
    }
    assert(animations@.take(i as int) =~= animations@);
    assert(animation_views(copies@) =~= animation_views(animations@));
    copies
}

} // verus!
