//! What is stored of each element of a hat: the settings that all kinds
//! share, and those of each kind.
use vstd::prelude::*;
use crate::animations::{
    animation_views, animations_numbered_from, duplicate_animations, total_frames, Animation,
    AnimationView,
};
use crate::ids::{id_after_many, IdSource};
use crate::path_utils::{HatPath, PathView};
use crate::ui_text::Translatable;

verus! {

/// The extension of an archive of a hat.
pub const HPP_EXTENSION: &'static str = "hatspp";

/// The extension of an archive of a hat, with its full stop.
pub const DOT_HPP_EXTENSION: &'static str = ".hatspp";

/// The speed that a flying pet is meant to start with.
pub const DEFAULT_PET_SPEED: i32 = 10;

/// The distance that a new pet keeps.
pub const DEFAULT_PET_DISTANCE: i32 = 10;

/// The most pets, flying and walking together, that one hat may have.
pub const MAX_PETS: usize = 5;

/// The least width and height of a frame.
pub const MIN_FRAME_SIZE: i32 = 32;

/// The greatest width and height of a frame.
pub const MAX_FRAME_SIZE: i32 = 64;

/// The kind of an element of a hat.
#[derive(Copy, Clone, Debug, PartialEq, Eq, Hash, Structural)]
pub enum HatType {
    Wearable,
    Wings,
    Extra,
    FlyingPet,
    WalkingPet,
    Room,
}

impl Default for HatType {
    fn default() -> (kind: HatType)
        ensures
            kind == HatType::Wearable,
    {
        HatType::Wearable
    }
}

impl HatType {
    /// Whether the kind is one of the two kinds of pet.
    pub open spec fn is_pet(self) -> bool {
        self == HatType::FlyingPet || self == HatType::WalkingPet
    }
}

impl Translatable for HatType {
    open spec fn key(&self) -> Seq<char> {
        match self {
            HatType::Wearable => "Wearable"@,
            HatType::Wings => "Wings"@,
            HatType::Extra => "Extra"@,
            HatType::FlyingPet => "FlyingPet"@,
            HatType::WalkingPet => "WalkingPet"@,
            HatType::Room => "Room"@,
        }
    }

    fn translate_key(&self) -> (key: &str) {
        match self {
            HatType::Wearable => "Wearable",
            HatType::Wings => "Wings",
            HatType::Extra => "Extra",
            HatType::FlyingPet => "FlyingPet",
            HatType::WalkingPet => "WalkingPet",
            HatType::Room => "Room",
        }
    }
}

/// How the frame of a linked animation is chosen.
#[derive(Copy, Clone, PartialEq, Eq, Debug, Structural)]
pub enum LinkFrameState {
    Default,
    Saved,
    Inverted,
}

impl Default for LinkFrameState {
    fn default() -> (state: LinkFrameState)
        ensures
            state == LinkFrameState::Default,
    {
        LinkFrameState::Default
    }
}

/// A pair of whole numbers: a size or an offset, in pixels.
#[derive(Copy, Clone, PartialEq, Eq, Debug, Structural)]
pub struct IVec2 {
    pub x: i32,
    pub y: i32,
}

impl IVec2 {
    pub fn new(x: i32, y: i32) -> (v: IVec2)
        ensures
            v == (IVec2 { x, y }),
    {
        IVec2 { x, y }
    }

    /// The pair whose two numbers are both `v`.
    pub fn splat(v: i32) -> (pair: IVec2)
        ensures
            pair == (IVec2 { x: v, y: v }),
    {
        IVec2 { x: v, y: v }
    }
}

impl Default for IVec2 {
    fn default() -> (v: IVec2)
        ensures
            v == (IVec2 { x: 0, y: 0 }),
    {
        IVec2 { x: 0, y: 0 }
    }
}

/// The largest size that the image of an extra may have.
pub fn max_extra_hat_size() -> (size: IVec2)
    ensures
        size == (IVec2 { x: 97, y: 56 }),
{
    IVec2 { x: 97, y: 56 }
}

/// The view of a path that may be absent.
pub open spec fn path_view(path: Option<HatPath>) -> Option<PathView> {
    match path {
        Some(p) => Some(p@),
        None => None,
    }
}

/// A copy of a path that may be absent.
pub fn duplicate_path(path: &Option<HatPath>) -> (copy: Option<HatPath>)
    ensures
        path_view(copy) == path_view(*path),
{
    match path {
        Some(p) => Some(p.duplicate()),
        None => None,
    }
}

/// The settings that every kind of element has: its kind, the size of one
/// cell of its sprite sheet, and where its image and its script lie below
/// the root of the hat.
#[derive(Debug)]
pub struct HatBaseData {
    pub hat_type: HatType,
    pub frame_size: IVec2,
    pub local_image_path: Option<HatPath>,
    pub local_script_path: Option<HatPath>,
}

/// The shared settings as a mathematical value.
pub struct HatBaseView {
    pub hat_type: HatType,
    pub frame_size: IVec2,
    pub local_image_path: Option<PathView>,
    pub local_script_path: Option<PathView>,
}

impl View for HatBaseData {
    type V = HatBaseView;

    open spec fn view(&self) -> HatBaseView {
        HatBaseView {
            hat_type: self.hat_type,
            frame_size: self.frame_size,
            local_image_path: path_view(self.local_image_path),
            local_script_path: path_view(self.local_script_path),
        }
    }
}

impl HatBaseData {
    /// The settings of a new element of the given kind: the smallest cell and
    /// no paths.
    pub fn of_kind(hat_type: HatType) -> (base: HatBaseData)
        ensures
            base@ == base_of_kind(hat_type),
    {
        HatBaseData {
            hat_type,
            frame_size: IVec2::splat(MIN_FRAME_SIZE),
            local_image_path: None,
            local_script_path: None,
        }
    }

    pub fn duplicate(&self) -> (copy: HatBaseData)
        ensures
            copy@ == self@,
    {
        HatBaseData {
            hat_type: self.hat_type,
            frame_size: self.frame_size,
            local_image_path: duplicate_path(&self.local_image_path),
            local_script_path: duplicate_path(&self.local_script_path),
        }
    }

    /// Whether both sides of a cell are at least [`MIN_FRAME_SIZE`] and at
    /// most [`MAX_FRAME_SIZE`].
    pub open spec fn frame_size_in_range(&self) -> bool {
        size_in_range(self.frame_size)
    }

    pub fn has_frame_size_in_range(&self) -> (ok: bool)
        ensures
            ok == self.frame_size_in_range(),
    {
        MIN_FRAME_SIZE <= self.frame_size.x && self.frame_size.x <= MAX_FRAME_SIZE
            && MIN_FRAME_SIZE <= self.frame_size.y && self.frame_size.y <= MAX_FRAME_SIZE
    }
}

/// Whether both numbers of a size of a frame are at least
/// [`MIN_FRAME_SIZE`] and at most [`MAX_FRAME_SIZE`].
pub open spec fn size_in_range(size: IVec2) -> bool {
    &&& MIN_FRAME_SIZE <= size.x <= MAX_FRAME_SIZE
    &&& MIN_FRAME_SIZE <= size.y <= MAX_FRAME_SIZE
}

/// Tells whether a size of a frame is in range.
pub fn is_size_in_range(size: IVec2) -> (ok: bool)
    ensures
        ok == size_in_range(size),
{
    MIN_FRAME_SIZE <= size.x && size.x <= MAX_FRAME_SIZE && MIN_FRAME_SIZE <= size.y && size.y
        <= MAX_FRAME_SIZE
}

/// The settings of a new element of the given kind.
pub open spec fn base_of_kind(hat_type: HatType) -> HatBaseView {
    HatBaseView {
        hat_type,
        frame_size: IVec2 { x: MIN_FRAME_SIZE, y: MIN_FRAME_SIZE },
        local_image_path: None,
        local_script_path: None,
    }
}

impl Default for HatBaseData {
    fn default() -> (base: HatBaseData)
        ensures
            base@ == (HatBaseView {
                hat_type: HatType::Wearable,
                frame_size: IVec2 { x: 0, y: 0 },
                local_image_path: None,
                local_script_path: None,
            }),
    {
        HatBaseData {
            hat_type: HatType::Wearable,
            frame_size: IVec2 { x: 0, y: 0 },
            local_image_path: None,
            local_script_path: None,
        }
    }
}

/// What the two kinds of pet share.
#[derive(Debug, Clone, Copy, PartialEq, Eq, Structural)]
pub struct PetBaseData {
    pub distance: i32,
    pub flipped: bool,
}

impl Default for PetBaseData {
    fn default() -> (pet: PetBaseData)
        ensures
            pet == (PetBaseData { distance: DEFAULT_PET_DISTANCE, flipped: false }),
    {
        PetBaseData { distance: DEFAULT_PET_DISTANCE, flipped: false }
    }
}

/// The settings of a wearable.
#[derive(Debug)]
pub struct WearableData {
    pub base: HatBaseData,
    pub strapped_on: bool,
    pub animations: Vec<Animation>,
}

/// The settings of a wearable as a mathematical value.
pub struct WearableView {
    pub base: HatBaseView,
    pub strapped_on: bool,
    pub animations: Seq<AnimationView>,
}

impl View for WearableData {
    type V = WearableView;

    open spec fn view(&self) -> WearableView {
        WearableView {
            base: self.base@,
            strapped_on: self.strapped_on,
            animations: animation_views(self.animations@),
        }
    }
}

impl Default for WearableData {
    fn default() -> (data: WearableData)
        ensures
            data@ == (WearableView {
                base: base_of_kind(HatType::Wearable),
                strapped_on: false,
                animations: Seq::empty(),
            }),
    {
        let data = WearableData {
            base: HatBaseData::of_kind(HatType::Wearable),
            strapped_on: false,
            animations: Vec::new(),
        };
        assert(data@.animations =~= Seq::empty());
        data
    }
}

/// The settings of a pair of wings. The delay is in milliseconds.
#[derive(Debug)]
pub struct WingsData {
    pub general_offset: IVec2,
    pub crouch_offset: IVec2,
    pub ragdoll_offset: IVec2,
    pub slide_offset: IVec2,
    pub net_offset: IVec2,
    pub glide_frame: i32,
    pub idle_frame: i32,
    pub delay: i32,
    pub changes_animations: bool,
    pub base: HatBaseData,
    pub animations: Vec<Animation>,
}

/// The settings of a pair of wings as a mathematical value.
pub struct WingsView {
    pub general_offset: IVec2,
    pub crouch_offset: IVec2,
    pub ragdoll_offset: IVec2,
    pub slide_offset: IVec2,
    pub net_offset: IVec2,
    pub glide_frame: i32,
    pub idle_frame: i32,
    pub delay: i32,
    pub changes_animations: bool,
    pub base: HatBaseView,
    pub animations: Seq<AnimationView>,
}

impl View for WingsData {
    type V = WingsView;

    open spec fn view(&self) -> WingsView {
        WingsView {
            general_offset: self.general_offset,
            crouch_offset: self.crouch_offset,
            ragdoll_offset: self.ragdoll_offset,
            slide_offset: self.slide_offset,
            net_offset: self.net_offset,
            glide_frame: self.glide_frame,
            idle_frame: self.idle_frame,
            delay: self.delay,
            changes_animations: self.changes_animations,
            base: self.base@,
            animations: animation_views(self.animations@),
        }
    }
}

impl Default for WingsData {
    fn default() -> (data: WingsData)
        ensures
            data@ == (WingsView {
                general_offset: IVec2 { x: 0, y: 0 },
                crouch_offset: IVec2 { x: 0, y: 0 },
                ragdoll_offset: IVec2 { x: 0, y: 0 },
                slide_offset: IVec2 { x: 0, y: 0 },
                net_offset: IVec2 { x: 0, y: 0 },
                glide_frame: 0,
                idle_frame: 0,
                delay: 0,
                changes_animations: false,
                base: base_of_kind(HatType::Wings),
                animations: Seq::empty(),
            }),
    {
        let data = WingsData {
            general_offset: IVec2::default(),
            crouch_offset: IVec2::default(),
            ragdoll_offset: IVec2::default(),
            slide_offset: IVec2::default(),
            net_offset: IVec2::default(),
            glide_frame: 0,
            idle_frame: 0,
            delay: 0,
            changes_animations: false,
            base: HatBaseData::of_kind(HatType::Wings),
            animations: Vec::new(),
        };
        assert(data@.animations =~= Seq::empty());
        data
    }
}

/// The settings of a flying pet.
#[derive(Debug)]
pub struct FlyingPetData {
    pub base: HatBaseData,
    pub pet_base: PetBaseData,
    pub animations: Vec<Animation>,
    pub speed: i32,
}

/// The settings of a flying pet as a mathematical value.
pub struct FlyingPetView {
    pub base: HatBaseView,
    pub pet_base: PetBaseData,
    pub animations: Seq<AnimationView>,
    pub speed: i32,
}

impl View for FlyingPetData {
    type V = FlyingPetView;

    open spec fn view(&self) -> FlyingPetView {
        FlyingPetView {
            base: self.base@,
            pet_base: self.pet_base,
            animations: animation_views(self.animations@),
            speed: self.speed,
        }
    }
}

impl Default for FlyingPetData {
    fn default() -> (data: FlyingPetData)
        ensures
            data@ == (FlyingPetView {
                base: base_of_kind(HatType::FlyingPet),
                pet_base: PetBaseData { distance: DEFAULT_PET_DISTANCE, flipped: false },
                animations: Seq::empty(),
                speed: 0,
            }),
    {
        let data = FlyingPetData {
            base: HatBaseData::of_kind(HatType::FlyingPet),
            pet_base: PetBaseData::default(),
            speed: 0,
            animations: Vec::new(),
        };
        assert(data@.animations =~= Seq::empty());
        data
    }
}

/// The settings of a walking pet.
#[derive(Debug)]
pub struct WalkingPetData {
    pub base: HatBaseData,
    pub pet_base: PetBaseData,
    pub animations: Vec<Animation>,
}

/// The settings of a walking pet as a mathematical value.
pub struct WalkingPetView {
    pub base: HatBaseView,
    pub pet_base: PetBaseData,
    pub animations: Seq<AnimationView>,
}

impl View for WalkingPetData {
    type V = WalkingPetView;

    open spec fn view(&self) -> WalkingPetView {
        WalkingPetView {
            base: self.base@,
            pet_base: self.pet_base,
            animations: animation_views(self.animations@),
        }
    }
}

impl Default for WalkingPetData {
    fn default() -> (data: WalkingPetData)
        ensures
            data@ == (WalkingPetView {
                base: base_of_kind(HatType::WalkingPet),
                pet_base: PetBaseData { distance: DEFAULT_PET_DISTANCE, flipped: false },
                animations: Seq::empty(),
            }),
    {
        let data = WalkingPetData {
            base: HatBaseData::of_kind(HatType::WalkingPet),
            pet_base: PetBaseData::default(),
            animations: Vec::new(),
        };
        assert(data@.animations =~= Seq::empty());
        data
    }
}

/// The settings of an extra: it has no animations.
#[derive(Debug)]
pub struct ExtraHatData {
    pub base: HatBaseData,
}

/// The settings of an extra as a mathematical value.
pub struct ExtraHatView {
    pub base: HatBaseView,
}

impl View for ExtraHatData {
    type V = ExtraHatView;

    open spec fn view(&self) -> ExtraHatView {
        ExtraHatView { base: self.base@ }
    }
}

impl Default for ExtraHatData {
    fn default() -> (data: ExtraHatData)
        ensures
            data@ == (ExtraHatView { base: base_of_kind(HatType::Extra) }),
    {
        ExtraHatData { base: HatBaseData::of_kind(HatType::Extra) }
    }
}

/// The settings of one element, of whichever kind.
#[derive(Debug)]
pub enum HatElementData {
    Wearable(WearableData),
    Wings(WingsData),
    Extra(ExtraHatData),
    FlyingPet(FlyingPetData),
    WalkingPet(WalkingPetData),
}

/// The settings of one element as a mathematical value.
pub enum HatElementView {
    Wearable(WearableView),
    Wings(WingsView),
    Extra(ExtraHatView),
    FlyingPet(FlyingPetView),
    WalkingPet(WalkingPetView),
}

impl View for HatElementData {
    type V = HatElementView;

    open spec fn view(&self) -> HatElementView {
        match self {
            HatElementData::Wearable(d) => HatElementView::Wearable(d@),
            HatElementData::Wings(d) => HatElementView::Wings(d@),
            HatElementData::Extra(d) => HatElementView::Extra(d@),
            HatElementData::FlyingPet(d) => HatElementView::FlyingPet(d@),
            HatElementData::WalkingPet(d) => HatElementView::WalkingPet(d@),
        }
    }
}

impl HatElementData {
    /// The shared settings of the element.
    pub open spec fn base_data(&self) -> HatBaseData {
        match self {
            HatElementData::Wearable(d) => d.base,
            HatElementData::Wings(d) => d.base,
            HatElementData::Extra(d) => d.base,
            HatElementData::FlyingPet(d) => d.base,
            HatElementData::WalkingPet(d) => d.base,
        }
    }

    /// The element with other shared settings.
    pub open spec fn with_base_data(self, base: HatBaseData) -> HatElementData {
        match self {
            HatElementData::Wearable(d) => HatElementData::Wearable(WearableData { base, ..d }),
            HatElementData::Wings(d) => HatElementData::Wings(WingsData { base, ..d }),
            HatElementData::Extra(d) => HatElementData::Extra(ExtraHatData { base }),
            HatElementData::FlyingPet(d) => HatElementData::FlyingPet(FlyingPetData { base, ..d }),
            HatElementData::WalkingPet(d) => HatElementData::WalkingPet(
                WalkingPetData { base, ..d },
            ),
        }
    }

    /// The animations of the element; an extra has none.
    pub open spec fn animation_list(&self) -> Option<Vec<Animation>> {
        match self {
            HatElementData::Wearable(d) => Some(d.animations),
            HatElementData::Wings(d) => Some(d.animations),
            HatElementData::Extra(d) => None,
            HatElementData::FlyingPet(d) => Some(d.animations),
            HatElementData::WalkingPet(d) => Some(d.animations),
        }
    }

    pub fn base(&self) -> (base: &HatBaseData)
        ensures
            *base == self.base_data(),
    {
        match self {
            HatElementData::Wearable(wearable_data) => &wearable_data.base,
            HatElementData::Wings(wings_data) => &wings_data.base,
            HatElementData::Extra(extra_hat_data) => &extra_hat_data.base,
            HatElementData::FlyingPet(flying_pet_data) => &flying_pet_data.base,
            HatElementData::WalkingPet(walking_pet_data) => &walking_pet_data.base,
        }
    }

    pub fn base_mut(&mut self) -> (base: &mut HatBaseData)
        ensures
            *base == old(self).base_data(),
            *final(self) == old(self).with_base_data(*final(base)),
    {
        match self {
            HatElementData::Wearable(wearable_data) => &mut wearable_data.base,
            HatElementData::Wings(wings_data) => &mut wings_data.base,
            HatElementData::Extra(extra_hat_data) => &mut extra_hat_data.base,
            HatElementData::FlyingPet(flying_pet_data) => &mut flying_pet_data.base,
            HatElementData::WalkingPet(walking_pet_data) => &mut walking_pet_data.base,
        }
    }

    /// Tells whether the kind that the shared settings name is the kind
    /// that the shape of the settings stands for.
    pub fn kind_agrees(&self) -> (agrees: bool)
        ensures
            agrees == self@.kind_matches(),
    {
        match self {
            HatElementData::Wearable(d) => d.base.hat_type == HatType::Wearable,
            HatElementData::Wings(d) => d.base.hat_type == HatType::Wings,
            HatElementData::Extra(d) => d.base.hat_type == HatType::Extra,
            HatElementData::FlyingPet(d) => d.base.hat_type == HatType::FlyingPet,
            HatElementData::WalkingPet(d) => d.base.hat_type == HatType::WalkingPet,
        }
    }

    /// The animations of the element; an extra has none.
    pub fn animations(&self) -> (animations: Option<&Vec<Animation>>)
        ensures
            animations is Some <==> self.animation_list() is Some,
            animations matches Some(list) ==> Some(*list) == self.animation_list(),
    {
        match self {
            HatElementData::Wearable(d) => Some(&d.animations),
            HatElementData::Wings(d) => Some(&d.animations),
            HatElementData::Extra(_) => None,
            HatElementData::FlyingPet(d) => Some(&d.animations),
            HatElementData::WalkingPet(d) => Some(&d.animations),
        }
    }
}

impl WearableData {
    /// A copy with the same settings; the frames of its animations get fresh
    /// identities.
    pub fn duplicate(&self, ids: &mut IdSource) -> (copy: WearableData)
        ensures
            copy@ == self@,
            animations_numbered_from(copy.animations@, old(ids).next_frame()),
            final(ids).next_frame() == id_after_many(
                old(ids).next_frame(),
                total_frames(self.animations@),
            ),
            final(ids).next_element() == old(ids).next_element(),
            final(ids).next_hat() == old(ids).next_hat(),
    {
        WearableData {
            base: self.base.duplicate(),
            strapped_on: self.strapped_on,
            animations: duplicate_animations(&self.animations, ids),
        }
    }
}

impl WingsData {
    /// A copy with the same settings; the frames of its animations get fresh
    /// identities.
    pub fn duplicate(&self, ids: &mut IdSource) -> (copy: WingsData)
        ensures
            copy@ == self@,
            animations_numbered_from(copy.animations@, old(ids).next_frame()),
            final(ids).next_frame() == id_after_many(
                old(ids).next_frame(),
                total_frames(self.animations@),
            ),
            final(ids).next_element() == old(ids).next_element(),
            final(ids).next_hat() == old(ids).next_hat(),
    {
        WingsData {
            general_offset: self.general_offset,
            crouch_offset: self.crouch_offset,
            ragdoll_offset: self.ragdoll_offset,
            slide_offset: self.slide_offset,
            net_offset: self.net_offset,
            glide_frame: self.glide_frame,
            idle_frame: self.idle_frame,
            delay: self.delay,
            changes_animations: self.changes_animations,
            base: self.base.duplicate(),
            animations: duplicate_animations(&self.animations, ids),
        }
    }
}

impl FlyingPetData {
    /// A copy with the same settings; the frames of its animations get fresh
    /// identities.
    pub fn duplicate(&self, ids: &mut IdSource) -> (copy: FlyingPetData)
        ensures
            copy@ == self@,
            animations_numbered_from(copy.animations@, old(ids).next_frame()),
            final(ids).next_frame() == id_after_many(
                old(ids).next_frame(),
                total_frames(self.animations@),
            ),
            final(ids).next_element() == old(ids).next_element(),
            final(ids).next_hat() == old(ids).next_hat(),
    {
        FlyingPetData {
            base: self.base.duplicate(),
            pet_base: self.pet_base,
            animations: duplicate_animations(&self.animations, ids),
            speed: self.speed,
        }
    }
}

impl WalkingPetData {
    /// A copy with the same settings; the frames of its animations get fresh
    /// identities.
    pub fn duplicate(&self, ids: &mut IdSource) -> (copy: WalkingPetData)
        ensures
            copy@ == self@,
            animations_numbered_from(copy.animations@, old(ids).next_frame()),
            final(ids).next_frame() == id_after_many(
                old(ids).next_frame(),
                total_frames(self.animations@),
            ),
            final(ids).next_element() == old(ids).next_element(),
            final(ids).next_hat() == old(ids).next_hat(),
    {
        WalkingPetData {
            base: self.base.duplicate(),
            pet_base: self.pet_base,
            animations: duplicate_animations(&self.animations, ids),
        }
    }
}

impl ExtraHatData {
    /// A copy with the same settings.
    pub fn duplicate(&self) -> (copy: ExtraHatData)
        ensures
            copy@ == self@,
    {
        ExtraHatData { base: self.base.duplicate() }
    }
}

/// The shared settings of an element are those of its view, and the shape
/// of the settings is that of the view.
pub proof fn lemma_base_view(data: HatElementData)
    ensures
        data.base_data()@ == data@.base(),
        data is Wearable <==> data@.variant() == HatType::Wearable,
        data is Wings <==> data@.variant() == HatType::Wings,
        data is Extra <==> data@.variant() == HatType::Extra,
        data is FlyingPet <==> data@.variant() == HatType::FlyingPet,
        data is WalkingPet <==> data@.variant() == HatType::WalkingPet,
        data@.variant() != HatType::Room,
{
}

/// Whether `copy` has the settings of `source`, and the frames of its
/// animations carry consecutive identities that start at `start`.
pub open spec fn is_fresh_copy(copy: HatElementData, source: HatElementData, start: u32) -> bool {
    &&& copy@ == source@
    &&& copy.animation_list() matches Some(list) ==> animations_numbered_from(list@, start)
}

/// The settings of a new element of the given kind, as a view. A room is no
/// element.
pub open spec fn default_view(kind: HatType) -> Option<HatElementView> {
    match kind {
        HatType::Wearable => Some(
            HatElementView::Wearable(
                WearableView {
                    base: base_of_kind(HatType::Wearable),
                    strapped_on: false,
                    animations: Seq::empty(),
                },
            ),
        ),
        HatType::Wings => Some(
            HatElementView::Wings(
                WingsView {
                    general_offset: IVec2 { x: 0, y: 0 },
                    crouch_offset: IVec2 { x: 0, y: 0 },
                    ragdoll_offset: IVec2 { x: 0, y: 0 },
                    slide_offset: IVec2 { x: 0, y: 0 },
                    net_offset: IVec2 { x: 0, y: 0 },
                    glide_frame: 0,
                    idle_frame: 0,
                    delay: 0,
                    changes_animations: false,
                    base: base_of_kind(HatType::Wings),
                    animations: Seq::empty(),
                },
            ),
        ),
        HatType::Extra => Some(
            HatElementView::Extra(ExtraHatView { base: base_of_kind(HatType::Extra) }),
        ),
        HatType::FlyingPet => Some(
            HatElementView::FlyingPet(
                FlyingPetView {
                    base: base_of_kind(HatType::FlyingPet),
                    pet_base: PetBaseData { distance: DEFAULT_PET_DISTANCE, flipped: false },
                    animations: Seq::empty(),
                    speed: 0,
                },
            ),
        ),
        HatType::WalkingPet => Some(
            HatElementView::WalkingPet(
                WalkingPetView {
                    base: base_of_kind(HatType::WalkingPet),
                    pet_base: PetBaseData { distance: DEFAULT_PET_DISTANCE, flipped: false },
                    animations: Seq::empty(),
                },
            ),
        ),
        HatType::Room => None,
    }
}

impl HatElementData {
    /// The settings of a new element of the given kind. A room is no
    /// element.
    pub fn default_of(kind: HatType) -> (data: Option<HatElementData>)
        ensures
            data is Some <==> default_view(kind) is Some,
            data matches Some(d) ==> Some(d@) == default_view(kind),
    {
        match kind {
            HatType::Wearable => Some(HatElementData::Wearable(WearableData::default())),
            HatType::Wings => Some(HatElementData::Wings(WingsData::default())),
            HatType::Extra => Some(HatElementData::Extra(ExtraHatData::default())),
            HatType::FlyingPet => Some(HatElementData::FlyingPet(FlyingPetData::default())),
            HatType::WalkingPet => Some(HatElementData::WalkingPet(WalkingPetData::default())),
            HatType::Room => None,
        }
    }

    /// How many frames the animations of the element have, all together.
    pub open spec fn frame_count(&self) -> nat {
        match self.animation_list() {
            Some(list) => total_frames(list@),
            None => 0,
        }
    }

    /// A copy with the same settings; the frames of its animations get fresh
    /// identities.
    pub fn duplicate(&self, ids: &mut IdSource) -> (copy: HatElementData)
        ensures
            is_fresh_copy(copy, *self, old(ids).next_frame()),
            final(ids).next_frame() == id_after_many(old(ids).next_frame(), self.frame_count()),
            final(ids).next_element() == old(ids).next_element(),
            final(ids).next_hat() == old(ids).next_hat(),
    {
        match self {
            HatElementData::Wearable(d) => HatElementData::Wearable(d.duplicate(ids)),
            HatElementData::Wings(d) => HatElementData::Wings(d.duplicate(ids)),
            HatElementData::Extra(d) => HatElementData::Extra(d.duplicate()),
            HatElementData::FlyingPet(d) => HatElementData::FlyingPet(d.duplicate(ids)),
            HatElementData::WalkingPet(d) => HatElementData::WalkingPet(d.duplicate(ids)),
        }
    }
}

/// A borrowed view of the settings of one element, of whichever kind.
#[derive(Debug, Clone, Copy)]
pub enum HatElementDataRef<'a> {
    Wearable(&'a WearableData),
    Wings(&'a WingsData),
    Extra(&'a ExtraHatData),
    FlyingPet(&'a FlyingPetData),
    WalkingPet(&'a WalkingPetData),
}

impl<'a> HatElementDataRef<'a> {
    /// The settings that are borrowed.
    pub open spec fn target(&self) -> HatElementData {
        match self {
            HatElementDataRef::Wearable(d) => HatElementData::Wearable(**d),
            HatElementDataRef::Wings(d) => HatElementData::Wings(**d),
            HatElementDataRef::Extra(d) => HatElementData::Extra(**d),
            HatElementDataRef::FlyingPet(d) => HatElementData::FlyingPet(**d),
            HatElementDataRef::WalkingPet(d) => HatElementData::WalkingPet(**d),
        }
    }

    /// The borrowed settings of an element.
    pub fn of(data: &'a HatElementData) -> (borrowed: HatElementDataRef<'a>)
        ensures
            borrowed.target() == *data,
    {
        match data {
            HatElementData::Wearable(d) => HatElementDataRef::Wearable(d),
            HatElementData::Wings(d) => HatElementDataRef::Wings(d),
            HatElementData::Extra(d) => HatElementDataRef::Extra(d),
            HatElementData::FlyingPet(d) => HatElementDataRef::FlyingPet(d),
            HatElementData::WalkingPet(d) => HatElementDataRef::WalkingPet(d),
        }
    }

    /// An owned copy of the borrowed settings; the frames of its animations
    /// get fresh identities.
    pub fn to_hat_element_data(&self, ids: &mut IdSource) -> (copy: HatElementData)
        ensures
            is_fresh_copy(copy, self.target(), old(ids).next_frame()),
            final(ids).next_frame() == id_after_many(
                old(ids).next_frame(),
                self.target().frame_count(),
            ),
            final(ids).next_element() == old(ids).next_element(),
            final(ids).next_hat() == old(ids).next_hat(),
    {
        match self {
            HatElementDataRef::Wearable(wearable_data) => {
                HatElementData::Wearable(wearable_data.duplicate(ids))
            },
            HatElementDataRef::Wings(wings_data) => HatElementData::Wings(wings_data.duplicate(ids)),
            HatElementDataRef::Extra(extra_hat_data) => {
                HatElementData::Extra(extra_hat_data.duplicate())
            },
            HatElementDataRef::FlyingPet(flying_pet_data) => {
                HatElementData::FlyingPet(flying_pet_data.duplicate(ids))
            },
            HatElementDataRef::WalkingPet(walking_pet_data) => {
                HatElementData::WalkingPet(walking_pet_data.duplicate(ids))
            },
        }
    }
}

/// The views of a list of elements, in order.
pub open spec fn element_views(elements: Seq<HatElementData>) -> Seq<HatElementView> {
    Seq::new(elements.len(), |i: int| elements[i]@)
}

/// What is stored of a hat: the settings of its elements, and its name.
#[derive(Debug)]
pub struct HatData {
    pub elements: Vec<HatElementData>,
    pub name: String,
}

/// What is stored of a hat as a mathematical value.
pub struct HatDataView {
    pub elements: Seq<HatElementView>,
    pub name: Seq<char>,
}

impl View for HatData {
    type V = HatDataView;

    open spec fn view(&self) -> HatDataView {
        HatDataView { elements: element_views(self.elements@), name: self.name@ }
    }
}

impl HatData {
    /// The data of a hat of the given name that has no elements.
    pub fn new(name: String) -> (data: HatData)
        ensures
            data@ == (HatDataView { elements: Seq::empty(), name: name@ }),
            data.elements@ == Seq::<HatElementData>::empty(),
            data.name == name,
    {
        let data = HatData { elements: Vec::new(), name };
        assert(data@.elements =~= Seq::empty());
        data
    }
}

impl HatElementView {
    /// The shared settings of the element.
    pub open spec fn base(self) -> HatBaseView {
        match self {
            HatElementView::Wearable(d) => d.base,
            HatElementView::Wings(d) => d.base,
            HatElementView::Extra(d) => d.base,
            HatElementView::FlyingPet(d) => d.base,
            HatElementView::WalkingPet(d) => d.base,
        }
    }

    /// The element with other shared settings.
    pub open spec fn with_base(self, base: HatBaseView) -> HatElementView {
        match self {
            HatElementView::Wearable(d) => HatElementView::Wearable(WearableView { base, ..d }),
            HatElementView::Wings(d) => HatElementView::Wings(WingsView { base, ..d }),
            HatElementView::Extra(d) => HatElementView::Extra(ExtraHatView { base }),
            HatElementView::FlyingPet(d) => HatElementView::FlyingPet(FlyingPetView { base, ..d }),
            HatElementView::WalkingPet(d) => HatElementView::WalkingPet(
                WalkingPetView { base, ..d },
            ),
        }
    }

    /// The animations of the element; an extra has none.
    pub open spec fn animations(self) -> Option<Seq<AnimationView>> {
        match self {
            HatElementView::Wearable(d) => Some(d.animations),
            HatElementView::Wings(d) => Some(d.animations),
            HatElementView::Extra(d) => None,
            HatElementView::FlyingPet(d) => Some(d.animations),
            HatElementView::WalkingPet(d) => Some(d.animations),
        }
    }

    /// The kind that the shape of the settings stands for.
    pub open spec fn variant(self) -> HatType {
        match self {
            HatElementView::Wearable(_) => HatType::Wearable,
            HatElementView::Wings(_) => HatType::Wings,
            HatElementView::Extra(_) => HatType::Extra,
            HatElementView::FlyingPet(_) => HatType::FlyingPet,
            HatElementView::WalkingPet(_) => HatType::WalkingPet,
        }
    }

    /// Whether the kind written in the shared settings is the kind that the
    /// shape of the settings stands for.
    pub open spec fn kind_matches(self) -> bool {
        self.base().hat_type == self.variant()
    }
}

} // verus!
