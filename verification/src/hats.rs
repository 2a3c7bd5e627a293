//! The elements of a hat, and the hat that owns them: what it accepts, what
//! it holds, and what is stored of it.
use vstd::prelude::*;
use crate::animations::{Animation, AnimationView};
use crate::hats_data::{
    is_size_in_range, size_in_range, HatBaseData, HatBaseView, HatData, HatElementData,
    HatElementDataRef, HatElementView, HatType, IVec2, MAX_PETS,
};
use crate::ids::{id_after, id_after_many, IdSource};
use crate::image::{extracted_animations, is_sheet_of, AsepriteData, Bitmap, Image};
use crate::path_utils::{
    joined, joined_parts, local_path_of, path_text, HatPath, LocalPath, LocalPathError, PathView,
};
use crate::text::{decimal, push_decimal};

verus! {

/// Identity of an element within one run of the program.
#[derive(Clone, Copy, Debug, Hash, PartialEq, Eq, Default, Structural)]
pub struct HatElementId(pub u32);

/// Draws a fresh element identity.
pub fn hat_element_id(ids: &mut IdSource) -> (id: HatElementId)
    ensures
        id.0 == old(ids).next_element(),
        final(ids).next_element() == id_after(old(ids).next_element()),
        final(ids).next_frame() == old(ids).next_frame(),
        final(ids).next_hat() == old(ids).next_hat(),
{
    HatElementId(ids.take_element())
}

/// Identity of a hat within one run of the program.
#[derive(Debug, Clone, Copy, Hash, Default, PartialEq, Eq, Structural)]
pub struct HatId(pub u32);

/// Draws a fresh hat identity.
pub fn hat_id(ids: &mut IdSource) -> (id: HatId)
    ensures
        id.0 == old(ids).next_hat(),
        final(ids).next_hat() == id_after(old(ids).next_hat()),
        final(ids).next_frame() == old(ids).next_frame(),
        final(ids).next_element() == old(ids).next_element(),
{
    HatId(ids.take_hat())
}

/// How a hat is stored: as a folder of loose files, or as one archive file.
#[derive(Clone, Copy, Debug, PartialEq, Eq, Structural)]
pub enum HatSaveType {
    Folder,
    File,
}

/// Something that may be a pet.
pub trait IsPet {
    spec fn pet(&self) -> bool;

    fn is_pet(&self) -> (pet: bool)
        ensures
            pet == self.pet(),
    ;
}

/// One element of a hat as it lives in the editor: its settings, its image,
/// and its identity.
#[derive(Debug)]
pub struct HatElement {
    data: HatElementData,
    bitmap: Bitmap,
    id: HatElementId,
}

/// The settings of an element that was made from `data` and an image: what
/// an authored file says replaces the size of a frame and, unless the
/// element is an extra, the animations.
pub open spec fn loaded_view(
    data: HatElementView,
    imported: Option<(IVec2, Seq<AnimationView>)>,
) -> HatElementView {
    match imported {
        None => data,
        Some((frame_size, animations)) => {
            let base = HatBaseView { frame_size, ..data.base() };
            match data {
                HatElementView::Wearable(d) => HatElementView::Wearable(
                    crate::hats_data::WearableView { base, animations, ..d },
                ),
                HatElementView::Wings(d) => HatElementView::Wings(
                    crate::hats_data::WingsView { base, animations, ..d },
                ),
                HatElementView::Extra(d) => HatElementView::Extra(
                    crate::hats_data::ExtraHatView { base },
                ),
                HatElementView::FlyingPet(d) => HatElementView::FlyingPet(
                    crate::hats_data::FlyingPetView { base, animations, ..d },
                ),
                HatElementView::WalkingPet(d) => HatElementView::WalkingPet(
                    crate::hats_data::WalkingPetView { base, animations, ..d },
                ),
            }
        },
    }
}

/// What an image says of an element: an authored file gives the size of its
/// frames and the animations of its tags, a plain bitmap nothing.
pub open spec fn import_of(image: Image) -> Option<(IVec2, Seq<AnimationView>)> {
    match image {
        Image::Bitmap(_) => None,
        Image::Aseprite(sheet, _) => Some(
            (
                IVec2 { x: sheet.view_width() as i32, y: sheet.view_height() as i32 },
                extracted_animations(sheet.view_frames(), sheet.view_tags()),
            ),
        ),
    }
}

/// Whether `element` is the element that is made from `data` and `image`,
/// with the identities drawn from `before`, which leaves `after`. What an
/// authored file says stands in the settings, and the image of the element
/// is the bitmap, or the sprite sheet of the authored file.
pub open spec fn is_element_of(
    element: HatElement,
    data: HatElementData,
    image: Image,
    before: IdSource,
    after: IdSource,
) -> bool {
    &&& element.valid()
    &&& element.view_data()@ == loaded_view(data@, import_of(image))
    &&& image matches Image::Bitmap(bitmap) ==> element.view_data() == data
        && element.view_bitmap() == bitmap
    &&& image matches Image::Aseprite(sheet, _) ==> is_sheet_of(element.view_bitmap(), sheet)
    &&& image is Aseprite ==> (element.view_data().animation_list() matches Some(list)
        ==> crate::animations::animations_numbered_from(list@, before.next_frame()))
    &&& after.next_frame() == id_after_many(
        before.next_frame(),
        match import_of(image) {
            Some((_, animations)) => crate::animations::frames_in(animations),
            None => 0,
        },
    )
    &&& element.view_id().0 == before.next_element()
    &&& after.next_element() == id_after(before.next_element())
}

/// Why settings and an image make no element.
#[derive(Debug, Clone, Copy, PartialEq, Eq, Structural)]
pub enum ElementError {
    /// A room is no element.
    NotAnElement,
    /// The kind that the settings name is not the kind that their shape
    /// stands for.
    KindMismatch,
    /// A frame would be less than 32 or more than 64 pixels wide or high.
    FrameSizeOutOfRange,
}

impl ElementError {
    pub open spec fn message_text(self) -> Seq<char> {
        match self {
            ElementError::NotAnElement => "a room is no element"@,
            ElementError::KindMismatch => "the settings name another kind than their own"@,
            ElementError::FrameSizeOutOfRange => {
                "a frame must be 32 to 64 pixels wide and high"@
            },
        }
    }

    /// The message that describes the error.
    pub fn message(&self) -> (text: &'static str)
        ensures
            text@ == self.message_text(),
    {
        match self {
            ElementError::NotAnElement => "a room is no element",
            ElementError::KindMismatch => "the settings name another kind than their own",
            ElementError::FrameSizeOutOfRange => "a frame must be 32 to 64 pixels wide and high",
        }
    }
}

/// What keeps settings with the given size of a frame from being those of
/// an element, if anything does.
pub open spec fn data_problem(data: HatElementView, frame_size: IVec2) -> Option<ElementError> {
    if !data.kind_matches() {
        Some(ElementError::KindMismatch)
    } else if !size_in_range(frame_size) {
        Some(ElementError::FrameSizeOutOfRange)
    } else {
        None
    }
}

/// The size of a frame of an element that is made from `data` and an image:
/// that of the frames of an authored file, and else the size that the
/// settings give.
pub open spec fn frame_size_after(data: HatElementView, image: Image) -> IVec2 {
    match import_of(image) {
        Some((frame_size, _)) => frame_size,
        None => data.base().frame_size,
    }
}

/// What keeps settings and an image from making an element, if anything
/// does.
pub open spec fn element_problem(data: HatElementView, image: Image) -> Option<ElementError> {
    data_problem(data, frame_size_after(data, image))
}

impl HatElement {
    #[verifier::type_invariant]
    spec fn well_formed(&self) -> bool {
        data_problem(self.data@, self.data.base_data().frame_size) is None
    }

    /// What holds of every element: the kind that its settings name is the
    /// kind that their shape stands for, and a frame is at least 32 and at
    /// most 64 pixels wide and high.
    pub open spec fn valid(&self) -> bool {
        &&& self.view_data()@.kind_matches()
        &&& self.view_data().base_data().frame_size_in_range()
    }

    pub closed spec fn view_data(&self) -> HatElementData {
        self.data
    }

    pub closed spec fn view_bitmap(&self) -> Bitmap {
        self.bitmap
    }

    pub closed spec fn view_id(&self) -> HatElementId {
        self.id
    }

    /// The kind that the settings of the element name.
    pub open spec fn kind(&self) -> HatType {
        self.view_data().base_data().hat_type
    }

    /// Whether a hat can have only one element of this shape: a wearable or
    /// a pair of wings.
    pub open spec fn unique(&self) -> bool {
        self.view_data() is Wearable || self.view_data() is Wings
    }

    /// An element with the given settings and the given image. What an
    /// authored file says replaces what the settings said before. There is
    /// no element where the settings name another kind than their shape
    /// stands for, or where a frame would be out of range; then nothing is
    /// drawn from `ids`. The element gets a fresh identity.
    pub fn load(data: HatElementData, image: Image, ids: &mut IdSource) -> (element: Result<
        HatElement,
        ElementError,
    >)
        ensures
            element is Ok <==> element_problem(data@, image) is None,
            element matches Err(e) ==> element_problem(data@, image) == Some(e),
            element is Err ==> final(ids).next_frame() == old(ids).next_frame() && final(
                ids).next_element() == old(ids).next_element(),
            element matches Ok(e) ==> is_element_of(e, data, image, *old(ids), *final(ids)),
            final(ids).next_hat() == old(ids).next_hat(),
    {
        if !data.kind_agrees() {
            return Err(ElementError::KindMismatch);
        }
        let frame_size = match &image {
            Image::Bitmap(_) => data.base().frame_size,
            Image::Aseprite(sheet, _) => IVec2::new(sheet.width() as i32, sheet.height() as i32),
        };
        proof {
            crate::hats_data::lemma_base_view(data);
        }
        if !is_size_in_range(frame_size) {
            return Err(ElementError::FrameSizeOutOfRange);
        }
        let (bitmap, aseprite_data) = image.to_bitmap_with_data(ids);
        proof {
            if aseprite_data is Some {
                crate::animations::lemma_frames_in_views(aseprite_data->0.animations@);
            }
        }
        let data = match aseprite_data {
            None => data,
            Some(imported) => {
                let AsepriteData { frame_size, animations } = imported;
                match data {
                    HatElementData::Wearable(mut d) => {
                        d.base.frame_size = frame_size;
                        d.animations = animations;
                        HatElementData::Wearable(d)
                    },
                    HatElementData::Wings(mut d) => {
                        d.base.frame_size = frame_size;
                        d.animations = animations;
                        HatElementData::Wings(d)
                    },
                    HatElementData::Extra(mut d) => {
                        d.base.frame_size = frame_size;
                        HatElementData::Extra(d)
                    },
                    HatElementData::FlyingPet(mut d) => {
                        d.base.frame_size = frame_size;
                        d.animations = animations;
                        HatElementData::FlyingPet(d)
                    },
                    HatElementData::WalkingPet(mut d) => {
                        d.base.frame_size = frame_size;
                        d.animations = animations;
                        HatElementData::WalkingPet(d)
                    },
                }
            },
        };
        proof {
            crate::hats_data::lemma_base_view(data);
        }
        Ok(HatElement { data, bitmap, id: hat_element_id(ids) })
    }

    /// A new element of the given kind with the given image: the settings
    /// are those of a new element, replaced by what an authored file says. A
    /// room is no element, and there is no element where a frame of an
    /// authored file is out of range; then nothing is drawn from `ids`.
    pub fn load_from_image(kind: HatType, image: Image, ids: &mut IdSource) -> (element: Result<
        HatElement,
        ElementError,
    >)
        ensures
            kind == HatType::Room ==> element == Err::<HatElement, ElementError>(
                ElementError::NotAnElement,
            ),
            kind != HatType::Room ==> (element is Ok <==> element_problem(
                crate::hats_data::default_view(kind)->0,
                image,
            ) is None),
            kind != HatType::Room ==> (element matches Err(e) ==> element_problem(
                crate::hats_data::default_view(kind)->0,
                image,
            ) == Some(e)),
            element is Err ==> final(ids).next_frame() == old(ids).next_frame() && final(
                ids).next_element() == old(ids).next_element(),
            element matches Ok(e) ==> e.valid() && e.view_data()@ == loaded_view(
                crate::hats_data::default_view(kind)->0,
                import_of(image),
            ) && e.view_id().0 == old(ids).next_element() && final(ids).next_element()
                == id_after(old(ids).next_element()),
            element matches Ok(e) ==> (image matches Image::Bitmap(bitmap) ==> e.view_bitmap()
                == bitmap),
            element matches Ok(e) ==> (image matches Image::Aseprite(sheet, _) ==> is_sheet_of(
                e.view_bitmap(),
                sheet,
            )),
            final(ids).next_hat() == old(ids).next_hat(),
    {
        match HatElementData::default_of(kind) {
            Some(data) => HatElement::load(data, image, ids),
            None => Err(ElementError::NotAnElement),
        }
    }

    /// Puts other settings in the place of those of the element, which
    /// keeps its image and its identity. Settings that name another kind
    /// than their shape stands for, or a frame out of range, are refused,
    /// and the element stays as it was.
    pub fn set_data(&mut self, data: HatElementData) -> (set: Result<(), ElementError>)
        ensures
            set is Ok <==> data_problem(data@, data@.base().frame_size) is None,
            set matches Err(e) ==> data_problem(data@, data@.base().frame_size) == Some(e),
            final(self).view_data() == if set is Ok {
                data
            } else {
                old(self).view_data()
            },
            final(self).view_bitmap() == old(self).view_bitmap(),
            final(self).view_id() == old(self).view_id(),
            final(self).valid(),
    {
        proof {
            use_type_invariant(&*self);
            crate::hats_data::lemma_base_view(data);
            crate::hats_data::lemma_base_view(self.data);
        }
        if !data.kind_agrees() {
            return Err(ElementError::KindMismatch);
        }
        if !is_size_in_range(data.base().frame_size) {
            return Err(ElementError::FrameSizeOutOfRange);
        }
        self.data = data;
        Ok(())
    }

    pub fn data(&self) -> (data: &HatElementData)
        ensures
            *data == self.view_data(),
            self.valid(),
    {
        proof {
            use_type_invariant(self);
            crate::hats_data::lemma_base_view(self.data);
        }
        &self.data
    }

    pub fn hat_element_data_ref(&self) -> (data: HatElementDataRef<'_>)
        ensures
            data.target() == self.view_data(),
    {
        HatElementDataRef::of(&self.data)
    }

    pub fn base(&self) -> (base: &HatBaseData)
        ensures
            *base == self.view_data().base_data(),
            base.frame_size_in_range(),
            self.valid(),
    {
        proof {
            use_type_invariant(self);
            crate::hats_data::lemma_base_view(self.data);
        }
        self.data.base()
    }

    pub fn bitmap(&self) -> (bitmap: &Bitmap)
        ensures
            *bitmap == self.view_bitmap(),
    {
        &self.bitmap
    }

    /// The animations of the element; an extra has none.
    pub fn animations(&self) -> (animations: Option<&Vec<Animation>>)
        ensures
            animations is Some <==> self.view_data().animation_list() is Some,
            animations matches Some(list) ==> Some(*list) == self.view_data().animation_list(),
    {
        self.data.animations()
    }

    pub fn id(&self) -> (id: HatElementId)
        ensures
            id == self.view_id(),
    {
        self.id
    }

    /// The path of the image of the element as it is stored with a hat in
    /// the folder `root`.
    pub fn stored_path(&self, root: &HatPath, save_type: HatSaveType) -> (path: Result<
        HatPath,
        GenDataError,
    >)
        ensures
            path is Ok <==> stored_image_path(*self, root@, save_type) is Ok,
            path matches Ok(p) ==> Ok::<PathView, GenDataError>(p@) == stored_image_path(
                *self,
                root@,
                save_type,
            ),
            path matches Err(e) ==> Err::<PathView, GenDataError>(e) == stored_image_path(
                *self,
                root@,
                save_type,
            ),
    {
        match save_type {
            HatSaveType::Folder => match self.bitmap.path() {
                None => Err(GenDataError::ImageWithoutPath(self.id)),
                Some(image_path) => match image_path.local_path(root) {
                    Ok(local) => Ok(local),
                    Err(LocalPathError::PathNotInDir) => Err(
                        GenDataError::ImageOutsideRoot(self.id),
                    ),
                },
            },
            HatSaveType::File => {
                let mut file = String::new();
                push_decimal(&mut file, self.id.0 as u64);
                file.append(".png");
                let mut parts: Vec<String> = Vec::new();
                parts.push(String::from_str("images"));
                parts.push(file);
                let path = HatPath::from_parts(false, parts);
                assert(path@.parts =~= archive_image_path(self.id).parts) by {
                    assert(Seq::<char>::empty() + decimal(self.id.0 as nat) =~= decimal(
                        self.id.0 as nat,
                    ));
                }
                Ok(path)
            },
        }
    }

    pub fn is_unique(&self) -> (unique: bool)
        ensures
            unique == self.unique(),
    {
        match &self.data {
            HatElementData::Wearable(_) => true,
            HatElementData::Wings(_) => true,
            _ => false,
        }
    }

    /// How many frames the sprite sheet of the element holds: as many
    /// columns as the width of a frame goes into the width of the image,
    /// times as many rows as its height goes into the height.
    pub open spec fn frame_capacity(&self) -> int {
        (self.view_bitmap().view_width() / self.kind_frame_size().x as int) * (
        self.view_bitmap().view_height() / self.kind_frame_size().y as int)
    }

    /// The size of one frame of the element.
    pub open spec fn kind_frame_size(&self) -> IVec2 {
        self.view_data().base_data().frame_size
    }

    /// How many frames the sprite sheet of the element holds. The count
    /// must fit the result.
    pub fn frames_amount(&self) -> (amount: u32)
        requires
            self.frame_capacity() <= u32::MAX,
        ensures
            amount == self.frame_capacity(),
    {
        proof {
            use_type_invariant(self);
            crate::hats_data::lemma_base_view(self.data);
        }
        let size = self.data.base().frame_size;
        let frames_x: i32 = self.bitmap.width() / size.x;
        let frames_y: i32 = self.bitmap.height() / size.y;
        assert(0 <= frames_x && 0 <= frames_y) by (nonlinear_arith)
            requires
                frames_x == self.bitmap.view_width() / size.x as int,
                frames_y == self.bitmap.view_height() / size.y as int,
                0 <= self.bitmap.view_width(),
                0 <= self.bitmap.view_height(),
                size.x > 0,
                size.y > 0,
        ;
        assert(0 <= frames_x * frames_y <= 0x7fff_ffff * 0x7fff_ffff) by (nonlinear_arith)
            requires
                0 <= frames_x <= 0x7fff_ffff,
                0 <= frames_y <= 0x7fff_ffff,
        ;
        let amount: u64 = frames_x as u64 * frames_y as u64;
        amount as u32
    }
}

impl IsPet for HatElement {
    open spec fn pet(&self) -> bool {
        self.kind().is_pet()
    }

    fn is_pet(&self) -> (pet: bool) {
        match self.data.base().hat_type {
            HatType::WalkingPet | HatType::FlyingPet => true,
            _ => false,
        }
    }
}

/// How many of the elements are pets.
pub open spec fn pets_in(elements: Seq<HatElement>) -> nat
    decreases elements.len(),
{
    if elements.len() == 0 {
        0
    } else {
        pets_in(elements.drop_last()) + if elements.last().pet() {
            1nat
        } else {
            0nat
        }
    }
}

/// Whether one of the elements names the given kind.
pub open spec fn has_kind(elements: Seq<HatElement>, kind: HatType) -> bool {
    exists|i: int| 0 <= i < elements.len() && (#[trigger] elements[i]).kind() == kind
}

/// Whether one of the elements has the given identity.
pub open spec fn has_id(elements: Seq<HatElement>, id: HatElementId) -> bool {
    exists|i: int| 0 <= i < elements.len() && (#[trigger] elements[i]).view_id() == id
}

/// Whether no two of the elements have the same identity.
pub open spec fn ids_distinct(elements: Seq<HatElement>) -> bool {
    forall|i: int, j: int|
        0 <= i < j < elements.len() ==> (#[trigger] elements[i]).view_id() != (
        #[trigger] elements[j]).view_id()
}

/// The place of the element with the given identity, where there is one.
pub open spec fn index_of(elements: Seq<HatElement>, id: HatElementId) -> int {
    choose|i: int| 0 <= i < elements.len() && (#[trigger] elements[i]).view_id() == id
}

/// Whether no two of the elements have the same identity, and at most
/// [`MAX_PETS`] of them are pets.
pub open spec fn elements_ok(elements: Seq<HatElement>) -> bool {
    &&& ids_distinct(elements)
    &&& pets_in(elements) <= MAX_PETS
}

/// Whether a hat with these elements takes `element` in: a pet only while
/// there are fewer than [`MAX_PETS`] pets, a wearable or a pair of wings only
/// while no element names that kind.
pub open spec fn accepts(elements: Seq<HatElement>, element: HatElement) -> bool {
    &&& !(element.pet() && pets_in(elements) >= MAX_PETS)
    &&& !(element.unique() && has_kind(elements, element.kind()))
}

/// The elements of a hat after `element` was offered to it. An element that
/// the hat does not take in leaves it as it was. One that it takes in stands
/// under its identity: in the place of the element that had the identity
/// before, or at the end.
pub open spec fn with_element(elements: Seq<HatElement>, element: HatElement) -> Seq<HatElement> {
    if !accepts(elements, element) {
        elements
    } else if has_id(elements, element.view_id()) {
        elements.update(index_of(elements, element.view_id()), element)
    } else {
        elements.push(element)
    }
}

/// The elements of a hat after the element with the given identity was
/// taken out, if there was one.
pub open spec fn without_element(elements: Seq<HatElement>, id: HatElementId) -> Seq<HatElement> {
    if has_id(elements, id) {
        elements.remove(index_of(elements, id))
    } else {
        elements
    }
}

/// There are no more pets than elements.
pub proof fn lemma_pets_bounded(elements: Seq<HatElement>)
    ensures
        pets_in(elements) <= elements.len(),
    decreases elements.len(),
{
    if elements.len() > 0 {
        lemma_pets_bounded(elements.drop_last());
    }
}

/// Putting an element in the place of another changes the number of pets by
/// what the two differ in.
pub proof fn lemma_pets_update(elements: Seq<HatElement>, at: int, element: HatElement)
    requires
        0 <= at < elements.len(),
    ensures
        pets_in(elements.update(at, element)) + (if elements[at].pet() {
            1nat
        } else {
            0nat
        }) == pets_in(elements) + (if element.pet() {
            1nat
        } else {
            0nat
        }),
    decreases elements.len(),
{
    let updated = elements.update(at, element);
    if at == elements.len() - 1 {
        assert(updated.drop_last() =~= elements.drop_last());
    } else {
        assert(updated.drop_last() =~= elements.drop_last().update(at, element));
        lemma_pets_update(elements.drop_last(), at, element);
    }
}

/// Taking an element out lowers the number of pets by one if it was a pet.
pub proof fn lemma_pets_remove(elements: Seq<HatElement>, at: int)
    requires
        0 <= at < elements.len(),
    ensures
        pets_in(elements.remove(at)) + (if elements[at].pet() {
            1nat
        } else {
            0nat
        }) == pets_in(elements),
    decreases elements.len(),
{
    let removed = elements.remove(at);
    if at == elements.len() - 1 {
        assert(removed =~= elements.drop_last());
    } else {
        assert(removed.drop_last() =~= elements.drop_last().remove(at));
        assert(removed.last() == elements.last());
        lemma_pets_remove(elements.drop_last(), at);
    }
}

/// Among elements with distinct identities, the place of an identity is the
/// one place where it stands.
pub proof fn lemma_index_of(elements: Seq<HatElement>, at: int)
    requires
        ids_distinct(elements),
        0 <= at < elements.len(),
    ensures
        has_id(elements, elements[at].view_id()),
        index_of(elements, elements[at].view_id()) == at,
{
    let id = elements[at].view_id();
    let found = index_of(elements, id);
    assert(0 <= found < elements.len() && elements[found].view_id() == id);
    if found < at {
        assert(elements[found].view_id() != elements[at].view_id());
    } else if at < found {
        assert(elements[at].view_id() != elements[found].view_id());
    }
}

/// Offering an element to a hat keeps what holds of the elements of every
/// hat.
pub proof fn lemma_with_element_ok(elements: Seq<HatElement>, element: HatElement)
    requires
        elements_ok(elements),
    ensures
        elements_ok(with_element(elements, element)),
{
    let after = with_element(elements, element);
    if !accepts(elements, element) {
    } else if has_id(elements, element.view_id()) {
        let at = index_of(elements, element.view_id());
        lemma_pets_update(elements, at, element);
        assert forall|i: int, j: int| 0 <= i < j < after.len() implies (#[trigger] after[i]).view_id()
            != (#[trigger] after[j]).view_id() by {
            assert(after[i].view_id() == elements[i].view_id());
            assert(after[j].view_id() == elements[j].view_id());
        }
    } else {
        assert(after.drop_last() =~= elements);
        assert forall|i: int, j: int| 0 <= i < j < after.len() implies (#[trigger] after[i]).view_id()
            != (#[trigger] after[j]).view_id() by {
            if j == elements.len() {
                assert(elements[i].view_id() != element.view_id());
            }
        }
    }
}

/// Taking an element out keeps what holds of the elements of every hat.
pub proof fn lemma_without_element_ok(elements: Seq<HatElement>, id: HatElementId)
    requires
        elements_ok(elements),
    ensures
        elements_ok(without_element(elements, id)),
{
    if has_id(elements, id) {
        let at = index_of(elements, id);
        let after = elements.remove(at);
        lemma_pets_remove(elements, at);
        assert forall|i: int, j: int| 0 <= i < j < after.len() implies (#[trigger] after[i]).view_id()
            != (#[trigger] after[j]).view_id() by {
            let si = if i < at { i } else { i + 1 };
            let sj = if j < at { j } else { j + 1 };
            assert(after[i] == elements[si]);
            assert(after[j] == elements[sj]);
        }
    }
}

/// The elements as a mapping from identities to elements.
pub open spec fn element_map(elements: Seq<HatElement>) -> Map<HatElementId, HatElement> {
    Map::new(
        |id: HatElementId| has_id(elements, id),
        |id: HatElementId| elements[index_of(elements, id)],
    )
}

/// A hat is a mapping from identities to elements: an element that the hat
/// takes in is put under its identity, whatever stood there before, and an
/// element that it does not take in changes nothing.
pub proof fn lemma_with_element_map(elements: Seq<HatElement>, element: HatElement)
    requires
        ids_distinct(elements),
    ensures
        element_map(with_element(elements, element)) == if accepts(elements, element) {
            element_map(elements).insert(element.view_id(), element)
        } else {
            element_map(elements)
        },
{
    if accepts(elements, element) {
        let after = with_element(elements, element);
        let id = element.view_id();
        let expected = element_map(elements).insert(id, element);
        let at = if has_id(elements, id) {
            index_of(elements, id)
        } else {
            elements.len() as int
        };
        assert(after.len() > at && after[at] == element);
        assert forall|k: int| 0 <= k < elements.len() && k != at implies after[k]
            == elements[k] by {}
        assert(ids_distinct(after)) by {
            assert forall|i: int, j: int| 0 <= i < j < after.len() implies (
            #[trigger] after[i]).view_id() != (#[trigger] after[j]).view_id() by {
                if i != at && i < elements.len() {
                    assert(after[i].view_id() == elements[i].view_id());
                }
                if j != at && j < elements.len() {
                    assert(after[j].view_id() == elements[j].view_id());
                }
                if has_id(elements, id) {
                    assert(elements[at].view_id() == id);
                }
            }
        }
        assert forall|other: HatElementId| #[trigger]
            element_map(after).dom().contains(other) == expected.dom().contains(other) by {
            if has_id(after, other) {
                let k = index_of(after, other);
                if k != at {
                    assert(elements[k].view_id() == other);
                }
            }
            if other == id {
                assert(after[at].view_id() == id);
            } else if has_id(elements, other) {
                let k = index_of(elements, other);
                assert(after[k].view_id() == other);
            }
        }
        assert forall|other: HatElementId| expected.dom().contains(other) implies #[trigger]
        element_map(after)[other] == expected[other] by {
            assert(has_id(after, other));
            let k = index_of(after, other);
            if other == id {
                lemma_index_of(after, at);
            } else {
                assert(k != at);
                assert(elements[k].view_id() == other);
                lemma_index_of(elements, k);
            }
        }
        assert(element_map(after) =~= expected);
    }
}

/// Taking an element out of a hat takes its identity out of the mapping.
pub proof fn lemma_without_element_map(elements: Seq<HatElement>, id: HatElementId)
    requires
        ids_distinct(elements),
    ensures
        element_map(without_element(elements, id)) == element_map(elements).remove(id),
{
    let after = without_element(elements, id);
    let expected = element_map(elements).remove(id);
    if has_id(elements, id) {
        let at = index_of(elements, id);
        lemma_index_of(elements, at);
        assert forall|k: int| 0 <= k < after.len() implies #[trigger] after[k] == elements[if k
            < at {
            k
        } else {
            k + 1
        }] by {}
        assert(ids_distinct(after)) by {
            assert forall|i: int, j: int| 0 <= i < j < after.len() implies (
            #[trigger] after[i]).view_id() != (#[trigger] after[j]).view_id() by {
                let si = if i < at { i } else { i + 1 };
                let sj = if j < at { j } else { j + 1 };
                assert(after[i] == elements[si]);
                assert(after[j] == elements[sj]);
            }
        }
        assert forall|other: HatElementId| #[trigger]
            element_map(after).dom().contains(other) == expected.dom().contains(other) by {
            if has_id(after, other) {
                let k = index_of(after, other);
                let source = if k < at { k } else { k + 1 };
                assert(after[k] == elements[source]);
                assert(elements[source].view_id() == other);
                if other == id {
                    lemma_index_of(elements, source);
                }
            }
            if other != id && has_id(elements, other) {
                let k = index_of(elements, other);
                let target = if k < at { k } else { k - 1 };
                assert(after[target] == elements[k]);
                assert(after[target].view_id() == other);
            }
        }
        assert forall|other: HatElementId| expected.dom().contains(other) implies #[trigger]
        element_map(after)[other] == expected[other] by {
            let from = index_of(elements, other);
            let target = if from < at { from } else { from - 1 };
            assert(after[target] == elements[from]);
            assert(after[target].view_id() == other);
            let k = index_of(after, other);
            let source = if k < at { k } else { k + 1 };
            assert(after[k] == elements[source]);
            lemma_index_of(elements, source);
        }
        assert(element_map(after) =~= expected);
    } else {
        assert(element_map(elements).remove(id) =~= element_map(elements));
    }
}

/// A hat that holds [`MAX_PETS`] pets takes no further pet in: its elements
/// stay as they were, so it still has [`MAX_PETS`] pets, and the pet that
/// was offered is not among them unless it was before.
pub proof fn lemma_pet_cap(elements: Seq<HatElement>, pet: HatElement)
    requires
        pets_in(elements) == MAX_PETS,
        pet.pet(),
    ensures
        with_element(elements, pet) == elements,
        pets_in(with_element(elements, pet)) == MAX_PETS,
        !has_id(elements, pet.view_id()) ==> !has_id(with_element(elements, pet), pet.view_id()),
{
}

/// A hat that has an element of the kind of a wearable, or of a pair of
/// wings, takes no second one in: its elements stay as they were.
pub proof fn lemma_unique_kept(elements: Seq<HatElement>, second: HatElement)
    requires
        second.unique(),
        has_kind(elements, second.kind()),
    ensures
        with_element(elements, second) == elements,
        !has_id(elements, second.view_id()) ==> !has_id(
            with_element(elements, second),
            second.view_id(),
        ),
{
}

/// Why a hat cannot be written down.
#[derive(Debug, Clone, Copy, PartialEq, Eq, Structural)]
pub enum GenDataError {
    /// The image of the element was not read from a file, so it has no place
    /// in the folder of the hat.
    ImageWithoutPath(HatElementId),
    /// The image of the element lies outside the folder of the hat.
    ImageOutsideRoot(HatElementId),
}

/// Where the image of an element lies inside an archive: in `images`, under
/// the identity of the element in decimal digits, with the extension `png`.
pub open spec fn archive_image_path(id: HatElementId) -> PathView {
    PathView { rooted: false, parts: seq!["images"@, decimal(id.0 as nat) + ".png"@] }
}

/// In an archive the images of different elements lie under different
/// paths, and none lies under the name of the folder of the images or under
/// that of the stored form of the hat.
pub proof fn lemma_archive_path_texts(a: HatElementId, b: HatElementId)
    ensures
        path_text(archive_image_path(a)) == path_text(archive_image_path(b)) ==> a == b,
        path_text(archive_image_path(a)) != "images/"@,
        path_text(archive_image_path(a)) != "data.json"@,
{
    reveal_strlit("images");
    reveal_strlit(".png");
    reveal_strlit("images/");
    reveal_strlit("data.json");
    reveal_with_fuel(joined_parts, 3);
    let text_a = path_text(archive_image_path(a));
    let text_b = path_text(archive_image_path(b));
    let digits_a = decimal(a.0 as nat);
    let digits_b = decimal(b.0 as nat);
    crate::text::lemma_decimal_len(a.0 as nat);
    crate::text::lemma_decimal_len(b.0 as nat);
    let parts_a = archive_image_path(a).parts;
    assert(parts_a.drop_last() =~= seq!["images"@]);
    assert(text_a =~= "images"@ + seq!['/'] + (digits_a + ".png"@));
    let parts_b = archive_image_path(b).parts;
    assert(parts_b.drop_last() =~= seq!["images"@]);
    assert(text_b =~= "images"@ + seq!['/'] + (digits_b + ".png"@));
    assert(text_a.len() == 11 + digits_a.len());
    assert(text_a[0] == 'i');
    assert("data.json"@[0] == 'd');
    if text_a == text_b {
        assert(digits_a =~= text_a.subrange(7, text_a.len() - 4));
        assert(digits_b =~= text_b.subrange(7, text_b.len() - 4));
        crate::text::lemma_decimal_injective(a.0 as nat, b.0 as nat);
    }
}

/// The path of the image of an element as it is stored with the hat. In a
/// folder it is the path of the image below the folder of the hat; an image
/// without a path, or outside the folder, cannot be stored. In an archive it
/// is made from the identity of the element, wherever the image came from.
pub open spec fn stored_image_path(
    element: HatElement,
    root: PathView,
    save_type: HatSaveType,
) -> Result<PathView, GenDataError> {
    match save_type {
        HatSaveType::Folder => match element.view_bitmap().view_path() {
            None => Err(GenDataError::ImageWithoutPath(element.view_id())),
            Some(path) => match local_path_of(path, root) {
                Ok(local) => Ok(local),
                Err(_) => Err(GenDataError::ImageOutsideRoot(element.view_id())),
            },
        },
        HatSaveType::File => Ok(archive_image_path(element.view_id())),
    }
}

/// The stored paths of the images of the elements, in order, or the error of
/// the first element whose image cannot be stored.
pub open spec fn stored_paths(
    elements: Seq<HatElement>,
    root: PathView,
    save_type: HatSaveType,
) -> Result<Seq<PathView>, GenDataError>
    decreases elements.len(),
{
    if elements.len() == 0 {
        Ok(Seq::empty())
    } else {
        match stored_paths(elements.drop_last(), root, save_type) {
            Err(e) => Err(e),
            Ok(paths) => match stored_image_path(elements.last(), root, save_type) {
                Ok(path) => Ok(paths.push(path)),
                Err(e) => Err(e),
            },
        }
    }
}

/// The settings of an element as they are stored: those of the element, with
/// `path` as the path of its image.
pub open spec fn stored_element(element: HatElement, path: PathView) -> HatElementView {
    let data = element.view_data()@;
    data.with_base(HatBaseView { local_image_path: Some(path), ..data.base() })
}

/// How many frames the animations of the elements have, all together.
pub open spec fn frames_of(elements: Seq<HatElement>) -> nat
    decreases elements.len(),
{
    if elements.len() == 0 {
        0
    } else {
        frames_of(elements.drop_last()) + elements.last().view_data().frame_count()
    }
}

/// In an archive the image of every element can be stored, and its path is
/// made from the identity of the element.
pub proof fn lemma_archive_paths(elements: Seq<HatElement>, root: PathView)
    ensures
        stored_paths(elements, root, HatSaveType::File) is Ok,
        stored_paths(elements, root, HatSaveType::File)->Ok_0.len() == elements.len(),
        forall|i: int|
            0 <= i < elements.len() ==> stored_paths(elements, root, HatSaveType::File)->Ok_0[i]
                == archive_image_path(elements[i].view_id()),
    decreases elements.len(),
{
    if elements.len() > 0 {
        lemma_archive_paths(elements.drop_last(), root);
    }
}

/// Where the paths of the images can be stored, there is one for each
/// element, and each is the stored path of its element.
pub proof fn lemma_stored_paths(elements: Seq<HatElement>, root: PathView, save_type: HatSaveType)
    requires
        stored_paths(elements, root, save_type) is Ok,
    ensures
        stored_paths(elements, root, save_type)->Ok_0.len() == elements.len(),
        forall|i: int|
            0 <= i < elements.len() ==> Ok::<PathView, GenDataError>(
                stored_paths(elements, root, save_type)->Ok_0[i],
            ) == stored_image_path(#[trigger] elements[i], root, save_type),
    decreases elements.len(),
{
    if elements.len() > 0 {
        lemma_stored_paths(elements.drop_last(), root, save_type);
        assert forall|i: int| 0 <= i < elements.len() implies Ok::<PathView, GenDataError>(
            stored_paths(elements, root, save_type)->Ok_0[i],
        ) == stored_image_path(#[trigger] elements[i], root, save_type) by {
            if i < elements.len() - 1 {
                assert(elements.drop_last()[i] == elements[i]);
            }
        }
    }
}

/// An error in the stored paths of the first elements is the error of all.
pub proof fn lemma_stored_paths_error(
    elements: Seq<HatElement>,
    root: PathView,
    save_type: HatSaveType,
    upto: int,
)
    requires
        0 <= upto <= elements.len(),
        stored_paths(elements.take(upto), root, save_type) is Err,
    ensures
        stored_paths(elements, root, save_type) == stored_paths(
            elements.take(upto),
            root,
            save_type,
        ),
    decreases elements.len() - upto,
{
    if upto < elements.len() {
        assert(elements.take(upto + 1).drop_last() =~= elements.take(upto));
        lemma_stored_paths_error(elements, root, save_type, upto + 1);
    } else {
        assert(elements.take(upto) =~= elements);
    }
}

/// Whether `data` is what is stored of `hat`, with `paths` as the stored
/// paths of the images of its elements.
pub open spec fn is_stored_form(data: HatData, hat: Hat, paths: Seq<PathView>) -> bool {
    &&& data@.name == hat.view_name()
    &&& data@.elements.len() == hat.view_elements().len()
    &&& paths.len() == hat.view_elements().len()
    &&& forall|i: int|
        0 <= i < hat.view_elements().len() ==> (#[trigger] data@.elements[i]) == stored_element(
            hat.view_elements()[i],
            paths[i],
        )
}

/// The files that an element names: its image and its script, each below
/// the folder of the hat, as far as the settings give a path.
pub open spec fn element_files(element: HatElement, root: PathView) -> Seq<PathView> {
    let base = element.view_data()@.base();
    let image = match base.local_image_path {
        Some(path) => seq![joined(root, path)],
        None => Seq::<PathView>::empty(),
    };
    let script = match base.local_script_path {
        Some(path) => seq![joined(root, path)],
        None => Seq::<PathView>::empty(),
    };
    image + script
}

/// The files that a hat needs on disk: its folder, and then the files that
/// its elements name, element after element.
pub open spec fn required_files(elements: Seq<HatElement>, root: PathView) -> Seq<PathView>
    decreases elements.len(),
{
    if elements.len() == 0 {
        seq![root]
    } else {
        required_files(elements.drop_last(), root) + element_files(elements.last(), root)
    }
}

/// Whether the file at place `at` was found: the list of answers says so. A
/// file without an answer counts as not found.
pub open spec fn is_present(present: Seq<bool>, at: int) -> bool {
    0 <= at < present.len() && present[at]
}

/// Whether `at` is the place of the first of `count` files that was not
/// found.
pub open spec fn is_first_missing(count: int, present: Seq<bool>, at: int) -> bool {
    &&& 0 <= at < count
    &&& !is_present(present, at)
    &&& forall|k: int| 0 <= k < at ==> is_present(present, k)
}

/// A file that a hat needs and that is not there.
#[derive(Debug)]
pub struct MissingFile {
    pub path: HatPath,
}

/// The message for a file that is not there: its path between quotation
/// marks, and that it does not exist.
pub open spec fn missing_file_text(path: PathView) -> Seq<char> {
    seq!['"'] + crate::path_utils::path_text(path) + "\" does not exist"@
}

impl MissingFile {
    /// The message that describes the error: it names the path.
    pub fn message(&self) -> (text: String)
        ensures
            text@ == missing_file_text(self.path@),
    {
        let mut text = String::from_str("\"");
        proof {
            reveal_strlit("\"");
            assert("\""@ =~= seq!['"']);
        }
        let path = self.path.to_text();
        text.append(path.as_str());
        text.append("\" does not exist");
        text
    }
}

/// Every element of a hat names a file of its own among the files that the
/// hat needs, for each path that its settings give.
pub proof fn lemma_required_files_hold(elements: Seq<HatElement>, root: PathView, at: int)
    requires
        0 <= at < elements.len(),
    ensures
        required_files(elements, root).len() >= 1,
        required_files(elements, root)[0] == root,
        forall|k: int|
            0 <= k < element_files(elements[at], root).len() ==> required_files(
                elements,
                root,
            ).contains(#[trigger] element_files(elements[at], root)[k]),
    decreases elements.len(),
{
    let all = required_files(elements, root);
    let before = required_files(elements.drop_last(), root);
    let own = element_files(elements.last(), root);
    lemma_required_files_start(elements.drop_last(), root);
    if at == elements.len() - 1 {
        assert forall|k: int| 0 <= k < own.len() implies all.contains(#[trigger] own[k]) by {
            assert(all[before.len() + k] == own[k]);
        }
    } else {
        lemma_required_files_hold(elements.drop_last(), root, at);
        assert(elements.drop_last()[at] == elements[at]);
        let files = element_files(elements[at], root);
        assert forall|k: int| 0 <= k < files.len() implies all.contains(#[trigger] files[k]) by {
            let place = choose|place: int| 0 <= place < before.len() && before[place] == files[k];
            assert(all[place] == files[k]);
        }
    }
}

/// The first of the files that a hat needs is its folder.
pub proof fn lemma_required_files_start(elements: Seq<HatElement>, root: PathView)
    ensures
        required_files(elements, root).len() >= 1,
        required_files(elements, root)[0] == root,
    decreases elements.len(),
{
    if elements.len() > 0 {
        lemma_required_files_start(elements.drop_last(), root);
    }
}

/// Why a hat cannot be read from its folder.
#[derive(Debug)]
pub enum LoadError {
    /// The folder of the hat, or its folder of images, is not there.
    MissingPath(HatPath),
    /// The settings of the element at this place name no image.
    ElementWithoutImage(usize),
    /// The image at this path could not be read.
    UnreadableImage(HatPath),
    /// The settings of the element at this place are not those of an
    /// element.
    InvalidElement(usize, ElementError),
}

/// Why a hat cannot be read from its folder, as a mathematical value.
pub enum LoadErrorView {
    MissingPath(PathView),
    ElementWithoutImage(usize),
    UnreadableImage(PathView),
    InvalidElement(usize, ElementError),
}

impl View for LoadError {
    type V = LoadErrorView;

    open spec fn view(&self) -> LoadErrorView {
        match self {
            LoadError::MissingPath(path) => LoadErrorView::MissingPath(path@),
            LoadError::ElementWithoutImage(at) => LoadErrorView::ElementWithoutImage(*at),
            LoadError::UnreadableImage(path) => LoadErrorView::UnreadableImage(path@),
            LoadError::InvalidElement(at, error) => LoadErrorView::InvalidElement(*at, *error),
        }
    }
}

/// The file that holds what is stored of a hat, below the folder of the
/// hat.
pub open spec fn data_file(root: PathView) -> PathView {
    joined(root, PathView { rooted: false, parts: seq!["data.json"@] })
}

/// The folder that holds the images of a hat, below the folder of the hat.
pub open spec fn images_folder(root: PathView) -> PathView {
    joined(root, PathView { rooted: false, parts: seq!["images"@] })
}

/// Whether the image of the element at place `at` is there: the settings
/// name an image, and that image was read.
pub open spec fn has_image(data: HatElementData, images: Seq<Option<Bitmap>>, at: int) -> bool {
    &&& data@.base().local_image_path is Some
    &&& 0 <= at < images.len()
    &&& images[at] is Some
}

/// Whether the element at place `at` can be made: its image is there, and
/// its settings are those of an element.
pub open spec fn is_loadable(data: HatElementData, images: Seq<Option<Bitmap>>, at: int) -> bool {
    &&& has_image(data, images, at)
    &&& data_problem(data@, data@.base().frame_size) is None
}

/// Whether `at` is the place of the first element that cannot be made.
pub open spec fn is_first_unloadable(
    data: Seq<HatElementData>,
    images: Seq<Option<Bitmap>>,
    at: int,
) -> bool {
    &&& 0 <= at < data.len()
    &&& !is_loadable(data[at], images, at)
    &&& forall|k: int| 0 <= k < at ==> is_loadable(#[trigger] data[k], images, k)
}

/// Why the element at place `at` cannot be made: its settings name no
/// image, or the image could not be read, or the settings are not those of
/// an element.
pub open spec fn load_error_of(
    root: PathView,
    data: HatElementData,
    images: Seq<Option<Bitmap>>,
    at: int,
) -> LoadErrorView {
    match data@.base().local_image_path {
        None => LoadErrorView::ElementWithoutImage(at as usize),
        Some(local) => if has_image(data, images, at) {
            LoadErrorView::InvalidElement(
                at as usize,
                data_problem(data@, data@.base().frame_size)->0,
            )
        } else {
            LoadErrorView::UnreadableImage(joined(root, local))
        },
    }
}

/// Whether `element` is what reading makes of the settings `data` and the
/// image `bitmap`: it has the settings, the pixels of the image, the path
/// `path` for the image, and the identity `id`.
pub open spec fn is_loaded(
    element: HatElement,
    data: HatElementData,
    bitmap: Bitmap,
    path: PathView,
    id: u32,
) -> bool {
    &&& element.view_data() == data
    &&& element.view_bitmap().view_width() == bitmap.view_width()
    &&& element.view_bitmap().view_height() == bitmap.view_height()
    &&& element.view_bitmap().view_bytes() == bitmap.view_bytes()
    &&& element.view_bitmap().view_path() == Some(path)
    &&& element.view_id().0 == id
}

/// Whether `elements` are what reading makes of the stored settings and the
/// images: one element for each, in order, with consecutive identities from
/// `first_id` on, and each image at its stored path below `root`.
pub open spec fn are_loaded(
    elements: Seq<HatElement>,
    root: PathView,
    data: Seq<HatElementData>,
    images: Seq<Option<Bitmap>>,
    first_id: u32,
) -> bool {
    &&& elements.len() == data.len()
    &&& forall|i: int|
        0 <= i < data.len() ==> is_loadable(data[i], images, i) && is_loaded(
            #[trigger] elements[i],
            data[i],
            images[i]->0,
            joined(root, data[i]@.base().local_image_path->0),
            id_after_many(first_id, i as nat),
        )
}

/// The elements of a hat with the elements `start` after each of `offers`
/// was offered to it, in order.
pub open spec fn offered(start: Seq<HatElement>, offers: Seq<HatElement>) -> Seq<HatElement>
    decreases offers.len(),
{
    if offers.len() == 0 {
        start
    } else {
        with_element(offered(start, offers.drop_last()), offers.last())
    }
}

/// What is stored of a hat whose folder has no data file yet: the name
/// `Default`, and no elements.
pub fn default_hat_data() -> (data: HatData)
    ensures
        data@.name == "Default"@,
        data@.elements == Seq::<HatElementView>::empty(),
{
    HatData::new(String::from_str("Default"))
}

/// The elements that reading makes of the stored settings and the images
/// that were read for them: `images` holds for each element, in order, the
/// image at its stored path below `root`, or nothing if it could not be
/// read. Every element gets a fresh identity. An element cannot be made
/// where its settings name no image, where the image could not be read, or
/// where the settings are not those of an element: they name another kind
/// than their shape stands for, or a frame out of range. Then the error
/// tells the first such element, and nothing is drawn from `ids`.
pub fn load_elements(
    root: &HatPath,
    data: Vec<HatElementData>,
    images: Vec<Option<Bitmap>>,
    ids: &mut IdSource,
) -> (loaded: Result<Vec<HatElement>, LoadError>)
    ensures
        loaded is Ok <==> forall|k: int|
            0 <= k < data@.len() ==> is_loadable(#[trigger] data@[k], images@, k),
        loaded matches Ok(elements) ==> are_loaded(
            elements@,
            root@,
            data@,
            images@,
            old(ids).next_element(),
        ) && final(ids).next_element() == id_after_many(old(ids).next_element(), data@.len()),
        loaded matches Err(e) ==> final(ids).next_element() == old(ids).next_element()
            && exists|at: int|
            #![auto]
            is_first_unloadable(data@, images@, at) && e@ == load_error_of(
                root@,
                data@[at],
                images@,
                at,
            ),
        final(ids).next_frame() == old(ids).next_frame(),
        final(ids).next_hat() == old(ids).next_hat(),
{
    let mut i: usize = 0;
    while i < data.len()
        invariant
            i <= data@.len(),
            forall|k: int| 0 <= k < i ==> is_loadable(#[trigger] data@[k], images@, k),
        decreases data.len() - i,
    {
        match &data[i].base().local_image_path {
            None => {
                assert(is_first_unloadable(data@, images@, i as int));
                return Err(LoadError::ElementWithoutImage(i));
            },
            Some(local) => {
                if i >= images.len() || images[i].is_none() {
                    assert(is_first_unloadable(data@, images@, i as int));
                    return Err(LoadError::UnreadableImage(root.join(local)));
                }
            },
        }
        proof {
            crate::hats_data::lemma_base_view(data@[i as int]);
        }
        if !data[i].kind_agrees() {
            assert(is_first_unloadable(data@, images@, i as int));
            return Err(LoadError::InvalidElement(i, ElementError::KindMismatch));
        }
        if !is_size_in_range(data[i].base().frame_size) {
            assert(is_first_unloadable(data@, images@, i as int));
            return Err(LoadError::InvalidElement(i, ElementError::FrameSizeOutOfRange));
        }
        i += 1;
    }
    let ghost all_data = data@;
    let ghost all_images = images@;
    let ghost first_id = ids.next_element();
    let count = data.len();
    let mut data = data;
    let mut images = images;
    let mut elements: Vec<HatElement> = Vec::new();
    let mut done: usize = 0;
    while done < count
        invariant
            done <= count == all_data.len(),
            forall|k: int| 0 <= k < all_data.len() ==> is_loadable(#[trigger] all_data[k], all_images, k),
            data@ == all_data.skip(done as int),
            images@ == all_images.skip(done as int),
            elements@.len() == done,
            forall|k: int|
                0 <= k < done ==> is_loaded(
                    #[trigger] elements@[k],
                    all_data[k],
                    all_images[k]->0,
                    joined(root@, all_data[k]@.base().local_image_path->0),
                    id_after_many(first_id, k as nat),
                ),
            ids.next_element() == id_after_many(first_id, done as nat),
            ids.next_frame() == old(ids).next_frame(),
            ids.next_hat() == old(ids).next_hat(),
        decreases count - done,
    {
        assert(is_loadable(all_data[done as int], all_images, done as int));
        assert(data@[0] == all_data[done as int]);
        assert(images@[0] == all_images[done as int]);
        let element_data = data.remove(0);
        let image = images.remove(0);
        proof {
            assert(data@ =~= all_data.skip(done + 1));
            assert(images@ =~= all_images.skip(done + 1));
        }
        let path = root.join(element_data.base().local_image_path.as_ref().unwrap());
        let bitmap = image.unwrap().with_path(path);
        proof {
            crate::hats_data::lemma_base_view(element_data);
        }
        let element = HatElement::load(element_data, Image::Bitmap(bitmap), ids).unwrap();
        elements.push(element);
        done += 1;
    }
    Ok(elements)
}

/// Whether `at` is the first place where an element names the given kind.
pub open spec fn is_first_of_kind(elements: Seq<HatElement>, kind: HatType, at: int) -> bool {
    &&& 0 <= at < elements.len()
    &&& elements[at].kind() == kind
    &&& forall|k: int| 0 <= k < at ==> (#[trigger] elements[k]).kind() != kind
}

/// The element that an inquiry for a kind finds: the first that names the
/// kind.
pub open spec fn element_of_kind(elements: Seq<HatElement>, kind: HatType) -> Option<HatElement> {
    if has_kind(elements, kind) {
        Some(elements[choose|at: int| is_first_of_kind(elements, kind, at)])
    } else {
        None
    }
}

/// Whether each of the elements names the kind that the shape of its
/// settings stands for.
pub open spec fn kinds_consistent(elements: Seq<HatElement>) -> bool {
    forall|i: int| 0 <= i < elements.len() ==> (#[trigger] elements[i]).view_data()@.kind_matches()
}

/// Whether at most one of the elements names the given kind.
pub open spec fn at_most_one(elements: Seq<HatElement>, kind: HatType) -> bool {
    forall|i: int, j: int|
        0 <= i < j < elements.len() ==> !((#[trigger] elements[i]).kind() == kind && (
        #[trigger] elements[j]).kind() == kind)
}

/// What holds of the elements of every hat: no two have the same identity,
/// at most [`MAX_PETS`] are pets, each names the kind that its settings have
/// the shape of, and there is at most one wearable and at most one pair of
/// wings.
pub open spec fn elements_valid(elements: Seq<HatElement>) -> bool {
    &&& elements_ok(elements)
    &&& kinds_consistent(elements)
    &&& at_most_one(elements, HatType::Wearable)
    &&& at_most_one(elements, HatType::Wings)
}

/// An element that names the kind of its shape can only be one of a kind if
/// it is a wearable or a pair of wings.
pub proof fn lemma_unique_kind(element: HatElement)
    requires
        element.view_data()@.kind_matches(),
    ensures
        element.unique() <==> element.kind() == HatType::Wearable || element.kind()
            == HatType::Wings,
{
    crate::hats_data::lemma_base_view(element.view_data());
}

/// Offering an element that names the kind of its shape to a hat as it is
/// meant to be leaves a hat as it is meant to be: in particular, it never
/// has a second wearable or a second pair of wings.
pub proof fn lemma_with_element_valid(elements: Seq<HatElement>, element: HatElement)
    requires
        elements_valid(elements),
        element.view_data()@.kind_matches(),
    ensures
        elements_valid(with_element(elements, element)),
{
    let after = with_element(elements, element);
    lemma_with_element_ok(elements, element);
    lemma_unique_kind(element);
    if accepts(elements, element) {
        if has_id(elements, element.view_id()) {
            let at = index_of(elements, element.view_id());
            assert forall|i: int| 0 <= i < after.len() implies (
            #[trigger] after[i]).view_data()@.kind_matches() by {
                if i != at {
                    assert(after[i] == elements[i]);
                }
            }
            assert forall|kind: HatType|
                (kind == HatType::Wearable || kind == HatType::Wings) implies at_most_one(
                after,
                kind,
            ) by {
                assert forall|i: int, j: int| 0 <= i < j < after.len() implies !((
                #[trigger] after[i]).kind() == kind && (#[trigger] after[j]).kind() == kind) by {
                    let other = if i == at { j } else { i };
                    if i == at || j == at {
                        if element.kind() == kind {
                            assert(elements[other].kind() != kind);
                        }
                    } else {
                        assert(after[i] == elements[i]);
                        assert(after[j] == elements[j]);
                    }
                }
            }
        } else {
            assert forall|i: int| 0 <= i < after.len() implies (
            #[trigger] after[i]).view_data()@.kind_matches() by {
                if i < elements.len() {
                    assert(after[i] == elements[i]);
                }
            }
            assert forall|kind: HatType|
                (kind == HatType::Wearable || kind == HatType::Wings) implies at_most_one(
                after,
                kind,
            ) by {
                assert forall|i: int, j: int| 0 <= i < j < after.len() implies !((
                #[trigger] after[i]).kind() == kind && (#[trigger] after[j]).kind() == kind) by {
                    if j == elements.len() {
                        if element.kind() == kind {
                            assert(elements[i].kind() != kind);
                        }
                    } else {
                        assert(after[i] == elements[i]);
                        assert(after[j] == elements[j]);
                    }
                }
            }
        }
    }
}

/// Taking an element out of a hat as it is meant to be leaves a hat as it is
/// meant to be.
pub proof fn lemma_without_element_valid(elements: Seq<HatElement>, id: HatElementId)
    requires
        elements_valid(elements),
    ensures
        elements_valid(without_element(elements, id)),
{
    lemma_without_element_ok(elements, id);
    if has_id(elements, id) {
        let at = index_of(elements, id);
        let after = elements.remove(at);
        assert forall|i: int| 0 <= i < after.len() implies (
        #[trigger] after[i]).view_data()@.kind_matches() by {
            let source = if i < at { i } else { i + 1 };
            assert(after[i] == elements[source]);
        }
        assert forall|kind: HatType|
            (kind == HatType::Wearable || kind == HatType::Wings) implies at_most_one(
            after,
            kind,
        ) by {
            assert forall|i: int, j: int| 0 <= i < j < after.len() implies !((
            #[trigger] after[i]).kind() == kind && (#[trigger] after[j]).kind() == kind) by {
                let si = if i < at { i } else { i + 1 };
                let sj = if j < at { j } else { j + 1 };
                assert(after[i] == elements[si]);
                assert(after[j] == elements[sj]);
            }
        }
    }
}

/// An element that was read from the folder of a hat is stored under the
/// path that it was read from: where its settings name an image by a path
/// that has a component and does not start at the root, and its image lies
/// at that path below the folder, the stored path of the image is that path
/// again.
pub proof fn lemma_stored_path_of_loaded(element: HatElement, root: PathView, local: PathView)
    requires
        !local.rooted,
        local.parts.len() > 0,
        element.view_bitmap().view_path() == Some(joined(root, local)),
    ensures
        stored_image_path(element, root, HatSaveType::Folder) == Ok::<PathView, GenDataError>(
            local,
        ),
{
    crate::path_utils::lemma_local_path_of_joined(root, local);
}

/// Where the image of every element can be stored, the stored paths are
/// those of the elements, in order.
pub proof fn lemma_stored_paths_are(
    elements: Seq<HatElement>,
    root: PathView,
    save_type: HatSaveType,
    paths: Seq<PathView>,
)
    requires
        paths.len() == elements.len(),
        forall|i: int|
            0 <= i < elements.len() ==> stored_image_path(
                #[trigger] elements[i],
                root,
                save_type,
            ) == Ok::<PathView, GenDataError>(paths[i]),
    ensures
        stored_paths(elements, root, save_type) == Ok::<Seq<PathView>, GenDataError>(paths),
    decreases elements.len(),
{
    if elements.len() == 0 {
        assert(paths =~= Seq::<PathView>::empty());
    } else {
        let before = elements.drop_last();
        assert forall|i: int| 0 <= i < before.len() implies stored_image_path(
            #[trigger] before[i],
            root,
            save_type,
        ) == Ok::<PathView, GenDataError>(paths.drop_last()[i]) by {
            assert(before[i] == elements[i]);
        }
        lemma_stored_paths_are(before, root, save_type, paths.drop_last());
        assert(elements.last() == elements[elements.len() - 1]);
        assert(paths.drop_last().push(paths.last()) =~= paths);
    }
}

/// Reading a hat and writing it down again gives back what was read. Let
/// `read` be the elements that reading makes of the stored settings `data`,
/// each of which names its image by a path that has a component and does not
/// start at the root. Then every image can be stored in the folder of the
/// hat, under the path that the settings name, and the stored form of every
/// element is the settings that it was read from.
pub proof fn lemma_load_then_save(
    read: Seq<HatElement>,
    root: PathView,
    data: Seq<HatElementData>,
    images: Seq<Option<Bitmap>>,
    first_id: u32,
)
    requires
        are_loaded(read, root, data, images, first_id),
        forall|i: int|
            0 <= i < data.len() ==> !(#[trigger] data[i])@.base().local_image_path->0.rooted
                && data[i]@.base().local_image_path->0.parts.len() > 0,
    ensures
        stored_paths(read, root, HatSaveType::Folder) is Ok,
        stored_paths(read, root, HatSaveType::Folder)->Ok_0.len() == data.len(),
        forall|i: int|
            0 <= i < data.len() ==> stored_paths(read, root, HatSaveType::Folder)->Ok_0[i]
                == (#[trigger] data[i])@.base().local_image_path->0,
        forall|i: int|
            0 <= i < data.len() ==> stored_element(
                read[i],
                stored_paths(read, root, HatSaveType::Folder)->Ok_0[i],
            ) == (#[trigger] data[i])@,
{
    let paths = Seq::new(data.len(), |i: int| data[i]@.base().local_image_path->0);
    assert forall|i: int| 0 <= i < read.len() implies stored_image_path(
        #[trigger] read[i],
        root,
        HatSaveType::Folder,
    ) == Ok::<PathView, GenDataError>(paths[i]) by {
        assert(is_loadable(data[i], images, i));
        lemma_stored_path_of_loaded(read[i], root, paths[i]);
    }
    lemma_stored_paths_are(read, root, HatSaveType::Folder, paths);
    assert forall|i: int| 0 <= i < data.len() implies stored_element(read[i], paths[i]) == (
    #[trigger] data[i])@ by {
        assert(is_loadable(data[i], images, i));
        assert(read[i].view_data() == data[i]);
        lemma_with_same_base(data[i]@);
    }
}

/// Settings whose shared part is put in again are the same settings.
pub proof fn lemma_with_same_base(data: HatElementView)
    ensures
        data.with_base(data.base()) == data,
{
}

/// The first elements of a list have no more pets than the whole list.
pub proof fn lemma_pets_of_prefix(elements: Seq<HatElement>, count: int)
    requires
        0 <= count <= elements.len(),
    ensures
        pets_in(elements.take(count)) <= pets_in(elements),
    decreases elements.len() - count,
{
    if count < elements.len() {
        assert(elements.take(count + 1).drop_last() =~= elements.take(count));
        lemma_pets_of_prefix(elements, count + 1);
    } else {
        assert(elements.take(count) =~= elements);
    }
}

/// A hat takes in every element of a hat as it is meant to be, one after the
/// other: offering them to an empty hat gives a hat with exactly those
/// elements, in their order.
pub proof fn lemma_offered_all(offers: Seq<HatElement>)
    requires
        elements_valid(offers),
    ensures
        offered(Seq::<HatElement>::empty(), offers) == offers,
    decreases offers.len(),
{
    if offers.len() == 0 {
        assert(offers =~= Seq::<HatElement>::empty());
    } else {
        let before = offers.drop_last();
        let last = offers.last();
        assert forall|i: int| 0 <= i < before.len() implies (
        #[trigger] before[i]).view_data()@.kind_matches() by {
            assert(before[i] == offers[i]);
        }
        assert(before =~= offers.take(offers.len() - 1));
        lemma_pets_of_prefix(offers, offers.len() - 1);
        assert(elements_valid(before)) by {
            assert forall|i: int, j: int| 0 <= i < j < before.len() implies (
            #[trigger] before[i]).view_id() != (#[trigger] before[j]).view_id() by {
                assert(before[i] == offers[i] && before[j] == offers[j]);
            }
            assert forall|kind: HatType|
                (kind == HatType::Wearable || kind == HatType::Wings) implies at_most_one(
                before,
                kind,
            ) by {
                assert forall|i: int, j: int| 0 <= i < j < before.len() implies !((
                #[trigger] before[i]).kind() == kind && (#[trigger] before[j]).kind() == kind) by {
                    assert(before[i] == offers[i] && before[j] == offers[j]);
                }
            }
        }
        lemma_offered_all(before);
        lemma_unique_kind(last);
        assert(accepts(before, last)) by {
            if last.unique() && has_kind(before, last.kind()) {
                let i = choose|i: int| 0 <= i < before.len() && (#[trigger] before[i]).kind()
                    == last.kind();
                assert(before[i] == offers[i]);
                assert(offers[offers.len() - 1] == last);
            }
        }
        assert(!has_id(before, last.view_id())) by {
            if has_id(before, last.view_id()) {
                let i = index_of(before, last.view_id());
                assert(before[i] == offers[i]);
                assert(offers[i].view_id() != offers[offers.len() - 1].view_id());
            }
        }
        assert(before.push(last) =~= offers);
    }
}

/// Writing a hat down and reading it again loses no element. Let `read` be
/// the elements that reading makes of the stored form of a hat as it is
/// meant to be: one for each element of the hat, in order, with the stored
/// settings of that element, and with identities that differ from each
/// other. Then the hat that is read has exactly these elements: the same
/// kinds, settings and animations as before.
pub proof fn lemma_reload_keeps_all(
    elements: Seq<HatElement>,
    paths: Seq<PathView>,
    read: Seq<HatElement>,
)
    requires
        elements_valid(elements),
        paths.len() == elements.len(),
        read.len() == elements.len(),
        ids_distinct(read),
        forall|i: int|
            0 <= i < elements.len() ==> (#[trigger] read[i]).view_data()@ == stored_element(
                elements[i],
                paths[i],
            ),
    ensures
        offered(Seq::<HatElement>::empty(), read) == read,
        elements_valid(read),
{
    assert forall|i: int| 0 <= i < read.len() implies (#[trigger] read[i]).kind()
        == elements[i].kind() && read[i].view_data()@.kind_matches() by {
        crate::hats_data::lemma_base_view(read[i].view_data());
        crate::hats_data::lemma_base_view(elements[i].view_data());
        assert(elements[i].view_data()@.kind_matches());
    }
    lemma_same_pets(elements, read);
    assert forall|kind: HatType|
        (kind == HatType::Wearable || kind == HatType::Wings) implies at_most_one(read, kind) by {
        assert forall|i: int, j: int| 0 <= i < j < read.len() implies !((#[trigger] read[i]).kind()
            == kind && (#[trigger] read[j]).kind() == kind) by {
            assert(read[i].kind() == elements[i].kind());
            assert(read[j].kind() == elements[j].kind());
        }
    }
    lemma_offered_all(read);
}

/// Putting a hat into an archive and reading it from there loses no
/// element. In the archive the image of every element lies under `images`,
/// named by the identity of the element, wherever it came from. Let `read`
/// be the elements that reading makes of what the archive holds of a hat as
/// it is meant to be: one for each element of the hat, in order, with the
/// settings that the archive stores for it, and with identities that differ
/// from each other. Then each of them names that path, and the hat that is
/// read has exactly these elements: the same kinds, settings and animations
/// as before.
pub proof fn lemma_archive_keeps_all(
    elements: Seq<HatElement>,
    root: PathView,
    read: Seq<HatElement>,
)
    requires
        elements_valid(elements),
        read.len() == elements.len(),
        ids_distinct(read),
        forall|i: int|
            0 <= i < elements.len() ==> (#[trigger] read[i]).view_data()@ == stored_element(
                elements[i],
                archive_image_path(elements[i].view_id()),
            ),
    ensures
        stored_paths(elements, root, HatSaveType::File) is Ok,
        stored_paths(elements, root, HatSaveType::File)->Ok_0.len() == elements.len(),
        forall|i: int|
            0 <= i < elements.len() ==> stored_paths(elements, root, HatSaveType::File)->Ok_0[i]
                == archive_image_path(elements[i].view_id()),
        forall|i: int|
            0 <= i < elements.len() ==> (#[trigger] read[i]).view_data()@.base().local_image_path
                == Some(archive_image_path(elements[i].view_id())) && read[i].kind()
                == elements[i].kind(),
        offered(Seq::<HatElement>::empty(), read) == read,
        elements_valid(read),
{
    lemma_archive_paths(elements, root);
    let paths = stored_paths(elements, root, HatSaveType::File)->Ok_0;
    lemma_reload_keeps_all(elements, paths, read);
    assert forall|i: int| 0 <= i < elements.len() implies (
    #[trigger] read[i]).view_data()@.base().local_image_path == Some(
        archive_image_path(elements[i].view_id()),
    ) && read[i].kind() == elements[i].kind() by {
        crate::hats_data::lemma_base_view(read[i].view_data());
        crate::hats_data::lemma_base_view(elements[i].view_data());
        assert(elements[i].view_data()@.kind_matches());
    }
}

/// Two lists whose elements name the same kinds, place by place, have the
/// same number of pets.
pub proof fn lemma_same_pets(a: Seq<HatElement>, b: Seq<HatElement>)
    requires
        a.len() == b.len(),
        forall|i: int| 0 <= i < a.len() ==> (#[trigger] b[i]).kind() == a[i].kind(),
    ensures
        pets_in(a) == pets_in(b),
    decreases a.len(),
{
    if a.len() > 0 {
        assert forall|i: int| 0 <= i < a.len() - 1 implies (#[trigger] b.drop_last()[i]).kind()
            == a.drop_last()[i].kind() by {
            assert(b.drop_last()[i] == b[i]);
        }
        assert(b[b.len() - 1].kind() == a[a.len() - 1].kind());
        lemma_same_pets(a.drop_last(), b.drop_last());
    }
}

/// The asset bundle: the elements of one hat, the folder that it lives in,
/// and its name. No two of its elements have the same identity, at most
/// [`MAX_PETS`] of them are pets, and there is at most one wearable and at
/// most one pair of wings among them.
///
/// The elements are found by their identity, as [`element_map`] gives them,
/// and they are kept in the order in which they came: what is written down
/// for a hat names its elements and their images in that order, which a
/// table that is walked in no fixed order could not give twice alike.
#[derive(Debug)]
pub struct Hat {
    elements: Vec<HatElement>,
    path: HatPath,
    name: String,
    name_set_by_user: bool,
    id: HatId,
}

impl Hat {
    #[verifier::type_invariant]
    spec fn well_formed(&self) -> bool {
        elements_valid(self.elements@)
    }

    /// The elements, in the order in which their identities came into the
    /// hat.
    pub closed spec fn view_elements(&self) -> Seq<HatElement> {
        self.elements@
    }

    pub closed spec fn view_path(&self) -> PathView {
        self.path@
    }

    pub closed spec fn view_name(&self) -> Seq<char> {
        self.name@
    }

    pub closed spec fn view_name_set_by_user(&self) -> bool {
        self.name_set_by_user
    }

    pub closed spec fn view_id(&self) -> HatId {
        self.id
    }

    /// An empty hat in the folder `path`, with a fresh identity.
    pub fn new(path: &HatPath, name: &str, ids: &mut IdSource) -> (hat: Hat)
        ensures
            hat.view_elements() == Seq::<HatElement>::empty(),
            hat.view_path() == path@,
            hat.view_name() == name@,
            !hat.view_name_set_by_user(),
            hat.view_id().0 == old(ids).next_hat(),
            final(ids).next_hat() == id_after(old(ids).next_hat()),
            final(ids).next_frame() == old(ids).next_frame(),
            final(ids).next_element() == old(ids).next_element(),
    {
        let hat = Hat {
            elements: Vec::new(),
            path: path.duplicate(),
            name: String::from_str(name),
            name_set_by_user: false,
            id: hat_id(ids),
        };
        assert(hat.elements@ =~= Seq::<HatElement>::empty());
        hat
    }

    /// The file that holds what is stored of a hat in the folder `path`.
    pub fn data_path(path: &HatPath) -> (file: HatPath)
        ensures
            file@ == data_file(path@),
    {
        let mut parts: Vec<String> = Vec::new();
        parts.push(String::from_str("data.json"));
        let name = HatPath::from_parts(false, parts);
        assert(name@.parts =~= seq!["data.json"@]);
        path.join(&name)
    }

    /// The folder that holds the images of a hat in the folder `path`.
    pub fn images_path(path: &HatPath) -> (folder: HatPath)
        ensures
            folder@ == images_folder(path@),
    {
        let mut parts: Vec<String> = Vec::new();
        parts.push(String::from_str("images"));
        let name = HatPath::from_parts(false, parts);
        assert(name@.parts =~= seq!["images"@]);
        path.join(&name)
    }

    /// Tells whether a hat can be read from the folder `path`: the folder
    /// and its folder of images must be there. The error names the first of
    /// the two that is not.
    pub fn check_layout(path: &HatPath, root_exists: bool, images_exists: bool) -> (checked: Result<
        (),
        LoadError,
    >)
        ensures
            checked is Ok <==> root_exists && images_exists,
            checked matches Err(e) ==> e@ == (if !root_exists {
                LoadErrorView::MissingPath(path@)
            } else {
                LoadErrorView::MissingPath(images_folder(path@))
            }),
    {
        if !root_exists {
            return Err(LoadError::MissingPath(path.duplicate()));
        }
        if !images_exists {
            return Err(LoadError::MissingPath(Hat::images_path(path)));
        }
        Ok(())
    }

    /// A hat in the folder `path` to which each of `elements` was offered,
    /// in order.
    pub fn assemble(path: &HatPath, name: &str, elements: Vec<HatElement>, ids: &mut IdSource) -> (hat:
        Hat)
        ensures
            hat.view_elements() == offered(Seq::<HatElement>::empty(), elements@),
            hat.view_path() == path@,
            hat.view_name() == name@,
            !hat.view_name_set_by_user(),
            hat.view_id().0 == old(ids).next_hat(),
            final(ids).next_hat() == id_after(old(ids).next_hat()),
            final(ids).next_frame() == old(ids).next_frame(),
            final(ids).next_element() == old(ids).next_element(),
    {
        let mut hat = Hat::new(path, name, ids);
        let ghost all = elements@;
        let count = elements.len();
        let mut elements = elements;
        let mut done: usize = 0;
        assert(all.take(0) =~= Seq::<HatElement>::empty());
        while done < count
            invariant
                done <= count == all.len(),
                elements@ == all.skip(done as int),
                hat.view_elements() == offered(Seq::<HatElement>::empty(), all.take(done as int)),
                hat.view_path() == path@,
                hat.view_name() == name@,
                !hat.view_name_set_by_user(),
                hat.view_id().0 == old(ids).next_hat(),
            decreases count - done,
        {
            assert(elements@[0] == all[done as int]);
            let element = elements.remove(0);
            proof {
                assert(elements@ =~= all.skip(done + 1));
                assert(all.take(done + 1).drop_last() =~= all.take(done as int));
                assert(all.take(done + 1).last() == all[done as int]);
            }
            hat.add_element(element);
            done += 1;
        }
        assert(all.take(done as int) =~= all);
        hat
    }

    /// The hat that is stored in the folder `path`: `data` is what its data
    /// file holds, and `images` holds for each stored element, in order, the
    /// image at its stored path, or nothing if it could not be read. Each
    /// element is made and offered to the hat, in order. Where an element
    /// cannot be made, nothing is drawn from `ids`.
    pub fn load(path: &HatPath, data: HatData, images: Vec<Option<Bitmap>>, ids: &mut IdSource) -> (hat:
        Result<Hat, LoadError>)
        ensures
            hat is Ok <==> forall|k: int|
                0 <= k < data.elements@.len() ==> is_loadable(
                    #[trigger] data.elements@[k],
                    images@,
                    k,
                ),
            hat matches Ok(h) ==> h.view_path() == path@ && h.view_name() == data.name@
                && !h.view_name_set_by_user() && h.view_id().0 == old(ids).next_hat(),
            hat is Ok ==> final(ids).next_hat() == id_after(old(ids).next_hat()),
            hat is Ok ==> final(ids).next_element() == id_after_many(
                old(ids).next_element(),
                data.elements@.len(),
            ),
            hat matches Ok(h) ==> exists|offers: Seq<HatElement>|
                #![auto]
                are_loaded(offers, path@, data.elements@, images@, old(ids).next_element())
                    && h.view_elements() == offered(Seq::<HatElement>::empty(), offers),
            hat is Err ==> final(ids).next_hat() == old(ids).next_hat() && final(
                ids).next_element() == old(ids).next_element(),
            hat matches Err(e) ==> exists|at: int|
                #![auto]
                is_first_unloadable(data.elements@, images@, at) && e@ == load_error_of(
                    path@,
                    data.elements@[at],
                    images@,
                    at,
                ),
            final(ids).next_frame() == old(ids).next_frame(),
    {
        let HatData { elements, name } = data;
        match load_elements(path, elements, images, ids) {
            Err(e) => Err(e),
            Ok(loaded) => Ok(Hat::assemble(path, name.as_str(), loaded, ids)),
        }
    }

    pub fn is_empty(&self) -> (empty: bool)
        ensures
            empty == (self.view_elements().len() == 0),
    {
        self.elements.len() == 0
    }

    /// The place of the element with the given identity.
    fn position(&self, id: HatElementId) -> (place: Option<usize>)
        ensures
            place is Some <==> has_id(self.view_elements(), id),
            place matches Some(at) ==> at < self.view_elements().len() && at == index_of(
                self.view_elements(),
                id,
            ) && self.view_elements()[at as int].view_id() == id,
    {
        proof {
            use_type_invariant(self);
        }
        let mut i: usize = 0;
        while i < self.elements.len()
            invariant
                i <= self.elements@.len(),
                ids_distinct(self.elements@),
                forall|k: int| 0 <= k < i ==> (#[trigger] self.elements@[k]).view_id() != id,
            decreases self.elements.len() - i,
        {
            if self.elements[i].id == id {
                proof {
                    lemma_index_of(self.elements@, i as int);
                }
                return Some(i);
            }
            i += 1;
        }
        None
    }

    pub fn element(&self, id: HatElementId) -> (element: Option<&HatElement>)
        ensures
            element is Some <==> has_id(self.view_elements(), id),
            element matches Some(e) ==> *e == self.view_elements()[index_of(
                self.view_elements(),
                id,
            )] && e.view_id() == id,
    {
        match self.position(id) {
            Some(at) => Some(&self.elements[at]),
            None => None,
        }
    }

    pub fn element_exists(&self, id: HatElementId) -> (exists: bool)
        ensures
            exists == has_id(self.view_elements(), id),
    {
        self.position(id).is_some()
    }

    pub fn has_element_with_id(&self, hat_id: HatElementId) -> (exists: bool)
        ensures
            exists == has_id(self.view_elements(), hat_id),
    {
        self.position(hat_id).is_some()
    }

    /// The elements, in the order in which their identities came into the
    /// hat.
    pub fn elements(&self) -> (elements: &Vec<HatElement>)
        ensures
            elements@ == self.view_elements(),
            elements_valid(elements@),
    {
        proof {
            use_type_invariant(self);
        }
        &self.elements
    }

    pub fn pets_amount(&self) -> (amount: usize)
        ensures
            amount == pets_in(self.view_elements()),
            amount <= MAX_PETS,
    {
        proof {
            use_type_invariant(self);
        }
        let mut amount: usize = 0;
        let mut i: usize = 0;
        while i < self.elements.len()
            invariant
                i <= self.elements@.len(),
                amount == pets_in(self.elements@.take(i as int)),
                amount <= i,
            decreases self.elements.len() - i,
        {
            proof {
                assert(self.elements@.take(i + 1).drop_last() =~= self.elements@.take(i as int));
            }
            if self.elements[i].is_pet() {
                amount += 1;
            }
            i += 1;
        }
        assert(self.elements@.take(i as int) =~= self.elements@);
        amount
    }

    pub fn can_add_pets(&self) -> (can: bool)
        ensures
            can == (pets_in(self.view_elements()) < MAX_PETS),
    {
        self.pets_amount() < MAX_PETS
    }

    pub fn has_element(&self, hat_type: HatType) -> (has: bool)
        ensures
            has == has_kind(self.view_elements(), hat_type),
    {
        let mut i: usize = 0;
        while i < self.elements.len()
            invariant
                i <= self.elements@.len(),
                forall|k: int| 0 <= k < i ==> (#[trigger] self.elements@[k]).kind() != hat_type,
            decreases self.elements.len() - i,
        {
            if self.elements[i].data.base().hat_type == hat_type {
                return true;
            }
            i += 1;
        }
        false
    }

    /// The element that an inquiry for a kind finds.
    fn by_kind(&self, kind: HatType) -> (element: Option<&HatElement>)
        ensures
            element is Some <==> element_of_kind(self.view_elements(), kind) is Some,
            element matches Some(e) ==> Some(*e) == element_of_kind(self.view_elements(), kind),
    {
        let mut i: usize = 0;
        while i < self.elements.len()
            invariant
                i <= self.elements@.len(),
                forall|k: int| 0 <= k < i ==> (#[trigger] self.elements@[k]).kind() != kind,
            decreases self.elements.len() - i,
        {
            let element = &self.elements[i];
            if element.data.base().hat_type == kind {
                proof {
                    assert(is_first_of_kind(self.elements@, kind, i as int));
                    let chosen = choose|at: int| is_first_of_kind(self.elements@, kind, at);
                    assert(chosen == i) by {
                        if chosen < i {
                            assert(self.elements@[chosen].kind() != kind);
                        } else if i < chosen {
                            assert(self.elements@[i as int].kind() != kind);
                        }
                    }
                }
                return Some(element);
            }
            i += 1;
        }
        None
    }

    /// The wearable of the hat.
    pub fn wereable(&self) -> (element: Option<&HatElement>)
        ensures
            element is Some <==> element_of_kind(self.view_elements(), HatType::Wearable) is Some,
            element matches Some(e) ==> Some(*e) == element_of_kind(
                self.view_elements(),
                HatType::Wearable,
            ),
    {
        self.by_kind(HatType::Wearable)
    }

    /// The wings of the hat.
    pub fn wings(&self) -> (element: Option<&HatElement>)
        ensures
            element is Some <==> element_of_kind(self.view_elements(), HatType::Wings) is Some,
            element matches Some(e) ==> Some(*e) == element_of_kind(
                self.view_elements(),
                HatType::Wings,
            ),
    {
        self.by_kind(HatType::Wings)
    }

    /// The first extra of the hat.
    pub fn extra(&self) -> (element: Option<&HatElement>)
        ensures
            element is Some <==> element_of_kind(self.view_elements(), HatType::Extra) is Some,
            element matches Some(e) ==> Some(*e) == element_of_kind(
                self.view_elements(),
                HatType::Extra,
            ),
    {
        self.by_kind(HatType::Extra)
    }

    /// The first flying pet of the hat.
    pub fn flying_pet(&self) -> (element: Option<&HatElement>)
        ensures
            element is Some <==> element_of_kind(self.view_elements(), HatType::FlyingPet) is Some,
            element matches Some(e) ==> Some(*e) == element_of_kind(
                self.view_elements(),
                HatType::FlyingPet,
            ),
    {
        self.by_kind(HatType::FlyingPet)
    }

    /// The first walking pet of the hat.
    pub fn walking_pet(&self) -> (element: Option<&HatElement>)
        ensures
            element is Some <==> element_of_kind(self.view_elements(), HatType::WalkingPet) is Some,
            element matches Some(e) ==> Some(*e) == element_of_kind(
                self.view_elements(),
                HatType::WalkingPet,
            ),
    {
        self.by_kind(HatType::WalkingPet)
    }

    /// Whether a further element can be added at all: there is room for a
    /// pet, and one of the five kinds of element is not there yet.
    pub fn can_add_elements(&self) -> (can: bool)
        ensures
            can == (pets_in(self.view_elements()) < MAX_PETS && !(has_kind(
                self.view_elements(),
                HatType::Wearable,
            ) && has_kind(self.view_elements(), HatType::Wings) && has_kind(
                self.view_elements(),
                HatType::Extra,
            ) && has_kind(self.view_elements(), HatType::FlyingPet) && has_kind(
                self.view_elements(),
                HatType::WalkingPet,
            ))),
    {
        self.can_add_pets() && !(self.has_element(HatType::Wearable) && self.has_element(
            HatType::Wings,
        ) && self.has_element(HatType::Extra) && self.has_element(HatType::FlyingPet)
            && self.has_element(HatType::WalkingPet))
    }

    /// Offers an element to the hat. A pet beyond the fifth, and a second
    /// wearable or pair of wings, is dropped without a word.
    pub fn add_element(&mut self, element: HatElement)
        ensures
            final(self).view_elements() == with_element(old(self).view_elements(), element),
            final(self).view_path() == old(self).view_path(),
            final(self).view_name() == old(self).view_name(),
            final(self).view_name_set_by_user() == old(self).view_name_set_by_user(),
            final(self).view_id() == old(self).view_id(),
    {
        proof {
            use_type_invariant(&*self);
            use_type_invariant(&element);
            lemma_with_element_valid(self.elements@, element);
        }
        if element.is_pet() && !self.can_add_pets() {
            return;
        }
        if element.is_unique() && self.has_element(element.base().hat_type) {
            return;
        }
        let place = self.position(element.id());
        let mut elements: Vec<HatElement> = Vec::new();
        std::mem::swap(&mut self.elements, &mut elements);
        match place {
            Some(at) => {
                elements.set(at, element);
            },
            None => {
                elements.push(element);
            },
        }
        std::mem::swap(&mut self.elements, &mut elements);
    }

    /// Takes the element with the given identity out of the hat, if it is
    /// there.
    pub fn remove_element(&mut self, element_id: HatElementId)
        ensures
            final(self).view_elements() == without_element(old(self).view_elements(), element_id),
            final(self).view_path() == old(self).view_path(),
            final(self).view_name() == old(self).view_name(),
            final(self).view_name_set_by_user() == old(self).view_name_set_by_user(),
            final(self).view_id() == old(self).view_id(),
    {
        proof {
            use_type_invariant(&*self);
            lemma_without_element_valid(self.elements@, element_id);
        }
        let place = self.position(element_id);
        let mut elements: Vec<HatElement> = Vec::new();
        std::mem::swap(&mut self.elements, &mut elements);
        match place {
            Some(at) => {
                elements.remove(at);
            },
            None => {},
        }
        std::mem::swap(&mut self.elements, &mut elements);
    }

    /// Takes the element with the given identity out of the hat and hands
    /// it over, if it is there. An element that was changed comes back into
    /// the hat by [`Hat::add_element`], which looks at it anew.
    pub fn take_element(&mut self, element_id: HatElementId) -> (taken: Option<HatElement>)
        ensures
            final(self).view_elements() == without_element(old(self).view_elements(), element_id),
            taken is Some <==> has_id(old(self).view_elements(), element_id),
            taken matches Some(e) ==> e == old(self).view_elements()[index_of(
                old(self).view_elements(),
                element_id,
            )] && e.view_id() == element_id,
            final(self).view_path() == old(self).view_path(),
            final(self).view_name() == old(self).view_name(),
            final(self).view_name_set_by_user() == old(self).view_name_set_by_user(),
            final(self).view_id() == old(self).view_id(),
    {
        proof {
            use_type_invariant(&*self);
            lemma_without_element_valid(self.elements@, element_id);
        }
        let place = self.position(element_id);
        let mut elements: Vec<HatElement> = Vec::new();
        std::mem::swap(&mut self.elements, &mut elements);
        let taken = match place {
            Some(at) => Some(elements.remove(at)),
            None => None,
        };
        std::mem::swap(&mut self.elements, &mut elements);
        taken
    }

    /// The paths under which the images of the elements are stored, in
    /// order.
    pub fn stored_paths(&self, save_type: HatSaveType) -> (paths: Result<Vec<HatPath>, GenDataError>)
        ensures
            paths is Ok <==> stored_paths(self.view_elements(), self.view_path(), save_type) is Ok,
            paths matches Ok(list) ==> Ok::<Seq<PathView>, GenDataError>(
                crate::path_utils::path_views(list@),
            ) == stored_paths(self.view_elements(), self.view_path(), save_type),
            paths matches Err(e) ==> Err::<Seq<PathView>, GenDataError>(e) == stored_paths(
                self.view_elements(),
                self.view_path(),
                save_type,
            ),
    {
        let mut list: Vec<HatPath> = Vec::new();
        let mut i: usize = 0;
        assert(self.elements@.take(0) =~= Seq::<HatElement>::empty());
        assert(crate::path_utils::path_views(list@) =~= Seq::<PathView>::empty());
        while i < self.elements.len()
            invariant
                i <= self.elements@.len(),
                stored_paths(self.elements@.take(i as int), self.path@, save_type) == Ok::<
                    Seq<PathView>,
                    GenDataError,
                >(crate::path_utils::path_views(list@)),
            decreases self.elements.len() - i,
        {
            proof {
                assert(self.elements@.take(i + 1).drop_last() =~= self.elements@.take(i as int));
                assert(self.elements@.take(i + 1).last() == self.elements@[i as int]);
            }
            match self.elements[i].stored_path(&self.path, save_type) {
                Ok(path) => {
                    let ghost before = crate::path_utils::path_views(list@);
                    list.push(path);
                    assert(crate::path_utils::path_views(list@) =~= before.push(path@));
                },
                Err(e) => {
                    proof {
                        lemma_stored_paths_error(
                            self.elements@,
                            self.path@,
                            save_type,
                            i + 1,
                        );
                    }
                    return Err(e);
                },
            }
            i += 1;
        }
        assert(self.elements@.take(i as int) =~= self.elements@);
        Ok(list)
    }

    /// What is stored of the hat: its name and the settings of its elements,
    /// each with the path under which its image is stored. The frames of the
    /// stored animations get fresh identities. Where an image cannot be
    /// stored, nothing is drawn from `ids`.
    pub fn gen_hat_data(&self, save_type: HatSaveType, ids: &mut IdSource) -> (data: Result<
        HatData,
        GenDataError,
    >)
        ensures
            data is Ok <==> stored_paths(self.view_elements(), self.view_path(), save_type) is Ok,
            data matches Ok(d) ==> is_stored_form(
                d,
                *self,
                stored_paths(self.view_elements(), self.view_path(), save_type)->Ok_0,
            ) && final(ids).next_frame() == id_after_many(
                old(ids).next_frame(),
                frames_of(self.view_elements()),
            ),
            data matches Err(e) ==> Err::<Seq<PathView>, GenDataError>(e) == stored_paths(
                self.view_elements(),
                self.view_path(),
                save_type,
            ) && final(ids).next_frame() == old(ids).next_frame(),
            final(ids).next_element() == old(ids).next_element(),
            final(ids).next_hat() == old(ids).next_hat(),
    {
        let paths = match self.stored_paths(save_type) {
            Ok(paths) => paths,
            Err(e) => {
                return Err(e);
            },
        };
        let ghost stored = crate::path_utils::path_views(paths@);
        let ghost start = ids.next_frame();
        proof {
            lemma_stored_paths(self.elements@, self.path@, save_type);
        }
        let mut hat_data = HatData::new(self.name.clone());
        let mut i: usize = 0;
        assert(self.elements@.take(0) =~= Seq::<HatElement>::empty());
        while i < self.elements.len()
            invariant
                i <= self.elements@.len(),
                paths@.len() == self.elements@.len(),
                stored == crate::path_utils::path_views(paths@),
                hat_data.name@ == self.name@,
                hat_data.elements@.len() == i,
                forall|k: int|
                    0 <= k < i ==> (#[trigger] hat_data.elements@[k])@ == stored_element(
                        self.elements@[k],
                        stored[k],
                    ),
                ids.next_frame() == id_after_many(start, frames_of(self.elements@.take(i as int))),
                ids.next_element() == old(ids).next_element(),
                ids.next_hat() == old(ids).next_hat(),
            decreases self.elements.len() - i,
        {
            let element = &self.elements[i];
            let mut element_data = element.hat_element_data_ref().to_hat_element_data(ids);
            let base = element_data.base_mut();
            base.local_image_path = Some(paths[i].duplicate());
            proof {
                assert(self.elements@.take(i + 1).drop_last() =~= self.elements@.take(i as int));
                crate::ids::lemma_id_after_many_add(
                    start,
                    frames_of(self.elements@.take(i as int)),
                    element.view_data().frame_count(),
                );
            }
            hat_data.elements.push(element_data);
            i += 1;
        }
        assert(self.elements@.take(i as int) =~= self.elements@);
        Ok(hat_data)
    }

    /// The files that the hat needs on disk: its folder first, then the
    /// image and the script of each element, as far as it names them.
    pub fn files_to_check(&self) -> (files: Vec<HatPath>)
        ensures
            crate::path_utils::path_views(files@) == required_files(
                self.view_elements(),
                self.view_path(),
            ),
    {
        let mut files: Vec<HatPath> = Vec::new();
        files.push(self.path.duplicate());
        let mut i: usize = 0;
        assert(self.elements@.take(0) =~= Seq::<HatElement>::empty());
        assert(crate::path_utils::path_views(files@) =~= seq![self.path@]);
        while i < self.elements.len()
            invariant
                i <= self.elements@.len(),
                crate::path_utils::path_views(files@) == required_files(
                    self.elements@.take(i as int),
                    self.path@,
                ),
            decreases self.elements.len() - i,
        {
            let base = self.elements[i].data.base();
            let ghost before = crate::path_utils::path_views(files@);
            proof {
                assert(self.elements@.take(i + 1).drop_last() =~= self.elements@.take(i as int));
                assert(self.elements@.take(i + 1).last() == self.elements@[i as int]);
            }
            if let Some(path) = &base.local_image_path {
                files.push(self.path.join(path));
            }
            let ghost middle = crate::path_utils::path_views(files@);
            if let Some(path) = &base.local_script_path {
                files.push(self.path.join(path));
            }
            assert(crate::path_utils::path_views(files@) =~= before + element_files(
                self.elements@[i as int],
                self.path@,
            )) by {
                assert(middle =~= before + match base@.local_image_path {
                    Some(path) => seq![joined(self.path@, path)],
                    None => Seq::<PathView>::empty(),
                });
            }
            i += 1;
        }
        assert(self.elements@.take(i as int) =~= self.elements@);
        files
    }

    /// Tells whether every file that the hat needs is there. `present` holds
    /// one answer for each of the files of [`Hat::files_to_check`], in their
    /// order; a file without an answer counts as not found. The error names
    /// the first file that was not found.
    pub fn check_files_integrity(&self, present: &Vec<bool>) -> (checked: Result<(), MissingFile>)
        ensures
            checked is Ok <==> forall|k: int|
                0 <= k < required_files(self.view_elements(), self.view_path()).len()
                    ==> is_present(present@, k),
            checked matches Err(missing) ==> exists|at: int|
                #![auto]
                is_first_missing(
                    required_files(self.view_elements(), self.view_path()).len() as int,
                    present@,
                    at,
                ) && missing.path@ == required_files(self.view_elements(), self.view_path())[at],
    {
        let files = self.files_to_check();
        let ghost required = required_files(self.elements@, self.path@);
        assert(files@.len() == required.len());
        let mut i: usize = 0;
        while i < files.len()
            invariant
                i <= files@.len(),
                files@.len() == required.len(),
                required == required_files(self.view_elements(), self.view_path()),
                crate::path_utils::path_views(files@) == required,
                forall|k: int| 0 <= k < i ==> is_present(present@, k),
            decreases files.len() - i,
        {
            if i >= present.len() || !present[i] {
                assert(is_first_missing(required.len() as int, present@, i as int));
                assert(files@[i as int]@ == required[i as int]);
                return Err(MissingFile { path: files[i].duplicate() });
            }
            i += 1;
        }
        Ok(())
    }

    pub fn path(&self) -> (path: &HatPath)
        ensures
            path@ == self.view_path(),
    {
        &self.path
    }

    pub fn set_path(&mut self, path: HatPath)
        ensures
            final(self).view_path() == path@,
            final(self).view_elements() == old(self).view_elements(),
            final(self).view_name() == old(self).view_name(),
            final(self).view_name_set_by_user() == old(self).view_name_set_by_user(),
            final(self).view_id() == old(self).view_id(),
    {
        proof {
            use_type_invariant(&*self);
        }
        self.path = path;
    }

    pub fn name(&self) -> (name: &str)
        ensures
            name@ == self.view_name(),
    {
        self.name.as_str()
    }

    pub fn set_name(&mut self, name: String)
        ensures
            final(self).view_name() == name@,
            final(self).view_elements() == old(self).view_elements(),
            final(self).view_path() == old(self).view_path(),
            final(self).view_name_set_by_user() == old(self).view_name_set_by_user(),
            final(self).view_id() == old(self).view_id(),
    {
        proof {
            use_type_invariant(&*self);
        }
        self.name = name;
    }

    pub fn name_set_by_user(&self) -> (set: bool)
        ensures
            set == self.view_name_set_by_user(),
    {
        self.name_set_by_user
    }

    pub fn set_name_set_by_user(&mut self, set: bool)
        ensures
            final(self).view_name_set_by_user() == set,
            final(self).view_elements() == old(self).view_elements(),
            final(self).view_path() == old(self).view_path(),
            final(self).view_name() == old(self).view_name(),
            final(self).view_id() == old(self).view_id(),
    {
        proof {
            use_type_invariant(&*self);
        }
        self.name_set_by_user = set;
    }

    pub fn id(&self) -> (id: HatId)
        ensures
            id == self.view_id(),
    {
        self.id
    }
}

} // verus!
