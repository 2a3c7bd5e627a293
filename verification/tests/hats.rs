use hpp_editor::animations::{AnimType, Animation, Frame};
use hpp_editor::hats::{
    default_hat_data, load_elements, ElementError, GenDataError, Hat, HatElement, HatElementId,
    HatId, HatSaveType, IsPet, LoadError,
};
use hpp_editor::hats_data::{
    ExtraHatData, FlyingPetData, HatData, HatElementData, HatType, IVec2, WalkingPetData,
    WearableData, WingsData, MAX_PETS,
};
use hpp_editor::ids::IdSource;
use hpp_editor::image::{AseFrame, AseSheet, AseTag, Bitmap, Image};
use hpp_editor::path_utils::HatPath;
use hpp_editor::ui_text::Translatable;

fn bitmap(width: i32, height: i32) -> Bitmap {
    Bitmap::from_bytes(width, height, vec![0; 4 * width as usize * height as usize]).unwrap()
}

fn bitmap_at(path: &str) -> Bitmap {
    bitmap(64, 64).with_path(HatPath::parse(path))
}

fn data_of(kind: HatType) -> HatElementData {
    HatElementData::default_of(kind).unwrap()
}

fn extra_data() -> HatElementData {
    let mut data = ExtraHatData::default();
    data.base.hat_type = HatType::Extra;
    HatElementData::Extra(data)
}

fn element(data: HatElementData, ids: &mut IdSource) -> HatElement {
    HatElement::load(data, Image::Bitmap(bitmap(64, 64)), ids).unwrap()
}

fn element_at(data: HatElementData, path: &str, ids: &mut IdSource) -> HatElement {
    HatElement::load(data, Image::Bitmap(bitmap_at(path)), ids).unwrap()
}

fn hat(ids: &mut IdSource) -> Hat {
    Hat::new(&HatPath::parse("/hats/red"), "red", ids)
}

fn kinds(hat: &Hat) -> Vec<HatType> {
    hat.elements().iter().map(|e| e.base().hat_type).collect()
}

#[test]
fn new_hat_is_empty() {
    let mut ids = IdSource::new();
    let hat = hat(&mut ids);
    assert!(hat.is_empty());
    assert_eq!(hat.name(), "red");
    assert_eq!(hat.path().to_text(), "/hats/red");
    assert!(!hat.name_set_by_user());
    assert_eq!(hat.id(), HatId(0));
    assert_eq!(hat.pets_amount(), 0);
    assert!(hat.can_add_pets());
    assert!(hat.can_add_elements());
    let second = Hat::new(&HatPath::parse("/hats/blue"), "blue", &mut ids);
    assert_eq!(second.id(), HatId(1));
}

#[test]
fn sixth_pet_is_not_taken_in() {
    let mut ids = IdSource::new();
    let mut hat = hat(&mut ids);
    for i in 0..5 {
        let kind = if i % 2 == 0 { HatType::FlyingPet } else { HatType::WalkingPet };
        hat.add_element(element(data_of(kind), &mut ids));
    }
    assert_eq!(hat.pets_amount(), 5);
    assert!(!hat.can_add_pets());
    assert!(!hat.can_add_elements());
    for kind in [HatType::FlyingPet, HatType::WalkingPet] {
        let sixth = element(data_of(kind), &mut ids);
        let id = sixth.id();
        hat.add_element(sixth);
        assert_eq!(hat.pets_amount(), 5);
        assert_eq!(hat.elements().len(), 5);
        assert!(!hat.has_element_with_id(id));
    }
    assert_eq!(MAX_PETS, 5);
}

#[test]
fn pets_can_be_added_again_after_one_left() {
    let mut ids = IdSource::new();
    let mut hat = hat(&mut ids);
    let mut first = None;
    for _ in 0..5 {
        let pet = element(data_of(HatType::WalkingPet), &mut ids);
        first.get_or_insert(pet.id());
        hat.add_element(pet);
    }
    hat.remove_element(first.unwrap());
    assert_eq!(hat.pets_amount(), 4);
    hat.add_element(element(data_of(HatType::FlyingPet), &mut ids));
    assert_eq!(hat.pets_amount(), 5);
}

#[test]
fn second_wearable_is_not_taken_in() {
    let mut ids = IdSource::new();
    let mut hat = hat(&mut ids);
    let mut first_data = WearableData::default();
    first_data.strapped_on = true;
    let first = element(HatElementData::Wearable(first_data), &mut ids);
    let first_id = first.id();
    hat.add_element(first);
    let second = element(data_of(HatType::Wearable), &mut ids);
    let second_id = second.id();
    hat.add_element(second);
    assert_eq!(hat.elements().len(), 1);
    assert!(hat.has_element_with_id(first_id));
    assert!(!hat.has_element_with_id(second_id));
    match hat.wereable().unwrap().data() {
        HatElementData::Wearable(data) => assert!(data.strapped_on),
        _ => panic!("the wearable was replaced"),
    }
}

#[test]
fn second_pair_of_wings_is_not_taken_in() {
    let mut ids = IdSource::new();
    let mut hat = hat(&mut ids);
    let mut first_data = WingsData::default();
    first_data.glide_frame = 3;
    let first = element(HatElementData::Wings(first_data), &mut ids);
    let first_id = first.id();
    hat.add_element(first);
    let second = element(data_of(HatType::Wings), &mut ids);
    let second_id = second.id();
    hat.add_element(second);
    assert_eq!(hat.elements().len(), 1);
    assert_eq!(hat.wings().unwrap().id(), first_id);
    assert!(!hat.element_exists(second_id));
    match hat.wings().unwrap().data() {
        HatElementData::Wings(data) => assert_eq!(data.glide_frame, 3),
        _ => panic!("the wings were replaced"),
    }
}

#[test]
fn extras_may_be_many() {
    let mut ids = IdSource::new();
    let mut hat = hat(&mut ids);
    for _ in 0..8 {
        hat.add_element(element(extra_data(), &mut ids));
    }
    assert_eq!(hat.elements().len(), 8);
    assert_eq!(hat.pets_amount(), 0);
}

#[test]
fn a_new_extra_is_an_extra_and_no_pet() {
    let mut ids = IdSource::new();
    assert_eq!(ExtraHatData::default().base.hat_type, HatType::Extra);
    let extra = element(data_of(HatType::Extra), &mut ids);
    assert_eq!(extra.base().hat_type, HatType::Extra);
    assert!(!extra.is_pet());
    assert!(!extra.is_unique());
    assert!(extra.animations().is_none());
    let mut hat = hat(&mut ids);
    for _ in 0..7 {
        hat.add_element(element(data_of(HatType::Extra), &mut ids));
    }
    assert_eq!(hat.elements().len(), 7);
    assert_eq!(hat.pets_amount(), 0);
    assert!(hat.can_add_pets());
}

#[test]
fn elements_are_found_by_kind_and_identity() {
    let mut ids = IdSource::new();
    let mut hat = hat(&mut ids);
    let wearable = element(data_of(HatType::Wearable), &mut ids);
    let wearable_id = wearable.id();
    let flying = element(data_of(HatType::FlyingPet), &mut ids);
    let flying_id = flying.id();
    hat.add_element(wearable);
    hat.add_element(flying);
    hat.add_element(element(extra_data(), &mut ids));
    assert_eq!(wearable_id, HatElementId(1));
    assert_eq!(hat.wereable().unwrap().id(), wearable_id);
    assert_eq!(hat.flying_pet().unwrap().id(), flying_id);
    assert!(hat.extra().is_some());
    assert!(hat.wings().is_none());
    assert!(hat.walking_pet().is_none());
    assert!(hat.has_element(HatType::Wearable));
    assert!(hat.has_element(HatType::FlyingPet));
    assert!(!hat.has_element(HatType::Wings));
    assert!(!hat.has_element(HatType::Room));
    assert_eq!(hat.element(flying_id).unwrap().id(), flying_id);
    assert!(hat.element(HatElementId(99)).is_none());
    assert!(hat.element_exists(wearable_id));
    assert_eq!(kinds(&hat), vec![HatType::Wearable, HatType::FlyingPet, HatType::Extra]);
}

#[test]
fn settings_that_name_another_kind_make_no_element() {
    let mut ids = IdSource::new();
    let mut data = WearableData::default();
    data.base.hat_type = HatType::Wings;
    assert_eq!(
        HatElement::load(HatElementData::Wearable(data), Image::Bitmap(bitmap(64, 64)), &mut ids)
            .err(),
        Some(ElementError::KindMismatch)
    );
    let mut data = ExtraHatData::default();
    data.base.hat_type = HatType::WalkingPet;
    assert_eq!(
        HatElement::load(HatElementData::Extra(data), Image::Bitmap(bitmap(64, 64)), &mut ids)
            .err(),
        Some(ElementError::KindMismatch)
    );
    // the mismatch is told before the size of a frame
    let mut data = WingsData::default();
    data.base.hat_type = HatType::Room;
    data.base.frame_size = IVec2::new(1, 1);
    assert_eq!(
        HatElement::load(HatElementData::Wings(data), Image::Bitmap(bitmap(64, 64)), &mut ids)
            .err(),
        Some(ElementError::KindMismatch)
    );
    assert_eq!(ids.take_element(), 1);
}

#[test]
fn frames_out_of_range_make_no_element() {
    let mut ids = IdSource::new();
    for size in [IVec2::new(31, 32), IVec2::new(32, 65), IVec2::new(0, 0), IVec2::new(-32, 32)] {
        let mut data = FlyingPetData::default();
        data.base.frame_size = size;
        assert_eq!(
            HatElement::load(
                HatElementData::FlyingPet(data),
                Image::Bitmap(bitmap(64, 64)),
                &mut ids
            )
            .err(),
            Some(ElementError::FrameSizeOutOfRange)
        );
    }
    for size in [IVec2::new(32, 32), IVec2::new(64, 64), IVec2::new(32, 64), IVec2::new(50, 33)] {
        let mut data = FlyingPetData::default();
        data.base.frame_size = size;
        let pet = HatElement::load(
            HatElementData::FlyingPet(data),
            Image::Bitmap(bitmap(64, 64)),
            &mut ids,
        )
        .unwrap();
        assert_eq!(pet.base().frame_size, size);
        assert!(pet.base().has_frame_size_in_range());
    }
    // the frames of an authored file count, not what the settings said before
    let sheet = AseSheet::new(
        16,
        16,
        vec![AseFrame { pixels: vec![0; 4 * 16 * 16], duration: 1 }],
        vec![],
    )
    .unwrap();
    assert_eq!(
        HatElement::load(
            data_of(HatType::Wearable),
            Image::Aseprite(sheet, HatPath::parse("small.aseprite")),
            &mut ids
        )
        .err(),
        Some(ElementError::FrameSizeOutOfRange)
    );
    let sheet = AseSheet::new(
        48,
        48,
        vec![AseFrame { pixels: vec![0; 4 * 48 * 48], duration: 1 }],
        vec![],
    )
    .unwrap();
    let mut data = WearableData::default();
    data.base.frame_size = IVec2::new(7, 7);
    let wearable = HatElement::load(
        HatElementData::Wearable(data),
        Image::Aseprite(sheet, HatPath::parse("fine.aseprite")),
        &mut ids,
    )
    .unwrap();
    assert_eq!(wearable.base().frame_size, IVec2::new(48, 48));
    assert_eq!(wearable.id(), HatElementId(5));
}

#[test]
fn settings_of_an_element_are_replaced_only_by_valid_ones() {
    let mut ids = IdSource::new();
    let mut wings = element(data_of(HatType::Wings), &mut ids);
    let id = wings.id();
    let mut data = WingsData::default();
    data.glide_frame = 4;
    data.base.frame_size = IVec2::new(40, 44);
    assert!(wings.set_data(HatElementData::Wings(data)).is_ok());
    assert_eq!(wings.base().frame_size, IVec2::new(40, 44));
    let mut data = WingsData::default();
    data.base.frame_size = IVec2::new(40, 66);
    assert_eq!(
        wings.set_data(HatElementData::Wings(data)),
        Err(ElementError::FrameSizeOutOfRange)
    );
    let mut data = WingsData::default();
    data.base.hat_type = HatType::Wearable;
    assert_eq!(wings.set_data(HatElementData::Wings(data)), Err(ElementError::KindMismatch));
    assert_eq!(wings.base().frame_size, IVec2::new(40, 44));
    assert_eq!(wings.id(), id);
    match wings.data() {
        HatElementData::Wings(data) => assert_eq!(data.glide_frame, 4),
        _ => panic!("not wings"),
    }
    assert_eq!(ElementError::KindMismatch.message(), "the settings name another kind than their own");
    assert_eq!(ElementError::NotAnElement.message(), "a room is no element");
    assert_eq!(
        ElementError::FrameSizeOutOfRange.message(),
        "a frame must be 32 to 64 pixels wide and high"
    );
}

#[test]
fn removing_takes_one_element_out() {
    let mut ids = IdSource::new();
    let mut hat = hat(&mut ids);
    let a = element(data_of(HatType::Wearable), &mut ids);
    let a_id = a.id();
    let b = element(data_of(HatType::Wings), &mut ids);
    let b_id = b.id();
    hat.add_element(a);
    hat.add_element(b);
    hat.remove_element(HatElementId(1234));
    assert_eq!(hat.elements().len(), 2);
    hat.remove_element(a_id);
    assert_eq!(hat.elements().len(), 1);
    assert!(!hat.has_element_with_id(a_id));
    assert!(hat.has_element_with_id(b_id));
    hat.remove_element(a_id);
    assert_eq!(hat.elements().len(), 1);
    hat.remove_element(b_id);
    assert!(hat.is_empty());
}

#[test]
fn a_hat_with_every_kind_takes_no_more() {
    let mut ids = IdSource::new();
    let mut hat = hat(&mut ids);
    hat.add_element(element(data_of(HatType::Wearable), &mut ids));
    hat.add_element(element(data_of(HatType::Wings), &mut ids));
    hat.add_element(element(extra_data(), &mut ids));
    hat.add_element(element(data_of(HatType::FlyingPet), &mut ids));
    assert!(hat.can_add_elements());
    hat.add_element(element(data_of(HatType::WalkingPet), &mut ids));
    assert!(hat.can_add_pets());
    assert!(!hat.can_add_elements());
}

#[test]
fn frames_amount_counts_whole_cells() {
    let mut ids = IdSource::new();
    let mut data = WearableData::default();
    data.base.frame_size = IVec2::new(32, 48);
    let wearable = HatElement::load(
        HatElementData::Wearable(data),
        Image::Bitmap(bitmap(100, 100)),
        &mut ids,
    )
    .unwrap();
    assert_eq!(wearable.frames_amount(), 3 * 2);
    let default = element(data_of(HatType::Wings), &mut ids);
    assert_eq!(default.frames_amount(), 2 * 2);
}

#[test]
fn an_authored_file_replaces_frame_size_and_animations() {
    let mut ids = IdSource::new();
    let frames = (0..5u8).map(|i| AseFrame { pixels: vec![i; 4 * 40 * 36], duration: 100 }).collect();
    let tags = vec![AseTag { name: "OnDuckWalk".to_string(), from_frame: 0, to_frame: 4 }];
    let sheet = AseSheet::new(40, 36, frames, tags).unwrap();
    let mut data = WearableData::default();
    data.animations.push(Animation::new(
        AnimType::OnDefault,
        5,
        true,
        vec![Frame::new(0, &mut ids)],
    ));
    let wearable = HatElement::load(
        HatElementData::Wearable(data),
        Image::Aseprite(sheet, HatPath::parse("/x/w.aseprite")),
        &mut ids,
    )
    .unwrap();
    assert_eq!(wearable.base().frame_size, IVec2::new(40, 36));
    let animations = wearable.animations().unwrap();
    assert_eq!(animations.len(), 1);
    assert_eq!(animations[0].anim_type, AnimType::OnDuckWalk);
    assert_eq!(animations[0].frames.len(), 5);
    assert_eq!(animations[0].frames[4].value, 4);
    assert_eq!(wearable.bitmap().width(), 3 * 40);
    assert_eq!(wearable.bitmap().height(), 2 * 36);
    assert_eq!(wearable.frames_amount(), 6);
}

#[test]
fn an_authored_file_gives_an_extra_only_its_frame_size() {
    let mut ids = IdSource::new();
    let sheet = AseSheet::new(
        33,
        34,
        vec![AseFrame { pixels: vec![0; 4 * 33 * 34], duration: 1 }],
        vec![AseTag { name: "ondefault".to_string(), from_frame: 0, to_frame: 0 }],
    )
    .unwrap();
    let extra = HatElement::load_from_image(
        HatType::Extra,
        Image::Aseprite(sheet, HatPath::parse("e.aseprite")),
        &mut ids,
    )
    .unwrap();
    assert_eq!(extra.base().frame_size, IVec2::new(33, 34));
    assert!(extra.animations().is_none());
    assert_eq!(
        HatElement::load_from_image(HatType::Room, Image::Bitmap(bitmap(1, 1)), &mut ids).err(),
        Some(ElementError::NotAnElement)
    );
}

#[test]
fn archive_paths_are_made_from_identities() {
    let mut ids = IdSource::new();
    let mut hat = hat(&mut ids);
    hat.add_element(element(data_of(HatType::Wearable), &mut ids));
    hat.add_element(element_at(data_of(HatType::Wings), "/elsewhere/wings.png", &mut ids));
    let stored = hat.gen_hat_data(HatSaveType::File, &mut ids).unwrap();
    assert_eq!(stored.name, "red");
    assert_eq!(stored.elements.len(), 2);
    for (data, element) in stored.elements.iter().zip(hat.elements()) {
        let expected = format!("images/{}.png", element.id().0);
        assert_eq!(data.base().local_image_path.as_ref().unwrap().to_text(), expected);
    }
    assert_eq!(
        stored.elements[0].base().local_image_path.as_ref().unwrap().to_text(),
        "images/1.png"
    );
}

#[test]
fn folder_paths_are_relative_to_the_hat() {
    let mut ids = IdSource::new();
    let mut hat = hat(&mut ids);
    let mut wings = WingsData::default();
    wings.delay = 150;
    wings.crouch_offset = IVec2::new(1, -2);
    hat.add_element(element_at(HatElementData::Wings(wings), "/hats/red/images/wings.png", &mut ids));
    hat.add_element(element_at(extra_data(), "/hats/red/extra.png", &mut ids));
    let stored = hat.gen_hat_data(HatSaveType::Folder, &mut ids).unwrap();
    assert_eq!(
        stored.elements[0].base().local_image_path.as_ref().unwrap().to_text(),
        "images/wings.png"
    );
    assert_eq!(
        stored.elements[1].base().local_image_path.as_ref().unwrap().to_text(),
        "extra.png"
    );
    match &stored.elements[0] {
        HatElementData::Wings(data) => {
            assert_eq!(data.delay, 150);
            assert_eq!(data.crouch_offset, IVec2::new(1, -2));
        }
        _ => panic!("the wings changed their kind"),
    }
}

#[test]
fn an_image_outside_the_hat_cannot_be_stored_in_its_folder() {
    let mut ids = IdSource::new();
    let mut hat = hat(&mut ids);
    let inside = element_at(data_of(HatType::Wearable), "/hats/red/images/a.png", &mut ids);
    let outside = element_at(data_of(HatType::Wings), "/hats/blue/images/a.png", &mut ids);
    let outside_id = outside.id();
    let pathless = element(extra_data(), &mut ids);
    let pathless_id = pathless.id();
    hat.add_element(inside);
    hat.add_element(outside);
    hat.add_element(pathless);
    assert_eq!(
        hat.gen_hat_data(HatSaveType::Folder, &mut ids).err(),
        Some(GenDataError::ImageOutsideRoot(outside_id))
    );
    hat.remove_element(outside_id);
    assert_eq!(
        hat.gen_hat_data(HatSaveType::Folder, &mut ids).err(),
        Some(GenDataError::ImageWithoutPath(pathless_id))
    );
    assert!(hat.gen_hat_data(HatSaveType::File, &mut ids).is_ok());
}

#[test]
fn integrity_needs_the_folder_and_every_named_file() {
    let mut ids = IdSource::new();
    let mut hat = hat(&mut ids);
    let mut wearable = WearableData::default();
    wearable.base.local_image_path = Some(HatPath::parse("images/w.png"));
    wearable.base.local_script_path = Some(HatPath::parse("src/w.lua"));
    let mut pet = FlyingPetData::default();
    pet.base.local_image_path = Some(HatPath::parse("images/p.png"));
    hat.add_element(element(HatElementData::Wearable(wearable), &mut ids));
    hat.add_element(element(extra_data(), &mut ids));
    hat.add_element(element(HatElementData::FlyingPet(pet), &mut ids));
    let files: Vec<String> = hat.files_to_check().iter().map(|p| p.to_text()).collect();
    assert_eq!(
        files,
        vec![
            "/hats/red",
            "/hats/red/images/w.png",
            "/hats/red/src/w.lua",
            "/hats/red/images/p.png"
        ]
    );
    assert!(hat.check_files_integrity(&vec![true, true, true, true]).is_ok());
    assert!(hat.check_files_integrity(&vec![true, true, true, true, false]).is_ok());
    let missing = hat.check_files_integrity(&vec![true, false, true, false]).err().unwrap();
    assert_eq!(missing.path.to_text(), "/hats/red/images/w.png");
    assert_eq!(missing.message(), "\"/hats/red/images/w.png\" does not exist");
    let missing = hat.check_files_integrity(&vec![true, true, false, true]).err().unwrap();
    assert_eq!(missing.path.to_text(), "/hats/red/src/w.lua");
    let missing = hat.check_files_integrity(&vec![false, true, true, true]).err().unwrap();
    assert_eq!(missing.path.to_text(), "/hats/red");
    let missing = hat.check_files_integrity(&vec![true, true, true]).err().unwrap();
    assert_eq!(missing.path.to_text(), "/hats/red/images/p.png");
}

#[test]
fn an_image_deleted_after_loading_fails_the_integrity_check() {
    let mut ids = IdSource::new();
    let root = HatPath::parse("/hats/red");
    let mut wearable = WearableData::default();
    wearable.base.local_image_path = Some(HatPath::parse("images/w.png"));
    let data = HatData { elements: vec![HatElementData::Wearable(wearable)], name: "red".to_string() };
    let hat = Hat::load(&root, data, vec![Some(bitmap(32, 32))], &mut ids).unwrap();
    assert!(hat.check_files_integrity(&vec![true, true]).is_ok());
    let missing = hat.check_files_integrity(&vec![true, false]).err().unwrap();
    assert_eq!(missing.path.to_text(), "/hats/red/images/w.png");
}

#[test]
fn layout_needs_the_folder_and_its_images() {
    let root = HatPath::parse("/hats/red");
    assert_eq!(Hat::data_path(&root).to_text(), "/hats/red/data.json");
    assert_eq!(Hat::images_path(&root).to_text(), "/hats/red/images");
    assert!(Hat::check_layout(&root, true, true).is_ok());
    match Hat::check_layout(&root, false, true) {
        Err(LoadError::MissingPath(path)) => assert_eq!(path.to_text(), "/hats/red"),
        other => panic!("unexpected {:?}", other),
    }
    match Hat::check_layout(&root, false, false) {
        Err(LoadError::MissingPath(path)) => assert_eq!(path.to_text(), "/hats/red"),
        other => panic!("unexpected {:?}", other),
    }
    match Hat::check_layout(&root, true, false) {
        Err(LoadError::MissingPath(path)) => assert_eq!(path.to_text(), "/hats/red/images"),
        other => panic!("unexpected {:?}", other),
    }
    let data = default_hat_data();
    assert_eq!(data.name, "Default");
    assert!(data.elements.is_empty());
}

#[test]
fn loading_makes_one_element_for_each_stored_one() {
    let mut ids = IdSource::new();
    let root = HatPath::parse("/hats/red");
    let mut wearable = WearableData::default();
    wearable.base.local_image_path = Some(HatPath::parse("images/w.png"));
    let mut pet = WalkingPetData::default();
    pet.base.local_image_path = Some(HatPath::parse("images/p.png"));
    pet.pet_base.distance = 33;
    let data = HatData {
        elements: vec![HatElementData::Wearable(wearable), HatElementData::WalkingPet(pet)],
        name: "red".to_string(),
    };
    let hat = Hat::load(&root, data, vec![Some(bitmap(64, 32)), Some(bitmap(32, 32))], &mut ids)
        .unwrap();
    assert_eq!(hat.name(), "red");
    assert_eq!(hat.path().to_text(), "/hats/red");
    assert_eq!(kinds(&hat), vec![HatType::Wearable, HatType::WalkingPet]);
    assert_eq!(hat.elements()[0].id(), HatElementId(1));
    assert_eq!(hat.elements()[1].id(), HatElementId(2));
    assert_eq!(hat.elements()[0].bitmap().path().unwrap().to_text(), "/hats/red/images/w.png");
    assert_eq!(hat.elements()[0].bitmap().width(), 64);
    match hat.walking_pet().unwrap().data() {
        HatElementData::WalkingPet(data) => assert_eq!(data.pet_base.distance, 33),
        _ => panic!("the pet changed its kind"),
    }
}

#[test]
fn loading_fails_at_the_first_element_without_an_image() {
    let mut ids = IdSource::new();
    let root = HatPath::parse("/hats/red");
    let stored = |path: Option<&str>| {
        let mut data = ExtraHatData::default();
        data.base.local_image_path = path.map(HatPath::parse);
        HatElementData::Extra(data)
    };
    let elements = vec![stored(Some("images/a.png")), stored(None), stored(Some("images/c.png"))];
    match load_elements(&root, elements, vec![Some(bitmap(1, 1)), None, None], &mut ids) {
        Err(LoadError::ElementWithoutImage(at)) => assert_eq!(at, 1),
        other => panic!("unexpected {:?}", other),
    }
    let elements = vec![stored(Some("images/a.png")), stored(Some("images/b.png"))];
    match load_elements(&root, elements, vec![Some(bitmap(1, 1)), None], &mut ids) {
        Err(LoadError::UnreadableImage(path)) => assert_eq!(path.to_text(), "/hats/red/images/b.png"),
        other => panic!("unexpected {:?}", other),
    }
    let elements = vec![stored(Some("images/a.png")), stored(Some("images/b.png"))];
    match load_elements(&root, elements, vec![Some(bitmap(1, 1))], &mut ids) {
        Err(LoadError::UnreadableImage(path)) => assert_eq!(path.to_text(), "/hats/red/images/b.png"),
        other => panic!("unexpected {:?}", other),
    }
    let mut wrong = ExtraHatData::default();
    wrong.base.local_image_path = Some(HatPath::parse("images/b.png"));
    wrong.base.frame_size = IVec2::new(8, 8);
    let elements = vec![stored(Some("images/a.png")), HatElementData::Extra(wrong)];
    match load_elements(&root, elements, vec![Some(bitmap(1, 1)), Some(bitmap(1, 1))], &mut ids) {
        Err(LoadError::InvalidElement(at, error)) => {
            assert_eq!(at, 1);
            assert_eq!(error, ElementError::FrameSizeOutOfRange);
        }
        other => panic!("unexpected {:?}", other),
    }
    let mut wrong = WalkingPetData::default();
    wrong.base.local_image_path = Some(HatPath::parse("images/a.png"));
    wrong.base.hat_type = HatType::FlyingPet;
    let elements = vec![HatElementData::WalkingPet(wrong), stored(None)];
    match load_elements(&root, elements, vec![Some(bitmap(1, 1)), None], &mut ids) {
        Err(LoadError::InvalidElement(at, error)) => {
            assert_eq!(at, 0);
            assert_eq!(error, ElementError::KindMismatch);
        }
        other => panic!("unexpected {:?}", other),
    }
    // nothing was drawn from the identities by the failures
    let hat = Hat::load(&root, default_hat_data(), vec![], &mut ids).unwrap();
    assert_eq!(hat.id(), HatId(0));
    assert_eq!(hpp_editor::hats::hat_element_id(&mut ids), HatElementId(1));
}

#[test]
fn writing_down_and_reading_again_keeps_every_element() {
    let mut ids = IdSource::new();
    let root = HatPath::parse("/hats/red");
    let mut hat = Hat::new(&root, "red", &mut ids);
    let mut wearable = WearableData::default();
    wearable.strapped_on = true;
    wearable.base.frame_size = IVec2::new(48, 64);
    wearable.animations.push(Animation::new(
        AnimType::OnDuckGlide,
        125,
        true,
        vec![Frame::new(2, &mut ids), Frame::with_delay(3, 500, &mut ids)],
    ));
    let mut wings = WingsData::default();
    wings.net_offset = IVec2::new(4, 5);
    wings.idle_frame = 2;
    let mut flying = FlyingPetData::default();
    flying.speed = 12;
    hat.add_element(element_at(HatElementData::Wearable(wearable), "/hats/red/images/w.png", &mut ids));
    hat.add_element(element_at(HatElementData::Wings(wings), "/hats/red/images/wings.png", &mut ids));
    hat.add_element(element_at(HatElementData::FlyingPet(flying), "/hats/red/images/f.png", &mut ids));
    hat.add_element(element_at(extra_data(), "/hats/red/images/e.png", &mut ids));

    let stored = hat.gen_hat_data(HatSaveType::Folder, &mut ids).unwrap();
    let images = hat.elements().iter().map(|_| Some(bitmap(64, 64))).collect();
    let again = Hat::load(&root, stored, images, &mut ids).unwrap();

    assert_eq!(again.name(), hat.name());
    assert_eq!(kinds(&again), kinds(&hat));
    for (new, old) in again.elements().iter().zip(hat.elements()) {
        assert_eq!(new.base().frame_size, old.base().frame_size);
        assert_eq!(
            new.bitmap().path().unwrap().to_text(),
            old.bitmap().path().unwrap().to_text()
        );
        assert_ne!(new.id(), old.id());
    }
    match again.wereable().unwrap().data() {
        HatElementData::Wearable(data) => {
            assert!(data.strapped_on);
            assert_eq!(data.animations.len(), 1);
            assert_eq!(data.animations[0].anim_type, AnimType::OnDuckGlide);
            assert_eq!(data.animations[0].delay, 125);
            assert!(data.animations[0].looping);
            assert_eq!(data.animations[0].frames[0].value, 2);
            assert_eq!(data.animations[0].frames[1].delay, Some(500));
        }
        _ => panic!("the wearable changed its kind"),
    }
    match again.wings().unwrap().data() {
        HatElementData::Wings(data) => {
            assert_eq!(data.net_offset, IVec2::new(4, 5));
            assert_eq!(data.idle_frame, 2);
        }
        _ => panic!("the wings changed their kind"),
    }
    match again.flying_pet().unwrap().data() {
        HatElementData::FlyingPet(data) => assert_eq!(data.speed, 12),
        _ => panic!("the pet changed its kind"),
    }
    let twice = again.gen_hat_data(HatSaveType::Folder, &mut ids).unwrap();
    assert_eq!(
        twice.elements[3].base().local_image_path.as_ref().unwrap().to_text(),
        "images/e.png"
    );
}

#[test]
fn assembling_offers_each_element_in_order() {
    let mut ids = IdSource::new();
    let elements = vec![
        element(data_of(HatType::Wearable), &mut ids),
        element(data_of(HatType::Wearable), &mut ids),
        element(data_of(HatType::Wings), &mut ids),
    ];
    let hat = Hat::assemble(&HatPath::parse("/h"), "h", elements, &mut ids);
    assert_eq!(kinds(&hat), vec![HatType::Wearable, HatType::Wings]);
    assert_eq!(hat.elements()[0].id(), HatElementId(1));
    assert_eq!(hat.elements()[1].id(), HatElementId(3));
}

#[test]
fn hat_can_be_renamed_and_moved() {
    let mut ids = IdSource::new();
    let mut hat = hat(&mut ids);
    hat.set_name("blue".to_string());
    hat.set_name_set_by_user(true);
    hat.set_path(HatPath::parse("/hats/blue"));
    assert_eq!(hat.name(), "blue");
    assert!(hat.name_set_by_user());
    assert_eq!(hat.path().to_text(), "/hats/blue");
}

#[test]
fn kinds_have_their_names_as_keys() {
    assert_eq!(HatType::Wearable.translate_key(), "Wearable");
    assert_eq!(HatType::Wings.translate_key(), "Wings");
    assert_eq!(HatType::Extra.translate_key(), "Extra");
    assert_eq!(HatType::FlyingPet.translate_key(), "FlyingPet");
    assert_eq!(HatType::WalkingPet.translate_key(), "WalkingPet");
    assert_eq!(HatType::Room.translate_key(), "Room");
    assert_eq!(HatType::default(), HatType::Wearable);
}

#[test]
fn new_elements_have_the_smallest_frames() {
    for kind in [HatType::Wearable, HatType::Wings, HatType::FlyingPet, HatType::WalkingPet] {
        let data = data_of(kind);
        assert_eq!(data.base().hat_type, kind);
        assert_eq!(data.base().frame_size, IVec2::splat(32));
        assert!(data.base().local_image_path.is_none());
        assert!(data.base().local_script_path.is_none());
        assert!(data.base().has_frame_size_in_range());
        assert_eq!(data.animations().unwrap().len(), 0);
    }
    assert!(HatElementData::default_of(HatType::Room).is_none());
    match data_of(HatType::FlyingPet) {
        HatElementData::FlyingPet(data) => {
            assert_eq!(data.speed, 0);
            assert_eq!(data.pet_base.distance, 10);
            assert!(!data.pet_base.flipped);
        }
        _ => panic!("not a flying pet"),
    }
    let mut data = data_of(HatType::Wearable);
    data.base_mut().frame_size = IVec2::new(65, 32);
    assert!(!data.base().has_frame_size_in_range());
}

#[test]
fn an_element_can_be_taken_out_changed_and_put_back() {
    let mut ids = IdSource::new();
    let mut hat = hat(&mut ids);
    let wings = element(data_of(HatType::Wings), &mut ids);
    let id = wings.id();
    hat.add_element(wings);
    hat.add_element(element(extra_data(), &mut ids));
    assert!(hat.take_element(HatElementId(500)).is_none());
    let mut taken = hat.take_element(id).unwrap();
    assert_eq!(hat.elements().len(), 1);
    let mut data = WingsData::default();
    data.base.frame_size = IVec2::new(40, 40);
    data.glide_frame = 9;
    taken.set_data(HatElementData::Wings(data)).unwrap();
    assert_eq!(taken.id(), id);
    hat.add_element(taken);
    assert_eq!(hat.elements().len(), 2);
    let wings = hat.wings().unwrap();
    assert_eq!(wings.id(), id);
    assert_eq!(wings.base().frame_size, IVec2::new(40, 40));
    match wings.hat_element_data_ref() {
        hpp_editor::hats_data::HatElementDataRef::Wings(data) => assert_eq!(data.glide_frame, 9),
        _ => panic!("not wings"),
    }
}

#[test]
fn an_element_with_a_known_identity_takes_the_place_of_the_old_one() {
    let mut ids = IdSource::new();
    let mut first = hat(&mut ids);
    let mut second = hat(&mut ids);
    let wearable = element(data_of(HatType::Wearable), &mut ids);
    let extra = element(extra_data(), &mut ids);
    let id = extra.id();
    first.add_element(wearable);
    first.add_element(extra);
    first.add_element(element(data_of(HatType::Wings), &mut ids));
    // the same element comes back changed: it keeps its place
    let mut changed = first.take_element(id).unwrap();
    let mut data = ExtraHatData::default();
    data.base.frame_size = IVec2::new(64, 64);
    changed.set_data(HatElementData::Extra(data)).unwrap();
    second.add_element(changed);
    let changed = second.take_element(id).unwrap();
    first.add_element(element(extra_data(), &mut ids));
    first.add_element(changed);
    assert_eq!(first.elements().len(), 4);
    assert_eq!(first.elements()[3].id(), id);
    assert_eq!(
        kinds(&first),
        vec![HatType::Wearable, HatType::Wings, HatType::Extra, HatType::Extra]
    );
}
