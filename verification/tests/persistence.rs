use hpp_editor::archive::{data_entry, image_entries, write_archive};
use hpp_editor::hats::{GenDataError, Hat, HatElement, HatSaveType};
use hpp_editor::hats_data::{HatElementData, HatType, IVec2, WearableData, WingsData};
use hpp_editor::ids::IdSource;
use hpp_editor::image::{Bitmap, Image};
use hpp_editor::path_utils::HatPath;
use hpp_editor::persistence::{
    temp_path, temp_path_with, write_step, SaveError, WriteAction, WriteFailure, WriteOutcome,
    WriteState,
};
use std::collections::BTreeMap;
use std::io::Read;

/// A disk in memory whose operations can be made to fail.
struct Disk {
    files: BTreeMap<String, Vec<u8>>,
    fail_write: bool,
    fail_delete: bool,
    fail_cleanup: bool,
    fail_rename: bool,
}

fn disk(files: &[(&str, &[u8])]) -> Disk {
    Disk {
        files: files.iter().map(|(path, content)| (path.to_string(), content.to_vec())).collect(),
        fail_write: false,
        fail_delete: false,
        fail_cleanup: false,
        fail_rename: false,
    }
}

fn replace(disk: &mut Disk, destination: &str, temp: &str, content: &[u8]) -> WriteOutcome {
    let mut state = WriteState::Start;
    let mut answer = true;
    for _ in 0..10 {
        let (next, action) = write_step(state, answer);
        state = next;
        answer = match action {
            WriteAction::WriteTemp => {
                if !disk.fail_write {
                    disk.files.insert(temp.to_string(), content.to_vec());
                }
                !disk.fail_write
            }
            WriteAction::ProbeDestination => disk.files.contains_key(destination),
            WriteAction::DeleteDestination => {
                if !disk.fail_delete {
                    disk.files.remove(destination);
                }
                !disk.fail_delete
            }
            WriteAction::DeleteTemp => {
                if !disk.fail_cleanup {
                    disk.files.remove(temp);
                }
                !disk.fail_cleanup
            }
            WriteAction::Rename => {
                if !disk.fail_rename {
                    let moved = disk.files.remove(temp).unwrap();
                    disk.files.insert(destination.to_string(), moved);
                }
                !disk.fail_rename
            }
            WriteAction::Finish(outcome) => return outcome,
        };
    }
    panic!("the write did not come to an end");
}

#[test]
fn replacing_a_file_writes_then_deletes_then_renames() {
    let mut state = WriteState::Start;
    let mut actions = Vec::new();
    let answers = [true, true, true, true, true];
    for answer in answers {
        let (next, action) = write_step(state, answer);
        state = next;
        actions.push(action);
    }
    assert_eq!(
        actions,
        vec![
            WriteAction::WriteTemp,
            WriteAction::ProbeDestination,
            WriteAction::DeleteDestination,
            WriteAction::Rename,
            WriteAction::Finish(WriteOutcome::Done),
        ]
    );
    assert_eq!(state, WriteState::Finished(WriteOutcome::Done));
    assert_eq!(write_step(state, false), (state, WriteAction::Finish(WriteOutcome::Done)));
}

#[test]
fn a_new_file_is_written_without_deleting() {
    let mut disk = disk(&[("other", b"x")]);
    assert_eq!(replace(&mut disk, "data.json", "data.json_t", b"new"), WriteOutcome::Done);
    assert_eq!(disk.files.get("data.json").unwrap(), b"new");
    assert!(!disk.files.contains_key("data.json_t"));
    assert_eq!(disk.files.get("other").unwrap(), b"x");
    let (state, _) = write_step(WriteState::Probing, false);
    assert_eq!(state, WriteState::Renaming);
}

#[test]
fn an_old_file_is_replaced() {
    let mut disk = disk(&[("data.json", b"old")]);
    assert_eq!(replace(&mut disk, "data.json", "data.json_t", b"new"), WriteOutcome::Done);
    assert_eq!(disk.files.get("data.json").unwrap(), b"new");
    assert_eq!(disk.files.len(), 1);
}

#[test]
fn a_failed_delete_leaves_the_old_file_and_no_temporary_file() {
    let mut disk = disk(&[("data.json", b"old"), ("other", b"x")]);
    disk.fail_delete = true;
    assert_eq!(
        replace(&mut disk, "data.json", "data.json_t", b"new"),
        WriteOutcome::Failed(WriteFailure::DeleteDestination)
    );
    assert_eq!(disk.files.get("data.json").unwrap(), b"old");
    assert!(!disk.files.contains_key("data.json_t"));
    assert_eq!(disk.files.len(), 2);
}

#[test]
fn a_failed_clean_up_is_reported() {
    let mut disk = disk(&[("data.json", b"old")]);
    disk.fail_delete = true;
    disk.fail_cleanup = true;
    assert_eq!(
        replace(&mut disk, "data.json", "data.json_t", b"new"),
        WriteOutcome::Failed(WriteFailure::RemoveTemp)
    );
    assert_eq!(disk.files.get("data.json").unwrap(), b"old");
    assert_eq!(disk.files.get("data.json_t").unwrap(), b"new");
}

#[test]
fn a_failed_write_touches_nothing_else() {
    let mut disk = disk(&[("data.json", b"old")]);
    disk.fail_write = true;
    assert_eq!(
        replace(&mut disk, "data.json", "data.json_t", b"new"),
        WriteOutcome::Failed(WriteFailure::Write)
    );
    assert_eq!(disk.files.get("data.json").unwrap(), b"old");
    assert_eq!(disk.files.len(), 1);
}

#[test]
fn a_failed_rename_is_reported() {
    let mut disk = disk(&[("data.json", b"old")]);
    disk.fail_rename = true;
    assert_eq!(
        replace(&mut disk, "data.json", "data.json_t", b"new"),
        WriteOutcome::Failed(WriteFailure::Rename)
    );
    assert!(!disk.files.contains_key("data.json"));
    assert_eq!(disk.files.get("data.json_t").unwrap(), b"new");
}

#[test]
fn temporary_file_lies_beside_its_destination() {
    let destination = HatPath::parse("/hats/red/data.json");
    assert_eq!(temp_path_with(&destination, "abc").to_text(), "/hats/red/data.json_abc");
    let temp = temp_path(&destination).to_text();
    let random = temp.strip_prefix("/hats/red/data.json_").unwrap();
    assert_eq!(random.len(), 36);
    assert!(random.chars().all(|c| c == '-' || c.is_ascii_digit() || ('a'..='f').contains(&c)));
    assert_eq!(random.chars().filter(|c| *c == '-').count(), 4);
    assert_ne!(temp_path(&destination).to_text(), temp);
}

fn bitmap_at(path: &str) -> Bitmap {
    Bitmap::from_bytes(1, 1, vec![0; 4]).unwrap().with_path(HatPath::parse(path))
}

fn hat_with_wearable(image: &str, ids: &mut IdSource) -> Hat {
    let mut hat = Hat::new(&HatPath::parse("/hats/red"), "red", ids);
    let mut data = WearableData::default();
    data.base.local_image_path = Some(HatPath::parse("images/w.png"));
    hat.add_element(
        HatElement::load(HatElementData::Wearable(data), Image::Bitmap(bitmap_at(image)), ids)
            .unwrap(),
    );
    hat
}

#[test]
fn saving_goes_to_the_data_file_of_the_folder() {
    let mut ids = IdSource::new();
    let hat = hat_with_wearable("/hats/red/images/w.png", &mut ids);
    let job = hat.save(&HatPath::parse("/hats/red"), &vec![true, true], &mut ids).unwrap();
    assert_eq!(job.destination.to_text(), "/hats/red/data.json");
    assert!(job.temp.to_text().starts_with("/hats/red/data.json_"));
    assert_eq!(job.temp.to_text().len(), "/hats/red/data.json_".len() + 36);
    assert_eq!(job.data.name, "red");
    assert_eq!(
        job.data.elements[0].base().local_image_path.as_ref().unwrap().to_text(),
        "images/w.png"
    );
}

#[test]
fn saving_stops_at_a_missing_file() {
    let mut ids = IdSource::new();
    let hat = hat_with_wearable("/elsewhere/w.png", &mut ids);
    match hat.save(&HatPath::parse("/hats/red"), &vec![true, false], &mut ids) {
        Err(SaveError::Integrity(missing)) => {
            assert_eq!(missing.path.to_text(), "/hats/red/images/w.png");
        }
        other => panic!("unexpected {:?}", other),
    }
    let error = hat.save(&HatPath::parse("/hats/red"), &vec![], &mut ids).err().unwrap();
    assert_eq!(
        error.message(),
        "failed files integrity check: \"/hats/red\" does not exist"
    );
}

#[test]
fn saving_stops_at_an_image_outside_the_folder() {
    let mut ids = IdSource::new();
    let hat = hat_with_wearable("/elsewhere/w.png", &mut ids);
    let id = hat.elements()[0].id();
    match hat.save(&HatPath::parse("/hats/red"), &vec![true, true], &mut ids) {
        Err(SaveError::Data(GenDataError::ImageOutsideRoot(at))) => assert_eq!(at, id),
        other => panic!("unexpected {:?}", other),
    }
}

#[test]
fn exporting_names_every_image_after_its_element() {
    let mut ids = IdSource::new();
    let mut hat = hat_with_wearable("/elsewhere/w.png", &mut ids);
    hat.add_element(
        HatElement::load_from_image(HatType::Wings, Image::Bitmap(bitmap_at("/e/x.png")), &mut ids)
            .unwrap(),
    );
    let job = hat
        .export_to_file(&HatPath::parse("/out/red.hatspp"), &vec![true, true], &mut ids)
        .unwrap();
    assert_eq!(job.destination.to_text(), "/out/red.hatspp");
    assert!(job.temp.to_text().starts_with("/out/red.hatspp_"));
    assert_eq!(job.images.len(), 2);
    for ((image, data), element) in job.images.iter().zip(&job.data.elements).zip(hat.elements()) {
        let expected = format!("images/{}.png", element.id().0);
        assert_eq!(image.to_text(), expected);
        assert_eq!(data.base().local_image_path.as_ref().unwrap().to_text(), expected);
    }
    match hat.export_to_file(&HatPath::parse("/out/red.hatspp"), &vec![false, true], &mut ids) {
        Err(SaveError::Integrity(missing)) => assert_eq!(missing.path.to_text(), "/hats/red"),
        other => panic!("unexpected {:?}", other),
    }
    assert_eq!(
        hat.gen_hat_data(HatSaveType::File, &mut ids).unwrap().elements.len(),
        2
    );
}

fn read_back(bytes: Vec<u8>) -> Vec<(String, Vec<u8>)> {
    let mut archive = zip::ZipArchive::new(std::io::Cursor::new(bytes)).unwrap();
    let mut found = Vec::new();
    for i in 0..archive.len() {
        let mut file = archive.by_index(i).unwrap();
        let mut content = Vec::new();
        file.read_to_end(&mut content).unwrap();
        let name = file.name().unwrap().to_string();
        found.push((name, content));
    }
    found
}

#[test]
fn a_hat_read_back_from_its_archive_has_the_same_elements() {
    let mut ids = IdSource::new();
    let mut hat = hat_with_wearable("/elsewhere/w.png", &mut ids);
    let mut wings = WingsData::default();
    wings.glide_frame = 3;
    wings.base.frame_size = IVec2::new(40, 48);
    let pixels: Vec<u8> = (0..16u8).collect();
    let picture = Bitmap::from_bytes(2, 2, pixels.clone()).unwrap().with_path(HatPath::parse("/e/x.png"));
    hat.add_element(
        HatElement::load(HatElementData::Wings(wings), Image::Bitmap(picture), &mut ids).unwrap(),
    );
    let job = hat
        .export_to_file(&HatPath::parse("/out/red.hatspp"), &vec![true, true], &mut ids)
        .unwrap();
    // the pixels stand for the encoded images, and a marker for the stored form
    let encoded: Vec<Vec<u8>> = hat.elements().iter().map(|e| e.bitmap().bytes().clone()).collect();
    let bytes = write_archive(&job.images, &encoded, b"stored form").unwrap();

    let read = read_back(bytes);
    assert_eq!(data_entry(&read), Some(&b"stored form".to_vec()));
    let found = image_entries(&read, &job.images).unwrap();
    assert_eq!(found.len(), 2);
    assert_eq!(found[1], &pixels);
    let images = vec![
        Some(Bitmap::from_bytes(1, 1, found[0].clone()).unwrap()),
        Some(Bitmap::from_bytes(2, 2, found[1].clone()).unwrap()),
    ];
    let again = Hat::load(&HatPath::parse("/in/red"), job.data, images, &mut ids).unwrap();
    assert_eq!(again.elements().len(), 2);
    for (new, old) in again.elements().iter().zip(hat.elements()) {
        assert_eq!(new.base().hat_type, old.base().hat_type);
        assert_eq!(new.base().frame_size, old.base().frame_size);
        assert_eq!(
            new.base().local_image_path.as_ref().unwrap().to_text(),
            format!("images/{}.png", old.id().0)
        );
        assert_eq!(new.bitmap().bytes(), old.bitmap().bytes());
        assert_ne!(new.id(), old.id());
    }
    match again.wings().unwrap().data() {
        HatElementData::Wings(data) => assert_eq!(data.glide_frame, 3),
        _ => panic!("not wings"),
    }
}
