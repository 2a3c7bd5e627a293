use hpp_editor::archive::{
    data_entry, find_entry, finish_outcome, image_entries, write_archive, Archive, ArchiveError,
};
use hpp_editor::path_utils::HatPath;
use std::io::Read;

fn entries(bytes: Vec<u8>) -> Vec<(String, Vec<u8>)> {
    let mut archive = zip::ZipArchive::new(std::io::Cursor::new(bytes)).unwrap();
    let mut found = Vec::new();
    for i in 0..archive.len() {
        let mut file = archive.by_index(i).unwrap();
        let mut content = Vec::new();
        file.read_to_end(&mut content).unwrap();
        let name = file.name().unwrap().to_string();
        found.push((name, content));
    }
    found
}

#[test]
fn archive_holds_images_and_data() {
    let images = vec![HatPath::parse("images/1.png"), HatPath::parse("images/2.png")];
    let encoded = vec![vec![1, 2, 3], vec![4, 5]];
    let bytes = write_archive(&images, &encoded, b"{\"name\": \"red\"}").unwrap();
    assert_eq!(
        entries(bytes),
        vec![
            ("images/".to_string(), vec![]),
            ("images/1.png".to_string(), vec![1, 2, 3]),
            ("images/2.png".to_string(), vec![4, 5]),
            ("data.json".to_string(), b"{\"name\": \"red\"}".to_vec()),
        ]
    );
}

#[test]
fn archive_of_a_hat_without_elements_holds_its_data() {
    let bytes = write_archive(&vec![], &vec![], b"{}").unwrap();
    assert_eq!(
        entries(bytes),
        vec![("images/".to_string(), vec![]), ("data.json".to_string(), b"{}".to_vec())]
    );
}

#[test]
fn archive_needs_an_image_for_each_path() {
    let images = vec![HatPath::parse("images/1.png")];
    match write_archive(&images, &vec![], b"{}") {
        Err(ArchiveError::ImageCountMismatch) => {}
        other => panic!("unexpected {:?}", other.map(|b| b.len())),
    }
}

#[test]
fn archive_refuses_two_images_under_one_path() {
    let images = vec![HatPath::parse("images/1.png"), HatPath::parse("images/1.png")];
    let mut archive = Archive::new();
    match archive.add_hat(&images, &vec![vec![1], vec![2]], b"{}") {
        Err(ArchiveError::Zip(_)) => {}
        other => panic!("unexpected {:?}", other),
    }
}

#[test]
fn closing_hands_out_the_bytes_or_the_error() {
    assert_eq!(finish_outcome(Ok(vec![1, 2, 3])).unwrap(), vec![1, 2, 3]);
    match finish_outcome(Err(zip::result::ZipError::FileNotFound)) {
        Err(ArchiveError::Zip(zip::result::ZipError::FileNotFound)) => {}
        other => panic!("unexpected {:?}", other),
    }
}

#[test]
fn an_empty_archive_can_be_closed() {
    let bytes = Archive::new().finish().unwrap();
    assert!(entries(bytes).is_empty());
}

#[test]
fn closing_gives_the_bytes_of_what_the_archive_took() {
    let images = vec![HatPath::parse("images/7.png")];
    let mut archive = Archive::new();
    archive.add_hat(&images, &vec![vec![9, 9]], b"{}").unwrap();
    let bytes = archive.finish().unwrap();
    assert_eq!(
        entries(bytes),
        vec![
            ("images/".to_string(), vec![]),
            ("images/7.png".to_string(), vec![9, 9]),
            ("data.json".to_string(), b"{}".to_vec()),
        ]
    );
}

#[test]
fn a_second_hat_in_one_archive_is_refused_at_its_folder() {
    let mut archive = Archive::new();
    archive.add_hat(&vec![], &vec![], b"{}").unwrap();
    match archive.add_hat(&vec![], &vec![], b"{}") {
        Err(ArchiveError::Zip(_)) => {}
        other => panic!("unexpected {:?}", other),
    }
}

#[test]
fn an_image_under_the_name_of_the_data_is_refused() {
    let images = vec![HatPath::parse("data.json")];
    match write_archive(&images, &vec![vec![1]], b"{}") {
        Err(ArchiveError::Zip(_)) => {}
        other => panic!("unexpected {:?}", other.map(|b| b.len())),
    }
}

#[test]
fn the_same_hat_gives_the_same_bytes() {
    let images = vec![HatPath::parse("images/1.png"), HatPath::parse("images/2.png")];
    let encoded = vec![vec![1, 2, 3], vec![]];
    let first = write_archive(&images, &encoded, b"{\"name\": \"red\"}").unwrap();
    let second = write_archive(&images, &encoded, b"{\"name\": \"red\"}").unwrap();
    assert_eq!(first, second);
    let other = write_archive(&images, &encoded, b"{\"name\": \"blue\"}").unwrap();
    assert_ne!(first, other);
}

#[test]
fn what_was_put_into_an_archive_is_found_in_it_again() {
    let images = vec![HatPath::parse("images/1.png"), HatPath::parse("images/12.png")];
    let encoded = vec![vec![1, 2, 3], vec![4, 5]];
    let bytes = write_archive(&images, &encoded, b"{\"name\": \"red\"}").unwrap();
    let read = entries(bytes);
    assert_eq!(data_entry(&read), Some(&b"{\"name\": \"red\"}".to_vec()));
    let found = image_entries(&read, &images).unwrap();
    assert_eq!(found, vec![&vec![1, 2, 3], &vec![4, 5]]);
    assert_eq!(find_entry(&read, "images/"), Some(&vec![]));
    assert_eq!(find_entry(&read, "images/12.png"), Some(&vec![4, 5]));
    assert_eq!(find_entry(&read, "images/2.png"), None);
}

#[test]
fn an_image_that_the_archive_lacks_is_told_by_its_place() {
    let read = vec![
        ("images/".to_string(), vec![]),
        ("images/1.png".to_string(), vec![1]),
        ("images/3.png".to_string(), vec![3]),
        ("data.json".to_string(), vec![7]),
    ];
    let wanted = vec![
        HatPath::parse("images/1.png"),
        HatPath::parse("images/2.png"),
        HatPath::parse("images/4.png"),
    ];
    assert_eq!(image_entries(&read, &wanted), Err(1));
    assert_eq!(image_entries(&read, &vec![]), Ok(vec![]));
    assert_eq!(data_entry(&read), Some(&vec![7]));
    assert_eq!(data_entry(&vec![]), None);
}

#[test]
fn the_first_entry_of_a_name_is_found() {
    let read = vec![
        ("a".to_string(), vec![1]),
        ("b".to_string(), vec![2]),
        ("a".to_string(), vec![3]),
    ];
    assert_eq!(find_entry(&read, "a"), Some(&vec![1]));
    assert_eq!(find_entry(&read, "b"), Some(&vec![2]));
    assert_eq!(find_entry(&read, "A"), None);
    assert_eq!(find_entry(&read, ""), None);
}
