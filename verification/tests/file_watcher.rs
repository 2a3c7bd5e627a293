use hpp_editor::file_watcher::{FileId, FileWatcher, Ms};
use hpp_editor::path_utils::HatPath;

#[test]
fn file_watcher() {
    println!("watch started!");
    let mut watcher = FileWatcher::new();
    let mut access_count = 0;
    let id = watcher.watch_file(&HatPath::parse("text.txt"), Some(Ms(1_000))).unwrap();

    // the file is written to at the third and at the fifth look
    let times = [1_000, 1_000, 2_000, 2_000, 3_000, 3_000];
    for time in times {
        let files = watcher.update(&vec![Some(Ms(time))]);
        if files.file_accessed(id) {
            println!("file was accessed!");
            access_count += 1;
            println!("access_count: {access_count}");
        }
    }
    assert_eq!(access_count, 2);
}

#[test]
fn a_file_that_cannot_be_read_is_not_watched() {
    let mut watcher = FileWatcher::new();
    assert_eq!(watcher.watch_file(&HatPath::parse("gone.txt"), None), None);
    assert!(watcher.watched().is_empty());
    // the identity was used up all the same
    assert_eq!(watcher.watch_file(&HatPath::parse("a.txt"), Some(Ms(5))), Some(FileId(1)));
    assert_eq!(watcher.watched().len(), 1);
    assert_eq!(watcher.watched()[0].path.to_text(), "a.txt");
    assert_eq!(watcher.watched()[0].last_modification_time, Ms(5));
}

#[test]
fn watching_a_file_again_gives_it_a_new_identity() {
    let mut watcher = FileWatcher::default();
    let first = watcher.watch_file(&HatPath::parse("a.txt"), Some(Ms(5))).unwrap();
    let other = watcher.watch_file(&HatPath::parse("b.txt"), Some(Ms(6))).unwrap();
    let second = watcher.watch_file(&HatPath::parse("a.txt"), Some(Ms(7))).unwrap();
    assert_eq!((first, other, second), (FileId(0), FileId(1), FileId(2)));
    assert_eq!(watcher.watched().len(), 2);
    assert_eq!(watcher.watched()[0].id, second);
    assert_eq!(watcher.watched()[0].last_modification_time, Ms(7));
    let files = watcher.update(&vec![Some(Ms(8)), Some(Ms(6))]);
    assert!(files.file_accessed(second));
    assert!(!files.file_accessed(first));
    assert!(!files.file_accessed(other));
}

#[test]
fn only_changed_files_are_reported() {
    let mut watcher = FileWatcher::new();
    let a = watcher.watch_file(&HatPath::parse("a.txt"), Some(Ms(1))).unwrap();
    let b = watcher.watch_file(&HatPath::parse("b.txt"), Some(Ms(1))).unwrap();
    let c = watcher.watch_file(&HatPath::parse("c.txt"), Some(Ms(1))).unwrap();
    {
        let files = watcher.update(&vec![Some(Ms(1)), Some(Ms(2)), None]);
        assert!(!files.file_accessed(a));
        assert!(files.file_accessed(b));
        assert!(!files.file_accessed(c));
    }
    assert_eq!(watcher.watched()[1].last_modification_time, Ms(2));
    assert_eq!(watcher.watched()[2].last_modification_time, Ms(1));
    {
        // an earlier time is a change as well; a missing answer is none
        let files = watcher.update(&vec![Some(Ms(0))]);
        assert!(files.file_accessed(a));
        assert!(!files.file_accessed(b));
        assert!(!files.file_accessed(c));
    }
    let files = watcher.update(&vec![Some(Ms(0)), Some(Ms(2)), Some(Ms(1))]);
    assert!(!files.file_accessed(a));
    assert!(!files.file_accessed(b));
    assert!(!files.file_accessed(c));
}
