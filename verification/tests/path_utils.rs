use hpp_editor::path_utils::{name_extension, HatPath, LocalPath, LocalPathError};

fn parts(path: &HatPath) -> Vec<&str> {
    path.parts.iter().map(|p| p.as_str()).collect()
}

#[test]
fn local_path() {
    let path = HatPath::parse("/foo/bar/stuff.txt");
    assert_eq!(
        path.local_path(&HatPath::parse("/foo/bar")),
        Ok(HatPath::parse("stuff.txt"))
    );
    assert_eq!(
        path.local_path(&HatPath::parse("/foo")),
        Ok(HatPath::parse("bar/stuff.txt"))
    );
    assert_eq!(
        path.local_path(&HatPath::parse("")),
        Ok(HatPath::parse("foo/bar/stuff.txt"))
    );
    assert_eq!(
        path.local_path(&HatPath::parse("something/else")),
        Err(LocalPathError::PathNotInDir)
    );
}

#[test]
fn local_path_below_itself_keeps_every_component() {
    let path = HatPath::parse("/foo/bar");
    let local = path.local_path(&HatPath::parse("/foo/bar")).unwrap();
    assert!(!local.rooted);
    assert_eq!(parts(&local), vec!["foo", "bar"]);
}

#[test]
fn local_path_of_relative_path() {
    let path = HatPath::parse("a/b/c");
    assert_eq!(parts(&path.local_path(&HatPath::parse("a")).unwrap()), vec!["b", "c"]);
    assert_eq!(parts(&path.local_path(&HatPath::parse("")).unwrap()), vec!["a", "b", "c"]);
    assert_eq!(
        path.local_path(&HatPath::parse("/a")).err(),
        Some(LocalPathError::PathNotInDir)
    );
    assert_eq!(
        path.local_path(&HatPath::parse("a/b/c/d")).err(),
        Some(LocalPathError::PathNotInDir)
    );
}

#[test]
fn local_path_error_message() {
    assert_eq!(
        LocalPathError::PathNotInDir.message(),
        "path was not in specified directory"
    );
}

#[test]
fn parse_splits_on_slashes() {
    let path = HatPath::parse("/foo//bar/./baz/");
    assert!(path.rooted);
    assert_eq!(parts(&path), vec!["foo", "bar", "baz"]);
    let relative = HatPath::parse("./a/../b");
    assert!(!relative.rooted);
    assert_eq!(parts(&relative), vec![".", "a", "..", "b"]);
    let empty = HatPath::parse("");
    assert!(!empty.rooted);
    assert!(empty.parts.is_empty());
    let root = HatPath::parse("/");
    assert!(root.rooted);
    assert!(root.parts.is_empty());
}

#[test]
fn parse_keeps_characters_beyond_ascii() {
    let path = HatPath::parse("шляпа/картинка.png");
    assert_eq!(parts(&path), vec!["шляпа", "картинка.png"]);
    assert_eq!(path.to_text(), "шляпа/картинка.png");
}

#[test]
fn to_text_joins_with_slashes() {
    assert_eq!(HatPath::parse("/foo/bar").to_text(), "/foo/bar");
    assert_eq!(HatPath::parse("foo/bar/").to_text(), "foo/bar");
    assert_eq!(HatPath::parse("/").to_text(), "/");
    assert_eq!(HatPath::parse("").to_text(), "");
    assert_eq!(HatPath::new().to_text(), "");
}

#[test]
fn join_appends_or_replaces() {
    let root = HatPath::parse("/hats/red");
    assert_eq!(root.join(&HatPath::parse("images/a.png")).to_text(), "/hats/red/images/a.png");
    assert_eq!(root.join(&HatPath::parse("/elsewhere/a.png")).to_text(), "/elsewhere/a.png");
    assert_eq!(root.join(&HatPath::parse("")).to_text(), "/hats/red");
    assert_eq!(HatPath::parse("").join(&HatPath::parse("a")).to_text(), "a");
}

#[test]
fn ancestors_are_prefixes() {
    let path = HatPath::parse("/a/b/c");
    assert!(HatPath::parse("/a").is_ancestor_of(&path));
    assert!(HatPath::parse("/").is_ancestor_of(&path));
    assert!(path.is_ancestor_of(&path));
    assert!(!HatPath::parse("a").is_ancestor_of(&path));
    assert!(!HatPath::parse("/a/c").is_ancestor_of(&path));
    assert!(!HatPath::parse("/a/b/c/d").is_ancestor_of(&path));
}

#[test]
fn extension_follows_the_last_full_stop() {
    assert_eq!(HatPath::parse("a/b.png").extension(), Some("png".to_string()));
    assert_eq!(HatPath::parse("a/b.tar.gz").extension(), Some("gz".to_string()));
    assert_eq!(HatPath::parse("a/b.").extension(), Some("".to_string()));
    assert_eq!(HatPath::parse("a/b").extension(), None);
    assert_eq!(HatPath::parse("a/.hidden").extension(), None);
    assert_eq!(HatPath::parse("a/..").extension(), None);
    assert_eq!(HatPath::parse("").extension(), None);
    assert_eq!(name_extension("x.aseprite"), Some("aseprite".to_string()));
}

#[test]
fn with_suffix_extends_the_last_component() {
    assert_eq!(HatPath::parse("/a/data.json").with_suffix("_x").to_text(), "/a/data.json_x");
    assert_eq!(HatPath::parse("/").with_suffix("_x").to_text(), "/_x");
    assert_eq!(HatPath::parse("").with_suffix("_x").to_text(), "_x");
}

#[test]
fn duplicate_is_the_same_path() {
    let path = HatPath::parse("/a/b");
    assert!(path.duplicate().same_as(&path));
    assert_eq!(path.duplicate(), path);
    assert_ne!(path, HatPath::parse("a/b"));
    assert!(!path.same_as(&HatPath::parse("a/b")));
    assert!(!path.same_as(&HatPath::parse("/a")));
}

#[test]
fn a_new_hat_is_named_after_its_folder() {
    assert_eq!(HatPath::parse("/hats/red").folder_name(), Some("red".to_string()));
    assert_eq!(HatPath::parse("/hats/red.hat").folder_name(), Some("red".to_string()));
    assert_eq!(HatPath::parse("/hats/red.hat.v2").folder_name(), Some("red".to_string()));
    assert_eq!(HatPath::parse("/hats/red.a.b.c").folder_name(), Some("red.a".to_string()));
    assert_eq!(HatPath::parse("/hats/.hidden").folder_name(), Some(".hidden".to_string()));
    assert_eq!(HatPath::parse("/hats/..").folder_name(), None);
    assert_eq!(HatPath::parse(".").folder_name(), None);
    assert_eq!(HatPath::parse("/").folder_name(), None);
    assert_eq!(HatPath::parse("").folder_name(), None);
    assert_eq!(hpp_editor::path_utils::name_stem("a.b"), "a");
    assert_eq!(hpp_editor::path_utils::name_stem("a."), "a");
    assert_eq!(hpp_editor::path_utils::name_stem(".a"), ".a");
    assert_eq!(hpp_editor::path_utils::name_stem(".."), "..");
    assert_eq!(hpp_editor::path_utils::name_stem("a"), "a");
}
