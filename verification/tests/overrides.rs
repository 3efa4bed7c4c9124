use mrpack::{Error, Overrides};

#[test]
fn files_are_kept_in_the_order_of_their_paths() {
    let mut tree = Overrides::new();
    assert_eq!(tree.len(), 0);
    assert_eq!(tree.insert("config/b.cfg".to_string(), b"b".to_vec()), Ok(()));
    assert_eq!(tree.insert("config/a.cfg".to_string(), b"a".to_vec()), Ok(()));
    assert_eq!(tree.insert("mods/x.jar".to_string(), b"x".to_vec()), Ok(()));
    assert_eq!(tree.insert("a.txt".to_string(), Vec::new()), Ok(()));
    assert_eq!(tree.len(), 4);
    assert_eq!(tree.path(0), "a.txt");
    assert_eq!(tree.path(1), "config/a.cfg");
    assert_eq!(tree.path(2), "config/b.cfg");
    assert_eq!(tree.path(3), "mods/x.jar");
    assert_eq!(tree.content(1), &b"a".to_vec());
    assert_eq!(tree.content(0), &Vec::<u8>::new());
    assert_eq!(tree.position("config/b.cfg"), Some(2));
    assert_eq!(tree.position("config/c.cfg"), None);
    assert_eq!(tree.get("mods/x.jar"), Some(&b"x".to_vec()));
    assert_eq!(tree.get("mods/y.jar"), None);
}

#[test]
fn the_order_of_insertion_does_not_matter() {
    let mut one = Overrides::new();
    one.insert("b".to_string(), b"2".to_vec()).unwrap();
    one.insert("a".to_string(), b"1".to_vec()).unwrap();
    let mut other = Overrides::new();
    other.insert("a".to_string(), b"1".to_vec()).unwrap();
    other.insert("b".to_string(), b"2".to_vec()).unwrap();
    assert_eq!(one, other);
}

#[test]
fn a_path_that_stands_already_is_refused() {
    let mut tree = Overrides::new();
    tree.insert("config/a.cfg".to_string(), b"a".to_vec()).unwrap();
    assert_eq!(
        tree.insert("config/a.cfg".to_string(), b"other".to_vec()),
        Err(Error::DuplicateOverride)
    );
    assert_eq!(tree.len(), 1);
    assert_eq!(tree.get("config/a.cfg"), Some(&b"a".to_vec()));
}

#[test]
fn a_path_that_leaves_the_root_is_refused() {
    let mut tree = Overrides::new();
    assert_eq!(tree.insert("../a.cfg".to_string(), Vec::new()), Err(Error::PathEscape));
    assert_eq!(tree.insert("config/../../a".to_string(), Vec::new()), Err(Error::PathEscape));
    assert_eq!(tree.insert("/etc/passwd".to_string(), Vec::new()), Err(Error::PathEscape));
    assert_eq!(tree.insert("".to_string(), Vec::new()), Err(Error::PathEscape));
    assert_eq!(tree.insert("config/".to_string(), Vec::new()), Err(Error::PathEscape));
    assert_eq!(tree.len(), 0);
}
