use rust_shaders::ast::Path;
use rust_shaders::ast::parse_path;
use rust_shaders::error::CompilerError;
use std::collections::HashMap;
use std::collections::hash_map::DefaultHasher;
use std::hash::Hash;
use std::hash::Hasher;

#[test]
fn path_compare() {
    let p1 = parse_path("use main::vert;").unwrap();
    let p2 = parse_path("use main::vert;").unwrap();
    assert_eq!(p1, p2);
    assert_eq!(p2, p1);
}

#[test]
fn path_compare_modified() {
    let p1 = parse_path("use main;").unwrap();
    let mut p2 = parse_path("use main::vert;").unwrap();
    p2.parent();
    assert_eq!(p1, p2);
    assert_eq!(p2, p1);
}

#[test]
fn path_round_trip() {
    let path = parse_path("use main::vert;").unwrap();
    assert_eq!(path.components(), vec!["main", "vert"]);
    assert_eq!(path.len(), 2);
    assert_eq!(path.component(0), Some("main"));
    assert_eq!(path.component(1), Some("vert"));
    assert_eq!(path.component(2), None);
}

#[test]
fn path_parent_shrinks_to_empty() {
    let mut path = Path::from(&["a", "bc", "d"]);
    assert_eq!(path.len(), 3);
    assert!(path.parent());
    assert_eq!(path.components(), vec!["a", "bc"]);
    assert!(path.parent());
    assert_eq!(path.components(), vec!["a"]);
    assert!(path.parent());
    assert!(path.is_empty());
    assert!(!path.parent());
    assert!(path.is_empty());
}

fn hash_of(path: &Path) -> u64 {
    let mut hasher = DefaultHasher::new();
    path.hash(&mut hasher);
    hasher.finish()
}

#[test]
fn equal_paths_hash_equal() {
    let parsed = parse_path("use main::vert;").unwrap();
    let built = Path::from(&["main", "vert"]);
    assert_eq!(parsed, built);
    assert_eq!(hash_of(&parsed), hash_of(&built));
    let mut shortened = Path::from(&["main", "vert", "entry"]);
    shortened.parent();
    assert_eq!(shortened, built);
    assert_eq!(hash_of(&shortened), hash_of(&built));
    let mut map = HashMap::new();
    map.insert(built, 1);
    assert_eq!(map.get(&shortened), Some(&1));
    assert_eq!(map.get(&parsed), Some(&1));
}

#[test]
fn paths_differ_by_their_components() {
    assert_ne!(Path::from(&["a", "b"]), Path::from(&["a"]));
    assert_ne!(Path::from(&["a"]), Path::from(&["a", "b"]));
    assert_ne!(Path::from(&["ab"]), Path::from(&["a", "b"]));
    assert_ne!(Path::from(&["a", "b"]), Path::from(&["a", "c"]));
    assert_ne!(Path::from(&[]), Path::from(&["a"]));
    assert_eq!(Path::from(&[]), Path::from(&[]));
    assert_eq!(Path::from(&["", "a"]), Path::from(&["", "a"]));
    assert_ne!(Path::from(&["", "a"]), Path::from(&["a", ""]));
}

#[test]
fn path_keeps_text_that_is_not_ascii() {
    let mut path = Path::from(&["schön", "日本", "x"]);
    assert_eq!(path.components(), vec!["schön", "日本", "x"]);
    assert_eq!(path.component(1), Some("日本"));
    assert!(path.parent());
    assert_eq!(path.components(), vec!["schön", "日本"]);
    assert_eq!(path, Path::from(&["schön", "日本"]));
    assert_eq!(path.clone(), path);
}

#[test]
fn path_reads_as_text() {
    assert_eq!(Path::from(&[]).debug_string(), "ast::Path(<empty>)");
    assert_eq!(Path::from(&["main"]).debug_string(), "ast::Path(main)");
    assert_eq!(Path::from(&["main", "vert", "x"]).debug_string(), "ast::Path(main::vert::x)");
    let path = Path::from(&["a", "b", "c"]);
    let mut slice = path.as_slice();
    assert_eq!(slice.debug_string(), "ast::Path(a::b::c)");
    slice.pop();
    assert_eq!(slice.debug_string(), "ast::Path(a)");
}

#[test]
fn path_slice_pops_two_at_once() {
    let path = Path::from(&["a", "b", "c", "d", "e"]);
    let mut slice = path.as_slice();
    assert_eq!(slice.len(), 5);
    assert_eq!(slice.component(4), Some("e"));
    assert!(slice.pop());
    assert_eq!(slice.len(), 3);
    assert_eq!(slice.component(2), Some("c"));
    assert_eq!(slice.component(3), None);
    assert!(slice.pop());
    assert_eq!(slice.len(), 1);
    assert!(!slice.is_empty());
    assert!(!slice.pop());
    assert_eq!(slice.len(), 1);
    assert_eq!(slice.component(0), Some("a"));
    // the path is as it was
    assert_eq!(path.len(), 5);
    let even = Path::from(&["a", "b"]);
    let mut slice = even.as_slice();
    assert!(!slice.pop());
    assert!(slice.is_empty());
    assert!(!slice.pop());
    let empty = Path::from(&[]);
    assert!(empty.as_slice().is_empty());
    assert!(!empty.as_slice().pop());
}

#[test]
fn parse_path_reports_failures() {
    match parse_path("main::vert") {
        Err(CompilerError::Shader(_)) => {}
        other => panic!("unexpected {:?}", other),
    }
    match parse_path("use main::;") {
        Err(CompilerError::Shader(_)) => {}
        other => panic!("unexpected {:?}", other),
    }
    match parse_path("use main /* ") {
        Err(CompilerError::Internal(_)) => {}
        other => panic!("unexpected {:?}", other),
    }
    // what follows the item is not looked at
    assert_eq!(parse_path("use a::b; let").unwrap(), Path::from(&["a", "b"]));
}
