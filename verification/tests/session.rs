use rust_shaders::ast::Path;
use rust_shaders::config::Input;
use rust_shaders::driver::Driver;
use rust_shaders::error::CompilerError;
use rust_shaders::error::InputError;
use rust_shaders::error::IoFailure;
use rust_shaders::error::IoFailureKind;
use rust_shaders::fs::DirEntry;
use rust_shaders::fs::FsComponent;
use rust_shaders::fs::FsPath;
use rust_shaders::fs::Listing;
use rust_shaders::session::LockFailure;
use rust_shaders::session::ParseCache;
use rust_shaders::session::Session;
use rust_shaders::session::SourceStore;
use rust_shaders::syntax::parse_module;
use std::sync::Arc;

fn fs_path(names: &[&str]) -> FsPath {
    FsPath {
        components: names.iter().map(|name| FsComponent::Normal(name.as_bytes().to_vec())).collect(),
    }
}

fn file(names: &[&str]) -> DirEntry {
    DirEntry::File { path: fs_path(names) }
}

fn dir(names: &[&str], entries: Vec<DirEntry>) -> DirEntry {
    DirEntry::Dir { path: fs_path(names), contents: Listing::Entries(entries) }
}

fn failure(message: &str) -> IoFailure {
    IoFailure::new(IoFailureKind::System, message)
}

#[test]
fn resolution_takes_the_longest_known_beginning() {
    let mut store = SourceStore::new();
    store.register_module(Path::from(&["a", "b"]), fs_path(&["fileX"]));
    store.register_module(Path::from(&["a"]), fs_path(&["fileY"]));
    assert_eq!(store.identify_potential_source(&Path::from(&["a", "b", "c"])), Some(&fs_path(&["fileX"])));
    assert_eq!(store.identify_potential_source(&Path::from(&["a", "b"])), Some(&fs_path(&["fileX"])));
    assert_eq!(store.identify_potential_source(&Path::from(&["a", "c", "b"])), Some(&fs_path(&["fileY"])));
    assert_eq!(store.identify_potential_source(&Path::from(&["a"])), Some(&fs_path(&["fileY"])));
    assert_eq!(store.identify_potential_source(&Path::from(&["z"])), None);
    assert_eq!(store.identify_potential_source(&Path::from(&["b", "a"])), None);
    assert_eq!(store.identify_potential_source(&Path::from(&[])), None);
}

#[test]
fn resolution_compares_names_not_bytes() {
    let mut store = SourceStore::new();
    store.register_module(Path::from(&["ab"]), fs_path(&["one"]));
    assert_eq!(store.identify_potential_source(&Path::from(&["a", "b"])), None);
    assert_eq!(store.identify_potential_source(&Path::from(&["ab", "c"])), Some(&fs_path(&["one"])));
}

#[test]
fn later_module_replaces_earlier() {
    let mut store = SourceStore::new();
    store.register_module(Path::from(&["main"]), fs_path(&["old"]));
    store.register_module(Path::from(&["main"]), fs_path(&["new"]));
    assert_eq!(store.identify_potential_source(&Path::from(&["main"])), Some(&fs_path(&["new"])));
}

#[test]
fn empty_store_resolves_nothing() {
    let store = SourceStore::new();
    assert_eq!(store.identify_potential_source(&Path::from(&["a"])), None);
    assert!(!store.is_root(&fs_path(&["src"])));
}

#[test]
fn walk_names_modules_from_the_nearest_root() {
    let mut store = SourceStore::new();
    let contents = Listing::Entries(vec![
        file(&["src", "main.shader"]),
        dir(&["src", "lib"], vec![
            file(&["src", "lib", "pbr.vert.glsl"]),
            dir(&["src", "lib", "deep"], vec![file(&["src", "lib", "deep", "noise"])]),
            DirEntry::Other,
        ]),
        file(&["src", ".hidden"]),
    ]);
    assert!(store.discover_tree(&fs_path(&["src"]), &contents).is_ok());
    assert!(store.is_root(&fs_path(&["src"])));
    assert!(store.is_root(&fs_path(&["src", "lib"])));
    assert!(store.is_root(&fs_path(&["src", "lib", "deep"])));
    assert!(!store.is_root(&fs_path(&["src", "main.shader"])));
    assert_eq!(
        store.identify_potential_source(&Path::from(&["main"])),
        Some(&fs_path(&["src", "main.shader"]))
    );
    // seen from the directory that holds it, not from the root that was asked for
    assert_eq!(
        store.identify_potential_source(&Path::from(&["pbr.vert"])),
        Some(&fs_path(&["src", "lib", "pbr.vert.glsl"]))
    );
    assert_eq!(store.identify_potential_source(&Path::from(&["lib", "pbr.vert"])), None);
    assert_eq!(
        store.identify_potential_source(&Path::from(&["noise", "fbm"])),
        Some(&fs_path(&["src", "lib", "deep", "noise"]))
    );
    assert_eq!(
        store.identify_potential_source(&Path::from(&[".hidden"])),
        Some(&fs_path(&["src", ".hidden"]))
    );
}

#[test]
fn known_root_is_left_alone() {
    let mut store = SourceStore::new();
    let first = Listing::Entries(vec![file(&["src", "a.x"])]);
    assert!(store.discover_tree(&fs_path(&["src"]), &first).is_ok());
    // neither new files nor failures are looked at the second time
    let second = Listing::Entries(vec![file(&["src", "b.x"]), DirEntry::Failed { failure: failure("gone") }]);
    assert!(store.discover_tree(&fs_path(&["src"]), &second).is_ok());
    assert!(store.discover_tree(&fs_path(&["src"]), &Listing::Failed(failure("gone"))).is_ok());
    assert!(store.identify_potential_source(&Path::from(&["a"])).is_some());
    assert!(store.identify_potential_source(&Path::from(&["b"])).is_none());
}

#[test]
fn known_directory_inside_a_walk_is_left_alone() {
    let mut store = SourceStore::new();
    assert!(store.discover_tree(&fs_path(&["src", "lib"]), &Listing::Entries(vec![])).is_ok());
    let contents = Listing::Entries(vec![dir(&["src", "lib"], vec![file(&["src", "lib", "late.x"])])]);
    assert!(store.discover_tree(&fs_path(&["src"]), &contents).is_ok());
    assert!(store.identify_potential_source(&Path::from(&["late"])).is_none());
}

#[test]
fn walk_stops_at_the_first_failure() {
    let mut store = SourceStore::new();
    let contents = Listing::Entries(vec![
        file(&["src", "a.x"]),
        dir(&["src", "sub"], vec![file(&["src", "sub", "b.x"]), DirEntry::Failed { failure: failure("broken entry") }, file(&["src", "sub", "c.x"])]),
        file(&["src", "d.x"]),
    ]);
    let error = store.discover_tree(&fs_path(&["src"]), &contents).unwrap_err();
    assert_eq!(error.kind, IoFailureKind::System);
    assert_eq!(error.message, "broken entry");
    // what was met before the failure stays
    assert!(store.is_root(&fs_path(&["src"])));
    assert!(store.is_root(&fs_path(&["src", "sub"])));
    assert!(store.identify_potential_source(&Path::from(&["a"])).is_some());
    assert!(store.identify_potential_source(&Path::from(&["b"])).is_some());
    assert!(store.identify_potential_source(&Path::from(&["c"])).is_none());
    assert!(store.identify_potential_source(&Path::from(&["d"])).is_none());
}

#[test]
fn unreadable_directory_fails_but_is_a_root() {
    let mut store = SourceStore::new();
    let error = store.discover_tree(&fs_path(&["src"]), &Listing::Failed(failure("denied"))).unwrap_err();
    assert_eq!(error.message, "denied");
    assert!(store.is_root(&fs_path(&["src"])));
}

#[test]
fn name_that_is_not_text_is_a_data_error() {
    let mut store = SourceStore::new();
    let bad = FsPath {
        components: vec![
            FsComponent::Normal(b"src".to_vec()),
            FsComponent::Normal(vec![0x66, 0xff, 0x6f]),
        ],
    };
    let contents = Listing::Entries(vec![DirEntry::File { path: bad }]);
    let error = store.discover_tree(&fs_path(&["src"]), &contents).unwrap_err();
    assert_eq!(error.kind, IoFailureKind::InvalidData);
    assert_eq!(error.message, "path was not utf8");
}

#[test]
fn extension_that_is_not_text_does_not_matter() {
    let mut store = SourceStore::new();
    let odd = FsPath {
        components: vec![
            FsComponent::Normal(b"src".to_vec()),
            FsComponent::Normal(vec![0x66, 0x2e, 0xff]),
        ],
    };
    let contents = Listing::Entries(vec![DirEntry::File { path: odd.clone() }]);
    assert!(store.discover_tree(&fs_path(&["src"]), &contents).is_ok());
    assert_eq!(store.identify_potential_source(&Path::from(&["f"])), Some(&odd));
}

#[test]
fn file_outside_its_root_is_an_error() {
    let mut store = SourceStore::new();
    let contents = Listing::Entries(vec![file(&["elsewhere", "a.x"])]);
    let error = store.discover_tree(&fs_path(&["src"]), &contents).unwrap_err();
    assert_eq!(error.kind, IoFailureKind::Other);
    assert_eq!(error.message, "StripPrefixError: prefix not found");
}

#[test]
fn components_that_are_no_names_are_left_out() {
    let mut store = SourceStore::new();
    let root = FsPath { components: vec![FsComponent::RootDir, FsComponent::Normal(b"src".to_vec())] };
    let found = FsPath {
        components: vec![
            FsComponent::RootDir,
            FsComponent::Normal(b"src".to_vec()),
            FsComponent::ParentDir,
            FsComponent::Normal(b"other".to_vec()),
            FsComponent::Normal(b"m.x".to_vec()),
        ],
    };
    let contents = Listing::Entries(vec![DirEntry::File { path: found.clone() }]);
    assert!(store.discover_tree(&root, &contents).is_ok());
    assert_eq!(store.identify_potential_source(&Path::from(&["other", "m"])), Some(&found));
}

#[test]
fn module_without_a_name_is_never_found() {
    // the stem of `..x` is `.`, which is no name: the module path is empty
    let mut store = SourceStore::new();
    let contents = Listing::Entries(vec![file(&["src", "..x"])]);
    assert!(store.discover_tree(&fs_path(&["src"]), &contents).is_ok());
    assert_eq!(store.identify_potential_source(&Path::from(&[])), None);
    assert_eq!(store.identify_potential_source(&Path::from(&["."])), None);
    assert_eq!(store.identify_potential_source(&Path::from(&["src"])), None);
}

#[test]
fn file_stem_rules() {
    fn stem_of(name: &str) -> FsPath {
        fs_path(&["d", name]).without_extension()
    }
    assert_eq!(stem_of("main.shader"), fs_path(&["d", "main"]));
    assert_eq!(stem_of("a.b.c"), fs_path(&["d", "a.b"]));
    assert_eq!(stem_of("noext"), fs_path(&["d", "noext"]));
    assert_eq!(stem_of(".hidden"), fs_path(&["d", ".hidden"]));
    assert_eq!(stem_of(".hidden.x"), fs_path(&["d", ".hidden"]));
    assert_eq!(stem_of("dot."), fs_path(&["d", "dot"]));
    assert_eq!(stem_of("..x"), fs_path(&["d"]));
    assert_eq!(fs_path(&["..x"]).without_extension(), FsPath { components: vec![FsComponent::CurDir] });
    assert_eq!(
        stem_of("..."),
        FsPath { components: vec![FsComponent::Normal(b"d".to_vec()), FsComponent::ParentDir] }
    );
    assert_eq!(fs_path(&[]).without_extension(), fs_path(&[]));
    let dots = FsPath { components: vec![FsComponent::Normal(b"a.x".to_vec()), FsComponent::ParentDir] };
    assert_eq!(dots.without_extension(), dots);
}

#[test]
fn fs_paths_compare_by_components() {
    assert_eq!(fs_path(&["a", "b"]), fs_path(&["a", "b"]));
    assert_ne!(fs_path(&["a", "b"]), fs_path(&["a"]));
    assert_ne!(fs_path(&["a", "b"]), fs_path(&["a", "c"]));
    assert_ne!(fs_path(&["ab"]), fs_path(&["a", "b"]));
    assert_ne!(
        FsPath { components: vec![FsComponent::RootDir] },
        FsPath { components: vec![FsComponent::CurDir] }
    );
    assert_ne!(
        FsPath { components: vec![FsComponent::Prefix(b"C:".to_vec())] },
        FsPath { components: vec![FsComponent::Normal(b"C:".to_vec())] }
    );
    assert!(fs_path(&["a", "b", "c"]).starts_with(&fs_path(&["a", "b"])));
    assert!(fs_path(&["a"]).starts_with(&fs_path(&[])));
    assert!(!fs_path(&["a"]).starts_with(&fs_path(&["a", "b"])));
    assert!(!fs_path(&["a", "b"]).starts_with(&fs_path(&["b"])));
    assert_eq!(fs_path(&["a", "b"]).clone(), fs_path(&["a", "b"]));
}

fn session_with_modules() -> Session {
    let mut session = Session::new();
    let contents = Listing::Entries(vec![
        file(&["src", "main.shader"]),
        file(&["src", "light.shader"]),
    ]);
    assert!(session.register_input(&Input::Path(fs_path(&["src"])), &contents).is_ok());
    session
}

#[test]
fn references_resolve_to_distinct_files() {
    let session = session_with_modules();
    let found = session
        .parse_references(&["use main::vert;", "use light;", "use main::frag;", "use main::vert;"])
        .unwrap();
    assert_eq!(found.modules(), &[&fs_path(&["src", "main.shader"]), &fs_path(&["src", "light.shader"])]);
    assert_eq!(found.items(), &["use main::vert;", "use light;", "use main::frag;"]);
    let none = session.parse_references(&[]).unwrap();
    assert!(none.modules().is_empty());
    assert!(none.items().is_empty());
}

#[test]
fn unknown_reference_fails_the_batch() {
    let session = session_with_modules();
    match session.parse_references(&["use main;", "use nowhere::x;", "use light;"]) {
        Err(CompilerError::Input(InputError::Include(name))) => assert_eq!(name, "use nowhere::x;"),
        other => panic!("unexpected {:?}", other.map(|_| ())),
    }
}

#[test]
fn malformed_reference_fails_the_batch() {
    let session = session_with_modules();
    match session.parse_references(&["use main;", "main::vert", "use nowhere;"]) {
        Err(CompilerError::Shader(_)) => {}
        other => panic!("unexpected {:?}", other.map(|_| ())),
    }
    match session.parse_references(&["use main /* ;"]) {
        Err(CompilerError::Internal(_)) => {}
        other => panic!("unexpected {:?}", other.map(|_| ())),
    }
}

#[test]
fn register_input_reports_failures() {
    let mut session = Session::new();
    let error = session
        .register_input(&Input::Path(fs_path(&["src"])), &Listing::Failed(failure("no such directory")))
        .unwrap_err();
    assert_eq!(error.message, "no such directory");
    assert_eq!(error.kind, IoFailureKind::System);
}

#[test]
fn parsed_module_is_published_once() {
    let session = Session::new();
    let path = fs_path(&["src", "main.shader"]);
    let first = session.parse_module(&path, Ok("use a;")).unwrap();
    assert_eq!(first.items.len(), 1);
    // the second parse is done, and dropped
    let second = session.parse_module(&path, Ok("use a; use b;")).unwrap();
    assert!(Arc::ptr_eq(&first, &second));
    assert_eq!(second.items.len(), 1);
    let other = session.parse_module(&fs_path(&["src", "other.shader"]), Ok("use a; use b;")).unwrap();
    assert!(!Arc::ptr_eq(&first, &other));
    assert_eq!(other.items.len(), 2);
}

#[test]
fn parse_module_reports_read_and_parse_failures() {
    let session = Session::new();
    let path = fs_path(&["src", "main.shader"]);
    match session.parse_module(&path, Err(failure("unreadable"))) {
        Err(CompilerError::Input(InputError::Io { source })) => {
            assert_eq!(source.message, "unreadable");
            assert_eq!(source.kind, IoFailureKind::System);
        }
        other => panic!("unexpected {:?}", other.map(|_| ())),
    }
    match session.parse_module(&path, Ok("use ;")) {
        Err(CompilerError::Shader(_)) => {}
        other => panic!("unexpected {:?}", other.map(|_| ())),
    }
    // a failure publishes nothing
    let parsed = session.parse_module(&path, Ok("fn f() {}")).unwrap();
    assert_eq!(parsed.items.len(), 1);
}

#[test]
fn publish_goes_by_the_lock() {
    let path = fs_path(&["m"]);
    let module = Arc::new(parse_module("use a;").unwrap());
    match Session::publish(Err(LockFailure::WouldBlock), &path, module.clone()) {
        Err(CompilerError::WouldBlock(name)) => assert_eq!(name, "session.parsed"),
        other => panic!("unexpected {:?}", other.map(|_| ())),
    }
    match Session::publish(Err(LockFailure::Poisoned), &path, module.clone()) {
        Err(CompilerError::Internal(internal)) => assert_eq!(
            internal.to_string(),
            "During parsing, encountered error:\na parsing thread panicked"
        ),
        other => panic!("unexpected {:?}", other.map(|_| ())),
    }
    let mut cache = ParseCache::new();
    let handle = Session::publish(Ok(&mut cache), &path, module.clone()).unwrap();
    assert!(Arc::ptr_eq(&handle, &module));
    let late = Arc::new(parse_module("").unwrap());
    let handle = Session::publish(Ok(&mut cache), &path, late.clone()).unwrap();
    assert!(Arc::ptr_eq(&handle, &module));
    let handle = cache.insert_if_absent(&fs_path(&["n"]), late.clone());
    assert!(Arc::ptr_eq(&handle, &late));
}

#[test]
fn session_gathers_no_errors() {
    let session = Session::new();
    session.lower_functions();
    assert!(session.errors().is_ok());
}

#[test]
fn driver_parses_every_source() {
    let session = Session::new();
    let driver = Driver::new();
    let sources = vec![
        (fs_path(&["a"]), Ok("use x;".to_string())),
        (fs_path(&["b"]), Ok("use x; use y;".to_string())),
        (fs_path(&["a"]), Ok("fn late() {}".to_string())),
    ];
    let handles = driver.ast(&session, &sources).unwrap();
    assert_eq!(handles.len(), 3);
    assert_eq!(handles[0].items.len(), 1);
    assert_eq!(handles[1].items.len(), 2);
    // the file was parsed before: its module is the one that was published
    assert!(Arc::ptr_eq(&handles[0], &handles[2]));
    assert!(driver.ast(&session, &[]).unwrap().is_empty());
}

#[test]
fn driver_stops_at_the_first_failure() {
    let session = Session::new();
    let driver = Driver::new();
    let sources = vec![
        (fs_path(&["a"]), Ok("use x;".to_string())),
        (fs_path(&["b"]), Err(failure("unreadable"))),
        (fs_path(&["c"]), Ok("let".to_string())),
    ];
    match driver.ast(&session, &sources) {
        Err(CompilerError::Input(InputError::Io { source })) => assert_eq!(source.message, "unreadable"),
        other => panic!("unexpected {:?}", other.map(|_| ())),
    }
    match driver.ast(&session, &sources[2..]) {
        Err(CompilerError::Shader(_)) => {}
        other => panic!("unexpected {:?}", other.map(|_| ())),
    }
    // what was parsed before the failure stays published
    let again = session.parse_module(&fs_path(&["a"]), Ok("")).unwrap();
    assert_eq!(again.items.len(), 1);
}
