use rust_shaders::compiler::Compiler;
use rust_shaders::compiler::DefaultWriter;
use rust_shaders::config::Config;
use rust_shaders::config::ConfigSource;
use rust_shaders::config::EnvVar;
use rust_shaders::config::Input;
use rust_shaders::config::ShaderStage;
use rust_shaders::config::Target;
use rust_shaders::driver::Driver;
use rust_shaders::error::CompilerError;
use rust_shaders::error::CompilerStage;
use rust_shaders::error::InputError;
use rust_shaders::error::IoFailure;
use rust_shaders::error::IoFailureKind;
use rust_shaders::fs::DirEntry;
use rust_shaders::fs::FsComponent;
use rust_shaders::fs::FsPath;
use rust_shaders::fs::Listing;
use rust_shaders::hir;
use rust_shaders::linker::Linker;
use rust_shaders::span::Annotations;
use rust_shaders::span::SourcePos;
use rust_shaders::span::Span;
use rust_shaders::span::SpanMessage;
use rust_shaders::text::decimal_string;
use rust_shaders::text::same_text;
use rust_shaders::text::slice_of;

fn names(parts: &[&str]) -> FsPath {
    FsPath {
        components: parts.iter().map(|name| FsComponent::Normal(name.as_bytes().to_vec())).collect(),
    }
}

#[test]
fn error_constructors() {
    match CompilerError::include_error("use a;") {
        CompilerError::Input(InputError::Include(name)) => assert_eq!(name, "use a;"),
        other => panic!("unexpected {:?}", other),
    }
    match CompilerError::resource_unavailable("session.parsed") {
        CompilerError::WouldBlock(name) => assert_eq!(name, "session.parsed"),
        other => panic!("unexpected {:?}", other),
    }
    match CompilerError::ice("boom".to_string(), CompilerStage::Lowering) {
        CompilerError::Internal(internal) => {
            assert_eq!(internal.to_string(), "During lowering, encountered error:\nboom")
        }
        other => panic!("unexpected {:?}", other),
    }
    match CompilerError::from_io(IoFailure::new(IoFailureKind::InvalidData, "bad")) {
        CompilerError::Input(InputError::Io { source }) => {
            assert_eq!(source.kind, IoFailureKind::InvalidData);
            assert_eq!(source.message, "bad");
        }
        other => panic!("unexpected {:?}", other),
    }
}

#[test]
fn stage_names() {
    assert_eq!(CompilerStage::Parsing.to_str(), "parsing");
    assert_eq!(CompilerStage::Lowering.to_str(), "lowering");
}

#[test]
fn annotations_of_one_message() {
    let notes = Annotations::from_error_message("went wrong".to_string());
    assert!(notes.sources.is_empty());
    assert_eq!(notes.primary, Span { start: SourcePos::new(0, 0), end: SourcePos::new(0, 0) });
    assert_eq!(notes.annotations.len(), 1);
    assert_eq!(notes.annotations[0].source, None);
    assert!(notes.annotations[0].annotations.is_empty());
    match &notes.annotations[0].message {
        SpanMessage::Error(text) => assert_eq!(text, "went wrong"),
        other => panic!("unexpected {:?}", other),
    }
}

#[test]
fn spans_read_as_text() {
    let span = Span { start: SourcePos::new(0, 0), end: SourcePos::new(12, 4294967295) };
    assert_eq!(span.debug_string(), format!("{:?}", span));
    assert_eq!(
        span.debug_string(),
        "Span { start: SourcePos { line: 0, col: 0 }, end: SourcePos { line: 12, col: 4294967295 } }"
    );
    assert_eq!(SourcePos::new(7, 90).debug_string(), "SourcePos { line: 7, col: 90 }");
}

#[test]
fn numbers_in_decimal() {
    assert_eq!(decimal_string(0), "0");
    assert_eq!(decimal_string(9), "9");
    assert_eq!(decimal_string(10), "10");
    assert_eq!(decimal_string(1203), "1203");
    assert_eq!(decimal_string(u32::MAX), "4294967295");
}

#[test]
fn slices_of_text() {
    assert_eq!(slice_of("héllo", 0, 1), Some("h"));
    assert_eq!(slice_of("héllo", 1, 3), Some("é"));
    assert_eq!(slice_of("héllo", 1, 2), None);
    assert_eq!(slice_of("héllo", 2, 3), None);
    assert_eq!(slice_of("héllo", 3, 3), Some(""));
    assert_eq!(slice_of("héllo", 0, 6), Some("héllo"));
    assert_eq!(slice_of("héllo", 0, 7), None);
    assert_eq!(slice_of("héllo", 4, 3), None);
    assert_eq!(slice_of("", 0, 0), Some(""));
    assert!(same_text("ab", "ab"));
    assert!(!same_text("ab", "abc"));
    assert!(!same_text("ab", "ac"));
    assert!(same_text("", ""));
}

#[test]
fn config_and_stages() {
    assert_eq!(Config::default(), Config {});
    assert_eq!(Config {}.read(), Config {});
    assert_eq!(ShaderStage::Vertex.suffix(), "vert.glsl");
    assert_eq!(ShaderStage::Fragment.suffix(), "frag.glsl");
    let writer = DefaultWriter::new(names(&["out", "shaders"]));
    assert_eq!(writer.root, names(&["out", "shaders"]));
    assert_eq!(
        writer.target(&Target::Glsl, &ShaderStage::Vertex),
        names(&["out", "shaders", "vert.glsl"])
    );
    assert_eq!(
        writer.target(&Target::Glsl, &ShaderStage::Fragment),
        names(&["out", "shaders", "frag.glsl"])
    );
    assert_eq!(writer.root, names(&["out", "shaders"]));
}

#[test]
fn compiler_feeds_its_session() {
    let mut compiler = Compiler::open(Config::default());
    compiler.declare(&[("quality", EnvVar::Integer(3)), ("name", EnvVar::String("x")), ("fast", EnvVar::Bool(true))]);
    let inputs = vec![
        (
            Input::Path(names(&["a"])),
            Listing::Entries(vec![DirEntry::File { path: names(&["a", "main.x"]) }]),
        ),
        (
            Input::Path(names(&["b"])),
            Listing::Failed(IoFailure::new(IoFailureKind::System, "denied")),
        ),
        (
            Input::Path(names(&["c"])),
            Listing::Entries(vec![DirEntry::File { path: names(&["c", "late.x"]) }]),
        ),
    ];
    match compiler.feed(&inputs) {
        Err(CompilerError::Input(InputError::Io { source })) => assert_eq!(source.message, "denied"),
        other => panic!("unexpected {:?}", other),
    }
    let session = compiler.session();
    assert!(session.parse_references(&["use main;"]).is_ok());
    assert!(session.parse_references(&["use late;"]).is_err());
    assert!(compiler.feed(&inputs[..1]).is_ok());
    assert!(compiler.feed(&[]).is_ok());
    let queries = compiler.query();
    let _ = queries.backend();
    let _ = compiler.driver();
    let function = hir::Function {};
    let _module = queries.hir(&[&function]);
    queries.validate_pipeline(&function, &function);
}

#[test]
fn stubs_of_later_stages() {
    let _ = Driver::new();
    let _ = hir::Module::empty();
    let global = hir::Global {};
    assert_eq!(global.type_identifier(), "i32");
    assert_eq!(global.unique_identifier(), "xxx");
    let linker = Linker {};
    let deps = linker.deps(&hir::Function {});
    assert!(deps.globals().is_empty());
    assert!(deps.functions().is_empty());
    assert_eq!(hir::NodeId(3), hir::NodeId(3));
    assert!(hir::NodeId(3) < hir::NodeId(4));
}
