use rust_shaders::error::CompilerError;
use rust_shaders::syntax::declare_const;
use rust_shaders::syntax::declare_item;
use rust_shaders::syntax::declare_type;
use rust_shaders::syntax::function;
use rust_shaders::syntax::global;
use rust_shaders::syntax::item;
use rust_shaders::syntax::module;
use rust_shaders::syntax::named_type;
use rust_shaders::syntax::parse_module;
use rust_shaders::syntax::use_item;
use rust_shaders::syntax::Declare;
use rust_shaders::syntax::GlobalQualifier;
use rust_shaders::syntax::Item;
use rust_shaders::syntax::ParseErrorDetail;
use rust_shaders::syntax::TypeName;
use rust_shaders::token::Token;
use rust_shaders::token::TokenStream;

fn type_text(name: &TypeName) -> &str {
    match name {
        TypeName::Identifier(identifier) => identifier.str(),
        _ => panic!("not an identifier"),
    }
}

#[test]
fn declare_type_parses() {
    let module = parse_module("declare type Foo;").unwrap();
    assert_eq!(module.items.len(), 1);
    match &module.items[0] {
        Item::Declare(Declare::Type(declared)) => assert_eq!(declared.0.str(), "Foo"),
        other => panic!("unexpected {:?}", other),
    }
}

#[test]
fn declare_const_parses() {
    let module = parse_module("declare const Bar: Baz;").unwrap();
    assert_eq!(module.items.len(), 1);
    match &module.items[0] {
        Item::Declare(Declare::Const(declared)) => {
            assert_eq!(declared.0.str(), "Bar");
            assert_eq!(type_text(&declared.1), "Baz");
        }
        other => panic!("unexpected {:?}", other),
    }
}

#[test]
fn malformed_declare_is_a_syntax_error() {
    match parse_module("declare foo;") {
        Err(CompilerError::Shader(shader)) => {
            assert_eq!(shader.annotations.annotations.len(), 1);
            assert_eq!(
                format!("{:?}", shader.annotations.annotations[0].message),
                format!(
                    "{:?}",
                    rust_shaders::span::SpanMessage::Error(
                        "ParseError <undefined> at \"declare\"; detail: Syntax(\"expected declaration\")"
                            .to_string()
                    )
                )
            );
        }
        other => panic!("unexpected {:?}", other.map(|_| ())),
    }
}

#[test]
fn use_item_reads_the_path() {
    const SOURCE: &str = "use main::vert; fn";
    let buffer = TokenStream::buffer(SOURCE);
    let (rest, parsed) = use_item(TokenStream::new(&buffer, SOURCE)).unwrap();
    let names: Vec<&str> = parsed.path.iter().map(|name| name.str()).collect();
    assert_eq!(names, vec!["main", "vert"]);
    assert_eq!(rest.peek(), Some(&Token::Function));
    assert_eq!(rest.slice_prev(), Some(";"));
}

#[test]
fn identifier_is_its_text() {
    const SOURCE: &str = "use shade;";
    let buffer = TokenStream::buffer(SOURCE);
    let (_, parsed) = use_item(TokenStream::new(&buffer, SOURCE)).unwrap();
    let name: &str = parsed.path[0].as_ref();
    assert_eq!(name, "shade");
    assert_eq!(parsed.path[0].str(), "shade");
}

#[test]
fn use_item_failures() {
    fn failure(source: &str) -> String {
        let buffer = TokenStream::buffer(source);
        let error = use_item(TokenStream::new(&buffer, source)).unwrap_err();
        error.to_string()
    }
    assert_eq!(
        failure("fn main;"),
        "ParseError <undefined> at \"main\"; detail: Syntax(\"expected Token::Use\")"
    );
    assert_eq!(
        failure("use ;"),
        "ParseError <undefined> at \"<eof>"
    );
    assert_eq!(
        failure("use a b;"),
        "ParseError <undefined> at \";\"; detail: Syntax(\"expected path\")"
    );
    assert_eq!(
        failure("use a:: ;x"),
        "ParseError <undefined> at \"x\"; detail: Syntax(\"expected identifier\")"
    );
    assert_eq!(failure("use a"), "ParseError <undefined> at \"<eof>");
}

#[test]
fn parse_error_tells_its_detail() {
    const SOURCE: &str = "use 1";
    let buffer = TokenStream::buffer(SOURCE);
    let error = use_item(TokenStream::new(&buffer, SOURCE)).unwrap_err();
    match error.detail() {
        ParseErrorDetail::Syntax(message) => assert_eq!(message, "expected identifier"),
        other => panic!("unexpected {:?}", other),
    }
}

#[test]
fn message_is_quoted() {
    // the text of the token is copied as it is, the message is quoted
    const SOURCE: &str = "let \"";
    let buffer = TokenStream::buffer(SOURCE);
    let error = item(TokenStream::new(&buffer, SOURCE)).unwrap_err();
    assert_eq!(
        error.to_string(),
        "ParseError <undefined> at \"let\"; detail: Syntax(\"expected item\")"
    );
}

#[test]
fn global_parses_each_qualifier() {
    for (source, qualifier) in [
        ("in position: vec3;", GlobalQualifier::In),
        ("out color: vec4;", GlobalQualifier::Out),
        ("uniform scene: Scene;", GlobalQualifier::Uniform),
    ] {
        let buffer = TokenStream::buffer(source);
        let (rest, parsed) = global(TokenStream::new(&buffer, source)).unwrap();
        assert!(rest.eof());
        match parsed {
            Item::Global(found) => {
                assert_eq!(found.qualifier, qualifier);
                assert_eq!(found.identifier.str(), source.split(|c| c == ' ' || c == ':').nth(1).unwrap());
                assert_eq!(type_text(&found.definition), source.rsplit(' ').next().unwrap().trim_end_matches(';'));
            }
            other => panic!("unexpected {:?}", other),
        }
    }
}

#[test]
fn global_failures() {
    fn failure(source: &str) -> String {
        let buffer = TokenStream::buffer(source);
        global(TokenStream::new(&buffer, source)).unwrap_err().to_string()
    }
    assert_eq!(
        failure("const x: y;"),
        "ParseError <undefined> at \"x\"; detail: Syntax(\"expected global qualifier (in, out, or uniform)\")"
    );
    assert_eq!(failure(""), "ParseError <undefined> at \"<eof>");
    assert_eq!(
        failure("in x y;"),
        "ParseError <undefined> at \";\"; detail: Syntax(\"expected Token::Colon\")"
    );
    assert_eq!(
        failure("in x: y z"),
        "ParseError <undefined> at \"<eof>"
    );
    assert_eq!(
        failure("in in: y;"),
        "ParseError <undefined> at \":\"; detail: Syntax(\"expected identifier\")"
    );
}

#[test]
fn function_parses_with_and_without_return_type() {
    const PLAIN: &str = "fn main() {}";
    let buffer = TokenStream::buffer(PLAIN);
    match function(TokenStream::new(&buffer, PLAIN)).unwrap() {
        (rest, Item::Function(found)) => {
            assert!(rest.eof());
            assert_eq!(found.name.str(), "main");
            assert!(found.return_type.is_none());
            assert!(found.body.statements.is_empty());
        }
        (_, other) => panic!("unexpected {:?}", other),
    }
    const TYPED: &str = "fn shade() -> vec4 { }";
    let buffer = TokenStream::buffer(TYPED);
    match function(TokenStream::new(&buffer, TYPED)).unwrap() {
        (rest, Item::Function(found)) => {
            assert!(rest.eof());
            assert_eq!(found.name.str(), "shade");
            assert_eq!(type_text(found.return_type.as_ref().unwrap()), "vec4");
            assert!(found.body.statements.is_empty());
        }
        (_, other) => panic!("unexpected {:?}", other),
    }
}

#[test]
fn function_failures() {
    fn failure(source: &str) -> String {
        let buffer = TokenStream::buffer(source);
        function(TokenStream::new(&buffer, source)).unwrap_err().to_string()
    }
    assert_eq!(
        failure("fn f(x) {}"),
        "ParseError <undefined> at \")\"; detail: Syntax(\"expected Token::RightParen\")"
    );
    assert_eq!(
        failure("fn f() vec4 {}"),
        "ParseError <undefined> at \"{\"; detail: Syntax(\"expected Token::RightArrow\")"
    );
    assert_eq!(
        failure("fn f() -> {}"),
        "ParseError <undefined> at \"}\"; detail: Syntax(\"expected identifier\")"
    );
    assert_eq!(
        failure("fn f() { let }"),
        "ParseError <undefined> at \"}\"; detail: Syntax(\"expected Token::RightBrace\")"
    );
    assert_eq!(
        failure("f() {}"),
        "ParseError <undefined> at \"(\"; detail: Syntax(\"expected Token::Function\")"
    );
}

#[test]
fn named_type_is_an_identifier() {
    const SOURCE: &str = "vec4 ;";
    let buffer = TokenStream::buffer(SOURCE);
    let (rest, parsed) = named_type(TokenStream::new(&buffer, SOURCE)).unwrap();
    assert_eq!(type_text(&parsed), "vec4");
    assert_eq!(rest.peek(), Some(&Token::Semicolon));
    const TUPLE: &str = "(a)";
    let buffer = TokenStream::buffer(TUPLE);
    let error = named_type(TokenStream::new(&buffer, TUPLE)).unwrap_err();
    assert_eq!(
        error.to_string(),
        "ParseError <undefined> at \"a\"; detail: Syntax(\"expected identifier\")"
    );
}

#[test]
fn declare_rules_one_by_one() {
    const TYPE: &str = "declare type Material;";
    let buffer = TokenStream::buffer(TYPE);
    assert!(declare_type(TokenStream::new(&buffer, TYPE)).is_ok());
    assert_eq!(
        declare_const(TokenStream::new(&buffer, TYPE)).unwrap_err().to_string(),
        "ParseError <undefined> at \"Material\"; detail: Syntax(\"expected Token::Const\")"
    );
    assert!(matches!(declare_item(TokenStream::new(&buffer, TYPE)), Ok((_, Item::Declare(Declare::Type(_))))));
    const CONST: &str = "declare const Pi: float;";
    let buffer = TokenStream::buffer(CONST);
    assert!(declare_const(TokenStream::new(&buffer, CONST)).is_ok());
    assert_eq!(
        declare_type(TokenStream::new(&buffer, CONST)).unwrap_err().to_string(),
        "ParseError <undefined> at \"Pi\"; detail: Syntax(\"expected Token::Type\")"
    );
    assert!(matches!(declare_item(TokenStream::new(&buffer, CONST)), Ok((_, Item::Declare(Declare::Const(_))))));
    const BAD: &str = "declare type;";
    let buffer = TokenStream::buffer(BAD);
    assert_eq!(
        declare_item(TokenStream::new(&buffer, BAD)).unwrap_err().to_string(),
        "ParseError <undefined> at \"declare\"; detail: Syntax(\"expected declaration\")"
    );
}

#[test]
fn item_is_told_by_its_first_token() {
    fn kind(source: &str) -> &'static str {
        let buffer = TokenStream::buffer(source);
        match item(TokenStream::new(&buffer, source)) {
            Ok((_, Item::Use(_))) => "use",
            Ok((_, Item::Declare(_))) => "declare",
            Ok((_, Item::Global(_))) => "global",
            Ok((_, Item::Function(_))) => "function",
            Ok((_, Item::Struct(_))) => "struct",
            Err(_) => "error",
        }
    }
    assert_eq!(kind("use a;"), "use");
    assert_eq!(kind("// c\n/* c */ declare type A;"), "declare");
    assert_eq!(kind("in a: b;"), "global");
    assert_eq!(kind("out a: b;"), "global");
    assert_eq!(kind("uniform a: b;"), "global");
    assert_eq!(kind("fn a() {}"), "function");
    assert_eq!(kind("let a;"), "error");
    assert_eq!(kind(""), "error");
}

#[test]
fn item_failure_keeps_the_stream() {
    const SOURCE: &str = "mut x";
    let buffer = TokenStream::buffer(SOURCE);
    let error = item(TokenStream::new(&buffer, SOURCE)).unwrap_err();
    assert_eq!(
        error.to_string(),
        "ParseError <undefined> at \"mut\"; detail: Syntax(\"expected item\")"
    );
    const EMPTY: &str = " // nothing";
    let buffer = TokenStream::buffer(EMPTY);
    let error = item(TokenStream::new(&buffer, EMPTY)).unwrap_err();
    assert_eq!(
        error.to_string(),
        "ParseError <undefined> at \"// nothing\"; detail: Syntax(\"expected item\")"
    );
}

#[test]
fn module_reads_items_up_to_the_end() {
    const SOURCE: &str = "
uniform scene: Scene;
uniform material: Material;

declare type Material;

use extern::Material; // , Shade};

use root::frag;
/* the entry
   /* point */ */
fn main() -> vec4 {}
// done
";
    let parsed = parse_module(SOURCE).unwrap();
    let shapes: Vec<&str> = parsed
        .items
        .iter()
        .map(|item| match item {
            Item::Use(_) => "use",
            Item::Declare(_) => "declare",
            Item::Global(_) => "global",
            Item::Function(_) => "function",
            Item::Struct(_) => "struct",
        })
        .collect();
    assert_eq!(shapes, vec!["global", "global", "declare", "use", "use", "function"]);
    match &parsed.items[3] {
        Item::Use(found) => {
            let names: Vec<&str> = found.path.iter().map(|name| name.str()).collect();
            assert_eq!(names, vec!["extern", "Material"]);
        }
        other => panic!("unexpected {:?}", other),
    }
}

#[test]
fn module_leaves_the_stream_in_front_of_trailing_comments() {
    const SOURCE: &str = "use a; // tail";
    let buffer = TokenStream::buffer(SOURCE);
    let (rest, parsed) = module(TokenStream::new(&buffer, SOURCE)).unwrap();
    assert_eq!(parsed.items.len(), 1);
    assert!(rest.eof());
    assert_eq!(rest.slice(), Some("// tail"));
}

#[test]
fn empty_source_is_an_empty_module() {
    assert!(parse_module("").unwrap().items.is_empty());
    assert!(parse_module(" // only a comment\n/* and /* another */ */ ").unwrap().items.is_empty());
}

#[test]
fn module_fails_at_the_first_bad_item() {
    match parse_module("use a; let b; use c d") {
        Err(CompilerError::Shader(_)) => {}
        other => panic!("unexpected {:?}", other.map(|_| ())),
    }
}

#[test]
fn unterminated_comment_is_an_internal_error() {
    match parse_module("use a; /* never closed") {
        Err(CompilerError::Internal(internal)) => {
            assert_eq!(
                internal.to_string(),
                "During parsing, encountered error:\nencountered EOF inside comment"
            );
        }
        other => panic!("unexpected {:?}", other.map(|_| ())),
    }
    const SOURCE: &str = "declare /* type A;";
    let buffer = TokenStream::buffer(SOURCE);
    let error = declare_item(TokenStream::new(&buffer, SOURCE)).unwrap_err();
    assert!(matches!(error.detail(), ParseErrorDetail::UnterminatedComment));
    assert_eq!(
        error.to_string(),
        "ParseError <undefined> at \"/*\"; detail: UnterminatedComment"
    );
}

#[test]
fn unterminated_comment_behind_a_bad_item_is_not_reached() {
    match parse_module("let /* never closed") {
        Err(CompilerError::Shader(_)) => {}
        other => panic!("unexpected {:?}", other.map(|_| ())),
    }
}
