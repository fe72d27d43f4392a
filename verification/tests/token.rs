use rust_shaders::token::Token;
use rust_shaders::token::TokenStream;

#[test]
fn parses_tokens() {
    let buffer: Vec<Token> = TokenStream::buffer("
            uniform boop : //
        ").iter().map(|(token, _span)| token.clone()).collect();

    assert_eq!(buffer, vec![
        Token::Uniform,
        Token::Text,
        Token::Colon,
        Token::LineComment,
    ]);
}

#[test]
fn skips_line_comments() {
    const SOURCE: &str = "
            uniform
            //
            foo
        ";
    let buffer = TokenStream::buffer(SOURCE);
    let mut stream = TokenStream::new(&buffer, SOURCE);

    assert!(Iterator::eq(buffer.iter().map(|(t, _)| t), [
        Token::Uniform,
        Token::LineComment,
        Token::Text,
    ].iter()));
    assert_eq!(stream.next().unwrap(), &Token::Uniform);
    assert_eq!(stream.skip_line_comments(), 1);
    assert_eq!(stream.skip_comments(), 1);
    assert_eq!(stream.next().unwrap(), &Token::Text);
}

#[test]
fn skips_block_comments() {
    const SOURCE: &str = "
            uniform
            /*
             uniform
             foobarbaz
            */
            let
        ";
    let buffer = TokenStream::buffer(SOURCE);
    let mut stream = TokenStream::new(&buffer, SOURCE);

    assert!(Iterator::eq(buffer.iter().map(|(t, _)| t), [
        Token::Uniform,
        Token::OpenComment,
        Token::Uniform,
        Token::Text,
        Token::CloseComment,
        Token::Let,
    ].iter()));
    assert_eq!(stream.next().unwrap(), &Token::Uniform);
    assert_eq!(stream.skip_line_comments(), 0);
    assert_eq!(stream.skip_comments(), 4);
    assert_eq!(stream.next().unwrap(), &Token::Let);
}

#[test]
fn skips_nested_block_comments() {
    const SOURCE: &str = "
            uniform
            /*
             /*
              */
             uniform
             foobarbaz
            */
            let
        ";
    let buffer = TokenStream::buffer(SOURCE);
    let mut stream = TokenStream::new(&buffer, SOURCE);

    assert!(Iterator::eq(buffer.iter().map(|(t, _)| t), [
        Token::Uniform,
        Token::OpenComment,
        Token::OpenComment,
        Token::CloseComment,
        Token::Uniform,
        Token::Text,
        Token::CloseComment,
        Token::Let,
    ].iter()));
    assert_eq!(stream.next().unwrap(), &Token::Uniform);
    assert_eq!(stream.skip_line_comments(), 0);
    assert_eq!(stream.skip_comments(), 6);
    assert_eq!(stream.next().unwrap(), &Token::Let);
}

#[test]
fn peek_skips_comments() {
    const SOURCE: &str = "
            uniform
            // apple
            banana
        ";
    let buffer = TokenStream::buffer(SOURCE);
    let mut stream = TokenStream::new(&buffer, SOURCE);

    assert_eq!(stream.next().unwrap(), &Token::Uniform);
    assert_eq!(stream.peek().unwrap(), &Token::Text);
}

#[test]
fn eof_aware() {
    const SOURCE: &str = "
            uniform
        ";
    let buffer = TokenStream::buffer(SOURCE);
    let mut stream = TokenStream::new(&buffer, SOURCE);

    assert_eq!(stream.next().unwrap(), &Token::Uniform);
    assert!(stream.eof());
    assert_eq!(stream.next(), None);
}

#[test]
fn eof_comment_aware() {
    const SOURCE: &str = "
            uniform
            // apple
        ";
    let buffer = TokenStream::buffer(SOURCE);
    let mut stream = TokenStream::new(&buffer, SOURCE);

    assert_eq!(stream.next().unwrap(), &Token::Uniform);
    assert!(stream.eof());
}

fn kinds(source: &str) -> Vec<Token> {
    TokenStream::buffer(source).iter().map(|(token, _)| *token).collect()
}

#[test]
fn lexes_every_keyword_and_symbol() {
    assert_eq!(
        kinds("declare type const use in out uniform let mut fn -> if for . : ; ( ) { } :: = /* */"),
        vec![
            Token::Declare,
            Token::Type,
            Token::Const,
            Token::Use,
            Token::In,
            Token::Out,
            Token::Uniform,
            Token::Let,
            Token::Mut,
            Token::Function,
            Token::RightArrow,
            Token::If,
            Token::For,
            Token::Period,
            Token::Colon,
            Token::Semicolon,
            Token::LeftParen,
            Token::RightParen,
            Token::LeftBrace,
            Token::RightBrace,
            Token::PathSeparator,
            Token::Equals,
            Token::OpenComment,
            Token::CloseComment,
        ]
    );
}

#[test]
fn longest_match_wins() {
    assert_eq!(kinds("in int inx in1 IN"), vec![Token::In, Token::Text, Token::Text, Token::Text, Token::Text]);
    assert_eq!(kinds("uniformx uniform"), vec![Token::Text, Token::Uniform]);
    assert_eq!(kinds("declar declare declared"), vec![Token::Text, Token::Declare, Token::Text]);
    assert_eq!(kinds("fo"), vec![Token::Text]);
    assert_eq!(kinds("f"), vec![Token::Text]);
    assert_eq!(kinds("fn"), vec![Token::Function]);
    assert_eq!(kinds("for9"), vec![Token::Text]);
    assert_eq!(kinds("->>-"), vec![Token::RightArrow, Token::Error, Token::Error]);
    assert_eq!(kinds("/*/"), vec![Token::OpenComment, Token::Error]);
    assert_eq!(kinds("*//"), vec![Token::CloseComment, Token::Error]);
    assert_eq!(kinds(":::"), vec![Token::PathSeparator, Token::Colon]);
    assert_eq!(kinds("a::b"), vec![Token::Text, Token::PathSeparator, Token::Text]);
    assert_eq!(kinds("fn(){}"), vec![
        Token::Function,
        Token::LeftParen,
        Token::RightParen,
        Token::LeftBrace,
        Token::RightBrace,
    ]);
}

#[test]
fn spans_are_byte_ranges() {
    let buffer = TokenStream::buffer("use  main::vert;");
    assert_eq!(buffer, vec![
        (Token::Use, 0..3),
        (Token::Text, 5..9),
        (Token::PathSeparator, 9..11),
        (Token::Text, 11..15),
        (Token::Semicolon, 15..16),
    ]);
}

#[test]
fn whitespace_is_never_a_token() {
    assert_eq!(kinds(""), vec![]);
    assert_eq!(kinds(" \t\r\n\x0c"), vec![]);
    assert_eq!(TokenStream::buffer("\t\x0cfn\r\n"), vec![(Token::Function, 2..4)]);
}

#[test]
fn unknown_characters_become_error_tokens() {
    assert_eq!(TokenStream::buffer("12"), vec![(Token::Error, 0..1), (Token::Error, 1..2)]);
    assert_eq!(TokenStream::buffer("-x"), vec![(Token::Error, 0..1), (Token::Text, 1..2)]);
    assert_eq!(TokenStream::buffer("/ *"), vec![(Token::Error, 0..1), (Token::Error, 2..3)]);
    assert_eq!(TokenStream::buffer("a_b"), vec![
        (Token::Text, 0..1),
        (Token::Error, 1..2),
        (Token::Text, 2..3),
    ]);
    assert_eq!(TokenStream::buffer("\x0b"), vec![(Token::Error, 0..1)]);
}

#[test]
fn error_token_covers_a_whole_character() {
    assert_eq!(TokenStream::buffer("é"), vec![(Token::Error, 0..2)]);
    assert_eq!(TokenStream::buffer("a€b"), vec![
        (Token::Text, 0..1),
        (Token::Error, 1..4),
        (Token::Text, 4..5),
    ]);
    assert_eq!(TokenStream::buffer("😀="), vec![(Token::Error, 0..4), (Token::Equals, 4..5)]);
}

#[test]
fn line_comment_runs_to_the_end_of_the_line() {
    assert_eq!(TokenStream::buffer("// a /* é */\nfn"), vec![
        (Token::LineComment, 0..13),
        (Token::Function, 14..16),
    ]);
    assert_eq!(TokenStream::buffer("//"), vec![(Token::LineComment, 0..2)]);
    assert_eq!(TokenStream::buffer("x//\r\n"), vec![(Token::Text, 0..1), (Token::LineComment, 1..4)]);
}

#[test]
fn lexeme_and_name_of_tokens() {
    assert_eq!(Token::Uniform.lexeme(), Some("uniform"));
    assert_eq!(Token::PathSeparator.lexeme(), Some("::"));
    assert_eq!(Token::OpenComment.lexeme(), Some("/*"));
    assert_eq!(Token::Text.lexeme(), None);
    assert_eq!(Token::LineComment.lexeme(), None);
    assert_eq!(Token::Error.lexeme(), None);
    assert_eq!(Token::Use.name_str(), "Token::Use");
    assert_eq!(Token::RightArrow.name_str(), "Token::RightArrow");
}

#[test]
fn skip_counts_one_line_comment() {
    const SOURCE: &str = "uniform // \n foo";
    let buffer = TokenStream::buffer(SOURCE);
    let mut stream = TokenStream::new(&buffer, SOURCE);
    assert_eq!(stream.next(), Some(&Token::Uniform));
    assert_eq!(stream.skip_comments(), 1);
    assert_eq!(stream.try_skip_comments(), Some(1));
    assert_eq!(stream.next(), Some(&Token::Text));
    assert_eq!(stream.slice_prev(), Some("foo"));
}

#[test]
fn skip_counts_a_block_comment() {
    const SOURCE: &str = "uniform /* uniform foobarbaz */ let";
    let buffer = TokenStream::buffer(SOURCE);
    let mut stream = TokenStream::new(&buffer, SOURCE);
    assert_eq!(stream.next(), Some(&Token::Uniform));
    assert_eq!(stream.skip_comments(), 4);
    assert_eq!(stream.peek(), Some(&Token::Let));
}

#[test]
fn nested_block_comment_is_one_unit() {
    const SOURCE: &str = "/* /* */ uniform foobarbaz */";
    let buffer = TokenStream::buffer(SOURCE);
    assert_eq!(buffer.len(), 6);
    let mut stream = TokenStream::new(&buffer, SOURCE);
    assert_eq!(stream.skip_comments(), 6);
    assert!(stream.eof());
    assert_eq!(stream.next(), None);
    assert_eq!(stream.skip_comments(), 0);
}

#[test]
fn deeply_nested_comment_and_trailing_line_comments() {
    const SOURCE: &str = "// a\n// b\n/* /* /* x */ */ */ // c\n// d\nfn";
    let buffer = TokenStream::buffer(SOURCE);
    let mut stream = TokenStream::new(&buffer, SOURCE);
    assert_eq!(stream.skip_line_comments(), 2);
    assert_eq!(stream.skip_comments(), 11);
    assert_eq!(stream.next(), Some(&Token::Function));
    assert!(stream.eof());
}

#[test]
fn second_block_comment_is_not_stepped_over() {
    const SOURCE: &str = "/**/ /**/ let";
    let buffer = TokenStream::buffer(SOURCE);
    let mut stream = TokenStream::new(&buffer, SOURCE);
    assert_eq!(stream.skip_comments(), 2);
    assert_eq!(stream.peek(), Some(&Token::OpenComment));
    assert_eq!(stream.next(), Some(&Token::OpenComment));
    assert_eq!(stream.next(), Some(&Token::CloseComment));
    assert_eq!(stream.next(), Some(&Token::Let));
}

#[test]
fn stray_closer_is_an_ordinary_token() {
    const SOURCE: &str = "*/ fn";
    let buffer = TokenStream::buffer(SOURCE);
    let mut stream = TokenStream::new(&buffer, SOURCE);
    assert_eq!(stream.skip_comments(), 0);
    assert_eq!(stream.next(), Some(&Token::CloseComment));
    assert_eq!(stream.next(), Some(&Token::Function));
}

#[test]
fn unterminated_comment_is_reported() {
    const SOURCE: &str = "fn /* /* */ uniform";
    let buffer = TokenStream::buffer(SOURCE);
    let mut stream = TokenStream::new(&buffer, SOURCE);
    assert_eq!(stream.try_next(), Ok(Some(&Token::Function)));
    assert_eq!(stream.try_skip_comments(), None);
    assert!(stream.try_peek().is_err());
    assert!(stream.try_next().is_err());
    // the stream stays where it was
    assert_eq!(stream.slice(), Some("/*"));
    assert_eq!(stream.slice_prev(), Some("fn"));
}

#[test]
fn comments_do_not_change_what_is_yielded() {
    fn yielded(source: &str) -> Vec<Token> {
        let buffer = TokenStream::buffer(source);
        let mut stream = TokenStream::new(&buffer, source);
        let mut out = Vec::new();
        while let Some(token) = stream.next() {
            out.push(*token);
        }
        out
    }
    let bare = "uniform scene : Scene ; fn main ( ) { }";
    let commented = "// head\nuniform /* a /* b */ c */ scene : // x\n Scene ; /* */ // y\n fn main ( ) /* /* /* */ */ */ { } // tail";
    assert_eq!(yielded(commented), yielded(bare));
    assert_eq!(yielded(bare), kinds(bare));
}

#[test]
fn slice_shows_the_token_at_the_cursor() {
    const SOURCE: &str = "// c\nfoo bar";
    let buffer = TokenStream::buffer(SOURCE);
    let mut stream = TokenStream::new(&buffer, SOURCE);
    assert_eq!(stream.slice(), Some("// c"));
    assert_eq!(stream.slice_prev(), None);
    assert_eq!(stream.next(), Some(&Token::Text));
    assert_eq!(stream.slice_prev(), Some("foo"));
    assert_eq!(stream.slice(), Some("bar"));
    assert_eq!(stream.next(), Some(&Token::Text));
    assert_eq!(stream.slice(), None);
    assert_eq!(stream.next(), None);
    assert_eq!(stream.slice_prev(), Some("bar"));
}

#[test]
fn slice_of_a_range_that_does_not_fit_is_none() {
    let source = "é";
    let buffer = vec![(Token::Text, 0..1), (Token::Text, 0..9), (Token::Text, 2..1)];
    let mut stream = TokenStream::new(&buffer, source);
    assert_eq!(stream.slice(), None);
    assert_eq!(stream.next(), Some(&Token::Text));
    assert_eq!(stream.slice_prev(), None);
    assert_eq!(stream.slice(), None);
    assert_eq!(stream.next(), Some(&Token::Text));
    assert_eq!(stream.slice(), None);
}

#[test]
fn copy_of_a_stream_is_independent() {
    const SOURCE: &str = "fn main";
    let buffer = TokenStream::buffer(SOURCE);
    let mut stream = TokenStream::new(&buffer, SOURCE);
    let snapshot = stream;
    assert_eq!(stream.next(), Some(&Token::Function));
    assert_eq!(stream.peek(), Some(&Token::Text));
    assert_eq!(snapshot.peek(), Some(&Token::Function));
}
