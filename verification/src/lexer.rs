//! The lexical grammar: which token starts at a byte of the source, and
//! where it ends.
//!
//! A token is the longest match at its position. A word that spells a
//! keyword is that keyword, any other word is an identifier. Whitespace
//! separates tokens and is never one itself. A character that starts no
//! token becomes an error token of its own, so lexing never fails.

use crate::token::Token;
use std::ops::Range;
use vstd::prelude::*;
use vstd::string::StringSliceAdditionalSpecFns;
use vstd::utf8::*;

verus! {

/// The sets of bytes of which the grammar takes whole runs.
#[derive(Debug, Clone, Copy, PartialEq, Eq, Structural)]
pub enum ByteClass {
    /// Space, tab, line feed, form feed, carriage return.
    Space,
    /// ASCII letters and digits.
    Word,
    /// Everything up to the end of the line.
    Line,
    /// The bytes that continue a character begun earlier.
    Continuation,
}

/// True for the ASCII letters.
pub open spec fn is_letter(b: u8) -> bool {
    (0x41 <= b <= 0x5a) || (0x61 <= b <= 0x7a)
}

impl ByteClass {
    /// True when `b` is of the class.
    pub open spec fn contains(self, b: u8) -> bool {
        match self {
            ByteClass::Space => b == 0x20 || b == 0x09 || b == 0x0a || b == 0x0c || b == 0x0d,
            ByteClass::Word => is_letter(b) || (0x30 <= b <= 0x39),
            ByteClass::Line => b != 0x0a,
            ByteClass::Continuation => is_continuation_byte(b),
        }
    }

    fn test(self, b: u8) -> (r: bool)
        ensures
            r == self.contains(b),
    {
        match self {
            ByteClass::Space => b == 0x20 || b == 0x09 || b == 0x0a || b == 0x0c || b == 0x0d,
            ByteClass::Word => (0x41 <= b && b <= 0x5a) || (0x61 <= b && b <= 0x7a) || (0x30 <= b
                && b <= 0x39),
            ByteClass::Line => b != 0x0a,
            ByteClass::Continuation => 0x80 <= b && b <= 0xbf,
        }
    }
}

/// Where the longest run of bytes of `class` that starts at `from` ends.
pub open spec fn run_end(bytes: Seq<u8>, from: int, class: ByteClass) -> int
    decreases bytes.len() - from,
{
    if 0 <= from < bytes.len() && class.contains(bytes[from]) {
        run_end(bytes, from + 1, class)
    } else {
        from
    }
}

/// True when `bytes` holds `lit` at `at`.
pub open spec fn starts_with(bytes: Seq<u8>, at: int, lit: Seq<u8>) -> bool {
    0 <= at && at + lit.len() <= bytes.len() && bytes.subrange(at, at + lit.len()) == lit
}

/// The token that a whole word is: the keyword that it spells, else an
/// identifier.
pub open spec fn word_token(word: Seq<u8>) -> Token {
    if word == Token::Declare.spelling() {
        Token::Declare
    } else if word == Token::Type.spelling() {
        Token::Type
    } else if word == Token::Const.spelling() {
        Token::Const
    } else if word == Token::Use.spelling() {
        Token::Use
    } else if word == Token::In.spelling() {
        Token::In
    } else if word == Token::Out.spelling() {
        Token::Out
    } else if word == Token::Uniform.spelling() {
        Token::Uniform
    } else if word == Token::Let.spelling() {
        Token::Let
    } else if word == Token::Mut.spelling() {
        Token::Mut
    } else if word == Token::Function.spelling() {
        Token::Function
    } else if word == Token::If.spelling() {
        Token::If
    } else if word == Token::For.spelling() {
        Token::For
    } else {
        Token::Text
    }
}

/// The symbol that stands at `at`, the longer one where two start alike.
pub open spec fn symbol_at(bytes: Seq<u8>, at: int) -> Option<Token> {
    if starts_with(bytes, at, Token::PathSeparator.spelling()) {
        Some(Token::PathSeparator)
    } else if starts_with(bytes, at, Token::RightArrow.spelling()) {
        Some(Token::RightArrow)
    } else if starts_with(bytes, at, Token::OpenComment.spelling()) {
        Some(Token::OpenComment)
    } else if starts_with(bytes, at, Token::CloseComment.spelling()) {
        Some(Token::CloseComment)
    } else if starts_with(bytes, at, Token::Period.spelling()) {
        Some(Token::Period)
    } else if starts_with(bytes, at, Token::Colon.spelling()) {
        Some(Token::Colon)
    } else if starts_with(bytes, at, Token::Semicolon.spelling()) {
        Some(Token::Semicolon)
    } else if starts_with(bytes, at, Token::LeftParen.spelling()) {
        Some(Token::LeftParen)
    } else if starts_with(bytes, at, Token::RightParen.spelling()) {
        Some(Token::RightParen)
    } else if starts_with(bytes, at, Token::LeftBrace.spelling()) {
        Some(Token::LeftBrace)
    } else if starts_with(bytes, at, Token::RightBrace.spelling()) {
        Some(Token::RightBrace)
    } else if starts_with(bytes, at, Token::Equals.spelling()) {
        Some(Token::Equals)
    } else {
        None
    }
}

/// The token that starts at `at`, a position inside `bytes` that holds no
/// whitespace, and the position where it ends.
///
/// A letter starts a word, which runs over letters and digits. Two slashes
/// start a line comment, which runs to the end of the line. Otherwise a
/// symbol, and failing that an error token of one character.
pub open spec fn token_at(bytes: Seq<u8>, at: int) -> (Token, int) {
    if is_letter(bytes[at]) {
        let end = run_end(bytes, at + 1, ByteClass::Word);
        (word_token(bytes.subrange(at, end)), end)
    } else if starts_with(bytes, at, "//".spec_bytes()) {
        (Token::LineComment, run_end(bytes, at + "//".spec_bytes().len(), ByteClass::Line))
    } else {
        match symbol_at(bytes, at) {
            Some(symbol) => (symbol, at + symbol.spelling().len()),
            None => (Token::Error, run_end(bytes, at + 1, ByteClass::Continuation)),
        }
    }
}

/// The tokens of `bytes` from `from` on, each with the byte range that it
/// covers.
pub open spec fn tokens_from(bytes: Seq<u8>, from: int) -> Seq<(Token, Range<usize>)>
    decreases bytes.len() - from,
    via tokens_from_decreases
{
    let at = run_end(bytes, from, ByteClass::Space);
    if 0 <= from && at < bytes.len() {
        let (token, end) = token_at(bytes, at);
        seq![(token, (at as usize)..(end as usize))] + tokens_from(bytes, end)
    } else {
        Seq::empty()
    }
}

#[via_fn]
proof fn tokens_from_decreases(bytes: Seq<u8>, from: int) {
    let at = run_end(bytes, from, ByteClass::Space);
    if 0 <= from && at < bytes.len() {
        lemma_run_end(bytes, from, ByteClass::Space);
        lemma_token_at(bytes, at);
    }
}

/// The tokens of a source text.
pub open spec fn tokenize(text: Seq<char>) -> Seq<(Token, Range<usize>)> {
    tokens_from(encode_utf8(text), 0)
}

/// A run ends inside the input, at or after its start, on a byte that is
/// not of its class.
pub proof fn lemma_run_end(bytes: Seq<u8>, from: int, class: ByteClass)
    requires
        0 <= from <= bytes.len(),
    ensures
        from <= run_end(bytes, from, class) <= bytes.len(),
        run_end(bytes, from, class) < bytes.len() ==> !class.contains(
            bytes[run_end(bytes, from, class)],
        ),
        forall|i: int| from <= i < run_end(bytes, from, class) ==> class.contains(bytes[i]),
    decreases bytes.len() - from,
{
    if from < bytes.len() && class.contains(bytes[from]) {
        lemma_run_end(bytes, from + 1, class);
    }
}

/// A spelling is one to seven ASCII bytes.
pub proof fn lemma_spelling(token: Token)
    requires
        !token.is_pattern(),
    ensures
        1 <= token.spelling().len() <= 7,
        forall|i: int| 0 <= i < token.spelling().len() ==> token.spelling()[i] <= 0x7f,
{
    lemma_spelled(token);
}

/// ASCII text is encoded as the codes of its characters.
proof fn lemma_ascii_bytes(s: &str)
    requires
        is_ascii_chars(s@),
    ensures
        s.spec_bytes().len() == s@.len(),
        forall|i: int| 0 <= i < s@.len() ==> s.spec_bytes()[i] == s@[i] as u8,
{
    is_ascii_chars_encode_utf8(s@);
}

/// The spellings byte for byte, in ASCII codes.
pub open spec fn spelled(token: Token) -> Seq<u8> {
    match token {
        Token::Declare => seq![0x64u8, 0x65u8, 0x63u8, 0x6cu8, 0x61u8, 0x72u8, 0x65u8],
        Token::Type => seq![0x74u8, 0x79u8, 0x70u8, 0x65u8],
        Token::Const => seq![0x63u8, 0x6fu8, 0x6eu8, 0x73u8, 0x74u8],
        Token::Use => seq![0x75u8, 0x73u8, 0x65u8],
        Token::In => seq![0x69u8, 0x6eu8],
        Token::Out => seq![0x6fu8, 0x75u8, 0x74u8],
        Token::Uniform => seq![0x75u8, 0x6eu8, 0x69u8, 0x66u8, 0x6fu8, 0x72u8, 0x6du8],
        Token::Let => seq![0x6cu8, 0x65u8, 0x74u8],
        Token::Mut => seq![0x6du8, 0x75u8, 0x74u8],
        Token::Function => seq![0x66u8, 0x6eu8],
        Token::RightArrow => seq![0x2du8, 0x3eu8],
        Token::If => seq![0x69u8, 0x66u8],
        Token::For => seq![0x66u8, 0x6fu8, 0x72u8],
        Token::Period => seq![0x2eu8],
        Token::Colon => seq![0x3au8],
        Token::Semicolon => seq![0x3bu8],
        Token::LeftParen => seq![0x28u8],
        Token::RightParen => seq![0x29u8],
        Token::LeftBrace => seq![0x7bu8],
        Token::RightBrace => seq![0x7du8],
        Token::PathSeparator => seq![0x3au8, 0x3au8],
        Token::Equals => seq![0x3du8],
        Token::OpenComment => seq![0x2fu8, 0x2au8],
        Token::CloseComment => seq![0x2au8, 0x2fu8],
        Token::LineComment | Token::Text | Token::Error => Seq::empty(),
    }
}

/// The opening of a line comment, in ASCII codes.
pub open spec fn line_comment_opening() -> Seq<u8> {
    seq![0x2fu8, 0x2fu8]
}

/// A spelling is the bytes that its text stands for.
pub proof fn lemma_spelled(token: Token)
    ensures
        token.spelling() == spelled(token),
{
    match token {
        Token::Declare => {
            reveal_strlit("declare");
            lemma_ascii_bytes("declare");
            assert("declare".spec_bytes() =~= seq![0x64u8, 0x65u8, 0x63u8, 0x6cu8, 0x61u8, 0x72u8, 0x65u8]);
        },
        Token::Type => {
            reveal_strlit("type");
            lemma_ascii_bytes("type");
            assert("type".spec_bytes() =~= seq![0x74u8, 0x79u8, 0x70u8, 0x65u8]);
        },
        Token::Const => {
            reveal_strlit("const");
            lemma_ascii_bytes("const");
            assert("const".spec_bytes() =~= seq![0x63u8, 0x6fu8, 0x6eu8, 0x73u8, 0x74u8]);
        },
        Token::Use => {
            reveal_strlit("use");
            lemma_ascii_bytes("use");
            assert("use".spec_bytes() =~= seq![0x75u8, 0x73u8, 0x65u8]);
        },
        Token::In => {
            reveal_strlit("in");
            lemma_ascii_bytes("in");
            assert("in".spec_bytes() =~= seq![0x69u8, 0x6eu8]);
        },
        Token::Out => {
            reveal_strlit("out");
            lemma_ascii_bytes("out");
            assert("out".spec_bytes() =~= seq![0x6fu8, 0x75u8, 0x74u8]);
        },
        Token::Uniform => {
            reveal_strlit("uniform");
            lemma_ascii_bytes("uniform");
            assert("uniform".spec_bytes() =~= seq![0x75u8, 0x6eu8, 0x69u8, 0x66u8, 0x6fu8, 0x72u8, 0x6du8]);
        },
        Token::Let => {
            reveal_strlit("let");
            lemma_ascii_bytes("let");
            assert("let".spec_bytes() =~= seq![0x6cu8, 0x65u8, 0x74u8]);
        },
        Token::Mut => {
            reveal_strlit("mut");
            lemma_ascii_bytes("mut");
            assert("mut".spec_bytes() =~= seq![0x6du8, 0x75u8, 0x74u8]);
        },
        Token::Function => {
            reveal_strlit("fn");
            lemma_ascii_bytes("fn");
            assert("fn".spec_bytes() =~= seq![0x66u8, 0x6eu8]);
        },
        Token::RightArrow => {
            reveal_strlit("->");
            lemma_ascii_bytes("->");
            assert("->".spec_bytes() =~= seq![0x2du8, 0x3eu8]);
        },
        Token::If => {
            reveal_strlit("if");
            lemma_ascii_bytes("if");
            assert("if".spec_bytes() =~= seq![0x69u8, 0x66u8]);
        },
        Token::For => {
            reveal_strlit("for");
            lemma_ascii_bytes("for");
            assert("for".spec_bytes() =~= seq![0x66u8, 0x6fu8, 0x72u8]);
        },
        Token::Period => {
            reveal_strlit(".");
            lemma_ascii_bytes(".");
            assert(".".spec_bytes() =~= seq![0x2eu8]);
        },
        Token::Colon => {
            reveal_strlit(":");
            lemma_ascii_bytes(":");
            assert(":".spec_bytes() =~= seq![0x3au8]);
        },
        Token::Semicolon => {
            reveal_strlit(";");
            lemma_ascii_bytes(";");
            assert(";".spec_bytes() =~= seq![0x3bu8]);
        },
        Token::LeftParen => {
            reveal_strlit("(");
            lemma_ascii_bytes("(");
            assert("(".spec_bytes() =~= seq![0x28u8]);
        },
        Token::RightParen => {
            reveal_strlit(")");
            lemma_ascii_bytes(")");
            assert(")".spec_bytes() =~= seq![0x29u8]);
        },
        Token::LeftBrace => {
            reveal_strlit("{");
            lemma_ascii_bytes("{");
            assert("{".spec_bytes() =~= seq![0x7bu8]);
        },
        Token::RightBrace => {
            reveal_strlit("}");
            lemma_ascii_bytes("}");
            assert("}".spec_bytes() =~= seq![0x7du8]);
        },
        Token::PathSeparator => {
            reveal_strlit("::");
            lemma_ascii_bytes("::");
            assert("::".spec_bytes() =~= seq![0x3au8, 0x3au8]);
        },
        Token::Equals => {
            reveal_strlit("=");
            lemma_ascii_bytes("=");
            assert("=".spec_bytes() =~= seq![0x3du8]);
        },
        Token::OpenComment => {
            reveal_strlit("/*");
            lemma_ascii_bytes("/*");
            assert("/*".spec_bytes() =~= seq![0x2fu8, 0x2au8]);
        },
        Token::CloseComment => {
            reveal_strlit("*/");
            lemma_ascii_bytes("*/");
            assert("*/".spec_bytes() =~= seq![0x2au8, 0x2fu8]);
        },
        _ => {},
    }
}

/// The opening of a line comment is two slashes.
pub proof fn lemma_line_comment_opening()
    ensures
        "//".spec_bytes() == line_comment_opening(),
{
    reveal_strlit("//");
    lemma_ascii_bytes("//");
    assert("//".spec_bytes() =~= line_comment_opening());
}

/// A token is not empty and ends inside the input.
pub proof fn lemma_token_at(bytes: Seq<u8>, at: int)
    requires
        0 <= at < bytes.len(),
    ensures
        at < token_at(bytes, at).1 <= bytes.len(),
{
    if is_letter(bytes[at]) {
        lemma_run_end(bytes, at + 1, ByteClass::Word);
    } else if starts_with(bytes, at, "//".spec_bytes()) {
        lemma_line_comment_opening();
        lemma_run_end(bytes, at + 2, ByteClass::Line);
    } else {
        match symbol_at(bytes, at) {
            Some(symbol) => {
                lemma_spelling(symbol);
            },
            None => {
                lemma_run_end(bytes, at + 1, ByteClass::Continuation);
            },
        }
    }
}

/// Where the token before token `i` ends, which for the first token is the
/// position `from` where lexing started.
pub open spec fn end_before(tokens: Seq<(Token, Range<usize>)>, from: int, i: int) -> int {
    if 0 < i <= tokens.len() {
        tokens[i - 1].1.end as int
    } else {
        from
    }
}

/// True when `tokens` are the tokens of `bytes` from `from` on, in the
/// order of the source: each is the token at the position where it starts,
/// nothing but whitespace lies in front of it back to the token before it,
/// and nothing but whitespace follows the last one.
pub open spec fn in_source_order(bytes: Seq<u8>, from: int, tokens: Seq<(Token, Range<usize>)>)
    -> bool {
    &&& forall|i: int|
        0 <= i < tokens.len() ==> {
            let start = (#[trigger] tokens[i]).1.start as int;
            &&& end_before(tokens, from, i) <= start < bytes.len()
            &&& run_end(bytes, end_before(tokens, from, i), ByteClass::Space) == start
            &&& token_at(bytes, start) == (tokens[i].0, tokens[i].1.end as int)
        }
    &&& run_end(bytes, end_before(tokens, from, tokens.len() as int), ByteClass::Space)
        == bytes.len()
}

/// The tokens of a source stand in the order of the source, and whitespace
/// is all that lies between them.
pub proof fn lemma_tokens_in_order(bytes: Seq<u8>, from: int)
    requires
        0 <= from <= bytes.len() <= usize::MAX,
    ensures
        in_source_order(bytes, from, tokens_from(bytes, from)),
    decreases bytes.len() - from,
{
    let at = run_end(bytes, from, ByteClass::Space);
    lemma_run_end(bytes, from, ByteClass::Space);
    let all = tokens_from(bytes, from);
    if at < bytes.len() {
        let (token, end) = token_at(bytes, at);
        lemma_token_at(bytes, at);
        lemma_tokens_in_order(bytes, end);
        let rest = tokens_from(bytes, end);
        assert(all[0] == (token, (at as usize)..(end as usize)));
        assert forall|i: int| 0 <= i < all.len() implies {
            let start = (#[trigger] all[i]).1.start as int;
            &&& end_before(all, from, i) <= start < bytes.len()
            &&& run_end(bytes, end_before(all, from, i), ByteClass::Space) == start
            &&& token_at(bytes, start) == (all[i].0, all[i].1.end as int)
        } by {
            if i > 0 {
                assert(all[i] == rest[i - 1]);
                assert(end_before(all, from, i) == end_before(rest, end, i - 1)) by {
                    if i > 1 {
                        assert(all[i - 1] == rest[i - 2]);
                    }
                }
            }
        }
        assert(end_before(all, from, all.len() as int) == end_before(
            rest,
            end,
            rest.len() as int,
        )) by {
            if rest.len() > 0 {
                assert(all[all.len() - 1] == rest[rest.len() - 1]);
            }
        }
    }
}

/// True when each of `tokens` covers whole characters of `text`.
pub open spec fn spans_fit(tokens: Seq<(Token, Range<usize>)>, text: Seq<char>) -> bool {
    forall|i: int|
        0 <= i < tokens.len() ==> crate::text::is_span(
            text,
            (#[trigger] tokens[i]).1.start as int,
            tokens[i].1.end as int,
        )
}

/// Every token from a boundary on starts and ends between two characters.
proof fn lemma_tokens_from_fit(text: Seq<char>, from: int)
    requires
        encode_utf8(text).len() <= usize::MAX,
        0 <= from <= encode_utf8(text).len(),
        is_char_boundary(encode_utf8(text), from),
    ensures
        spans_fit(tokens_from(encode_utf8(text), from), text),
    decreases encode_utf8(text).len() - from,
{
    let bytes = encode_utf8(text);
    encode_utf8_valid_utf8(text);
    let at = run_end(bytes, from, ByteClass::Space);
    lemma_run_end(bytes, from, ByteClass::Space);
    if at < bytes.len() {
        let (token, end) = token_at(bytes, at);
        lemma_token_at(bytes, at);
        if at > from {
            crate::text::lemma_boundary_after_ascii(bytes, at - 1);
        }
        assert(is_char_boundary(bytes, end)) by {
            if is_letter(bytes[at]) {
                lemma_run_end(bytes, at + 1, ByteClass::Word);
                crate::text::lemma_boundary_after_ascii(bytes, end - 1);
            } else if starts_with(bytes, at, "//".spec_bytes()) {
                lemma_line_comment_opening();
                lemma_run_end(bytes, at + 2, ByteClass::Line);
                crate::text::lemma_boundary_at_leading(bytes, end);
            } else {
                match symbol_at(bytes, at) {
                    Some(symbol) => {
                        lemma_spelling(symbol);
                        let last = symbol.spelling().len() - 1;
                        assert(bytes[end - 1] == bytes.subrange(at, end)[last]);
                        crate::text::lemma_boundary_after_ascii(bytes, end - 1);
                    },
                    None => {
                        lemma_run_end(bytes, at + 1, ByteClass::Continuation);
                        crate::text::lemma_boundary_at_leading(bytes, end);
                    },
                }
            }
        }
        lemma_tokens_from_fit(text, end);
        let rest = tokens_from(bytes, end);
        let all = tokens_from(bytes, from);
        assert forall|i: int| 0 <= i < all.len() implies crate::text::is_span(
            text,
            (#[trigger] all[i]).1.start as int,
            all[i].1.end as int,
        ) by {
            if i > 0 {
                assert(all[i] == rest[i - 1]);
            }
        }
    }
}

/// The tokens of a text cover whole characters of it.
pub proof fn lemma_tokenize_fits(text: Seq<char>)
    requires
        encode_utf8(text).len() <= usize::MAX,
    ensures
        spans_fit(tokenize(text), text),
{
    encode_utf8_valid_utf8(text);
    is_char_boundary_start_end_of_seq(encode_utf8(text));
    lemma_tokens_from_fit(text, 0);
}

/// True when the bytes from `at` up to `end` are a lexeme of `token`: its
/// spelling if it has one, a letter and then letters and digits for an
/// identifier, two slashes and then anything but a line feed for a line
/// comment. An error token has no lexeme.
pub open spec fn is_lexeme(bytes: Seq<u8>, at: int, end: int, token: Token) -> bool {
    &&& 0 <= at < end <= bytes.len()
    &&& match token {
        Token::Text => is_letter(bytes[at]) && forall|i: int|
            at < i < end ==> ByteClass::Word.contains(#[trigger] bytes[i]),
        Token::LineComment => starts_with(bytes, at, "//".spec_bytes()) && at + 2 <= end
            && forall|i: int| at + 2 <= i < end ==> ByteClass::Line.contains(#[trigger] bytes[i]),
        Token::Error => false,
        _ => bytes.subrange(at, end) == token.spelling(),
    }
}

/// The token at a position is the longest match: no lexeme of any token
/// that starts there ends behind it. Of the tokens that match at that
/// length, a keyword goes before an identifier.
pub proof fn lemma_longest_match(bytes: Seq<u8>, at: int, token: Token, end: int)
    requires
        is_lexeme(bytes, at, end, token),
    ensures
        end <= token_at(bytes, at).1,
        end == token_at(bytes, at).1 && token != Token::Text ==> token_at(bytes, at).0 == token,
        is_lexeme(bytes, at, token_at(bytes, at).1, token_at(bytes, at).0),
{
    lemma_lexeme_start(bytes, at, end, token);
    if is_letter(bytes[at]) {
        lemma_longest_word(bytes, at, token, end);
    } else if starts_with(bytes, at, "//".spec_bytes()) {
        lemma_longest_line_comment(bytes, at, token, end);
    } else {
        lemma_longest_symbol(bytes, at, token, end);
    }
}

/// True for the tokens that are spelled in letters.
pub open spec fn is_keyword(token: Token) -> bool {
    !token.is_pattern() && is_letter(token.spelling()[0])
}

/// The bytes of a lexeme of a keyword or a symbol are its spelling.
proof fn lemma_lexeme_bytes(bytes: Seq<u8>, at: int, end: int, token: Token)
    requires
        is_lexeme(bytes, at, end, token),
        !token.is_pattern(),
    ensures
        end - at == token.spelling().len(),
        forall|i: int| 0 <= i < end - at ==> bytes[at + i] == token.spelling()[i],
{
    assert forall|i: int| 0 <= i < end - at implies bytes[at + i] == token.spelling()[i] by {
        assert(bytes.subrange(at, end)[i] == bytes[at + i]);
    }
}

/// How a lexeme starts: an identifier and a keyword with a letter, a line
/// comment with a slash, a symbol with neither a letter nor two slashes.
proof fn lemma_lexeme_start(bytes: Seq<u8>, at: int, end: int, token: Token)
    requires
        is_lexeme(bytes, at, end, token),
    ensures
        token == Token::Text || is_keyword(token) ==> is_letter(bytes[at]),
        token == Token::LineComment ==> !is_letter(bytes[at]) && starts_with(
            bytes,
            at,
            "//".spec_bytes(),
        ),
        !token.is_pattern() && !is_keyword(token) ==> !is_letter(bytes[at]) && !starts_with(
            bytes,
            at,
            "//".spec_bytes(),
        ) && starts_with(bytes, at, token.spelling()),
{
    lemma_line_comment_opening();
    if token == Token::LineComment {
        assert(bytes.subrange(at, at + 2)[0] == bytes[at]);
    } else if !token.is_pattern() {
        lemma_lexeme_bytes(bytes, at, end, token);
        lemma_spelled(token);
        assert(bytes[at + 0] == token.spelling()[0]);
        if starts_with(bytes, at, "//".spec_bytes()) {
            assert(bytes.subrange(at, at + 2)[0] == bytes[at]);
            assert(bytes.subrange(at, at + 2)[1] == bytes[at + 1]);
            if token.spelling().len() > 1 {
                assert(bytes[at + 1] == token.spelling()[1]);
            }
        }
    }
}

/// The letters of a keyword.
proof fn lemma_keyword_letters(token: Token)
    requires
        is_keyword(token),
    ensures
        forall|i: int|
            0 <= i < token.spelling().len() ==> is_letter(#[trigger] token.spelling()[i]),
{
    lemma_spelled(token);
}

proof fn lemma_longest_word(bytes: Seq<u8>, at: int, token: Token, end: int)
    requires
        is_lexeme(bytes, at, end, token),
        is_letter(bytes[at]),
        token == Token::Text || is_keyword(token),
    ensures
        end <= token_at(bytes, at).1,
        end == token_at(bytes, at).1 && token != Token::Text ==> token_at(bytes, at).0 == token,
        is_lexeme(bytes, at, token_at(bytes, at).1, token_at(bytes, at).0),
{
    let stop = run_end(bytes, at + 1, ByteClass::Word);
    let word = bytes.subrange(at, stop);
    lemma_run_end(bytes, at + 1, ByteClass::Word);
    lemma_word_token(word);
    assert forall|i: int| at < i < end implies ByteClass::Word.contains(bytes[i]) by {
        if token != Token::Text {
            lemma_lexeme_bytes(bytes, at, end, token);
            lemma_keyword_letters(token);
            assert(bytes[at + (i - at)] == token.spelling()[i - at]);
        }
    }
    if end > stop {
        assert(ByteClass::Word.contains(bytes[stop]));
    }
    if end == stop && token != Token::Text {
        lemma_word_token_of(token);
    }
}

proof fn lemma_longest_line_comment(bytes: Seq<u8>, at: int, token: Token, end: int)
    requires
        is_lexeme(bytes, at, end, token),
        token == Token::LineComment,
        !is_letter(bytes[at]),
        starts_with(bytes, at, "//".spec_bytes()),
    ensures
        end <= token_at(bytes, at).1,
        token_at(bytes, at).0 == token,
        is_lexeme(bytes, at, token_at(bytes, at).1, token_at(bytes, at).0),
{
    lemma_line_comment_opening();
    let stop = run_end(bytes, at + 2, ByteClass::Line);
    lemma_run_end(bytes, at + 2, ByteClass::Line);
    if end > stop {
        assert(ByteClass::Line.contains(bytes[stop]));
    }
}

proof fn lemma_longest_symbol(bytes: Seq<u8>, at: int, token: Token, end: int)
    requires
        is_lexeme(bytes, at, end, token),
        !token.is_pattern(),
        !is_keyword(token),
        !is_letter(bytes[at]),
        !starts_with(bytes, at, "//".spec_bytes()),
        starts_with(bytes, at, token.spelling()),
    ensures
        end <= token_at(bytes, at).1,
        end == token_at(bytes, at).1 ==> token_at(bytes, at).0 == token,
        is_lexeme(bytes, at, token_at(bytes, at).1, token_at(bytes, at).0),
{
    lemma_lexeme_bytes(bytes, at, end, token);
    lemma_symbols_apart(bytes, at, token);
    lemma_symbol_found(bytes, at);
    let symbol = symbol_at(bytes, at)->0;
    lemma_spelled(symbol);
}

/// The symbol that is found at a position stands there.
proof fn lemma_symbol_found(bytes: Seq<u8>, at: int)
    ensures
        match symbol_at(bytes, at) {
            Some(symbol) => !symbol.is_pattern() && starts_with(bytes, at, symbol.spelling()),
            None => true,
        },
{
}

/// An error token covers bytes that are a lexeme of no token, whatever
/// their number.
pub proof fn lemma_error_token(bytes: Seq<u8>, at: int, token: Token, end: int)
    requires
        0 <= at < bytes.len(),
        token_at(bytes, at).0 == Token::Error,
    ensures
        !is_lexeme(bytes, at, end, token),
{
    if is_lexeme(bytes, at, end, token) {
        lemma_longest_match(bytes, at, token, end);
    }
}

/// A word is the keyword that it spells, and an identifier if it spells
/// none.
proof fn lemma_word_token(word: Seq<u8>)
    ensures
        word_token(word) != Token::Text ==> word == word_token(word).spelling(),
        !word_token(word).is_pattern() || word_token(word) == Token::Text,
{
}

/// The spelling of a keyword is that keyword and no other.
proof fn lemma_word_token_of(token: Token)
    ensures
        !token.is_pattern() && is_letter(token.spelling()[0]) ==> word_token(token.spelling())
            == token,
{
    lemma_spelled(Token::Declare);
    lemma_spelled(Token::Type);
    lemma_spelled(Token::Const);
    lemma_spelled(Token::Use);
    lemma_spelled(Token::In);
    lemma_spelled(Token::Out);
    lemma_spelled(Token::Uniform);
    lemma_spelled(Token::Let);
    lemma_spelled(Token::Mut);
    lemma_spelled(Token::Function);
    lemma_spelled(Token::If);
    lemma_spelled(Token::For);
    lemma_spelled(token);
    assert(spelled(Token::Type)[1] != spelled(Token::Type)[0]);
    assert(spelled(Token::Declare)[0] == 0x64);
    assert(spelled(Token::Type)[0] == 0x74);
    assert(spelled(Token::Const)[0] == 0x63);
    assert(spelled(Token::Use)[0] == 0x75);
    assert(spelled(Token::In)[0] == 0x69);
    assert(spelled(Token::Out)[0] == 0x6f);
    assert(spelled(Token::Uniform)[2] == 0x69);
    assert(spelled(Token::Use)[2] == 0x65);
    assert(spelled(Token::Let)[0] == 0x6c);
    assert(spelled(Token::Mut)[0] == 0x6d);
    assert(spelled(Token::Function)[1] == 0x6e);
    assert(spelled(Token::If)[1] == 0x66);
    assert(spelled(Token::In)[1] == 0x6e);
    assert(spelled(Token::For)[0] == 0x66);
}

/// Two symbols stand at one position only if one is `:` and the other `::`.
proof fn lemma_symbols_apart(bytes: Seq<u8>, at: int, other: Token)
    requires
        !other.is_pattern(),
        !is_letter(other.spelling()[0]),
        starts_with(bytes, at, other.spelling()),
    ensures
        symbol_at(bytes, at) is Some,
        symbol_at(bytes, at) == Some(other) || other.spelling().len() < symbol_at(
            bytes,
            at,
        )->0.spelling().len(),
{
    lemma_spelled(other);
    lemma_spelled(Token::PathSeparator);
    lemma_spelled(Token::RightArrow);
    lemma_spelled(Token::OpenComment);
    lemma_spelled(Token::CloseComment);
    lemma_spelled(Token::Period);
    lemma_spelled(Token::Colon);
    lemma_spelled(Token::Semicolon);
    lemma_spelled(Token::LeftParen);
    lemma_spelled(Token::RightParen);
    lemma_spelled(Token::LeftBrace);
    lemma_spelled(Token::RightBrace);
    lemma_spelled(Token::Equals);
    assert(bytes.subrange(at, at + other.spelling().len())[0] == bytes[at]);
    let first = bytes[at];
    match symbol_at(bytes, at) {
        Some(symbol) => {
            assert(bytes.subrange(at, at + symbol.spelling().len())[0] == first);
            if symbol.spelling().len() > 1 && other.spelling().len() > 1 {
                assert(bytes.subrange(at, at + symbol.spelling().len())[1] == bytes[at + 1]);
                assert(bytes.subrange(at, at + other.spelling().len())[1] == bytes[at + 1]);
            }
        },
        None => {},
    }
}

/// Finds where the run of bytes of `class` that starts at `from` ends.
pub(crate) fn scan_run(bytes: &[u8], from: usize, class: ByteClass) -> (end: usize)
    requires
        from <= bytes@.len(),
    ensures
        end == run_end(bytes@, from as int, class),
        from <= end <= bytes@.len(),
{
    let mut end = from;
    while end < bytes.len() && class.test(bytes[end])
        invariant
            from <= end <= bytes@.len(),
            run_end(bytes@, from as int, class) == run_end(bytes@, end as int, class),
        decreases bytes@.len() - end,
    {
        end += 1;
    }
    end
}

/// Whether `bytes` holds the text `lit` at `at`.
pub(crate) fn holds_at(bytes: &[u8], at: usize, lit: &str) -> (r: bool)
    requires
        at <= bytes@.len(),
    ensures
        r == starts_with(bytes@, at as int, lit.spec_bytes()),
{
    let want = lit.as_bytes();
    if want.len() > bytes.len() - at {
        return false;
    }
    let mut i: usize = 0;
    while i < want.len()
        invariant
            i <= want@.len(),
            at + want@.len() <= bytes.len(),
            want@ == lit.spec_bytes(),
            forall|k: int| 0 <= k < i ==> bytes@[at + k] == want@[k],
        decreases want@.len() - i,
    {
        if bytes[at + i] != want[i] {
            assert(bytes@.subrange(at as int, at + want@.len())[i as int] != want@[i as int]);
            return false;
        }
        i += 1;
    }
    assert(bytes@.subrange(at as int, at + want@.len()) =~= want@);
    true
}

/// Whether the bytes `start..end` spell `token`.
fn spells(bytes: &[u8], start: usize, end: usize, token: Token) -> (r: bool)
    requires
        start <= end <= bytes@.len(),
        !token.is_pattern(),
    ensures
        r == (bytes@.subrange(start as int, end as int) == token.spelling()),
{
    match token.lexeme() {
        Some(lit) => lit.as_bytes().len() == end - start && holds_at(bytes, start, lit),
        None => false,
    }
}

/// Tells a keyword from an identifier.
fn classify_word(bytes: &[u8], start: usize, end: usize) -> (token: Token)
    requires
        start <= end <= bytes@.len(),
    ensures
        token == word_token(bytes@.subrange(start as int, end as int)),
{
    if spells(bytes, start, end, Token::Declare) {
        Token::Declare
    } else if spells(bytes, start, end, Token::Type) {
        Token::Type
    } else if spells(bytes, start, end, Token::Const) {
        Token::Const
    } else if spells(bytes, start, end, Token::Use) {
        Token::Use
    } else if spells(bytes, start, end, Token::In) {
        Token::In
    } else if spells(bytes, start, end, Token::Out) {
        Token::Out
    } else if spells(bytes, start, end, Token::Uniform) {
        Token::Uniform
    } else if spells(bytes, start, end, Token::Let) {
        Token::Let
    } else if spells(bytes, start, end, Token::Mut) {
        Token::Mut
    } else if spells(bytes, start, end, Token::Function) {
        Token::Function
    } else if spells(bytes, start, end, Token::If) {
        Token::If
    } else if spells(bytes, start, end, Token::For) {
        Token::For
    } else {
        Token::Text
    }
}

/// Whether the symbol `token` stands at `at`.
fn symbol_is(bytes: &[u8], at: usize, token: Token) -> (r: bool)
    requires
        at <= bytes@.len(),
        !token.is_pattern(),
    ensures
        r == starts_with(bytes@, at as int, token.spelling()),
{
    match token.lexeme() {
        Some(lit) => holds_at(bytes, at, lit),
        None => false,
    }
}

/// Finds the symbol that stands at `at`.
fn scan_symbol(bytes: &[u8], at: usize) -> (symbol: Option<Token>)
    requires
        at <= bytes@.len(),
    ensures
        symbol == symbol_at(bytes@, at as int),
{
    if symbol_is(bytes, at, Token::PathSeparator) {
        Some(Token::PathSeparator)
    } else if symbol_is(bytes, at, Token::RightArrow) {
        Some(Token::RightArrow)
    } else if symbol_is(bytes, at, Token::OpenComment) {
        Some(Token::OpenComment)
    } else if symbol_is(bytes, at, Token::CloseComment) {
        Some(Token::CloseComment)
    } else if symbol_is(bytes, at, Token::Period) {
        Some(Token::Period)
    } else if symbol_is(bytes, at, Token::Colon) {
        Some(Token::Colon)
    } else if symbol_is(bytes, at, Token::Semicolon) {
        Some(Token::Semicolon)
    } else if symbol_is(bytes, at, Token::LeftParen) {
        Some(Token::LeftParen)
    } else if symbol_is(bytes, at, Token::RightParen) {
        Some(Token::RightParen)
    } else if symbol_is(bytes, at, Token::LeftBrace) {
        Some(Token::LeftBrace)
    } else if symbol_is(bytes, at, Token::RightBrace) {
        Some(Token::RightBrace)
    } else if symbol_is(bytes, at, Token::Equals) {
        Some(Token::Equals)
    } else {
        None
    }
}

/// Reads the token that starts at `at`.
pub(crate) fn scan_token(bytes: &[u8], at: usize) -> (r: (Token, usize))
    requires
        at < bytes@.len(),
    ensures
        r.0 == token_at(bytes@, at as int).0,
        r.1 == token_at(bytes@, at as int).1,
        at < r.1 <= bytes@.len(),
{
    proof {
        lemma_token_at(bytes@, at as int);
    }
    let first = bytes[at];
    if (0x41 <= first && first <= 0x5a) || (0x61 <= first && first <= 0x7a) {
        let end = scan_run(bytes, at + 1, ByteClass::Word);
        (classify_word(bytes, at, end), end)
    } else if holds_at(bytes, at, "//") {
        proof {
            lemma_line_comment_opening();
        }
        (Token::LineComment, scan_run(bytes, at + 2, ByteClass::Line))
    } else {
        match scan_symbol(bytes, at) {
            Some(symbol) => {
                proof {
                    lemma_spelling(symbol);
                }
                match symbol.lexeme() {
                    Some(lit) => (symbol, at + lit.as_bytes().len()),
                    None => (symbol, at + 1),
                }
            },
            None => (Token::Error, scan_run(bytes, at + 1, ByteClass::Continuation)),
        }
    }
}

} // verus!
