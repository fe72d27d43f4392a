//! Tokens, and a cursor over a token buffer that steps over comments.

use crate::lexer::{
    lemma_tokenize_fits, scan_run, scan_token, spans_fit, tokenize, tokens_from, ByteClass,
};
use crate::text::{slice_of, span_text};
use std::ops::Range;
use vstd::prelude::*;
use vstd::slice::slice_subrange;
use vstd::string::StringSliceAdditionalSpecFns;

verus! {

/// The lexical categories of the language.
#[derive(Debug, Clone, Copy, PartialEq, Eq, Structural)]
pub enum Token {
    // modules
    Declare,
    Type,
    Const,
    Use,
    // variables
    In,
    Out,
    Uniform,
    Let,
    Mut,
    // functions
    Function,
    RightArrow,
    // control flow
    If,
    For,
    // symbols
    Period,
    Colon,
    Semicolon,
    LeftParen,
    RightParen,
    LeftBrace,
    RightBrace,
    PathSeparator,
    // operators
    Equals,
    // comments
    LineComment,
    OpenComment,
    CloseComment,
    // misc
    Text,
    Error,
}

impl Token {
    /// The bytes of a keyword or a symbol. A line comment, an identifier
    /// and an unrecognised character have no fixed spelling: for them this
    /// is empty.
    pub open spec fn spelling(self) -> Seq<u8> {
        match self {
            Token::Declare => "declare".spec_bytes(),
            Token::Type => "type".spec_bytes(),
            Token::Const => "const".spec_bytes(),
            Token::Use => "use".spec_bytes(),
            Token::In => "in".spec_bytes(),
            Token::Out => "out".spec_bytes(),
            Token::Uniform => "uniform".spec_bytes(),
            Token::Let => "let".spec_bytes(),
            Token::Mut => "mut".spec_bytes(),
            Token::Function => "fn".spec_bytes(),
            Token::RightArrow => "->".spec_bytes(),
            Token::If => "if".spec_bytes(),
            Token::For => "for".spec_bytes(),
            Token::Period => ".".spec_bytes(),
            Token::Colon => ":".spec_bytes(),
            Token::Semicolon => ";".spec_bytes(),
            Token::LeftParen => "(".spec_bytes(),
            Token::RightParen => ")".spec_bytes(),
            Token::LeftBrace => "{".spec_bytes(),
            Token::RightBrace => "}".spec_bytes(),
            Token::PathSeparator => "::".spec_bytes(),
            Token::Equals => "=".spec_bytes(),
            Token::OpenComment => "/*".spec_bytes(),
            Token::CloseComment => "*/".spec_bytes(),
            Token::LineComment | Token::Text | Token::Error => Seq::empty(),
        }
    }

    /// The text that spells a keyword or a symbol, where it has one.
    pub fn lexeme(self) -> (r: Option<&'static str>)
        ensures
            match r {
                Some(s) => s.spec_bytes() == self.spelling() && !self.is_pattern(),
                None => self.is_pattern(),
            },
    {
        match self {
            Token::Declare => Some("declare"),
            Token::Type => Some("type"),
            Token::Const => Some("const"),
            Token::Use => Some("use"),
            Token::In => Some("in"),
            Token::Out => Some("out"),
            Token::Uniform => Some("uniform"),
            Token::Let => Some("let"),
            Token::Mut => Some("mut"),
            Token::Function => Some("fn"),
            Token::RightArrow => Some("->"),
            Token::If => Some("if"),
            Token::For => Some("for"),
            Token::Period => Some("."),
            Token::Colon => Some(":"),
            Token::Semicolon => Some(";"),
            Token::LeftParen => Some("("),
            Token::RightParen => Some(")"),
            Token::LeftBrace => Some("{"),
            Token::RightBrace => Some("}"),
            Token::PathSeparator => Some("::"),
            Token::Equals => Some("="),
            Token::OpenComment => Some("/*"),
            Token::CloseComment => Some("*/"),
            Token::LineComment | Token::Text | Token::Error => None,
        }
    }

    /// How the token is named in messages.
    pub open spec fn name(self) -> Seq<char> {
        match self {
            Token::Declare => "Token::Declare"@,
            Token::Type => "Token::Type"@,
            Token::Const => "Token::Const"@,
            Token::Use => "Token::Use"@,
            Token::In => "Token::In"@,
            Token::Out => "Token::Out"@,
            Token::Uniform => "Token::Uniform"@,
            Token::Let => "Token::Let"@,
            Token::Mut => "Token::Mut"@,
            Token::Function => "Token::Function"@,
            Token::RightArrow => "Token::RightArrow"@,
            Token::If => "Token::If"@,
            Token::For => "Token::For"@,
            Token::Period => "Token::Period"@,
            Token::Colon => "Token::Colon"@,
            Token::Semicolon => "Token::Semicolon"@,
            Token::LeftParen => "Token::LeftParen"@,
            Token::RightParen => "Token::RightParen"@,
            Token::LeftBrace => "Token::LeftBrace"@,
            Token::RightBrace => "Token::RightBrace"@,
            Token::PathSeparator => "Token::PathSeparator"@,
            Token::Equals => "Token::Equals"@,
            Token::LineComment => "Token::LineComment"@,
            Token::OpenComment => "Token::OpenComment"@,
            Token::CloseComment => "Token::CloseComment"@,
            Token::Text => "Token::Text"@,
            Token::Error => "Token::Error"@,
        }
    }

    /// The name of the token for messages.
    pub fn name_str(self) -> (r: &'static str)
        ensures
            r@ == self.name(),
    {
        match self {
            Token::Declare => "Token::Declare",
            Token::Type => "Token::Type",
            Token::Const => "Token::Const",
            Token::Use => "Token::Use",
            Token::In => "Token::In",
            Token::Out => "Token::Out",
            Token::Uniform => "Token::Uniform",
            Token::Let => "Token::Let",
            Token::Mut => "Token::Mut",
            Token::Function => "Token::Function",
            Token::RightArrow => "Token::RightArrow",
            Token::If => "Token::If",
            Token::For => "Token::For",
            Token::Period => "Token::Period",
            Token::Colon => "Token::Colon",
            Token::Semicolon => "Token::Semicolon",
            Token::LeftParen => "Token::LeftParen",
            Token::RightParen => "Token::RightParen",
            Token::LeftBrace => "Token::LeftBrace",
            Token::RightBrace => "Token::RightBrace",
            Token::PathSeparator => "Token::PathSeparator",
            Token::Equals => "Token::Equals",
            Token::LineComment => "Token::LineComment",
            Token::OpenComment => "Token::OpenComment",
            Token::CloseComment => "Token::CloseComment",
            Token::Text => "Token::Text",
            Token::Error => "Token::Error",
        }
    }

    /// True for the tokens that a pattern describes rather than one
    /// spelling.
    pub open spec fn is_pattern(self) -> bool {
        self == Token::LineComment || self == Token::Text || self == Token::Error
    }
}

/// The kinds of the tokens of a buffer, without their byte ranges.
pub open spec fn kinds(buffer: Seq<(Token, Range<usize>)>) -> Seq<Token> {
    Seq::new(buffer.len(), |i: int| buffer[i].0)
}

/// The index of the first token at or after `from` that is no line comment.
pub open spec fn line_comments_end(tokens: Seq<Token>, from: int) -> int
    decreases tokens.len() - from,
{
    if 0 <= from < tokens.len() && tokens[from] == Token::LineComment {
        line_comments_end(tokens, from + 1)
    } else {
        from
    }
}

/// The index just past the closer that ends a block comment, read from
/// `from` on, a position inside the comment with `depth` nested openers
/// still to be closed. `None` when the input ends inside the comment.
pub open spec fn block_comment_end(tokens: Seq<Token>, from: int, depth: nat) -> Option<int>
    decreases tokens.len() - from,
{
    if from < 0 || from >= tokens.len() {
        None
    } else if tokens[from] == Token::OpenComment {
        block_comment_end(tokens, from + 1, depth + 1)
    } else if tokens[from] == Token::CloseComment {
        if depth == 0 {
            Some(from + 1)
        } else {
            block_comment_end(tokens, from + 1, (depth - 1) as nat)
        }
    } else {
        block_comment_end(tokens, from + 1, depth)
    }
}

/// The index of the token that a cursor at `from` shows: past the line
/// comments at `from`, then past one block comment if one starts there,
/// then past the line comments that follow it. A second block comment is
/// not stepped over. `None` when the block comment never ends.
pub open spec fn comments_end(tokens: Seq<Token>, from: int) -> Option<int> {
    let opener = line_comments_end(tokens, from);
    if opener < tokens.len() && tokens[opener] == Token::OpenComment {
        match block_comment_end(tokens, opener + 1, 0) {
            Some(close) => Some(line_comments_end(tokens, close)),
            None => None,
        }
    } else {
        Some(opener)
    }
}

/// Line comments end inside the input, on a token that is none.
pub proof fn lemma_line_comments_end(tokens: Seq<Token>, from: int)
    requires
        0 <= from <= tokens.len(),
    ensures
        from <= line_comments_end(tokens, from) <= tokens.len(),
        line_comments_end(tokens, from) < tokens.len() ==> tokens[line_comments_end(tokens, from)]
            != Token::LineComment,
        forall|i: int|
            from <= i < line_comments_end(tokens, from) ==> tokens[i] == Token::LineComment,
    decreases tokens.len() - from,
{
    if from < tokens.len() && tokens[from] == Token::LineComment {
        lemma_line_comments_end(tokens, from + 1);
    }
}

/// A block comment ends inside the input, after a closer.
pub proof fn lemma_block_comment_end(tokens: Seq<Token>, from: int, depth: nat)
    requires
        0 <= from <= tokens.len(),
    ensures
        match block_comment_end(tokens, from, depth) {
            Some(close) => from < close <= tokens.len() && tokens[close - 1]
                == Token::CloseComment,
            None => true,
        },
    decreases tokens.len() - from,
{
    if from < tokens.len() {
        if tokens[from] == Token::OpenComment {
            lemma_block_comment_end(tokens, from + 1, depth + 1);
        } else if tokens[from] == Token::CloseComment {
            if depth > 0 {
                lemma_block_comment_end(tokens, from + 1, (depth - 1) as nat);
            }
        } else {
            lemma_block_comment_end(tokens, from + 1, depth);
        }
    }
}

/// What a cursor shows lies at or after it, inside the input or at its end.
pub proof fn lemma_comments_end(tokens: Seq<Token>, from: int)
    requires
        0 <= from <= tokens.len(),
    ensures
        match comments_end(tokens, from) {
            Some(end) => from <= end <= tokens.len(),
            None => true,
        },
{
    lemma_line_comments_end(tokens, from);
    let opener = line_comments_end(tokens, from);
    if opener < tokens.len() && tokens[opener] == Token::OpenComment {
        lemma_block_comment_end(tokens, opener + 1, 0);
        match block_comment_end(tokens, opener + 1, 0) {
            Some(close) => {
                lemma_line_comments_end(tokens, close);
            },
            None => {},
        }
    }
}

/// The tokens that a cursor at `from` hands out, one `next` after the
/// other, until it shows none.
pub open spec fn yielded(tokens: Seq<Token>, from: int) -> Seq<Token>
    decreases tokens.len() - from,
    via yielded_decreases
{
    match comments_end(tokens, from) {
        Some(at) => if 0 <= from && at < tokens.len() {
            seq![tokens[at]] + yielded(tokens, at + 1)
        } else {
            Seq::empty()
        },
        None => Seq::empty(),
    }
}

#[via_fn]
proof fn yielded_decreases(tokens: Seq<Token>, from: int) {
    if 0 <= from <= tokens.len() {
        lemma_comments_end(tokens, from);
    }
}

/// The tokens from `from` on with the comments taken out: every line
/// comment, and every block comment from its opener to the closer that
/// ends it, however deep the comments nested in it. A block comment that
/// never ends takes the rest of the input with it.
pub open spec fn without_comments(tokens: Seq<Token>, from: int) -> Seq<Token>
    decreases tokens.len() - from,
    via without_comments_decreases
{
    if from < 0 || from >= tokens.len() {
        Seq::empty()
    } else if tokens[from] == Token::LineComment {
        without_comments(tokens, from + 1)
    } else if tokens[from] == Token::OpenComment {
        match block_comment_end(tokens, from + 1, 0) {
            Some(close) => without_comments(tokens, close),
            None => Seq::empty(),
        }
    } else {
        seq![tokens[from]] + without_comments(tokens, from + 1)
    }
}

#[via_fn]
proof fn without_comments_decreases(tokens: Seq<Token>, from: int) {
    if 0 <= from < tokens.len() {
        lemma_block_comment_end(tokens, from + 1, 0);
    }
}

/// True when, from `from` on, every block comment ends and none is followed
/// by another with nothing but line comments between the two.
pub open spec fn comments_apart(tokens: Seq<Token>, from: int) -> bool
    decreases tokens.len() - from,
    via comments_apart_decreases
{
    if from < 0 || from >= tokens.len() {
        true
    } else if tokens[from] == Token::OpenComment {
        match block_comment_end(tokens, from + 1, 0) {
            Some(close) => {
                let after = line_comments_end(tokens, close);
                &&& !(after < tokens.len() && tokens[after] == Token::OpenComment)
                &&& comments_apart(tokens, close)
            },
            None => false,
        }
    } else {
        comments_apart(tokens, from + 1)
    }
}

#[via_fn]
proof fn comments_apart_decreases(tokens: Seq<Token>, from: int) {
    if 0 <= from < tokens.len() {
        lemma_block_comment_end(tokens, from + 1, 0);
    }
}

/// Line comments at `from` change neither what is left without comments
/// nor whether the comments stand apart.
proof fn lemma_past_line_comments(tokens: Seq<Token>, from: int)
    requires
        0 <= from <= tokens.len(),
    ensures
        without_comments(tokens, from) == without_comments(
            tokens,
            line_comments_end(tokens, from),
        ),
        comments_apart(tokens, from) == comments_apart(tokens, line_comments_end(tokens, from)),
    decreases tokens.len() - from,
{
    if from < tokens.len() && tokens[from] == Token::LineComment {
        lemma_past_line_comments(tokens, from + 1);
    }
}

/// A cursor hands out the tokens of its buffer with the comments taken out,
/// at any depth of nesting, as long as the block comments stand apart.
pub proof fn lemma_yielded_without_comments(tokens: Seq<Token>, from: int)
    requires
        0 <= from <= tokens.len(),
        comments_apart(tokens, from),
    ensures
        yielded(tokens, from) == without_comments(tokens, from),
    decreases tokens.len() - from,
{
    lemma_comments_end(tokens, from);
    lemma_line_comments_end(tokens, from);
    lemma_past_line_comments(tokens, from);
    let opener = line_comments_end(tokens, from);
    if opener < tokens.len() && tokens[opener] == Token::OpenComment {
        lemma_block_comment_end(tokens, opener + 1, 0);
        let close = block_comment_end(tokens, opener + 1, 0)->0;
        lemma_line_comments_end(tokens, close);
        lemma_past_line_comments(tokens, close);
        let at = line_comments_end(tokens, close);
        if at < tokens.len() {
            lemma_yielded_without_comments(tokens, at + 1);
        }
    } else if opener < tokens.len() {
        lemma_yielded_without_comments(tokens, opener + 1);
    }
}

/// True when `tokens` holds no line comment and no opener of a block
/// comment.
pub open spec fn comment_free(tokens: Seq<Token>) -> bool {
    forall|i: int|
        0 <= i < tokens.len() ==> #[trigger] tokens[i] != Token::LineComment && tokens[i]
            != Token::OpenComment
}

/// What is left without comments is free of comments.
pub proof fn lemma_without_comments_free(tokens: Seq<Token>, from: int)
    requires
        0 <= from <= tokens.len(),
    ensures
        comment_free(without_comments(tokens, from)),
    decreases tokens.len() - from,
{
    if from < tokens.len() {
        if tokens[from] == Token::LineComment {
            lemma_without_comments_free(tokens, from + 1);
        } else if tokens[from] == Token::OpenComment {
            lemma_block_comment_end(tokens, from + 1, 0);
            match block_comment_end(tokens, from + 1, 0) {
                Some(close) => {
                    lemma_without_comments_free(tokens, close);
                },
                None => {},
            }
        } else {
            lemma_without_comments_free(tokens, from + 1);
        }
    }
}

/// A cursor over tokens that are free of comments hands out every one of
/// them.
pub proof fn lemma_yielded_comment_free(tokens: Seq<Token>, from: int)
    requires
        0 <= from <= tokens.len(),
        comment_free(tokens),
    ensures
        yielded(tokens, from) == tokens.subrange(from, tokens.len() as int),
    decreases tokens.len() - from,
{
    if from < tokens.len() {
        assert(tokens[from] != Token::LineComment && tokens[from] != Token::OpenComment);
        lemma_yielded_comment_free(tokens, from + 1);
        assert(yielded(tokens, from) =~= tokens.subrange(from, tokens.len() as int));
    } else {
        assert(yielded(tokens, from) =~= tokens.subrange(from, tokens.len() as int));
    }
}

/// Skipping comments is idempotent: a cursor over a buffer and a cursor
/// over the same buffer with its comments taken out hand out the same
/// tokens, as long as the block comments of the buffer stand apart.
pub proof fn lemma_comment_skip_idempotent(tokens: Seq<Token>)
    requires
        comments_apart(tokens, 0),
    ensures
        yielded(without_comments(tokens, 0), 0) == yielded(tokens, 0),
        yielded(tokens, 0) == without_comments(tokens, 0),
{
    let bare = without_comments(tokens, 0);
    lemma_yielded_without_comments(tokens, 0);
    lemma_without_comments_free(tokens, 0);
    lemma_yielded_comment_free(bare, 0);
    assert(bare.subrange(0, bare.len() as int) =~= bare);
}

/// What a `TokenStream` stands for: the tokens not yet consumed, the source
/// text, and the text of the token consumed last.
pub struct TokenStreamView {
    pub rem: Seq<(Token, Range<usize>)>,
    pub source: Seq<char>,
    pub prev: Option<Seq<char>>,
}

impl TokenStreamView {
    /// The number of tokens at the cursor that are comment material, `None`
    /// when a block comment at the cursor never ends.
    pub open spec fn skip(self) -> Option<int> {
        comments_end(kinds(self.rem), 0)
    }

    /// True when `peek` and `next` can be asked: no block comment at the
    /// cursor runs into the end of the input.
    pub open spec fn readable(self) -> bool {
        self.skip() is Some
    }

    /// The first token past the comments at the cursor.
    pub open spec fn peek(self) -> Option<Token> {
        match self.skip() {
            Some(skipped) => if skipped < self.rem.len() {
                Some(self.rem[skipped].0)
            } else {
                None
            },
            None => None,
        }
    }

    /// The source text that the remaining token `i` covers.
    pub open spec fn text_of(self, i: int) -> Option<Seq<char>> {
        span_text(self.source, self.rem[i].1.start as int, self.rem[i].1.end as int)
    }

    /// The stream after `next`: past the comments and the token that
    /// follows them, whose text it remembers. At the end of the input only
    /// the comments are passed.
    pub open spec fn next(self) -> TokenStreamView {
        match self.skip() {
            Some(skipped) => if skipped < self.rem.len() {
                TokenStreamView {
                    rem: self.rem.subrange(skipped + 1, self.rem.len() as int),
                    source: self.source,
                    prev: self.text_of(skipped),
                }
            } else {
                TokenStreamView {
                    rem: self.rem.subrange(skipped, self.rem.len() as int),
                    source: self.source,
                    prev: self.prev,
                }
            },
            None => self,
        }
    }

    /// True when every remaining token covers whole characters of the
    /// source, so that each has a text.
    pub open spec fn spans_fit(self) -> bool {
        spans_fit(self.rem, self.source)
    }
}

/// `next` consumes the token that `peek` shows, and nothing where `peek`
/// shows none. It keeps the source, and the remaining tokens still cover
/// whole characters if they did. The token that it consumed has a text if
/// its range covered whole characters.
pub proof fn lemma_next(stream: TokenStreamView)
    requires
        stream.readable(),
    ensures
        stream.next().source == stream.source,
        stream.next().rem.len() <= stream.rem.len(),
        stream.peek() is Some ==> stream.next().rem.len() < stream.rem.len(),
        stream.spans_fit() ==> stream.next().spans_fit(),
        stream.spans_fit() && stream.peek() is Some ==> stream.next().prev is Some,
{
    lemma_comments_end(kinds(stream.rem), 0);
    let skipped = stream.skip()->0;
    let after = stream.next();
    if stream.spans_fit() {
        assert forall|i: int| 0 <= i < after.rem.len() implies crate::text::is_span(
            after.source,
            (#[trigger] after.rem[i]).1.start as int,
            after.rem[i].1.end as int,
        ) by {
            if skipped < stream.rem.len() {
                assert(after.rem[i] == stream.rem[i + skipped + 1]);
            } else {
                assert(after.rem[i] == stream.rem[i + skipped]);
            }
        }
        if skipped < stream.rem.len() {
            assert(crate::text::is_span(
                stream.source,
                stream.rem[skipped].1.start as int,
                stream.rem[skipped].1.end as int,
            ));
        }
    }
}

/// What `peek` shows is never a line comment, and it is never the opener of
/// a block comment as long as the block comments stand apart.
pub proof fn lemma_peek_is_no_comment(stream: TokenStreamView)
    requires
        stream.readable(),
    ensures
        stream.peek() != Some(Token::LineComment),
        comments_apart(kinds(stream.rem), 0) ==> stream.peek() != Some(Token::OpenComment),
{
    let tokens = kinds(stream.rem);
    lemma_line_comments_end(tokens, 0);
    lemma_past_line_comments(tokens, 0);
    let opener = line_comments_end(tokens, 0);
    if opener < tokens.len() && tokens[opener] == Token::OpenComment {
        lemma_block_comment_end(tokens, opener + 1, 0);
        let close = block_comment_end(tokens, opener + 1, 0)->0;
        lemma_line_comments_end(tokens, close);
    }
}

/// Where the line comments end does not depend on what lies before them.
proof fn lemma_line_comments_shift(tokens: Seq<Token>, cut: int, from: int)
    requires
        0 <= cut <= tokens.len(),
        0 <= from <= tokens.len() - cut,
    ensures
        line_comments_end(tokens.subrange(cut, tokens.len() as int), from) + cut
            == line_comments_end(tokens, from + cut),
    decreases tokens.len() - cut - from,
{
    let rest = tokens.subrange(cut, tokens.len() as int);
    if from < rest.len() {
        assert(rest[from] == tokens[from + cut]);
        if rest[from] == Token::LineComment {
            lemma_line_comments_shift(tokens, cut, from + 1);
        }
    }
}

/// Where a block comment ends does not depend on what lies before it.
proof fn lemma_block_comment_shift(tokens: Seq<Token>, cut: int, from: int, depth: nat)
    requires
        0 <= cut <= tokens.len(),
        0 <= from <= tokens.len() - cut,
    ensures
        match block_comment_end(tokens.subrange(cut, tokens.len() as int), from, depth) {
            Some(close) => block_comment_end(tokens, from + cut, depth) == Some(close + cut),
            None => block_comment_end(tokens, from + cut, depth) is None,
        },
    decreases tokens.len() - cut - from,
{
    let rest = tokens.subrange(cut, tokens.len() as int);
    if from < rest.len() {
        assert(rest[from] == tokens[from + cut]);
        if rest[from] == Token::OpenComment {
            lemma_block_comment_shift(tokens, cut, from + 1, depth + 1);
        } else if rest[from] == Token::CloseComment {
            if depth > 0 {
                lemma_block_comment_shift(tokens, cut, from + 1, (depth - 1) as nat);
            }
        } else {
            lemma_block_comment_shift(tokens, cut, from + 1, depth);
        }
    }
}

/// What a cursor shows does not depend on what lies before it.
proof fn lemma_comments_shift(tokens: Seq<Token>, cut: int, from: int)
    requires
        0 <= cut <= tokens.len(),
        0 <= from <= tokens.len() - cut,
    ensures
        match comments_end(tokens.subrange(cut, tokens.len() as int), from) {
            Some(end) => comments_end(tokens, from + cut) == Some(end + cut),
            None => comments_end(tokens, from + cut) is None,
        },
{
    let rest = tokens.subrange(cut, tokens.len() as int);
    lemma_line_comments_shift(tokens, cut, from);
    lemma_line_comments_end(rest, from);
    let opener = line_comments_end(rest, from);
    if opener < rest.len() {
        assert(rest[opener] == tokens[opener + cut]);
        if rest[opener] == Token::OpenComment {
            lemma_block_comment_shift(tokens, cut, opener + 1, 0);
            lemma_block_comment_end(rest, opener + 1, 0);
            match block_comment_end(rest, opener + 1, 0) {
                Some(close) => {
                    lemma_line_comments_shift(tokens, cut, close);
                },
                None => {},
            }
        }
    }
}

/// What a cursor hands out does not depend on what lies before it.
proof fn lemma_yielded_shift(tokens: Seq<Token>, cut: int, from: int)
    requires
        0 <= cut <= tokens.len(),
        0 <= from <= tokens.len() - cut,
    ensures
        yielded(tokens.subrange(cut, tokens.len() as int), from) == yielded(tokens, from + cut),
    decreases tokens.len() - cut - from,
{
    let rest = tokens.subrange(cut, tokens.len() as int);
    lemma_comments_shift(tokens, cut, from);
    lemma_comments_end(rest, from);
    match comments_end(rest, from) {
        Some(at) => {
            if at < rest.len() {
                assert(rest[at] == tokens[at + cut]);
                lemma_yielded_shift(tokens, cut, at + 1);
            }
        },
        None => {},
    }
}

/// A stream hands out the token that `peek` shows and then what the stream
/// after `next` hands out, and nothing when `peek` shows none.
pub proof fn lemma_yielded_by_stream(stream: TokenStreamView)
    requires
        stream.readable(),
    ensures
        yielded(kinds(stream.rem), 0) == (match stream.peek() {
            Some(token) => seq![token] + yielded(kinds(stream.next().rem), 0),
            None => Seq::empty(),
        }),
{
    let tokens = kinds(stream.rem);
    lemma_comments_end(tokens, 0);
    let at = stream.skip()->0;
    if at < tokens.len() {
        lemma_yielded_shift(tokens, at + 1, 0);
        assert(kinds(stream.next().rem) =~= tokens.subrange(at + 1, tokens.len() as int));
    }
}

/// The mark of a block comment that runs into the end of the input.
#[derive(Debug, Clone, Copy, PartialEq, Eq, Structural)]
pub struct UnterminatedComment;

/// A cursor over a token buffer. `peek` and `next` step over comments.
/// A copy of a stream is an independent snapshot of it.
#[derive(Debug, Clone, Copy)]
pub struct TokenStream<'a> {
    rem: &'a [(Token, Range<usize>)],
    source: &'a str,
    prev: Option<&'a str>,
}

impl<'a> View for TokenStream<'a> {
    type V = TokenStreamView;

    closed spec fn view(&self) -> TokenStreamView {
        TokenStreamView {
            rem: self.rem@,
            source: self.source@,
            prev: match self.prev {
                Some(text) => Some(text@),
                None => None,
            },
        }
    }
}

impl<'a> TokenStream<'a> {
    /// Tokenizes `source`: every token in source order with the bytes that
    /// it covers, whitespace left out.
    pub fn buffer(source: &str) -> (tokens: Vec<(Token, Range<usize>)>)
        ensures
            tokens@ == tokenize(source@),
            spans_fit(tokens@, source@),
    {
        let bytes = source.as_bytes();
        let mut tokens: Vec<(Token, Range<usize>)> = Vec::new();
        let mut from: usize = 0;
        loop
            invariant
                from <= bytes@.len(),
                bytes@ == source.spec_bytes(),
                tokens@ + tokens_from(bytes@, from as int) == tokenize(source@),
            ensures
                tokens@ == tokenize(source@),
            decreases bytes@.len() - from,
        {
            let at = scan_run(bytes, from, ByteClass::Space);
            if at >= bytes.len() {
                assert(tokens@ + Seq::empty() =~= tokens@);
                break ;
            }
            let (token, end) = scan_token(bytes, at);
            let ghost before = tokens@;
            tokens.push((token, at..end));
            assert(before + (seq![(token, at..end)] + tokens_from(bytes@, end as int)) =~= tokens@
                + tokens_from(bytes@, end as int));
            from = end;
        }
        proof {
            assert(bytes@.len() == bytes.len());
            lemma_tokenize_fits(source@);
        }
        tokens
    }

    /// A stream at the start of `buffer`, which holds the tokens of
    /// `source`.
    pub fn new(buffer: &'a [(Token, Range<usize>)], source: &'a str) -> (stream: TokenStream<'a>)
        ensures
            stream@ == (TokenStreamView { rem: buffer@, source: source@, prev: None }),
    {
        TokenStream { rem: buffer, source, prev: None }
    }

    /// Whether no token is left but comments.
    pub fn eof(&self) -> (r: bool)
        requires
            self@.readable(),
        ensures
            r == (self@.peek() is None),
    {
        self.peek().is_none()
    }

    /// The next token, comments stepped over, without consuming it.
    pub fn peek(&self) -> (r: Option<&'a Token>)
        requires
            self@.readable(),
        ensures
            match self@.peek() {
                Some(token) => r == Some(&token),
                None => r is None,
            },
    {
        self.peek_past(self.skip_comments())
    }

    /// As `peek`, for any stream: an error where a block comment at the
    /// cursor never ends.
    pub fn try_peek(&self) -> (r: Result<Option<&'a Token>, UnterminatedComment>)
        ensures
            match r {
                Ok(found) => self@.readable() && match self@.peek() {
                    Some(token) => found == Some(&token),
                    None => found is None,
                },
                Err(_) => !self@.readable(),
            },
    {
        match self.try_skip_comments() {
            Some(skipped) => Ok(self.peek_past(skipped)),
            None => Err(UnterminatedComment),
        }
    }

    fn peek_past(&self, skipped: usize) -> (r: Option<&'a Token>)
        requires
            self@.skip() == Some(skipped as int),
        ensures
            match self@.peek() {
                Some(token) => r == Some(&token),
                None => r is None,
            },
    {
        let rem: &'a [(Token, Range<usize>)] = self.rem;
        if skipped < rem.len() {
            let entry: &'a (Token, Range<usize>) = &rem[skipped];
            Some(&entry.0)
        } else {
            None
        }
    }

    /// Consumes the next token, comments stepped over, and remembers its
    /// text.
    pub fn next(&mut self) -> (r: Option<&'a Token>)
        requires
            old(self)@.readable(),
        ensures
            final(self)@ == old(self)@.next(),
            match old(self)@.peek() {
                Some(token) => r == Some(&token),
                None => r is None,
            },
    {
        let skipped = self.skip_comments();
        self.next_past(skipped)
    }

    /// As `next`, for any stream: an error, and the stream as it was, where
    /// a block comment at the cursor never ends.
    pub fn try_next(&mut self) -> (r: Result<Option<&'a Token>, UnterminatedComment>)
        ensures
            final(self)@ == old(self)@.next(),
            match r {
                Ok(found) => old(self)@.readable() && match old(self)@.peek() {
                    Some(token) => found == Some(&token),
                    None => found is None,
                },
                Err(_) => !old(self)@.readable(),
            },
    {
        match self.try_skip_comments() {
            Some(skipped) => Ok(self.next_past(skipped)),
            None => Err(UnterminatedComment),
        }
    }

    fn next_past(&mut self, skipped: usize) -> (r: Option<&'a Token>)
        requires
            old(self)@.skip() == Some(skipped as int),
        ensures
            final(self)@ == old(self)@.next(),
            match old(self)@.peek() {
                Some(token) => r == Some(&token),
                None => r is None,
            },
    {
        proof {
            lemma_comments_end(kinds(self.rem@), 0);
        }
        let rem: &'a [(Token, Range<usize>)] = self.rem;
        if skipped < rem.len() {
            let entry: &'a (Token, Range<usize>) = &rem[skipped];
            self.prev = slice_of(self.source, entry.1.start, entry.1.end);
            self.rem = slice_subrange(rem, skipped + 1, rem.len());
            Some(&entry.0)
        } else {
            self.rem = slice_subrange(rem, skipped, rem.len());
            None
        }
    }

    /// The source text of the token that `next` consumed last.
    pub fn slice_prev(&self) -> (r: Option<&'a str>)
        ensures
            match self@.prev {
                Some(text) => r matches Some(s) && s@ == text,
                None => r is None,
            },
    {
        self.prev
    }

    /// The source text of the token at the cursor, be it a comment or not.
    pub fn slice(&self) -> (r: Option<&'a str>)
        ensures
            match (if self@.rem.len() > 0 {
                self@.text_of(0)
            } else {
                None
            }) {
                Some(text) => r matches Some(s) && s@ == text,
                None => r is None,
            },
    {
        if self.rem.len() > 0 {
            let entry = &self.rem[0];
            slice_of(self.source, entry.1.start, entry.1.end)
        } else {
            None
        }
    }

    /// The number of line comments at the cursor.
    pub fn skip_line_comments(&self) -> (skipped: usize)
        ensures
            skipped == line_comments_end(kinds(self@.rem), 0),
    {
        TokenStream::skip_line_comments_impl(self.rem, 0)
    }

    fn skip_line_comments_impl(rem: &[(Token, Range<usize>)], from: usize) -> (end: usize)
        requires
            from <= rem@.len(),
        ensures
            end == line_comments_end(kinds(rem@), from as int),
            from <= end <= rem@.len(),
    {
        let mut end = from;
        while end < rem.len() && rem[end].0 == Token::LineComment
            invariant
                from <= end <= rem@.len(),
                line_comments_end(kinds(rem@), from as int) == line_comments_end(
                    kinds(rem@),
                    end as int,
                ),
            decreases rem@.len() - end,
        {
            end += 1;
        }
        end
    }

    /// The number of tokens at the cursor that are comment material, or
    /// `None` when a block comment that starts there never ends.
    pub fn try_skip_comments(&self) -> (skipped: Option<usize>)
        ensures
            match skipped {
                Some(n) => self@.skip() == Some(n as int) && n <= self@.rem.len(),
                None => self@.skip() is None,
            },
    {
        let rem = self.rem;
        let opener = TokenStream::skip_line_comments_impl(rem, 0);
        if opener < rem.len() && rem[opener].0 == Token::OpenComment {
            let mut at = opener + 1;
            let mut depth: usize = 0;
            let mut closed = false;
            while !closed
                invariant
                    opener < at <= rem@.len(),
                    depth < at,
                    rem@.len() == rem.len(),
                    rem@ == self@.rem,
                    opener == line_comments_end(kinds(rem@), 0),
                    rem@[opener as int].0 == Token::OpenComment,
                    !closed ==> block_comment_end(kinds(rem@), opener + 1, 0) == block_comment_end(
                        kinds(rem@),
                        at as int,
                        depth as nat,
                    ),
                    closed ==> block_comment_end(kinds(rem@), opener + 1, 0) == Some(at as int),
                decreases rem@.len() - at + (if closed { 0int } else { 1int }),
            {
                if at >= rem.len() {
                    return None;
                }
                let token = rem[at].0;
                if token == Token::OpenComment {
                    depth += 1;
                } else if token == Token::CloseComment {
                    if depth == 0 {
                        closed = true;
                    } else {
                        depth -= 1;
                    }
                }
                at += 1;
            }
            proof {
                lemma_line_comments_end(kinds(rem@), at as int);
            }
            Some(TokenStream::skip_line_comments_impl(rem, at))
        } else {
            Some(opener)
        }
    }

    /// The number of tokens at the cursor that are comment material.
    pub fn skip_comments(&self) -> (skipped: usize)
        requires
            self@.readable(),
        ensures
            skipped == self@.skip()->0,
            skipped <= self@.rem.len(),
    {
        match self.try_skip_comments() {
            Some(skipped) => skipped,
            None => 0,
        }
    }
}

} // verus!
