//! The grammar of a module, stated over what a token stream stands for.
//!
//! Each rule maps the stream in front of it to the stream behind what it
//! read together with what it read, or to the failure that stopped it. A
//! failure holds the stream where the rule gave up and says what was
//! expected there.

use crate::syntax::GlobalQualifier;
use crate::token::{lemma_next, Token, TokenStreamView};
use vstd::prelude::*;

verus! {

/// Why a rule gave up.
pub enum Detail {
    /// Another token was expected; the text says which.
    Syntax(Seq<char>),
    /// A block comment in front of the rule never ends.
    UnterminatedComment,
}

/// The stream where a rule gave up, and why.
pub struct Failure {
    pub stream: TokenStreamView,
    pub detail: Detail,
}

/// What the grammar reads of an item.
pub enum ItemModel {
    /// `use a::b;` with the names of the path.
    Use { path: Seq<Seq<char>> },
    /// `declare type Name;`
    DeclareType { name: Seq<char> },
    /// `declare const Name: Type;`
    DeclareConst { name: Seq<char>, of_type: Seq<char> },
    /// `uniform name: Type;`, and the same with `in` and `out`.
    Global { qualifier: GlobalQualifier, name: Seq<char>, of_type: Seq<char> },
    /// `fn name() -> Type {}`, the return type being optional.
    Function { name: Seq<char>, return_type: Option<Seq<char>> },
}

/// What a rule makes of a stream.
pub type Parsed<T> = Result<(TokenStreamView, T), Failure>;

/// The failure at `stream` that says `message`.
pub open spec fn syntax_error(stream: TokenStreamView, message: Seq<char>) -> Failure {
    Failure { stream, detail: Detail::Syntax(message) }
}

/// The failure of a rule that stands in front of an endless comment.
pub open spec fn unterminated(stream: TokenStreamView) -> Failure {
    Failure { stream, detail: Detail::UnterminatedComment }
}

/// The message of a rule that wanted `token`.
pub open spec fn expected(token: Token) -> Seq<char> {
    "expected "@ + token.name()
}

/// The message of a global without its qualifier.
pub open spec fn expected_qualifier() -> Seq<char> {
    "expected global qualifier (in, out, or uniform)"@
}

/// Consumes one token, which has to be `token`. The failure holds the
/// stream behind the token that stood there instead.
pub open spec fn expect(stream: TokenStreamView, token: Token) -> Result<TokenStreamView, Failure> {
    if !stream.readable() {
        Err(unterminated(stream))
    } else if stream.peek() == Some(token) {
        Ok(stream.next())
    } else {
        Err(syntax_error(stream.next(), expected(token)))
    }
}

/// `identifier := Text`, read as its source text.
pub open spec fn identifier(stream: TokenStreamView) -> Parsed<Seq<char>> {
    if !stream.readable() {
        Err(unterminated(stream))
    } else if stream.peek() == Some(Token::Text) {
        Ok((stream.next(), stream.next().prev->0))
    } else {
        Err(syntax_error(stream.next(), "expected identifier"@))
    }
}

/// `named_type := identifier`
pub open spec fn named_type(stream: TokenStreamView) -> Parsed<Seq<char>> {
    identifier(stream)
}

/// `path := identifier ("::" identifier)* ";"`
pub open spec fn path(stream: TokenStreamView) -> Parsed<Seq<Seq<char>>>
    decreases stream.rem.len(),
    via path_decreases
{
    match identifier(stream) {
        Err(failure) => Err(failure),
        Ok((named, name)) => {
            if !named.readable() {
                Err(unterminated(named))
            } else if named.peek() == Some(Token::Semicolon) {
                Ok((named.next(), seq![name]))
            } else if named.peek() == Some(Token::PathSeparator) {
                prefixed(seq![name], path(named.next()))
            } else {
                Err(syntax_error(named.next(), "expected path"@))
            }
        },
    }
}

#[via_fn]
proof fn path_decreases(stream: TokenStreamView) {
    if stream.readable() {
        lemma_next(stream);
        if stream.next().readable() {
            lemma_next(stream.next());
        }
    }
}

/// The names `first` in front of the names that `rest` read.
pub open spec fn prefixed(first: Seq<Seq<char>>, rest: Parsed<Seq<Seq<char>>>) -> Parsed<
    Seq<Seq<char>>,
> {
    match rest {
        Ok((stream, names)) => Ok((stream, first + names)),
        Err(failure) => Err(failure),
    }
}

/// `use_item := "use" path`
pub open spec fn use_item(stream: TokenStreamView) -> Parsed<Seq<Seq<char>>> {
    match expect(stream, Token::Use) {
        Err(failure) => Err(failure),
        Ok(stream) => path(stream),
    }
}

/// `declare_type := "declare" "type" identifier ";"`, read as the name.
pub open spec fn declare_type(stream: TokenStreamView) -> Parsed<Seq<char>> {
    match expect(stream, Token::Declare) {
        Err(failure) => Err(failure),
        Ok(stream) => match expect(stream, Token::Type) {
            Err(failure) => Err(failure),
            Ok(stream) => match identifier(stream) {
                Err(failure) => Err(failure),
                Ok((stream, name)) => match expect(stream, Token::Semicolon) {
                    Err(failure) => Err(failure),
                    Ok(stream) => Ok((stream, name)),
                },
            },
        },
    }
}

/// `declare_const := "declare" "const" identifier ":" named_type ";"`, read
/// as the name and the name of the type.
pub open spec fn declare_const(stream: TokenStreamView) -> Parsed<(Seq<char>, Seq<char>)> {
    match expect(stream, Token::Declare) {
        Err(failure) => Err(failure),
        Ok(stream) => match expect(stream, Token::Const) {
            Err(failure) => Err(failure),
            Ok(stream) => match identifier(stream) {
                Err(failure) => Err(failure),
                Ok((stream, name)) => match expect(stream, Token::Colon) {
                    Err(failure) => Err(failure),
                    Ok(stream) => match named_type(stream) {
                        Err(failure) => Err(failure),
                        Ok((stream, of_type)) => match expect(stream, Token::Semicolon) {
                            Err(failure) => Err(failure),
                            Ok(stream) => Ok((stream, (name, of_type))),
                        },
                    },
                },
            },
        },
    }
}

/// `declare_item := declare_type | declare_const`, the first that reads
/// wins. Where neither reads, the failure holds the stream in front of the
/// item, unless an endless comment stopped one of the two: that failure
/// stands.
pub open spec fn declare_item(stream: TokenStreamView) -> Parsed<ItemModel> {
    match declare_type(stream) {
        Ok((rest, name)) => Ok((rest, ItemModel::DeclareType { name })),
        Err(failure) => if failure.detail is UnterminatedComment {
            Err(failure)
        } else {
            match declare_const(stream) {
                Ok((rest, (name, of_type))) => Ok(
                    (rest, ItemModel::DeclareConst { name, of_type }),
                ),
                Err(failure) => if failure.detail is UnterminatedComment {
                    Err(failure)
                } else {
                    Err(syntax_error(stream, "expected declaration"@))
                },
            }
        },
    }
}

/// The qualifier that a token spells.
pub open spec fn qualifier(token: Option<Token>) -> Option<GlobalQualifier> {
    match token {
        Some(Token::In) => Some(GlobalQualifier::In),
        Some(Token::Out) => Some(GlobalQualifier::Out),
        Some(Token::Uniform) => Some(GlobalQualifier::Uniform),
        _ => None,
    }
}

/// `global := ("in" | "out" | "uniform") identifier ":" named_type ";"`
pub open spec fn global(stream: TokenStreamView) -> Parsed<ItemModel> {
    if !stream.readable() {
        Err(unterminated(stream))
    } else {
        match qualifier(stream.peek()) {
            None => Err(syntax_error(stream.next(), expected_qualifier())),
            Some(qualifier) => match identifier(stream.next()) {
                Err(failure) => Err(failure),
                Ok((stream, name)) => match expect(stream, Token::Colon) {
                    Err(failure) => Err(failure),
                    Ok(stream) => match named_type(stream) {
                        Err(failure) => Err(failure),
                        Ok((stream, of_type)) => match expect(stream, Token::Semicolon) {
                            Err(failure) => Err(failure),
                            Ok(stream) => Ok(
                                (stream, ItemModel::Global { qualifier, name, of_type }),
                            ),
                        },
                    },
                },
            },
        }
    }
}

/// `return_type := ["->" named_type]`, in front of the `{` of the body.
pub open spec fn return_type(stream: TokenStreamView) -> Parsed<Option<Seq<char>>> {
    if !stream.readable() {
        Err(unterminated(stream))
    } else if stream.peek() == Some(Token::LeftBrace) {
        Ok((stream, None))
    } else {
        match expect(stream, Token::RightArrow) {
            Err(failure) => Err(failure),
            Ok(stream) => match named_type(stream) {
                Err(failure) => Err(failure),
                Ok((stream, of_type)) => Ok((stream, Some(of_type))),
            },
        }
    }
}

/// `function := "fn" identifier "(" ")" return_type "{" "}"`
pub open spec fn function(stream: TokenStreamView) -> Parsed<ItemModel> {
    match expect(stream, Token::Function) {
        Err(failure) => Err(failure),
        Ok(stream) => match identifier(stream) {
            Err(failure) => Err(failure),
            Ok((stream, name)) => match expect(stream, Token::LeftParen) {
                Err(failure) => Err(failure),
                Ok(stream) => match expect(stream, Token::RightParen) {
                    Err(failure) => Err(failure),
                    Ok(stream) => match return_type(stream) {
                        Err(failure) => Err(failure),
                        Ok((stream, return_type)) => match expect(stream, Token::LeftBrace) {
                            Err(failure) => Err(failure),
                            Ok(stream) => match expect(stream, Token::RightBrace) {
                                Err(failure) => Err(failure),
                                Ok(stream) => Ok(
                                    (stream, ItemModel::Function { name, return_type }),
                                ),
                            },
                        },
                    },
                },
            },
        },
    }
}

/// `item := use_item | declare_item | global | function`, told apart by the
/// token in front.
pub open spec fn item(stream: TokenStreamView) -> Parsed<ItemModel> {
    if !stream.readable() {
        Err(unterminated(stream))
    } else {
        match stream.peek() {
            Some(Token::Use) => match use_item(stream) {
                Ok((rest, path)) => Ok((rest, ItemModel::Use { path })),
                Err(failure) => Err(failure),
            },
            Some(Token::Declare) => declare_item(stream),
            Some(Token::Uniform) | Some(Token::In) | Some(Token::Out) => global(stream),
            Some(Token::Function) => function(stream),
            _ => Err(syntax_error(stream, "expected item"@)),
        }
    }
}

/// `module := item*`, up to the end of the input.
pub open spec fn module(stream: TokenStreamView) -> Parsed<Seq<ItemModel>>
    decreases stream.rem.len(),
    via module_decreases
{
    if !stream.readable() {
        Err(unterminated(stream))
    } else if stream.peek() is None {
        Ok((stream, Seq::empty()))
    } else {
        match item(stream) {
            Err(failure) => Err(failure),
            Ok((rest, first)) => match module(rest) {
                Err(failure) => Err(failure),
                Ok((end, others)) => Ok((end, seq![first] + others)),
            },
        }
    }
}

#[via_fn]
proof fn module_decreases(stream: TokenStreamView) {
    lemma_item(stream);
}

/// True when what `parsed` read, if it read, left fewer tokens of the same
/// source than `stream` has, with ranges that fit if those of `stream` do.
pub open spec fn advances<T>(stream: TokenStreamView, parsed: Parsed<T>) -> bool {
    parsed matches Ok((rest, _)) ==> {
        &&& rest.rem.len() < stream.rem.len()
        &&& rest.source == stream.source
        &&& stream.spans_fit() ==> rest.spans_fit()
    }
}

/// A token that was expected and found is consumed.
pub proof fn lemma_expect(stream: TokenStreamView, token: Token)
    ensures
        expect(stream, token) matches Ok(rest) ==> {
            &&& rest.rem.len() < stream.rem.len()
            &&& rest.source == stream.source
            &&& stream.spans_fit() ==> rest.spans_fit()
        },
{
    if stream.readable() {
        lemma_next(stream);
    }
}

/// An identifier that was read is consumed.
pub proof fn lemma_identifier(stream: TokenStreamView)
    ensures
        advances(stream, identifier(stream)),
{
    if stream.readable() {
        lemma_next(stream);
    }
}

/// A path that was read is consumed.
pub proof fn lemma_path(stream: TokenStreamView)
    ensures
        advances(stream, path(stream)),
    decreases stream.rem.len(),
{
    lemma_identifier(stream);
    match identifier(stream) {
        Err(failure) => {},
        Ok((named, name)) => {
            if named.readable() {
                lemma_next(named);
                if named.peek() == Some(Token::PathSeparator) {
                    lemma_path(named.next());
                }
            }
        },
    }
}

/// A `use` item that was read is consumed.
pub proof fn lemma_use_item(stream: TokenStreamView)
    ensures
        advances(stream, use_item(stream)),
{
    lemma_expect(stream, Token::Use);
    match expect(stream, Token::Use) {
        Err(failure) => {},
        Ok(rest) => {
            lemma_path(rest);
        },
    }
}

/// A type declaration that was read is consumed.
pub proof fn lemma_declare_type(stream: TokenStreamView)
    ensures
        advances(stream, declare_type(stream)),
{
    lemma_expect(stream, Token::Declare);
    if let Ok(s1) = expect(stream, Token::Declare) {
        lemma_expect(s1, Token::Type);
        if let Ok(s2) = expect(s1, Token::Type) {
            lemma_identifier(s2);
            if let Ok((s3, _)) = identifier(s2) {
                lemma_expect(s3, Token::Semicolon);
            }
        }
    }
}

/// A constant declaration that was read is consumed.
pub proof fn lemma_declare_const(stream: TokenStreamView)
    ensures
        advances(stream, declare_const(stream)),
{
    lemma_expect(stream, Token::Declare);
    if let Ok(s1) = expect(stream, Token::Declare) {
        lemma_expect(s1, Token::Const);
        if let Ok(s2) = expect(s1, Token::Const) {
            lemma_identifier(s2);
            if let Ok((s3, _)) = identifier(s2) {
                lemma_expect(s3, Token::Colon);
                if let Ok(s4) = expect(s3, Token::Colon) {
                    lemma_identifier(s4);
                    if let Ok((s5, _)) = named_type(s4) {
                        lemma_expect(s5, Token::Semicolon);
                    }
                }
            }
        }
    }
}

/// A global that was read is consumed.
pub proof fn lemma_global(stream: TokenStreamView)
    ensures
        advances(stream, global(stream)),
{
    if stream.readable() && qualifier(stream.peek()) is Some {
        lemma_next(stream);
        let s1 = stream.next();
        lemma_identifier(s1);
        if let Ok((s2, _)) = identifier(s1) {
            lemma_expect(s2, Token::Colon);
            if let Ok(s3) = expect(s2, Token::Colon) {
                lemma_identifier(s3);
                if let Ok((s4, _)) = named_type(s3) {
                    lemma_expect(s4, Token::Semicolon);
                }
            }
        }
    }
}

/// A return type that was read leaves no more tokens than there were.
pub proof fn lemma_return_type(stream: TokenStreamView)
    ensures
        return_type(stream) matches Ok((rest, _)) ==> {
            &&& rest.rem.len() <= stream.rem.len()
            &&& rest.source == stream.source
            &&& stream.spans_fit() ==> rest.spans_fit()
        },
{
    if stream.readable() && stream.peek() != Some(Token::LeftBrace) {
        lemma_expect(stream, Token::RightArrow);
        if let Ok(s1) = expect(stream, Token::RightArrow) {
            lemma_identifier(s1);
        }
    }
}

/// A function that was read is consumed.
pub proof fn lemma_function(stream: TokenStreamView)
    ensures
        advances(stream, function(stream)),
{
    lemma_expect(stream, Token::Function);
    if let Ok(s1) = expect(stream, Token::Function) {
        lemma_identifier(s1);
        if let Ok((s2, _)) = identifier(s1) {
            lemma_expect(s2, Token::LeftParen);
            if let Ok(s3) = expect(s2, Token::LeftParen) {
                lemma_expect(s3, Token::RightParen);
                if let Ok(s4) = expect(s3, Token::RightParen) {
                    lemma_return_type(s4);
                    if let Ok((s5, _)) = return_type(s4) {
                        lemma_expect(s5, Token::LeftBrace);
                        if let Ok(s6) = expect(s5, Token::LeftBrace) {
                            lemma_expect(s6, Token::RightBrace);
                        }
                    }
                }
            }
        }
    }
}

/// An item that was read is consumed.
pub proof fn lemma_item(stream: TokenStreamView)
    ensures
        advances(stream, item(stream)),
{
    lemma_use_item(stream);
    lemma_declare_type(stream);
    lemma_declare_const(stream);
    lemma_global(stream);
    lemma_function(stream);
}

/// A module that was read leaves a stream of the same source whose ranges
/// fit if they did.
pub proof fn lemma_module(stream: TokenStreamView)
    ensures
        module(stream) matches Ok((rest, _)) ==> {
            &&& rest.source == stream.source
            &&& stream.spans_fit() ==> rest.spans_fit()
        },
    decreases stream.rem.len(),
{
    if stream.readable() && stream.peek() is Some {
        lemma_item(stream);
        if let Ok((rest, _)) = item(stream) {
            lemma_module(rest);
        }
    }
}

} // verus!
