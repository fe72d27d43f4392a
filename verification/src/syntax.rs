//! The syntax tree of a module, and the parser that builds it.
//!
//! Every rule takes a token stream and gives back the stream behind what
//! it read together with the node that it built, or an error that holds
//! the stream where it gave up. What each rule reads is stated in
//! `grammar`.

use crate::error::{CompilerError, CompilerStage, ShaderError};
use crate::grammar;
use crate::grammar::{Detail, Failure, ItemModel};
use crate::span::Annotations;
use crate::token::{Token, TokenStream, TokenStreamView};
use vstd::prelude::*;

verus! {

/// What a rule gives back.
pub type Result<'source, T> = std::result::Result<(TokenStream<'source>, T), ParseError<'source>>;

/// Why the parser gave up, and the stream where it did.
#[derive(Debug, Clone)]
pub struct ParseError<'source> {
    stream: TokenStream<'source>,
    detail: ParseErrorDetail,
}

/// Why the parser gave up.
#[derive(Debug, Clone)]
pub enum ParseErrorDetail {
    /// Another token was expected; the text says which.
    Syntax(String),
    /// A block comment runs into the end of the input.
    UnterminatedComment,
}

impl View for ParseErrorDetail {
    type V = Detail;

    open spec fn view(&self) -> Detail {
        match self {
            ParseErrorDetail::Syntax(message) => Detail::Syntax(message@),
            ParseErrorDetail::UnterminatedComment => Detail::UnterminatedComment,
        }
    }
}

impl<'source> View for ParseError<'source> {
    type V = Failure;

    closed spec fn view(&self) -> Failure {
        Failure { stream: self.stream@, detail: self.detail@ }
    }
}

/// The text between double quotes that shows `text` for debugging, with
/// the quotes and with an escape for each character that needs one.
pub uninterp spec fn debug_quoted(text: Seq<char>) -> Seq<char>;

/// Formats a string for debugging.
///
/// This is the `Debug` output of `str`: the text between double quotes,
/// with escapes. It depends on the text alone.
#[verifier::external_body]
fn debug_quote(text: &str) -> (quoted: String)
    ensures
        quoted@ == debug_quoted(text@),
{
    format!("{:?}", text)
}

/// The message of the internal error for a comment without an end.
pub open spec fn unterminated_message() -> Seq<char> {
    "encountered EOF inside comment"@
}

/// How a failure reads: where it happened, by the text of the token at the
/// stream that it holds, and its detail; or, at the end of the input, just
/// that.
pub open spec fn failure_text(failure: Failure) -> Seq<char> {
    let at = if failure.stream.rem.len() > 0 {
        failure.stream.text_of(0)
    } else {
        None
    };
    match at {
        Some(text) => "ParseError <undefined> at \""@ + text + "\"; detail: "@ + detail_text(
            failure.detail,
        ),
        None => "ParseError <undefined> at \""@ + "<eof>"@,
    }
}

/// How the detail of a failure reads.
pub open spec fn detail_text(detail: Detail) -> Seq<char> {
    match detail {
        Detail::Syntax(message) => "Syntax("@ + debug_quoted(message) + ")"@,
        Detail::UnterminatedComment => "UnterminatedComment"@,
    }
}

impl<'source> ParseError<'source> {
    fn syntax(stream: TokenStream<'source>, message: &str) -> (error: ParseError<'source>)
        ensures
            error@ == grammar::syntax_error(stream@, message@),
    {
        ParseError { stream, detail: ParseErrorDetail::Syntax(message.to_string()) }
    }

    fn identifier(stream: TokenStream<'source>) -> (error: ParseError<'source>)
        ensures
            error@ == grammar::syntax_error(stream@, "expected identifier"@),
    {
        ParseError::syntax(stream, "expected identifier")
    }

    fn unterminated(stream: TokenStream<'source>) -> (error: ParseError<'source>)
        ensures
            error@ == grammar::unterminated(stream@),
    {
        ParseError { stream, detail: ParseErrorDetail::UnterminatedComment }
    }

    /// Why the parser gave up.
    pub fn detail(&self) -> (detail: &ParseErrorDetail)
        ensures
            detail@ == self@.detail,
    {
        &self.detail
    }

    /// The error as text.
    pub fn to_string(&self) -> (text: String)
        ensures
            text@ == failure_text(self@),
    {
        let mut text = String::from_str("ParseError <undefined> at \"");
        match self.stream.slice() {
            Some(at) => {
                text.append(at);
                text.append("\"; detail: ");
                match &self.detail {
                    ParseErrorDetail::Syntax(message) => {
                        text.append("Syntax(");
                        let quoted = debug_quote(message.as_str());
                        text.append(quoted.as_str());
                        text.append(")");
                    },
                    ParseErrorDetail::UnterminatedComment => {
                        text.append("UnterminatedComment");
                    },
                }
                assert(text@ =~= failure_text(self@));
            },
            None => {
                text.append("<eof>");
            },
        }
        text
    }
}

impl CompilerError {
    /// True when this error reports the failure of the parser: a shader
    /// error whose one message is the text of the failure, or, for a
    /// comment without an end, an internal error of the parsing stage.
    pub open spec fn reports(self, failure: Failure) -> bool {
        match failure.detail {
            Detail::Syntax(_) => self matches CompilerError::Shader(shader)
                && shader.annotations.is_bare_error(failure_text(failure)),
            Detail::UnterminatedComment => self matches CompilerError::Internal(internal)
                && internal.is_ice(unterminated_message(), CompilerStage::Parsing),
        }
    }

    /// The compiler error for a failure of the parser.
    pub fn from_parse_error(error: ParseError) -> (e: CompilerError)
        ensures
            e.reports(error@),
    {
        match error.detail() {
            ParseErrorDetail::Syntax(_) => CompilerError::Shader(
                ShaderError { annotations: Annotations::from_error_message(error.to_string()) },
            ),
            ParseErrorDetail::UnterminatedComment => CompilerError::ice(
                "encountered EOF inside comment".to_string(),
                CompilerStage::Parsing,
            ),
        }
    }
}

/// A module: the items of one source file.
#[derive(Debug)]
pub struct Module {
    pub items: Vec<Item>,
}

impl Module {
    /// True when the module holds items that are what `models` says, in
    /// that order, and no others.
    pub open spec fn denotes(self, models: Seq<ItemModel>) -> bool {
        &&& self.items@.len() == models.len()
        &&& forall|i: int| 0 <= i < models.len() ==> (#[trigger] self.items@[i]).denotes(models[i])
    }
}

/// An item of a module.
#[derive(Debug)]
pub enum Item {
    Use(Use),
    Declare(Declare),
    Global(Global),
    Function(Function),
    Struct(Struct),
}

impl Item {
    /// True when the item is what `model` says.
    pub open spec fn denotes(self, model: ItemModel) -> bool {
        match model {
            ItemModel::Use { path } => self matches Item::Use(item) && item.spells(path),
            ItemModel::DeclareType { name } => self matches Item::Declare(declared)
                && declared.is_type(name),
            ItemModel::DeclareConst { name, of_type } => self matches Item::Declare(declared)
                && declared.is_const(name, of_type),
            ItemModel::Global { qualifier, name, of_type } => self matches Item::Global(global)
                && global.qualifier == qualifier && global.identifier@ == name
                && global.definition.names(of_type),
            ItemModel::Function { name, return_type } => self matches Item::Function(function)
                && function.is_stub(name, return_type),
        }
    }
}

/// `use a::b;`, with the names of the path.
#[derive(Debug, Clone)]
pub struct Use {
    pub path: Vec<Identifier>,
}

impl Use {
    /// True when the path of the item has the names `path`.
    pub open spec fn spells(self, path: Seq<Seq<char>>) -> bool {
        &&& self.path@.len() == path.len()
        &&& forall|i: int| 0 <= i < path.len() ==> (#[trigger] self.path@[i])@ == path[i]
    }
}

/// A declaration of something that is defined elsewhere.
#[derive(Debug)]
pub enum Declare {
    Function(DeclareFunction),
    Type(DeclareType),
    Const(DeclareConst),
}

impl Declare {
    /// True when this declares the type `name`.
    pub open spec fn is_type(self, name: Seq<char>) -> bool {
        self matches Declare::Type(declared) && declared.0@ == name
    }

    /// True when this declares the constant `name` of the type `of_type`.
    pub open spec fn is_const(self, name: Seq<char>, of_type: Seq<char>) -> bool {
        self matches Declare::Const(declared) && declared.0@ == name && declared.1.names(of_type)
    }
}

/// A declared function: its name, its arguments, the type that it returns.
#[derive(Debug)]
pub struct DeclareFunction(pub Identifier, pub Arguments, pub TypeName);

/// `declare type Name;`
#[derive(Debug, Clone)]
pub struct DeclareType(pub Identifier);

/// `declare const Name: Type;`
#[derive(Debug)]
pub struct DeclareConst(pub Identifier, pub TypeName);

/// The arguments of a function, each with its type.
#[derive(Debug)]
pub struct Arguments(pub Vec<(Identifier, TypeName)>);

/// The name of a type.
#[derive(Debug)]
pub enum TypeName {
    Identifier(Identifier),
    Tuple(Vec<TypeName>),
    Literal(Literal),
}

impl TypeName {
    /// True when this is the type called `name`.
    pub open spec fn names(self, name: Seq<char>) -> bool {
        self matches TypeName::Identifier(identifier) && identifier@ == name
    }
}

/// A structure, as its fields with their types.
#[derive(Debug)]
pub struct Struct {
    pub fields: Vec<(Identifier, TypeName)>,
}

/// `uniform name: Type;`, and the same with `in` and `out`.
#[derive(Debug)]
pub struct Global {
    pub qualifier: GlobalQualifier,
    pub identifier: Identifier,
    pub definition: TypeName,
}

/// How a global is bound.
#[derive(Debug, Clone, Copy, PartialEq, Eq, Structural)]
pub enum GlobalQualifier {
    In,
    Out,
    Uniform,
    Const,
}

/// A name in the source.
#[derive(Debug, Clone)]
pub struct Identifier(String);

impl View for Identifier {
    type V = Seq<char>;

    closed spec fn view(&self) -> Seq<char> {
        self.0@
    }
}

impl Identifier {
    /// The name as text.
    pub fn str(&self) -> (text: &str)
        ensures
            text@ == self@,
    {
        self.0.as_str()
    }
}

/// `fn name() -> Type {}`
impl AsRef<str> for Identifier {
    fn as_ref(&self) -> (text: &str)
        ensures
            text@ == self@,
    {
        self.0.as_str()
    }
}

#[derive(Debug)]
pub struct Function {
    pub name: Identifier,
    pub return_type: Option<TypeName>,
    pub body: Block,
}

impl Function {
    /// True when this is the function `name` with the given return type,
    /// if any, and an empty body.
    pub open spec fn is_stub(self, name: Seq<char>, return_type: Option<Seq<char>>) -> bool {
        &&& self.name@ == name
        &&& match return_type {
            Some(of_type) => self.return_type matches Some(found) && found.names(of_type),
            None => self.return_type is None,
        }
        &&& self.body.statements@.len() == 0
    }
}

/// The statements between two braces.
#[derive(Debug)]
pub struct Block {
    pub statements: Vec<Statement>,
}

/// A statement.
#[derive(Debug)]
pub enum Statement {
    Assignment(Assignment),
    Block(Block),
    Expr(Expr),
}

/// The binding of a name to the value of an expression.
#[derive(Debug, Clone)]
pub struct Assignment {
    pub binding: Identifier,
    pub expression: Expr,
}

/// An expression.
#[derive(Debug, Clone)]
pub enum Expr {
    Literal(Literal),
}

/// A literal, as it is written.
#[derive(Debug, Clone)]
pub enum Literal {
    String(String),
    Number(String),
}

/// The stream at the start of the tokens of `source`.
pub open spec fn start_of(source: Seq<char>) -> TokenStreamView {
    TokenStreamView { rem: crate::lexer::tokenize(source), source, prev: None }
}

/// Parses the source of a module.
pub fn parse_module(source: &str) -> (r: std::result::Result<Module, CompilerError>)
    ensures
        match grammar::module(start_of(source@)) {
            Ok((_, models)) => r matches Ok(parsed) && parsed.denotes(models),
            Err(failure) => r matches Err(error) && error.reports(failure),
        },
{
    let buffer = TokenStream::buffer(source);
    let stream = TokenStream::new(buffer.as_slice(), source);
    match module(stream) {
        Ok((_, parsed)) => Ok(parsed),
        Err(error) => Err(CompilerError::from_parse_error(error)),
    }
}

/// Consumes one token, which has to be `token`.
fn expect<'a>(tokens: TokenStream<'a>, token: Token) -> (r: std::result::Result<
    TokenStream<'a>,
    ParseError<'a>,
>)
    ensures
        match grammar::expect(tokens@, token) {
            Ok(rest) => r matches Ok(after) && after@ == rest,
            Err(failure) => r matches Err(error) && error@ == failure,
        },
{
    let mut tokens = tokens;
    match tokens.try_next() {
        Err(_) => Err(ParseError::unterminated(tokens)),
        Ok(found) => {
            let matched = match found {
                Some(found) => *found == token,
                None => false,
            };
            if matched {
                Ok(tokens)
            } else {
                let message = String::from_str("expected ").concat(token.name_str());
                Err(ParseError::syntax(tokens, message.as_str()))
            }
        },
    }
}

/// Reads an identifier.
fn expect_identifier<'a>(tokens: TokenStream<'a>) -> (r: Result<'a, Identifier>)
    requires
        tokens@.spans_fit(),
    ensures
        match grammar::identifier(tokens@) {
            Ok((rest, name)) => r matches Ok((after, identifier)) && after@ == rest
                && after@.spans_fit() && identifier@ == name,
            Err(failure) => r matches Err(error) && error@ == failure,
        },
{
    let mut tokens = tokens;
    proof {
        if tokens@.readable() {
            crate::token::lemma_next(tokens@);
        }
    }
    match tokens.try_next() {
        Err(_) => Err(ParseError::unterminated(tokens)),
        Ok(Some(Token::Text)) => match tokens.slice_prev() {
            Some(text) => Ok((tokens, Identifier(text.to_string()))),
            None => Err(ParseError::identifier(tokens)),
        },
        Ok(_) => Err(ParseError::identifier(tokens)),
    }
}

/// Parses `module := item*`, up to the end of the input.
pub fn module<'a>(tokens: TokenStream<'a>) -> (r: Result<'a, Module>)
    requires
        tokens@.spans_fit(),
    ensures
        match grammar::module(tokens@) {
            Ok((rest, models)) => r matches Ok((after, parsed)) && after@ == rest
                && after@.spans_fit() && parsed.denotes(models),
            Err(failure) => r matches Err(error) && error@ == failure,
        },
{
    let mut cursor = tokens;
    let mut items: Vec<Item> = Vec::new();
    let ghost mut models: Seq<ItemModel> = Seq::empty();
    proof {
        lemma_continued_empty(grammar::module(tokens@));
    }
    loop
        invariant
            cursor@.spans_fit(),
            grammar::module(tokens@) == continued(models, grammar::module(cursor@)),
            items@.len() == models.len(),
            forall|i: int| 0 <= i < models.len() ==> (#[trigger] items@[i]).denotes(models[i]),
        decreases cursor@.rem.len(),
    {
        proof {
            lemma_module_step(cursor@, models);
            grammar::lemma_item(cursor@);
        }
        match cursor.try_peek() {
            Err(_) => {
                return Err(ParseError::unterminated(cursor));
            },
            Ok(None) => {
                return Ok((cursor, Module { items }));
            },
            Ok(Some(_)) => {},
        }
        match item(cursor) {
            Err(error) => {
                return Err(error);
            },
            Ok((rest, parsed)) => {
                proof {
                    models = models.push(grammar::item(cursor@)->Ok_0.1);
                }
                cursor = rest;
                items.push(parsed);
            },
        }
    }
}

/// The items `first` in front of the items that `rest` read.
pub open spec fn continued(first: Seq<ItemModel>, rest: grammar::Parsed<Seq<ItemModel>>)
    -> grammar::Parsed<Seq<ItemModel>> {
    match rest {
        Ok((stream, items)) => Ok((stream, first + items)),
        Err(failure) => Err(failure),
    }
}

proof fn lemma_continued_empty(rest: grammar::Parsed<Seq<ItemModel>>)
    ensures
        continued(Seq::empty(), rest) == rest,
{
    match rest {
        Ok((stream, items)) => {
            assert(Seq::<ItemModel>::empty() + items =~= items);
        },
        Err(_) => {},
    }
}

/// One round of reading a module: at the end of the input the items read
/// so far are the module; else the next item joins them, or its failure
/// is the failure of the module.
proof fn lemma_module_step(stream: TokenStreamView, models: Seq<ItemModel>)
    ensures
        !stream.readable() ==> continued(models, grammar::module(stream)) == Err::<
            (TokenStreamView, Seq<ItemModel>),
            Failure,
        >(grammar::unterminated(stream)),
        stream.readable() && stream.peek() is None ==> continued(models, grammar::module(stream))
            == Ok::<(TokenStreamView, Seq<ItemModel>), Failure>((stream, models)),
        stream.readable() && stream.peek() is Some ==> match grammar::item(stream) {
            Ok((rest, first)) => continued(models, grammar::module(stream)) == continued(
                models.push(first),
                grammar::module(rest),
            ),
            Err(failure) => continued(models, grammar::module(stream)) == Err::<
                (TokenStreamView, Seq<ItemModel>),
                Failure,
            >(failure),
        },
{
    if stream.readable() {
        if stream.peek() is None {
            assert(models + Seq::<ItemModel>::empty() =~= models);
        } else {
            match grammar::item(stream) {
                Ok((rest, first)) => {
                    match grammar::module(rest) {
                        Ok((end, others)) => {
                            assert(models + (seq![first] + others) =~= models.push(first)
                                + others);
                        },
                        Err(_) => {},
                    }
                },
                Err(_) => {},
            }
        }
    }
}

/// Parses `item := use_item | declare_item | global | function`.
pub fn item<'a>(tokens: TokenStream<'a>) -> (r: Result<'a, Item>)
    requires
        tokens@.spans_fit(),
    ensures
        match grammar::item(tokens@) {
            Ok((rest, model)) => r matches Ok((after, parsed)) && after@ == rest
                && after@.spans_fit() && parsed.denotes(model),
            Err(failure) => r matches Err(error) && error@ == failure,
        },
{
    match tokens.try_peek() {
        Err(_) => Err(ParseError::unterminated(tokens)),
        Ok(Some(Token::Use)) => match use_item(tokens) {
            Ok((rest, parsed)) => Ok((rest, Item::Use(parsed))),
            Err(error) => Err(error),
        },
        Ok(Some(Token::Declare)) => declare_item(tokens),
        Ok(Some(Token::Uniform)) | Ok(Some(Token::In)) | Ok(Some(Token::Out)) => global(tokens),
        Ok(Some(Token::Function)) => function(tokens),
        Ok(_) => Err(ParseError::syntax(tokens, "expected item")),
    }
}

/// Parses `use_item := "use" identifier ("::" identifier)* ";"`.
pub fn use_item<'a>(tokens: TokenStream<'a>) -> (r: Result<'a, Use>)
    requires
        tokens@.spans_fit(),
    ensures
        match grammar::use_item(tokens@) {
            Ok((rest, path)) => r matches Ok((after, parsed)) && after@ == rest
                && after@.spans_fit() && parsed.spells(path),
            Err(failure) => r matches Err(error) && error@ == failure,
        },
{
    proof {
        grammar::lemma_expect(tokens@, Token::Use);
    }
    let mut cursor = expect(tokens, Token::Use)?;
    let mut path: Vec<Identifier> = Vec::new();
    let ghost mut names: Seq<Seq<char>> = Seq::empty();
    proof {
        lemma_prefixed_empty(grammar::path(cursor@));
    }
    loop
        invariant
            cursor@.spans_fit(),
            grammar::use_item(tokens@) == grammar::prefixed(names, grammar::path(cursor@)),
            path@.len() == names.len(),
            forall|i: int| 0 <= i < names.len() ==> (#[trigger] path@[i])@ == names[i],
        decreases cursor@.rem.len(),
    {
        proof {
            lemma_path_step(cursor@, names);
            grammar::lemma_identifier(cursor@);
        }
        let (named, component) = expect_identifier(cursor)?;
        proof {
            names = names.push(component@);
        }
        path.push(component);
        let mut rest = named;
        proof {
            if named@.readable() {
                crate::token::lemma_next(named@);
            }
        }
        match rest.try_next() {
            Err(_) => {
                return Err(ParseError::unterminated(rest));
            },
            Ok(Some(Token::Semicolon)) => {
                return Ok((rest, Use { path }));
            },
            Ok(Some(Token::PathSeparator)) => {
                cursor = rest;
            },
            Ok(_) => {
                return Err(ParseError::syntax(rest, "expected path"));
            },
        }
    }
}

proof fn lemma_prefixed_empty(rest: grammar::Parsed<Seq<Seq<char>>>)
    ensures
        grammar::prefixed(Seq::empty(), rest) == rest,
{
    match rest {
        Ok((stream, names)) => {
            assert(Seq::<Seq<char>>::empty() + names =~= names);
        },
        Err(_) => {},
    }
}

/// One round of reading a path: the failure of the next name is the
/// failure of the path; after the name a `;` ends the path, a `::` lets it
/// go on, and anything else is a failure.
proof fn lemma_path_step(stream: TokenStreamView, names: Seq<Seq<char>>)
    ensures
        match grammar::identifier(stream) {
            Err(failure) => grammar::prefixed(names, grammar::path(stream)) == Err::<
                (TokenStreamView, Seq<Seq<char>>),
                Failure,
            >(failure),
            Ok((named, name)) => grammar::prefixed(names, grammar::path(stream)) == (if !named.readable(
            ) {
                Err::<(TokenStreamView, Seq<Seq<char>>), Failure>(grammar::unterminated(named))
            } else if named.peek() == Some(Token::Semicolon) {
                Ok((named.next(), names.push(name)))
            } else if named.peek() == Some(Token::PathSeparator) {
                grammar::prefixed(names.push(name), grammar::path(named.next()))
            } else {
                Err(grammar::syntax_error(named.next(), "expected path"@))
            }),
        },
{
    match grammar::identifier(stream) {
        Err(_) => {},
        Ok((named, name)) => {
            if named.readable() {
                if named.peek() == Some(Token::Semicolon) {
                    assert(names + seq![name] =~= names.push(name));
                } else if named.peek() == Some(Token::PathSeparator) {
                    match grammar::path(named.next()) {
                        Ok((end, others)) => {
                            assert(names + (seq![name] + others) =~= names.push(name) + others);
                        },
                        Err(_) => {},
                    }
                }
            }
        },
    }
}

/// Parses `declare_item := declare_type | declare_const`.
pub fn declare_item<'a>(tokens: TokenStream<'a>) -> (r: Result<'a, Item>)
    requires
        tokens@.spans_fit(),
    ensures
        match grammar::declare_item(tokens@) {
            Ok((rest, model)) => r matches Ok((after, parsed)) && after@ == rest
                && after@.spans_fit() && parsed.denotes(model),
            Err(failure) => r matches Err(error) && error@ == failure,
        },
{
    match declare_type(tokens) {
        Ok((rest, declared)) => {
            return Ok((rest, Item::Declare(declared)));
        },
        Err(error) => {
            if let ParseErrorDetail::UnterminatedComment = error.detail() {
                return Err(error);
            }
        },
    }
    match declare_const(tokens) {
        Ok((rest, declared)) => {
            return Ok((rest, Item::Declare(declared)));
        },
        Err(error) => {
            if let ParseErrorDetail::UnterminatedComment = error.detail() {
                return Err(error);
            }
        },
    }
    Err(ParseError::syntax(tokens, "expected declaration"))
}

/// Parses `declare_type := "declare" "type" identifier ";"`.
pub fn declare_type<'a>(tokens: TokenStream<'a>) -> (r: Result<'a, Declare>)
    requires
        tokens@.spans_fit(),
    ensures
        match grammar::declare_type(tokens@) {
            Ok((rest, name)) => r matches Ok((after, declared)) && after@ == rest
                && after@.spans_fit() && declared.is_type(name),
            Err(failure) => r matches Err(error) && error@ == failure,
        },
{
    proof {
        grammar::lemma_expect(tokens@, Token::Declare);
    }
    let tokens = expect(tokens, Token::Declare)?;
    proof {
        grammar::lemma_expect(tokens@, Token::Type);
    }
    let tokens = expect(tokens, Token::Type)?;
    let (tokens, name) = expect_identifier(tokens)?;
    proof {
        grammar::lemma_expect(tokens@, Token::Semicolon);
    }
    let tokens = expect(tokens, Token::Semicolon)?;
    Ok((tokens, Declare::Type(DeclareType(name))))
}

/// Parses `declare_const := "declare" "const" identifier ":" named_type ";"`.
pub fn declare_const<'a>(tokens: TokenStream<'a>) -> (r: Result<'a, Declare>)
    requires
        tokens@.spans_fit(),
    ensures
        match grammar::declare_const(tokens@) {
            Ok((rest, (name, of_type))) => r matches Ok((after, declared)) && after@ == rest
                && after@.spans_fit() && declared.is_const(name, of_type),
            Err(failure) => r matches Err(error) && error@ == failure,
        },
{
    proof {
        grammar::lemma_expect(tokens@, Token::Declare);
    }
    let tokens = expect(tokens, Token::Declare)?;
    proof {
        grammar::lemma_expect(tokens@, Token::Const);
    }
    let tokens = expect(tokens, Token::Const)?;
    let (tokens, name) = expect_identifier(tokens)?;
    proof {
        grammar::lemma_expect(tokens@, Token::Colon);
    }
    let tokens = expect(tokens, Token::Colon)?;
    let (tokens, def) = named_type(tokens)?;
    proof {
        grammar::lemma_expect(tokens@, Token::Semicolon);
    }
    let tokens = expect(tokens, Token::Semicolon)?;
    Ok((tokens, Declare::Const(DeclareConst(name, def))))
}

/// Parses `named_type := identifier`.
pub fn named_type<'a>(tokens: TokenStream<'a>) -> (r: Result<'a, TypeName>)
    requires
        tokens@.spans_fit(),
    ensures
        match grammar::named_type(tokens@) {
            Ok((rest, name)) => r matches Ok((after, parsed)) && after@ == rest
                && after@.spans_fit() && parsed.names(name),
            Err(failure) => r matches Err(error) && error@ == failure,
        },
{
    let (tokens, name) = expect_identifier(tokens)?;
    Ok((tokens, TypeName::Identifier(name)))
}

/// Parses `global := ("in" | "out" | "uniform") identifier ":" named_type ";"`.
pub fn global<'a>(tokens: TokenStream<'a>) -> (r: Result<'a, Item>)
    requires
        tokens@.spans_fit(),
    ensures
        match grammar::global(tokens@) {
            Ok((rest, model)) => r matches Ok((after, parsed)) && after@ == rest
                && after@.spans_fit() && parsed.denotes(model),
            Err(failure) => r matches Err(error) && error@ == failure,
        },
{
    let mut tokens = tokens;
    proof {
        if tokens@.readable() {
            crate::token::lemma_next(tokens@);
        }
    }
    let qualifier = match tokens.try_next() {
        Err(_) => {
            return Err(ParseError::unterminated(tokens));
        },
        Ok(Some(Token::In)) => GlobalQualifier::In,
        Ok(Some(Token::Out)) => GlobalQualifier::Out,
        Ok(Some(Token::Uniform)) => GlobalQualifier::Uniform,
        Ok(_) => {
            return Err(
                ParseError::syntax(tokens, "expected global qualifier (in, out, or uniform)"),
            );
        },
    };
    let (tokens, identifier) = expect_identifier(tokens)?;
    proof {
        grammar::lemma_expect(tokens@, Token::Colon);
    }
    let tokens = expect(tokens, Token::Colon)?;
    let (tokens, definition) = named_type(tokens)?;
    proof {
        grammar::lemma_expect(tokens@, Token::Semicolon);
    }
    let tokens = expect(tokens, Token::Semicolon)?;
    Ok((tokens, Item::Global(Global { qualifier, identifier, definition })))
}

/// Parses `function := "fn" identifier "(" ")" ["->" named_type] "{" "}"`.
pub fn function<'a>(tokens: TokenStream<'a>) -> (r: Result<'a, Item>)
    requires
        tokens@.spans_fit(),
    ensures
        match grammar::function(tokens@) {
            Ok((rest, model)) => r matches Ok((after, parsed)) && after@ == rest
                && after@.spans_fit() && parsed.denotes(model),
            Err(failure) => r matches Err(error) && error@ == failure,
        },
{
    proof {
        grammar::lemma_expect(tokens@, Token::Function);
    }
    let tokens = expect(tokens, Token::Function)?;
    let (tokens, name) = expect_identifier(tokens)?;
    proof {
        grammar::lemma_expect(tokens@, Token::LeftParen);
    }
    let tokens = expect(tokens, Token::LeftParen)?;
    proof {
        grammar::lemma_expect(tokens@, Token::RightParen);
    }
    let mut tokens = expect(tokens, Token::RightParen)?;
    let mut return_type: Option<TypeName> = None;
    match tokens.try_peek() {
        Err(_) => {
            return Err(ParseError::unterminated(tokens));
        },
        Ok(Some(Token::LeftBrace)) => {},
        Ok(_) => {
            proof {
                grammar::lemma_expect(tokens@, Token::RightArrow);
            }
            let arrow = expect(tokens, Token::RightArrow)?;
            let (rest, found) = named_type(arrow)?;
            tokens = rest;
            return_type = Some(found);
        },
    }
    proof {
        grammar::lemma_expect(tokens@, Token::LeftBrace);
    }
    let tokens = expect(tokens, Token::LeftBrace)?;
    proof {
        grammar::lemma_expect(tokens@, Token::RightBrace);
    }
    let tokens = expect(tokens, Token::RightBrace)?;
    let function = Function { name, body: Block { statements: Vec::new() }, return_type };
    Ok((tokens, Item::Function(function)))
}

} // verus!
