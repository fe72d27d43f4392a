//! The errors of the compiler.

use crate::span::{Annotations, Span};
use vstd::prelude::*;

verus! {

/// Everything that can go wrong in the compiler.
#[derive(Debug)]
pub enum CompilerError {
    /// The compiler itself failed.
    Internal(InternalError),
    /// An input could not be used.
    Input(InputError),
    /// The shader source is wrong.
    Shader(ShaderError),
    /// The named resource is held by someone else. Trying again may help.
    WouldBlock(&'static str),
}

impl CompilerError {
    /// The error for a reference that names no known module.
    pub fn include_error(item: &str) -> (e: CompilerError)
        ensures
            e matches CompilerError::Input(InputError::Include(name)) && name@ == item@,
    {
        CompilerError::Input(InputError::Include(item.to_string()))
    }

    /// The error for a resource that is in use.
    pub fn resource_unavailable(resource: &'static str) -> (e: CompilerError)
        ensures
            e == CompilerError::WouldBlock(resource),
    {
        CompilerError::WouldBlock(resource)
    }

    /// An internal compiler error with the given message, met in the stage
    /// `during`, about no place in particular.
    pub fn ice(message: String, during: CompilerStage) -> (e: CompilerError)
        ensures
            e matches CompilerError::Internal(internal) && internal.is_ice(message@, during),
    {
        CompilerError::Internal(InternalError { during, involving: None, error: message })
    }

    /// The error for an input that could not be read.
    pub fn from_io(failure: IoFailure) -> (e: CompilerError)
        ensures
            e == CompilerError::Input(InputError::Io { source: failure }),
    {
        CompilerError::Input(InputError::Io { source: failure })
    }
}

/// Where a failure to read came from.
#[derive(Debug, Clone, Copy, PartialEq, Eq, Structural)]
pub enum IoFailureKind {
    /// The system refused or failed the read.
    System,
    /// What was read is not valid.
    InvalidData,
    /// Anything else.
    Other,
}

/// A failure to read a file or a directory, with what was said of it.
#[derive(Debug)]
pub struct IoFailure {
    pub kind: IoFailureKind,
    pub message: String,
}

/// What an `IoFailure` stands for.
pub struct IoFailureView {
    pub kind: IoFailureKind,
    pub message: Seq<char>,
}

impl View for IoFailure {
    type V = IoFailureView;

    open spec fn view(&self) -> IoFailureView {
        IoFailureView { kind: self.kind, message: self.message@ }
    }
}

impl Clone for IoFailure {
    fn clone(&self) -> (copy: IoFailure)
        ensures
            copy@ == self@,
    {
        IoFailure { kind: self.kind, message: self.message.clone() }
    }
}

impl IoFailure {
    /// A failure of the given kind and message.
    pub fn new(kind: IoFailureKind, message: &str) -> (failure: IoFailure)
        ensures
            failure@ == (IoFailureView { kind, message: message@ }),
    {
        IoFailure { kind, message: message.to_string() }
    }
}

/// A problem with an input of the compiler.
#[derive(Debug)]
pub enum InputError {
    /// The reference names no known module.
    Include(String),
    /// A file or directory could not be read.
    Io { source: IoFailure },
}

/// A failure of the compiler itself, with the stage in which it came up.
#[derive(Debug)]
pub struct InternalError {
    error: String,
    during: CompilerStage,
    involving: Option<Span>,
}

impl InternalError {
    /// True when this is the failure `message`, met in the stage `during`,
    /// about no place in particular.
    pub closed spec fn is_ice(self, message: Seq<char>, during: CompilerStage) -> bool {
        &&& self.error@ == message
        &&& self.during == during
        &&& self.involving is None
    }

    /// What the failure was.
    pub closed spec fn message(self) -> Seq<char> {
        self.error@
    }

    /// The stage in which the failure came up.
    pub closed spec fn stage(self) -> CompilerStage {
        self.during
    }

    /// The place that the failure is about, if it is about one.
    pub closed spec fn place(self) -> Option<Span> {
        self.involving
    }

    /// How the failure reads: the stage, the message on a line of its own,
    /// and the place if there is one.
    pub open spec fn text(self) -> Seq<char> {
        let head = "During "@ + self.stage().name() + ", encountered error:\n"@ + self.message();
        match self.place() {
            Some(span) => head + "See "@ + span.text(),
            None => head,
        }
    }

    /// The failure as text.
    pub fn to_string(&self) -> (text: String)
        ensures
            text@ == self.text(),
    {
        let mut text = String::from_str("During ");
        text.append(self.during.to_str());
        text.append(", encountered error:\n");
        text.append(self.error.as_str());
        match &self.involving {
            Some(span) => {
                text.append("See ");
                text.append(span.debug_string().as_str());
                assert(text@ =~= self.text());
            },
            None => {
                assert(text@ =~= self.text());
            },
        }
        text
    }
}

/// A problem in the shader source, with the notes that explain it.
#[derive(Debug, Clone)]
pub struct ShaderError {
    pub annotations: Annotations,
}

/// The stages of the compiler.
#[derive(Debug, Clone, Copy, PartialEq, Eq, Structural)]
pub enum CompilerStage {
    Parsing,
    Lowering,
}

impl CompilerStage {
    /// How the stage is called.
    pub open spec fn name(self) -> Seq<char> {
        match self {
            CompilerStage::Parsing => "parsing"@,
            CompilerStage::Lowering => "lowering"@,
        }
    }

    /// The name of the stage.
    pub fn to_str(&self) -> (name: &'static str)
        ensures
            name@ == self.name(),
    {
        match self {
            CompilerStage::Parsing => "parsing",
            CompilerStage::Lowering => "lowering",
        }
    }
}

} // verus!
