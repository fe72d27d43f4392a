//! The driver of a compilation.

use crate::error::{CompilerError, InputError, IoFailure, IoFailureView};
use crate::fs::FsPath;
use crate::session::{is_busy, is_poisoned, parsed_source, Parsing, Session};
use crate::syntax;
use std::sync::Arc;
use vstd::prelude::*;

verus! {

/// Runs the stages of a compilation over a session.
pub struct Driver;

/// What reading a file gave: the text, or what the failure stands for.
pub open spec fn contents_of(source: Result<String, IoFailure>) -> Result<
    Seq<char>,
    IoFailureView,
> {
    match source {
        Ok(text) => Ok(text@),
        Err(failure) => Err(failure@),
    }
}

/// The index of the first source from `from` on that cannot be read or is
/// no module.
pub open spec fn first_failing(sources: Seq<(FsPath, Result<String, IoFailure>)>, from: int)
    -> Option<int>
    decreases sources.len() - from,
{
    if from < 0 || from >= sources.len() {
        None
    } else if parsed_source(contents_of(sources[from].1)) is Parsed {
        first_failing(sources, from + 1)
    } else {
        Some(from)
    }
}

/// True when `error` is the error of a source that cannot be read or is no
/// module: the failure to read it, or the failure of the parser.
pub open spec fn stopped_by(error: CompilerError, source: Result<String, IoFailure>) -> bool {
    match parsed_source(contents_of(source)) {
        Parsing::Unread(failure) => error matches CompilerError::Input(
            InputError::Io { source },
        ) && source@ == failure,
        Parsing::Malformed(failure) => error.reports(failure),
        Parsing::Parsed => false,
    }
}

/// The first source that fails lies at or behind the place where the search
/// began, and is a source that cannot be read or is no module.
proof fn lemma_first_failing(sources: Seq<(FsPath, Result<String, IoFailure>)>, from: int)
    requires
        0 <= from,
    ensures
        match first_failing(sources, from) {
            Some(at) => from <= at < sources.len() && !(parsed_source(
                contents_of(sources[at].1),
            ) is Parsed),
            None => true,
        },
    decreases sources.len() - from,
{
    if from < sources.len() && parsed_source(contents_of(sources[from].1)) is Parsed {
        lemma_first_failing(sources, from + 1);
    }
}

impl Driver {
    /// A driver.
    pub fn new() -> Driver {
        Driver
    }

    /// The parsed modules of the given files, each with what reading it
    /// gave, in their order: one module for each file, if every file can
    /// be read and parsed. The first file that cannot ends the run with its
    /// error. The cache of the session is asked for each module that was
    /// parsed, so from the first such module on the run may also end
    /// because the cache is in use or its holder panicked. No module is
    /// handed out when the run ends early.
    pub fn ast(&self, session: &Session, sources: &[(FsPath, Result<String, IoFailure>)]) -> (r:
        Result<Vec<Arc<syntax::Module>>, CompilerError>)
        ensures
            match first_failing(sources@, 0) {
                Some(at) => r matches Err(error) && (stopped_by(error, sources@[at].1) || (at > 0
                    && (is_busy(error) || is_poisoned(error)))),
                None => match r {
                    Ok(handles) => handles@.len() == sources@.len(),
                    Err(error) => sources@.len() > 0 && (is_busy(error) || is_poisoned(error)),
                },
            },
    {
        let mut handles: Vec<Arc<syntax::Module>> = Vec::with_capacity(sources.len());
        let mut i: usize = 0;
        while i < sources.len()
            invariant
                i <= sources@.len(),
                handles@.len() == i,
                first_failing(sources@, 0) == first_failing(sources@, i as int),
            decreases sources@.len() - i,
        {
            proof {
                lemma_first_failing(sources@, i as int);
            }
            let contents = match &sources[i].1 {
                Ok(text) => Ok(text.as_str()),
                Err(failure) => {
                    let failure = failure.clone();
                    Err(failure)
                },
            };
            let handle = session.parse_module(&sources[i].0, contents)?;
            handles.push(handle);
            i += 1;
        }
        session.errors()?;
        Ok(handles)
    }
}

} // verus!
