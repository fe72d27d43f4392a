//! Module paths of the language.

pub mod path;

pub use path::Path;
pub use path::PathSlice;

use crate::error::CompilerError;
use crate::grammar;
use crate::syntax::{start_of, use_item};
use crate::token::TokenStream;
use vstd::prelude::*;

verus! {

/// Parses a `use` item such as `use main::vert;` for the path that it
/// names.
pub fn parse_path(source: &str) -> (r: Result<Path, CompilerError>)
    ensures
        match grammar::use_item(start_of(source@)) {
            Ok((_, names)) => r matches Ok(path) && path@ == names,
            Err(failure) => r matches Err(error) && error.reports(failure),
        },
{
    let buffer = TokenStream::buffer(source);
    let tokens = TokenStream::new(buffer.as_slice(), source);
    match use_item(tokens) {
        Ok((_, parsed)) => {
            let mut names: Vec<&str> = Vec::new();
            let mut i: usize = 0;
            while i < parsed.path.len()
                invariant
                    i <= parsed.path@.len(),
                    names@.len() == i,
                    forall|k: int| 0 <= k < i ==> names@[k]@ == parsed.path@[k]@,
                decreases parsed.path@.len() - i,
            {
                names.push(parsed.path[i].str());
                i += 1;
            }
            let path = Path::from(names.as_slice());
            assert(path@ =~= grammar::use_item(start_of(source@))->Ok_0.1);
            Ok(path)
        },
        Err(error) => Err(CompilerError::from_parse_error(error)),
    }
}

} // verus!
