pub mod convert;
pub mod unconvert;
pub mod ir;

use vstd::prelude::*;

use crate::irlf_db::convert::{convert, ConvertError};
use crate::irlf_db::ir::{Id2Sym, Program, SourceProgram};
use crate::irlf_ser::lex::Range;

verus! {

/// Why a text could not be turned into a resolved program.
#[derive(Debug)]
pub enum FromTextError {
    /// The text does not parse; the message and where.
    Parse(String, Range),
    /// The program does not resolve.
    Convert(ConvertError),
}

/// Reads a program from its text and resolves it.
pub fn from_text(text: &str) -> (r: Result<(Program, Id2Sym), FromTextError>)
    ensures
        r matches Ok(p) ==> p.0.wf(),
{
    let source = match crate::irlf_ser::unpretty::unpretty(text) {
        Ok(p) => p,
        Err((msg, range)) => {
            return Err(FromTextError::Parse(msg, range));
        },
    };
    let source = SourceProgram { source };
    match convert(&source) {
        Ok(p) => Ok(p),
        Err(e) => Err(FromTextError::Convert(e)),
    }
}

} // verus!
