//! Fatal-error values raised while emitting.

use vstd::prelude::*;

verus! {

/// A source position, as byte offsets into the compilation unit.
#[derive(Debug, Clone, Copy, PartialEq, Eq, Structural, Default)]
pub struct Pos {
    pub start_offset: usize,
    pub end_offset: usize,
}

/// Which phase a fatal belongs to.
#[derive(Debug, Clone, Copy, PartialEq, Eq, Structural)]
pub enum FatalOp {
    Parse,
    Runtime,
    RuntimeOmitFrame,
}

/// An error that aborts emission of the current unit.
#[derive(Debug, Clone, PartialEq, Eq)]
pub enum Error {
    IncludeTimeFatalException(FatalOp, Pos, String),
    Unrecoverable(String),
}

/// Raise a runtime fatal at the given position.
pub fn raise_fatal_runtime<T>(pos: Pos, msg: String) -> (r: Result<T, Error>)
    ensures
        r == Result::<T, Error>::Err(Error::IncludeTimeFatalException(FatalOp::Runtime, pos, msg)),
{
    Err(Error::IncludeTimeFatalException(FatalOp::Runtime, pos, msg))
}

/// Raise a parse fatal at the given position.
pub fn raise_fatal_parse<T>(pos: Pos, msg: String) -> (r: Result<T, Error>)
    ensures
        r == Result::<T, Error>::Err(Error::IncludeTimeFatalException(FatalOp::Parse, pos, msg)),
{
    Err(Error::IncludeTimeFatalException(FatalOp::Parse, pos, msg))
}

} // verus!
