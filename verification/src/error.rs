//! How a compilation fails.

use vstd::prelude::*;

verus! {

/// Why a method was not compiled.
#[derive(Clone, Copy, PartialEq, Eq, Debug)]
pub enum CompileError {
    /// An input breaks a contract between the compiler's own stages.
    Internal(&'static str),
    /// The method is legal, but outside what this backend compiles.
    Unsupported(&'static str),
}

pub type CompileResult<T> = Result<T, CompileError>;

} // verus!
