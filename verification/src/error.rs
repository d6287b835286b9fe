//! The failures that stop a compilation.

use vstd::prelude::*;

verus! {

/// The failures that stop a compilation.
#[derive(Clone, Copy, PartialEq, Eq, Structural, Debug)]
pub enum CompileError {
    /// No macro of the invoked name was declared.
    UnknownMacro,
    /// No rule of the macro matches the tokens of the invocation.
    NoMatchingRule,
    /// The number of arguments disagrees with the number of parameters.
    ArityMismatch,
    /// A generic parameter is determined neither by an explicit type
    /// argument nor by the types of the arguments of the call.
    UnresolvedInference,
    /// No implementation, or more than one, applies to the types at hand.
    NoMatchingTraitImpl,
    /// The source and the target of a reinterpretation differ in size.
    SizeMismatch,
}

} // verus!
