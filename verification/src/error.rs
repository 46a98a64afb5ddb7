use vstd::prelude::*;

verus! {

/// Every way an evaluation can fail.  An error aborts the evaluation of the
/// current top-level expression; the caller decides whether to go on.
#[derive(Clone, Copy, Debug, PartialEq, Eq, Structural)]
pub enum LangError {
    /// An unmatched or unterminated parenthesis found while parsing.
    SyntaxError,
    /// A builtin or user function invoked with the wrong argument count.
    ArityError,
    /// A leaf atom that is neither a literal nor bound in the environment.
    UndefinedReference,
    /// An attempt to invoke a non-callable value in operator position.
    CallOnPrimitive,
    /// A function-definition parameter list containing a non-leaf element.
    InvalidParameter,
    /// An expression that had to produce a value evaluated to nothing.
    MissingValue,
    /// The evaluation-depth budget ran out during user-function application.
    StackOverflow,
}

} // verus!
