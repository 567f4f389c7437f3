//! The one error of the engine.

use vstd::prelude::*;

verus! {

/// The text is not a well-formed postfix formula: it holds a character
/// outside the alphabet, applies a connective to too few operands, or does
/// not leave exactly one operand at its end.
#[derive(Debug, Clone, Copy, PartialEq, Eq)]
pub struct MalformedFormula;

} // verus!
