//! A propositional-logic formula engine over postfix notation.
//!
//! Formulas are written in Reverse Polish notation over the variables `A`–`Z`
//! and the connectives `!` (not), `&` (and), `|` (or), `^` (exclusive or),
//! `=` (equivalence) and `>` (material conditional).  The crate parses such
//! text into a tree, rewrites trees into negation and conjunctive normal
//! form, writes them back as text, evaluates ground formulas and enumerates
//! truth tables.  Every function carries a contract that Verus proves.

pub mod arith;
pub mod assignment;
pub mod cnf;
pub mod error;
pub mod formula;
pub mod laws;
pub mod nnf;
pub mod postfix;
pub mod rpn;
pub mod swap_char;
pub mod text;
pub mod truth_table;

pub use crate::arith::{adder, grey_code, multiplier};
pub use crate::error::MalformedFormula;
pub use crate::formula::Evaluator;
pub use crate::nnf::negation_normal_form;
pub use crate::rpn::{evaluate, ground_format, rpn, rpn_format};
pub use crate::swap_char::swap_char;
pub use crate::truth_table::{is_satisfiable, sat, truth_table, TruthTable};
