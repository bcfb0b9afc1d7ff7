//! Symbolic core of a bitvector and boolean formula solver front-end:
//! expression trees with inline or vector child storage, rewrite passes
//! over them, fixed-width integer storage, and lowering of formulas to
//! literals and gates for a SAT backend.

pub mod childs;
pub mod encoder;
pub mod expr;
pub mod fixint;
pub mod lower;
pub mod rules;
pub mod transform;
