//! Middle end of a small compiler: constant folding, control-flow clean-up,
//! monomorphisation and borrow checking of a mid-level IR, together with the
//! front-end rules those passes rely on.

use vstd::prelude::*;

pub mod ast;
pub mod bits;
pub mod borrow;
pub mod borrow_exact;
pub mod borrow_laws;
pub mod build_laws;
pub mod builder;
pub mod calc;
pub mod calc_exact;
pub mod calc_laws;
pub mod cfg;
pub mod concrete;
pub mod concrete_exact;
pub mod const_eval;
pub mod control;
pub mod control_laws;
pub mod control_stable;
pub mod debug;
pub mod eq_laws;
pub mod expr;
pub mod float;
pub mod float_laws;
pub mod float_text;
pub mod fold;
pub mod guide;
pub mod idset;
pub mod init;
pub mod init_exact;
pub mod init_laws;
pub mod instance_exact;
pub mod intrinsic;
pub mod intrinsic_check;
pub mod intrinsic_laws;
pub mod item;
pub mod literal;
pub mod liveness;
pub mod machine;
pub mod mangle;
pub mod mangle_exact;
pub mod mangle_laws;
pub mod message_laws;
pub mod mir;
pub mod mir_eq;
pub mod mono_laws;
pub mod monomorphic;
pub mod number;
pub mod overlap_laws;
pub mod phi_laws;
pub mod reading;
pub mod run;
pub mod semantic;
pub mod shape_laws;
pub mod simplify;
pub mod simplify_back;
pub mod simplify_exact;
pub mod simplify_laws;
pub mod syntactic;
pub mod table;
pub mod text;
pub mod uses;

verus! {

} // verus!
