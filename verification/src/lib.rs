use vstd::prelude::*;

pub mod aliases;
pub mod interp;
pub mod dispatch;
pub mod process;
pub mod expr;
pub mod numbers;
pub mod text;
pub mod resolver;
pub mod table;
pub mod vars;

verus! {

} // verus!
