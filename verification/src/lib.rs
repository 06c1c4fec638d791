//! The SSA intermediate representation's id-keyed containers, a data-flow
//! graph over them, and the merging of values from the two branches of an
//! `if` when the control-flow graph is flattened.
pub mod basic_block;
pub mod call_stack;
pub mod dfg;
pub mod evaluation;
pub mod field;
pub mod instruction;
pub mod map;
pub mod types;
pub mod value;
pub mod value_merger;
