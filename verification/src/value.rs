//! The values of the SSA IR.
use crate::basic_block::BasicBlockId;
use crate::instruction::InstructionId;
use crate::map::Id;
use crate::types::{NumericType, Type, TypeView};
use vstd::prelude::*;

verus! {

pub type ValueId = Id<Value>;

/// A value of the SSA IR: the result of an instruction, a parameter of a basic
/// block, or a numeric constant.
#[derive(Debug)]
#[allow(inconsistent_fields)]
pub enum Value {
    /// The result at `position` of `instruction`.
    Instruction { instruction: InstructionId, position: usize, typ: Type },
    /// The parameter at `position` of `block`.
    Param { block: BasicBlockId, position: usize, typ: Type },
    /// A numeric constant, held as the 32-byte big-endian encoding of a field element.
    NumericConstant { constant: Vec<u8>, typ: NumericType },
}

impl Value {
    /// The type of this value.
    pub open spec fn type_view(self) -> TypeView {
        match self {
            Value::Instruction { typ, .. } => typ@,
            Value::Param { typ, .. } => typ@,
            Value::NumericConstant { typ, .. } => TypeView::Numeric(typ),
        }
    }
}

} // verus!
