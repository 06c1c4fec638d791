//! Basic blocks: a list of parameters and a list of instructions.
use crate::instruction::InstructionId;
use crate::map::{id_indices, Id};
use crate::value::ValueId;
use vstd::prelude::*;

verus! {

pub type BasicBlockId = Id<BasicBlock>;

/// A basic block: its parameters and its instructions, in order.
#[derive(Debug)]
pub struct BasicBlock {
    parameters: Vec<ValueId>,
    instructions: Vec<InstructionId>,
}

impl BasicBlock {
    /// The indices of the block's parameters, in order.
    pub closed spec fn parameter_ids(&self) -> Seq<usize> {
        id_indices(self.parameters@)
    }

    /// The indices of the block's instructions, in order.
    pub closed spec fn instruction_ids(&self) -> Seq<usize> {
        id_indices(self.instructions@)
    }

    /// A block without parameters or instructions.
    pub fn new() -> (b: BasicBlock)
        ensures
            b.parameter_ids() == Seq::<usize>::empty(),
            b.instruction_ids() == Seq::<usize>::empty(),
    {
        let b = BasicBlock { parameters: Vec::new(), instructions: Vec::new() };
        assert(b.parameter_ids() =~= Seq::<usize>::empty());
        assert(b.instruction_ids() =~= Seq::<usize>::empty());
        b
    }

    /// The block's parameters, in order.
    pub fn parameters(&self) -> (p: &Vec<ValueId>)
        ensures
            id_indices(p@) == self.parameter_ids(),
    {
        &self.parameters
    }

    /// The block's instructions, in order.
    pub fn instructions(&self) -> (i: &Vec<InstructionId>)
        ensures
            id_indices(i@) == self.instruction_ids(),
    {
        &self.instructions
    }

    /// Appends a parameter.
    pub fn add_parameter(&mut self, parameter: ValueId)
        ensures
            final(self).parameter_ids() == old(self).parameter_ids().push(parameter@),
            final(self).instruction_ids() == old(self).instruction_ids(),
    {
        self.parameters.push(parameter);
        assert(id_indices(self.parameters@) =~= old(self).parameter_ids().push(
            parameter@,
        ));
    }

    /// Appends an instruction.
    pub fn insert_instruction(&mut self, instruction: InstructionId)
        ensures
            final(self).instruction_ids() == old(self).instruction_ids().push(instruction@),
            final(self).parameter_ids() == old(self).parameter_ids(),
    {
        self.instructions.push(instruction);
        assert(id_indices(self.instructions@) =~= old(
            self,
        ).instruction_ids().push(instruction@));
    }
}

} // verus!
