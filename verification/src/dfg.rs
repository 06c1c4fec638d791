//! The data-flow graph of a function: its values, instructions and basic
//! blocks, each kept in a [`DenseMap`] and addressed by id.
//!
//! New instructions are appended to a block and define one fresh result
//! value each; nothing already in the graph changes. Every operand of an
//! instruction is a value created before the instruction's result, so each
//! value has a finite meaning, a [`Term`]: the expression that computes it
//! from block parameters and constants.
use crate::basic_block::{BasicBlock, BasicBlockId};
use crate::call_stack::CallStackId;
use crate::instruction::{vector_ids, BinaryOp, Instruction, InstructionId, ValueVector};
use crate::map::{DenseMap, Id};
use crate::types::{NumericType, Type, TypeView};
use crate::value::{Value, ValueId};
use vstd::prelude::*;

verus! {

/// What a value computes, written out as an expression tree. Each node made
/// by an instruction carries that instruction's call stack.
pub enum Term {
    /// A block parameter, by its value index.
    Param(usize),
    /// A numeric constant: the 32-byte big-endian encoding of a field element.
    Constant(Seq<u8>, NumericType),
    Cast(Box<Term>, NumericType, CallStackId),
    Binary(BinaryOp, Box<Term>, Box<Term>, CallStackId),
    /// Reads an element (of the given type) at an index of an array.
    ArrayGet(Box<Term>, Box<Term>, TypeView, CallStackId),
    /// An array or slice of the given type built from the given elements.
    MakeArray(Seq<Term>, TypeView, CallStackId),
}

impl Term {
    /// The call stack of the value that this term describes: that of its
    /// defining instruction, or the root for parameters and constants.
    pub open spec fn call_stack(self) -> CallStackId {
        match self {
            Term::Cast(_, _, cs) => cs,
            Term::Binary(_, _, _, cs) => cs,
            Term::ArrayGet(_, _, _, cs) => cs,
            Term::MakeArray(_, _, cs) => cs,
            _ => CallStackId::root_stack(),
        }
    }
}

/// The indices `from, from + 1, ..., to - 1`.
pub open spec fn index_range(from: int, to: int) -> Seq<usize> {
    Seq::new((to - from) as nat, |k: int| (from + k) as usize)
}

/// The outcome of inserting an instruction: the instruction's id and its
/// result values.
pub struct InsertInstructionResult {
    instruction: InstructionId,
    results: Vec<ValueId>,
}

impl InsertInstructionResult {
    /// The index of the inserted instruction.
    pub closed spec fn instruction_index(&self) -> usize {
        self.instruction@
    }

    /// The indices of the instruction's results.
    pub closed spec fn result_indices(&self) -> Seq<usize> {
        crate::map::id_indices(self.results@)
    }

    /// The inserted instruction.
    pub fn instruction(&self) -> (id: InstructionId)
        ensures
            id@ == self.instruction_index(),
    {
        self.instruction
    }

    /// The first result of the instruction.
    pub fn first(&self) -> (v: ValueId)
        requires
            self.result_indices().len() > 0,
        ensures
            v@ == self.result_indices()[0],
    {
        self.results[0]
    }
}

/// The data-flow graph of a function.
pub struct DataFlowGraph {
    values: DenseMap<Value>,
    instructions: DenseMap<Instruction>,
    /// The call stack of each instruction, by instruction index.
    call_stacks: Vec<CallStackId>,
    blocks: DenseMap<BasicBlock>,
}

impl DataFlowGraph {
    /// The values, by index.
    pub closed spec fn values(&self) -> Seq<Value> {
        self.values@
    }

    /// The instructions, by index.
    pub closed spec fn instructions(&self) -> Seq<Instruction> {
        self.instructions@
    }

    /// The call stack of each instruction, by instruction index.
    pub closed spec fn call_stacks(&self) -> Seq<CallStackId> {
        self.call_stacks@
    }

    /// The basic blocks, by index.
    pub closed spec fn blocks(&self) -> Seq<BasicBlock> {
        self.blocks@
    }

    /// Every operand of `instruction` is a value with an index below `v`.
    pub open spec fn operands_below(instruction: Instruction, v: int) -> bool {
        match instruction {
            Instruction::Binary(b) => b.lhs@ < v && b.rhs@ < v,
            Instruction::Cast(a, _) => a@ < v,
            Instruction::ArrayGet { array, index } => array@ < v && index@ < v,
            Instruction::MakeArray { elements, .. } => forall|k: int|
                0 <= k < vector_ids(elements).len() ==> #[trigger] vector_ids(elements)[k] < v,
        }
    }

    /// Value `v` refers only to what exists: an instruction result to its
    /// instruction, whose operands all come before `v`; a parameter to its block.
    pub open spec fn value_wf(&self, v: int) -> bool {
        match self.values()[v] {
            Value::Instruction { instruction, position, .. } => {
                &&& instruction@ < self.instructions().len()
                &&& position == 0
                &&& Self::operands_below(self.instructions()[instruction@ as int], v)
            },
            Value::Param { block, .. } => block@ < self.blocks().len(),
            Value::NumericConstant { .. } => true,
        }
    }

    /// The graph's invariant.
    pub open spec fn wf(&self) -> bool {
        &&& self.call_stacks().len() == self.instructions().len()
        &&& forall|v: int| 0 <= v < self.values().len() ==> #[trigger] self.value_wf(v)
    }

    /// The type of value `v`.
    pub open spec fn type_of(&self, v: int) -> TypeView {
        self.values()[v].type_view()
    }

    /// The call stack of value `v`: that of its defining instruction, or the
    /// root if no instruction defines it.
    pub open spec fn value_call_stack(&self, v: int) -> CallStackId {
        match self.values()[v] {
            Value::Instruction { instruction, .. } => self.call_stacks()[instruction@ as int],
            _ => CallStackId::root_stack(),
        }
    }

    /// The meaning of value `v`.
    pub open spec fn term_of(&self, v: nat) -> Term
        decreases v,
    {
        if v >= self.values().len() {
            Term::Param(v as usize)
        } else {
            match self.values()[v as int] {
                Value::Param { .. } => Term::Param(v as usize),
                Value::NumericConstant { constant, typ } => Term::Constant(constant@, typ),
                Value::Instruction { instruction, typ, .. } => {
                    let i = instruction@ as int;
                    if i >= self.instructions().len() || i >= self.call_stacks().len() {
                        Term::Param(v as usize)
                    } else {
                        let cs = self.call_stacks()[i];
                        match self.instructions()[i] {
                            Instruction::Cast(a, t) => if a@ < v {
                                Term::Cast(Box::new(self.term_of(a@ as nat)), t, cs)
                            } else {
                                Term::Param(v as usize)
                            },
                            Instruction::Binary(b) => if b.lhs@ < v && b.rhs@ < v {
                                Term::Binary(
                                    b.operator,
                                    Box::new(self.term_of(b.lhs@ as nat)),
                                    Box::new(self.term_of(b.rhs@ as nat)),
                                    cs,
                                )
                            } else {
                                Term::Param(v as usize)
                            },
                            Instruction::ArrayGet { array, index } => if array@ < v && index@ < v {
                                Term::ArrayGet(
                                    Box::new(self.term_of(array@ as nat)),
                                    Box::new(self.term_of(index@ as nat)),
                                    typ@,
                                    cs,
                                )
                            } else {
                                Term::Param(v as usize)
                            },
                            Instruction::MakeArray { elements, typ: t } => {
                                let ids = vector_ids(elements);
                                Term::MakeArray(
                                    Seq::new(
                                        ids.len(),
                                        |k: int|
                                            if 0 <= k < ids.len() && ids[k] < v {
                                                self.term_of(ids[k] as nat)
                                            } else {
                                                Term::Param(v as usize)
                                            },
                                    ),
                                    t@,
                                    cs,
                                )
                            },
                        }
                    }
                },
            }
        }
    }

    /// The meanings of the values with the given indices.
    pub open spec fn terms_of(&self, ids: Seq<usize>) -> Seq<Term> {
        Seq::new(ids.len(), |k: int| self.term_of(ids[k] as nat))
    }

    /// The meaning of a new result of `instruction`, of type `typ`, made with
    /// call stack `cs`.
    pub open spec fn instruction_term(
        &self,
        instruction: Instruction,
        typ: TypeView,
        cs: CallStackId,
    ) -> Term {
        match instruction {
            Instruction::Cast(a, t) => Term::Cast(Box::new(self.term_of(a@ as nat)), t, cs),
            Instruction::Binary(b) => Term::Binary(
                b.operator,
                Box::new(self.term_of(b.lhs@ as nat)),
                Box::new(self.term_of(b.rhs@ as nat)),
                cs,
            ),
            Instruction::ArrayGet { array, index } => Term::ArrayGet(
                Box::new(self.term_of(array@ as nat)),
                Box::new(self.term_of(index@ as nat)),
                typ,
                cs,
            ),
            Instruction::MakeArray { elements, typ: t } => Term::MakeArray(
                self.terms_of(vector_ids(elements)),
                t@,
                cs,
            ),
        }
    }

    /// The type of a new result of `instruction`: the cast's target type, the
    /// type of a binary operation's left operand, the first control type
    /// variable for an array read, or the type of the array built.
    pub open spec fn result_type(
        &self,
        instruction: Instruction,
        ctrl_typevars: Option<Seq<TypeView>>,
    ) -> TypeView {
        match instruction {
            Instruction::Cast(_, t) => TypeView::Numeric(t),
            Instruction::Binary(b) => self.type_of(b.lhs@ as int),
            Instruction::ArrayGet { .. } => ctrl_typevars.unwrap()[0],
            Instruction::MakeArray { typ, .. } => typ@,
        }
    }

    /// If value `v` is the result of a `MakeArray`, its element indices and type.
    pub open spec fn array_constant(&self, v: int) -> Option<(Seq<usize>, TypeView)> {
        match self.values()[v] {
            Value::Instruction { instruction, .. } => match self.instructions()[instruction@ as int] {
                Instruction::MakeArray { elements, typ } => Some((vector_ids(elements), typ@)),
                _ => None,
            },
            _ => None,
        }
    }

    /// `later` holds everything this graph holds, values, instructions and
    /// call stacks at the same indices, and possibly more after them.
    pub open spec fn grows_into(&self, later: &Self) -> bool {
        &&& self.values().len() <= later.values().len()
        &&& later.values().subrange(0, self.values().len() as int) == self.values()
        &&& self.instructions().len() <= later.instructions().len()
        &&& later.instructions().subrange(0, self.instructions().len() as int)
            == self.instructions()
        &&& self.call_stacks().len() <= later.call_stacks().len()
        &&& later.call_stacks().subrange(0, self.call_stacks().len() as int)
            == self.call_stacks()
    }

    /// `later` is this graph with new values and instructions only, all the
    /// new instructions appended, in order, to block `block`.
    pub open spec fn appends_into(&self, later: &Self, block: int) -> bool {
        &&& self.grows_into(later)
        &&& later.blocks().len() == self.blocks().len()
        &&& forall|b: int|
            0 <= b < self.blocks().len() && b != block ==> #[trigger] later.blocks()[b]
                == self.blocks()[b]
        &&& later.blocks()[block].parameter_ids() == self.blocks()[block].parameter_ids()
        &&& later.blocks()[block].instruction_ids() == self.blocks()[block].instruction_ids()
            + index_range(self.instructions().len() as int, later.instructions().len() as int)
    }

    /// A graph with no values, instructions or blocks.
    pub fn new() -> (dfg: DataFlowGraph)
        ensures
            dfg.wf(),
            dfg.values().len() == 0,
            dfg.instructions().len() == 0,
            dfg.blocks().len() == 0,
    {
        DataFlowGraph {
            values: DenseMap::default(),
            instructions: DenseMap::default(),
            call_stacks: Vec::new(),
            blocks: DenseMap::default(),
        }
    }
}

impl DataFlowGraph {
    /// Values already in a graph keep their meaning as the graph grows.
    pub proof fn lemma_term_of_frame(&self, later: &Self, v: nat)
        requires
            self.wf(),
            self.grows_into(later),
            v < self.values().len(),
        ensures
            later.term_of(v) == self.term_of(v),
        decreases v,
    {
        assert(later.values()[v as int] == later.values().subrange(
            0,
            self.values().len() as int,
        )[v as int]);
        assert(self.value_wf(v as int));
        match self.values()[v as int] {
            Value::Instruction { instruction, .. } => {
                let i = instruction@ as int;
                assert(later.instructions()[i] == later.instructions().subrange(
                    0,
                    self.instructions().len() as int,
                )[i]);
                assert(later.call_stacks()[i] == later.call_stacks().subrange(
                    0,
                    self.call_stacks().len() as int,
                )[i]);
                match self.instructions()[i] {
                    Instruction::Cast(a, _) => {
                        self.lemma_term_of_frame(later, a@ as nat);
                    },
                    Instruction::Binary(b) => {
                        self.lemma_term_of_frame(later, b.lhs@ as nat);
                        self.lemma_term_of_frame(later, b.rhs@ as nat);
                    },
                    Instruction::ArrayGet { array, index } => {
                        self.lemma_term_of_frame(later, array@ as nat);
                        self.lemma_term_of_frame(later, index@ as nat);
                    },
                    Instruction::MakeArray { elements, .. } => {
                        let ids = vector_ids(elements);
                        assert forall|k: int| 0 <= k < ids.len() implies later.term_of(
                            #[trigger] ids[k] as nat,
                        ) == self.term_of(ids[k] as nat) by {
                            self.lemma_term_of_frame(later, ids[k] as nat);
                        }
                        assert(later.term_of(v)->MakeArray_0 =~= self.term_of(v)->MakeArray_0);
                    },
                }
            },
            _ => {},
        }
    }

    /// Values already in a graph keep their definition, and so their type, as
    /// the graph grows.
    pub proof fn lemma_value_frame(&self, later: &Self, v: int)
        requires
            self.grows_into(later),
            0 <= v < self.values().len(),
        ensures
            later.values()[v] == self.values()[v],
            later.type_of(v) == self.type_of(v),
    {
        assert(later.values()[v] == later.values().subrange(0, self.values().len() as int)[v]);
    }

    /// In a well-formed graph, an instruction result means its instruction
    /// applied to the meanings of the operands.
    pub proof fn lemma_term_of_result(&self, v: nat)
        requires
            self.wf(),
            v < self.values().len(),
            self.values()[v as int] is Instruction,
        ensures
            self.term_of(v) == self.instruction_term(
                self.instructions()[self.values()[v as int]->instruction@ as int],
                self.type_of(v as int),
                self.call_stacks()[self.values()[v as int]->instruction@ as int],
            ),
    {
        assert(self.value_wf(v as int));
        let i = self.values()[v as int]->instruction@ as int;
        match self.instructions()[i] {
            Instruction::MakeArray { elements, .. } => {
                let ids = vector_ids(elements);
                assert(self.term_of(v)->MakeArray_0 =~= self.terms_of(ids));
            },
            _ => {},
        }
    }

    /// The call stack of a value is that of its meaning.
    pub proof fn lemma_value_call_stack(&self, v: nat)
        requires
            self.wf(),
            v < self.values().len(),
        ensures
            self.value_call_stack(v as int) == self.term_of(v).call_stack(),
    {
        assert(self.value_wf(v as int));
        if self.values()[v as int] is Instruction {
            self.lemma_term_of_result(v);
        }
    }

    /// Growing is transitive.
    pub proof fn lemma_grows_transitive(&self, mid: &Self, last: &Self)
        requires
            self.grows_into(mid),
            mid.grows_into(last),
        ensures
            self.grows_into(last),
    {
        assert(last.values().subrange(0, self.values().len() as int) =~= mid.values().subrange(
            0,
            self.values().len() as int,
        ));
        assert(last.instructions().subrange(0, self.instructions().len() as int)
            =~= mid.instructions().subrange(0, self.instructions().len() as int));
        assert(last.call_stacks().subrange(0, self.call_stacks().len() as int)
            =~= mid.call_stacks().subrange(0, self.call_stacks().len() as int));
    }

    /// Appending to a block twice is appending to it once.
    pub proof fn lemma_appends_transitive(&self, mid: &Self, last: &Self, block: int)
        requires
            0 <= block < self.blocks().len(),
            self.appends_into(mid, block),
            mid.appends_into(last, block),
        ensures
            self.appends_into(last, block),
    {
        self.lemma_grows_transitive(mid, last);
        let a = self.instructions().len() as int;
        let b = mid.instructions().len() as int;
        let c = last.instructions().len() as int;
        assert(index_range(a, b) + index_range(b, c) =~= index_range(a, c));
        assert(self.blocks()[block].instruction_ids() + index_range(a, b) + index_range(b, c)
            =~= self.blocks()[block].instruction_ids() + index_range(a, c));
        assert forall|b2: int| 0 <= b2 < self.blocks().len() && b2 != block implies #[trigger] last.blocks()[b2]
            == self.blocks()[b2] by {
            assert(mid.blocks()[b2] == self.blocks()[b2]);
        }
    }

    /// A graph that only gained values appends nothing to any block.
    pub proof fn lemma_appends_values_only(&self, later: &Self, block: int)
        requires
            0 <= block < self.blocks().len(),
            self.grows_into(later),
            later.instructions() == self.instructions(),
            later.blocks() == self.blocks(),
        ensures
            self.appends_into(later, block),
    {
        let n = self.instructions().len() as int;
        assert(index_range(n, n) =~= Seq::<usize>::empty());
        assert(self.blocks()[block].instruction_ids() + index_range(n, n)
            =~= self.blocks()[block].instruction_ids());
    }

    /// Every graph grows into itself.
    pub proof fn lemma_appends_reflexive(&self, block: int)
        requires
            0 <= block < self.blocks().len(),
        ensures
            self.appends_into(self, block),
    {
        let n = self.instructions().len() as int;
        assert(index_range(n, n) =~= Seq::<usize>::empty());
        assert(self.blocks()[block].instruction_ids() + index_range(n, n)
            =~= self.blocks()[block].instruction_ids());
        assert(self.values().subrange(0, self.values().len() as int) =~= self.values());
        assert(self.instructions().subrange(0, n) =~= self.instructions());
        assert(self.call_stacks().subrange(0, self.call_stacks().len() as int)
            =~= self.call_stacks());
    }
}

impl DataFlowGraph {
    /// Adds an empty block.
    pub fn make_block(&mut self) -> (block: BasicBlockId)
        requires
            old(self).blocks().len() < usize::MAX,
            old(self).wf(),
        ensures
            final(self).wf(),
            block@ == old(self).blocks().len(),
            final(self).values() == old(self).values(),
            final(self).instructions() == old(self).instructions(),
            final(self).call_stacks() == old(self).call_stacks(),
            final(self).blocks().len() == old(self).blocks().len() + 1,
            forall|b: int|
                0 <= b < old(self).blocks().len() ==> #[trigger] final(self).blocks()[b] == old(self).blocks()[b],
            final(self).blocks()[block@ as int].parameter_ids() == Seq::<usize>::empty(),
            final(self).blocks()[block@ as int].instruction_ids() == Seq::<usize>::empty(),
    {
        let block = self.blocks.push(BasicBlock::new());
        assert forall|v: int| 0 <= v < self.values().len() implies #[trigger] self.value_wf(v) by {
            assert(old(self).value_wf(v));
        }
        block
    }

    /// Adds a parameter of type `typ` at the end of `block`'s parameters.
    pub fn add_block_parameter(&mut self, block: BasicBlockId, typ: Type) -> (parameter: ValueId)
        requires
            old(self).values().len() < usize::MAX,
            old(self).wf(),
            block@ < old(self).blocks().len(),
        ensures
            final(self).wf(),
            parameter@ == old(self).values().len(),
            old(self).grows_into(&*final(self)),
            final(self).values().len() == old(self).values().len() + 1,
            final(self).instructions() == old(self).instructions(),
            final(self).type_of(parameter@ as int) == typ@,
            final(self).term_of(parameter@ as nat) == Term::Param(parameter@),
            final(self).blocks().len() == old(self).blocks().len(),
            forall|b: int|
                0 <= b < old(self).blocks().len() && b != block@ ==> #[trigger] final(self).blocks()[b] == old(self).blocks()[b],
            final(self).blocks()[block@ as int].parameter_ids() == old(self).blocks()[block@ as int].parameter_ids().push(
                parameter@,
            ),
            final(self).blocks()[block@ as int].instruction_ids() == old(self).blocks()[block@ as int].instruction_ids(),
    {
        let position = self.blocks.index(block).parameters().len();
        let parameter = self.values.push(Value::Param { block, position, typ });
        self.blocks.index_mut(block).add_parameter(parameter);
        assert forall|v: int| 0 <= v < self.values().len() implies #[trigger] self.value_wf(v) by {
            if v < old(self).values().len() {
                assert(old(self).value_wf(v));
            }
        }
        assert(self.values().subrange(0, old(self).values().len() as int) =~= old(self).values());
        assert(self.instructions().subrange(0, old(self).instructions().len() as int)
            =~= old(self).instructions());
        assert(self.call_stacks().subrange(0, old(self).call_stacks().len() as int)
            =~= old(self).call_stacks());
        parameter
    }

    /// Adds the numeric constant `constant` (the 32-byte big-endian encoding
    /// of a field element) of type `typ`.
    pub fn make_constant(&mut self, constant: Vec<u8>, typ: NumericType) -> (value: ValueId)
        requires
            old(self).values().len() < usize::MAX,
            old(self).wf(),
        ensures
            final(self).wf(),
            value@ == old(self).values().len(),
            old(self).grows_into(&*final(self)),
            final(self).values().len() == old(self).values().len() + 1,
            final(self).instructions() == old(self).instructions(),
            final(self).blocks() == old(self).blocks(),
            final(self).type_of(value@ as int) == TypeView::Numeric(typ),
            final(self).term_of(value@ as nat) == Term::Constant(constant@, typ),
    {
        let ghost bytes = constant@;
        let value = self.values.push(Value::NumericConstant { constant, typ });
        assert forall|v: int| 0 <= v < self.values().len() implies #[trigger] self.value_wf(v) by {
            if v < old(self).values().len() {
                assert(old(self).value_wf(v));
            }
        }
        assert(self.values().subrange(0, old(self).values().len() as int) =~= old(self).values());
        assert(self.instructions().subrange(0, old(self).instructions().len() as int)
            =~= old(self).instructions());
        assert(self.call_stacks().subrange(0, old(self).call_stacks().len() as int)
            =~= old(self).call_stacks());
        value
    }

    /// The type of `value`.
    pub fn type_of_value(&self, value: ValueId) -> (typ: Type)
        requires
            value@ < self.values().len(),
        ensures
            typ@ == self.type_of(value@ as int),
    {
        match self.values.index(value) {
            Value::Instruction { typ, .. } => typ.clone(),
            Value::Param { typ, .. } => typ.clone(),
            Value::NumericConstant { typ, .. } => Type::Numeric(*typ),
        }
    }

    /// The call stack of `value`: that of the instruction defining it, or the
    /// root if no instruction does.
    pub fn get_value_call_stack_id(&self, value: ValueId) -> (cs: CallStackId)
        requires
            self.wf(),
            value@ < self.values().len(),
        ensures
            cs == self.value_call_stack(value@ as int),
            cs == self.term_of(value@ as nat).call_stack(),
    {
        proof {
            self.lemma_value_call_stack(value@ as nat);
            assert(self.value_wf(value@ as int));
        }
        match self.values.index(value) {
            Value::Instruction { instruction, .. } => self.call_stacks[instruction.to_usize()],
            _ => CallStackId::root(),
        }
    }
}

impl DataFlowGraph {
    /// Appends `instruction` to `block`, with `call_stack`, and gives it one
    /// fresh result value. The result's type is decided by the instruction;
    /// an array read takes its element type from `ctrl_typevars`.
    pub fn insert_instruction_and_results(
        &mut self,
        instruction: Instruction,
        block: BasicBlockId,
        ctrl_typevars: Option<Vec<Type>>,
        call_stack: CallStackId,
    ) -> (result: InsertInstructionResult)
        requires
            old(self).values().len() < usize::MAX,
            old(self).instructions().len() < usize::MAX,
            old(self).wf(),
            block@ < old(self).blocks().len(),
            Self::operands_below(instruction, old(self).values().len() as int),
            instruction is ArrayGet ==> ctrl_typevars is Some && ctrl_typevars->0@.len() > 0,
        ensures
            final(self).wf(),
            old(self).appends_into(&*final(self), block@ as int),
            final(self).values().len() == old(self).values().len() + 1,
            final(self).instructions() == old(self).instructions().push(instruction),
            final(self).call_stacks() == old(self).call_stacks().push(call_stack),
            result.instruction_index() == old(self).instructions().len(),
            result.result_indices().len() == 1,
            result.result_indices()[0] == old(self).values().len(),
            final(self).type_of(old(self).values().len() as int) == old(self).result_type(
                instruction,
                match ctrl_typevars {
                    Some(t) => Some(crate::types::views_of(t@)),
                    None => None,
                },
            ),
            final(self).term_of(old(self).values().len() as nat) == old(self).instruction_term(
                instruction,
                final(self).type_of(old(self).values().len() as int),
                call_stack,
            ),
            final(self).value_call_stack(old(self).values().len() as int) == call_stack,
            final(self).values()[old(self).values().len() as int] is Instruction,
            final(self).values()[old(self).values().len() as int]->instruction@ == old(
                self,
            ).instructions().len(),
    {
        let result_type = match &instruction {
            Instruction::Cast(_, t) => Type::Numeric(*t),
            Instruction::Binary(b) => self.type_of_value(b.lhs),
            Instruction::ArrayGet { .. } => {
                let typevars = ctrl_typevars.unwrap();
                typevars[0].clone()
            },
            Instruction::MakeArray { typ, .. } => typ.clone(),
        };
        let ghost typ_view = result_type@;
        let ghost instr = instruction;
        let id = self.instructions.push(instruction);
        self.call_stacks.push(call_stack);
        self.blocks.index_mut(block).insert_instruction(id);
        let value = self.values.push(Value::Instruction { instruction: id, position: 0, typ: result_type });
        let results = vec![value];
        proof {
            let old_values = old(self).values().len() as int;
            assert forall|v: int| 0 <= v < self.values().len() implies #[trigger] self.value_wf(v) by {
                if v < old_values {
                    assert(old(self).value_wf(v));
                    if old(self).values()[v] is Instruction {
                        let i = old(self).values()[v]->instruction@ as int;
                        assert(self.instructions()[i] == old(self).instructions()[i]);
                    }
                } else {
                    assert(self.instructions()[id@ as int] == instr);
                    if instr is MakeArray {
                        let ids = vector_ids(instr->elements);
                        assert forall|k: int| 0 <= k < ids.len() implies #[trigger] ids[k] < v by {
                            assert(ids[k] < old_values);
                        }
                    }
                }
            }
            assert(self.values().subrange(0, old_values) =~= old(self).values());
            assert(self.instructions().subrange(0, old(self).instructions().len() as int)
                =~= old(self).instructions());
            assert(self.call_stacks().subrange(0, old(self).call_stacks().len() as int)
                =~= old(self).call_stacks());
            let n = old(self).instructions().len() as int;
            assert(index_range(n, n + 1) =~= seq![n as usize]);
            assert(crate::map::id_indices(results@) =~= seq![old_values as usize]);
            assert(self.blocks()[block@ as int].instruction_ids() =~= old(self).blocks()[block@ as int].instruction_ids()
                + index_range(n, n + 1));
            self.lemma_term_of_result(old_values as nat);
            match instr {
                Instruction::Cast(a, _) => {
                    old(self).lemma_term_of_frame(self, a@ as nat);
                },
                Instruction::Binary(b) => {
                    old(self).lemma_term_of_frame(self, b.lhs@ as nat);
                    old(self).lemma_term_of_frame(self, b.rhs@ as nat);
                },
                Instruction::ArrayGet { array, index } => {
                    old(self).lemma_term_of_frame(self, array@ as nat);
                    old(self).lemma_term_of_frame(self, index@ as nat);
                },
                Instruction::MakeArray { elements, .. } => {
                    let ids = vector_ids(elements);
                    assert forall|k: int| 0 <= k < ids.len() implies self.term_of(
                        #[trigger] ids[k] as nat,
                    ) == old(self).term_of(ids[k] as nat) by {
                        old(self).lemma_term_of_frame(self, ids[k] as nat);
                    }
                    assert(self.terms_of(ids) =~= old(self).terms_of(ids));
                },
            }
        }
        InsertInstructionResult { instruction: id, results }
    }

    /// If `value` is the result of a `MakeArray`, its elements and type.
    pub fn get_array_constant(&self, value: ValueId) -> (array: Option<(ValueVector, Type)>)
        requires
            self.wf(),
            value@ < self.values().len(),
        ensures
            match array {
                Some((elements, typ)) => self.array_constant(value@ as int) == Some(
                    (vector_ids(elements), typ@),
                ),
                None => self.array_constant(value@ as int) is None,
            },
    {
        proof {
            assert(self.value_wf(value@ as int));
        }
        match self.values.index(value) {
            Value::Instruction { instruction, .. } => match self.instructions.index(*instruction) {
                Instruction::MakeArray { elements, typ } => Some((elements.clone(), typ.clone())),
                _ => None,
            },
            _ => None,
        }
    }

    /// The value with id `value`.
    pub fn value(&self, value: ValueId) -> (v: &Value)
        requires
            value@ < self.values().len(),
        ensures
            *v == self.values()[value@ as int],
    {
        self.values.index(value)
    }

    /// The instruction with id `instruction`.
    pub fn instruction(&self, instruction: InstructionId) -> (i: &Instruction)
        requires
            instruction@ < self.instructions().len(),
        ensures
            *i == self.instructions()[instruction@ as int],
    {
        self.instructions.index(instruction)
    }

    /// The call stack of the instruction with id `instruction`.
    pub fn instruction_call_stack(&self, instruction: InstructionId) -> (cs: CallStackId)
        requires
            self.wf(),
            instruction@ < self.instructions().len(),
        ensures
            cs == self.call_stacks()[instruction@ as int],
    {
        self.call_stacks[instruction.to_usize()]
    }

    /// The block with id `block`.
    pub fn block(&self, block: BasicBlockId) -> (b: &BasicBlock)
        requires
            block@ < self.blocks().len(),
        ensures
            *b == self.blocks()[block@ as int],
    {
        self.blocks.index(block)
    }
}

} // verus!
