//! The instructions of the SSA IR that value merging emits.
use crate::map::{id_indices, Id};
use crate::types::{NumericType, Type};
use crate::value::ValueId;
use vstd::prelude::*;

verus! {

pub type InstructionId = Id<Instruction>;


/// A binary operator. `unchecked` operations are known not to overflow, so no
/// overflow check is generated for them.
#[derive(Clone, Copy, Debug, PartialEq, Eq, Hash, Structural)]
pub enum BinaryOp {
    Add { unchecked: bool },
    Mul { unchecked: bool },
}

/// A binary operation on two values.
#[derive(Debug)]
pub struct Binary {
    pub lhs: ValueId,
    pub rhs: ValueId,
    pub operator: BinaryOp,
}

/// An instruction of a basic block. Each one defines a single result value.
#[derive(Debug)]
pub enum Instruction {
    /// A binary operation; its result has the type of `lhs`.
    Binary(Binary),
    /// Converts a value to the given numeric type.
    Cast(ValueId, NumericType),
    /// Reads the element at `index` of `array`.
    ArrayGet { array: ValueId, index: ValueId },
    /// Builds an array or slice of type `typ` from `elements`, laid out flat.
    MakeArray { elements: ValueVector, typ: Type },
}

impl Instruction {
    /// The binary instruction `lhs operator rhs`.
    pub fn binary(operator: BinaryOp, lhs: ValueId, rhs: ValueId) -> (i: Instruction)
        ensures
            i == (Instruction::Binary(Binary { lhs, rhs, operator })),
    {
        Instruction::Binary(Binary { lhs, rhs, operator })
    }
}

/// `instruction` is the binary operation `operator` on the values with
/// indices `lhs` and `rhs`.
pub open spec fn is_binary(instruction: Instruction, operator: BinaryOp, lhs: int, rhs: int) -> bool {
    &&& instruction is Binary
    &&& instruction->Binary_0.operator == operator
    &&& instruction->Binary_0.lhs@ == lhs
    &&& instruction->Binary_0.rhs@ == rhs
}

/// The elements of a `MakeArray`: an `im::Vector` of value ids, as the IR
/// keeps them.
#[verifier::external_body]
#[derive(Debug)]
pub struct ValueVector {
    items: im::Vector<ValueId>,
}

/// What a [`ValueVector`] holds, front to back, each id taken by its index.
pub uninterp spec fn vector_ids(v: ValueVector) -> Seq<usize>;

/// `im::Vector::new`: an empty vector.
#[verifier::external_body]
fn vector_new() -> (v: ValueVector)
    ensures
        vector_ids(v) == Seq::<usize>::empty(),
{
    ValueVector { items: im::Vector::new() }
}

/// `im::Vector::push_back`: appends `value` at the back; the items before it
/// stay as they were.
#[verifier::external_body]
fn vector_push_back(v: &mut ValueVector, value: ValueId)
    ensures
        vector_ids(*final(v)) == vector_ids(*old(v)).push(value@),
{
    v.items.push_back(value)
}

/// `im::Vector::len`: the number of items.
#[verifier::external_body]
fn vector_len(v: &ValueVector) -> (n: usize)
    ensures
        n == vector_ids(*v).len(),
{
    v.items.len()
}

/// `im::Vector::get` at an index below the length: the item there.
#[verifier::external_body]
fn vector_get(v: &ValueVector, index: usize) -> (item: ValueId)
    requires
        index < vector_ids(*v).len(),
    ensures
        item@ == vector_ids(*v)[index as int],
{
    *v.items.get(index).unwrap()
}

/// `im::Vector::clone`: a vector with the same items.
#[verifier::external_body]
fn vector_clone(v: &ValueVector) -> (c: ValueVector)
    ensures
        vector_ids(c) == vector_ids(*v),
{
    ValueVector { items: v.items.clone() }
}

impl ValueVector {
    /// An empty vector.
    pub fn new() -> (v: ValueVector)
        ensures
            vector_ids(v) == Seq::<usize>::empty(),
    {
        vector_new()
    }

    /// Appends `value` at the back.
    pub fn push_back(&mut self, value: ValueId)
        ensures
            vector_ids(*final(self)) == vector_ids(*old(self)).push(value@),
    {
        vector_push_back(self, value)
    }

    /// The number of items.
    pub fn len(&self) -> (n: usize)
        ensures
            n == vector_ids(*self).len(),
    {
        vector_len(self)
    }

    /// A vector holding the given ids, in order.
    pub fn from_ids(ids: &Vec<ValueId>) -> (v: ValueVector)
        ensures
            vector_ids(v) == id_indices(ids@),
    {
        let mut v = vector_new();
        let mut i: usize = 0;
        while i < ids.len()
            invariant
                i <= ids.len(),
                vector_ids(v) == id_indices(ids@.subrange(0, i as int)),
            decreases ids.len() - i,
        {
            vector_push_back(&mut v, ids[i]);
            assert(id_indices(ids@.subrange(0, i + 1)) =~= id_indices(ids@.subrange(0, i as int)).push(
                ids[i as int]@,
            ));
            i = i + 1;
        }
        assert(ids@.subrange(0, ids@.len() as int) =~= ids@);
        v
    }

    /// The ids held, in order.
    pub fn to_ids(&self) -> (ids: Vec<ValueId>)
        ensures
            id_indices(ids@) == vector_ids(*self),
    {
        let n = vector_len(self);
        let mut ids: Vec<ValueId> = Vec::new();
        let mut i: usize = 0;
        while i < n
            invariant
                i <= n,
                n == vector_ids(*self).len(),
                ids@.len() == i,
                id_indices(ids@) == vector_ids(*self).subrange(0, i as int),
            decreases n - i,
        {
            let item = vector_get(self, i);
            let ghost prev = ids@;
            ids.push(item);
            assert forall|k: int| 0 <= k < i + 1 implies #[trigger] id_indices(ids@)[k] == vector_ids(*self).subrange(0, i + 1)[k] by {
                if k < i {
                    assert(ids@[k] == prev[k]);
                    assert(id_indices(prev)[k] == vector_ids(*self).subrange(
                        0,
                        i as int,
                    )[k]);
                }
            }
            assert(id_indices(ids@) =~= vector_ids(*self).subrange(0, i + 1));
            i = i + 1;
        }
        assert(vector_ids(*self).subrange(0, n as int) =~= vector_ids(*self));
        ids
    }
}

impl Clone for ValueVector {
    fn clone(&self) -> (c: Self)
        ensures
            vector_ids(c) == vector_ids(*self),
    {
        vector_clone(self)
    }
}

} // verus!
