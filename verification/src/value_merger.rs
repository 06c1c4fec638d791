//! Merging the values that the two branches of an `if` produce into one
//! value, as the control-flow graph is flattened into straight-line code.
//!
//! A numeric value becomes `then_condition * then_value + else_condition *
//! else_value`, with the conditions cast to the value's type. Arrays and
//! slices are merged element by element into a new array; the shorter of two
//! slices is padded with placeholder elements.
use crate::basic_block::BasicBlockId;
use crate::call_stack::CallStackId;
use crate::dfg::{DataFlowGraph, Term};
use crate::field::{field_bytes, field_bytes_from_u128, field_bytes_zero};
use crate::instruction::{is_binary, vector_ids, BinaryOp, Instruction, ValueVector};
use crate::types::{type_view, NumericType, Type, TypeView};
use crate::value::ValueId;
use fxhash::FxHashMap as HashMap;
use vstd::prelude::*;

verus! {

#[verifier::external_type_specification]
#[verifier::external_body]
pub struct ExFxHasher(fxhash::FxHasher);

#[verifier::external_type_specification]
#[verifier::external_body]
#[verifier::reject_recursive_types(H)]
pub struct ExBuildHasherDefault<H>(std::hash::BuildHasherDefault<H>);

/// `HashMap::get` on the `FxHashMap` of slice sizes, the entry copied out:
/// the size recorded for `value`, if any. `FxHasher` is deterministic and ids
/// hash and compare by their index, so the lookup agrees with the map's model.
#[verifier::external_body]
fn slice_size_of(sizes: &HashMap<ValueId, u32>, value: &ValueId) -> (size: Option<u32>)
    ensures
        size == (if sizes@.contains_key(*value) {
            Some(sizes@[*value])
        } else {
            None
        }),
{
    sizes.get(value).copied()
}

/// The call stack that merged numeric instructions carry: that of the `then`
/// value, unless it is the root, in which case that of the `else` value.
pub open spec fn merged_call_stack(a: Term, b: Term) -> CallStackId {
    if a.call_stack()@ == 0 {
        b.call_stack()
    } else {
        a.call_stack()
    }
}

/// The meaning of two numeric values merged under two conditions:
/// `cast(then_condition) * a + cast(else_condition) * b`, all unchecked.
pub open spec fn numeric_merge_term(
    t: NumericType,
    then_condition: Term,
    else_condition: Term,
    a: Term,
    b: Term,
) -> Term {
    let cs = merged_call_stack(a, b);
    Term::Binary(
        BinaryOp::Add { unchecked: true },
        Box::new(
            Term::Binary(
                BinaryOp::Mul { unchecked: true },
                Box::new(Term::Cast(Box::new(then_condition), t, cs)),
                Box::new(a),
                cs,
            ),
        ),
        Box::new(
            Term::Binary(
                BinaryOp::Mul { unchecked: true },
                Box::new(Term::Cast(Box::new(else_condition), t, cs)),
                Box::new(b),
                cs,
            ),
        ),
        cs,
    )
}

/// The constant `k` of numeric type `t`, as the data-flow graph holds it.
pub open spec fn index_term(k: int, t: NumericType) -> Term {
    Term::Constant(field_bytes(k as nat), t)
}

/// Reading the element at constant index `k`, of type `element`, from `array`.
pub open spec fn array_get_term(
    array: Term,
    k: int,
    index_type: NumericType,
    element: TypeView,
    cs: CallStackId,
) -> Term {
    Term::ArrayGet(Box::new(array), Box::new(index_term(k, index_type)), element, cs)
}

/// The meaning of merging two values of type `typ` (a numeric or array type)
/// whose meanings are `a` and `b`. An array is merged into a new array whose
/// element `k` merges the elements `k` of `a` and `b`, read at indices of the
/// length type; the array instructions carry call stack `cs`.
pub open spec fn merged_term(
    typ: TypeView,
    then_condition: Term,
    else_condition: Term,
    a: Term,
    b: Term,
    cs: CallStackId,
) -> Term
    decreases typ,
{
    match typ {
        TypeView::Numeric(t) => numeric_merge_term(t, then_condition, else_condition, a, b),
        TypeView::Array(elements, len) => {
            let n = elements.len();
            Term::MakeArray(
                Seq::new(
                    len as nat * n,
                    |k: int|
                        if 0 <= k && n > 0 {
                            merged_term(
                                elements[k % (n as int)],
                                then_condition,
                                else_condition,
                                array_get_term(
                                    a,
                                    k,
                                    NumericType::Unsigned { bit_size: 32 },
                                    elements[k % (n as int)],
                                    cs,
                                ),
                                array_get_term(
                                    b,
                                    k,
                                    NumericType::Unsigned { bit_size: 32 },
                                    elements[k % (n as int)],
                                    cs,
                                ),
                                cs,
                            )
                        } else {
                            Term::Param(0)
                        },
                ),
                typ,
                cs,
            )
        },
        _ => Term::Param(0),
    }
}

/// The placeholder of type `typ` (a numeric or array type): zero, or an
/// array of placeholders, built with call stack `cs`.
pub open spec fn dummy_term(typ: TypeView, cs: CallStackId) -> Term
    decreases typ,
{
    match typ {
        TypeView::Numeric(t) => Term::Constant(field_bytes(0), t),
        TypeView::Array(elements, len) => {
            let n = elements.len();
            Term::MakeArray(
                Seq::new(
                    len as nat * n,
                    |k: int|
                        if 0 <= k && n > 0 {
                            dummy_term(elements[k % (n as int)], cs)
                        } else {
                            Term::Param(0)
                        },
                ),
                typ,
                cs,
            )
        },
        _ => Term::Param(0),
    }
}

/// Element `k`, of type `element`, of a slice with meaning `slice` that holds
/// `size` elements: read from the slice at a field index if it has one, a
/// placeholder otherwise.
pub open spec fn slice_element_term(
    slice: Term,
    size: int,
    k: int,
    element: TypeView,
    cs: CallStackId,
) -> Term {
    if size <= k {
        dummy_term(element, cs)
    } else {
        array_get_term(slice, k, NumericType::NativeField, element, cs)
    }
}

/// The meaning of merging two slices of type `typ` that hold `then_len` and
/// `else_len` repetitions of the element types: an array of the longer
/// length whose element `k` merges the elements `k` of the two slices, the
/// shorter one padded with placeholders.
pub open spec fn slice_merge_term(
    typ: TypeView,
    then_len: u32,
    else_len: u32,
    then_condition: Term,
    else_condition: Term,
    a: Term,
    b: Term,
    cs: CallStackId,
) -> Term {
    let elements = typ.element_types();
    let n = elements.len() as int;
    let len = if then_len >= else_len {
        then_len
    } else {
        else_len
    };
    Term::MakeArray(
        Seq::new(
            len as nat * n as nat,
            |k: int|
                if 0 <= k && n > 0 {
                    merged_term(
                        elements[k % n],
                        then_condition,
                        else_condition,
                        slice_element_term(a, then_len * n, k, elements[k % n], cs),
                        slice_element_term(b, else_len * n, k, elements[k % n], cs),
                        cs,
                    )
                } else {
                    Term::Param(0)
                },
        ),
        typ,
        cs,
    )
}

/// Value `v` of `dfg` is the result of a `MakeArray` whose element `k` has
/// type `elements[k % elements.len()]`.
pub open spec fn makes_array_of(dfg: DataFlowGraph, v: int, elements: Seq<TypeView>) -> bool {
    let instruction = dfg.instructions()[dfg.values()[v]->instruction@ as int];
    let ids = vector_ids(instruction->elements);
    &&& dfg.values()[v] is Instruction
    &&& instruction is MakeArray
    &&& forall|k: int|
        0 <= k < ids.len() ==> dfg.type_of(#[trigger] ids[k] as int) == elements[k
            % elements.len() as int]
}

/// The sum of a sequence of numbers.
pub open spec fn sum(s: Seq<nat>) -> nat
    decreases s.len(),
{
    if s.len() == 0 {
        0
    } else {
        sum(s.drop_last()) + s.last()
    }
}

/// The sum of the first `k + 1` numbers is that of the first `k` plus number `k`.
pub proof fn lemma_sum_take(s: Seq<nat>, k: int)
    requires
        0 <= k < s.len(),
    ensures
        sum(s.take(k + 1)) == sum(s.take(k)) + s[k],
{
    assert(s.take(k + 1).drop_last() =~= s.take(k));
}

/// The sum of a prefix is at most the sum of the whole.
pub proof fn lemma_sum_take_le(s: Seq<nat>, k: int)
    requires
        0 <= k <= s.len(),
    ensures
        sum(s.take(k)) <= sum(s),
    decreases s.len() - k,
{
    if k < s.len() {
        lemma_sum_take(s, k);
        lemma_sum_take_le(s, k + 1);
    } else {
        assert(s.take(k) =~= s);
    }
}

/// `dfg` can take `values` more values and `instructions` more instructions
/// before its ids run out.
pub open spec fn has_room(dfg: DataFlowGraph, values: nat, instructions: nat) -> bool {
    &&& dfg.values().len() + values <= usize::MAX
    &&& dfg.instructions().len() + instructions <= usize::MAX
}

/// How many instructions (`values == false`) or values (`values == true`)
/// merging two values of type `typ` (a numeric or array type) adds: five for
/// numbers; for arrays, the counts of [`array_merge_steps`] and then the new
/// array.
pub open spec fn merge_count(typ: TypeView, values: bool) -> nat
    decreases typ, 1nat,
{
    match typ {
        TypeView::Numeric(_) => 5,
        TypeView::Array(_, _) => sum(array_merge_steps(typ, values)) + 1,
        _ => 0,
    }
}

/// For each element `k` of an array of type `typ`, how many instructions or
/// values merging it adds: an index constant, two reads and the merge of the
/// two elements read.
pub open spec fn array_merge_steps(typ: TypeView, values: bool) -> Seq<nat>
    decreases typ, 0nat,
{
    match typ {
        TypeView::Array(elements, len) => {
            let n = elements.len();
            Seq::new(
                len as nat * n,
                |k: int|
                    if 0 <= k && n > 0 {
                        (if values {
                            3nat
                        } else {
                            2nat
                        }) + merge_count(elements[k % (n as int)], values)
                    } else {
                        0
                    },
            )
        },
        _ => Seq::empty(),
    }
}

/// How many instructions or values building a placeholder of type `typ`
/// adds: one constant for a number; for an array, the placeholders of its
/// elements and then the array.
pub open spec fn dummy_count(typ: TypeView, values: bool) -> nat
    decreases typ, 1nat,
{
    match typ {
        TypeView::Numeric(_) => if values {
            1
        } else {
            0
        },
        TypeView::Array(_, _) => sum(dummy_steps(typ, values)) + 1,
        _ => 0,
    }
}

/// For each element `k` of an array placeholder of type `typ`, how many
/// instructions or values building its placeholder adds.
pub open spec fn dummy_steps(typ: TypeView, values: bool) -> Seq<nat>
    decreases typ, 0nat,
{
    match typ {
        TypeView::Array(elements, len) => {
            let n = elements.len();
            Seq::new(
                len as nat * n,
                |k: int|
                    if 0 <= k && n > 0 {
                        dummy_count(elements[k % (n as int)], values)
                    } else {
                        0
                    },
            )
        },
        _ => Seq::empty(),
    }
}

/// How many instructions or values producing element `k`, of type
/// `element`, of a slice of `size` elements adds: one read if it is there, a
/// placeholder otherwise.
pub open spec fn slice_element_count(size: int, k: int, element: TypeView, values: bool) -> nat {
    if size <= k {
        dummy_count(element, values)
    } else {
        1
    }
}

/// How many instructions or values merging element `k` of two slices adds.
pub open spec fn slice_step_count(
    elements: Seq<TypeView>,
    then_size: int,
    else_size: int,
    k: int,
    values: bool,
) -> nat {
    let element = elements[k % elements.len() as int];
    (if values {
        1nat
    } else {
        0nat
    }) + slice_element_count(then_size, k, element, values) + slice_element_count(
        else_size,
        k,
        element,
        values,
    ) + merge_count(element, values)
}

/// For each element `k` of the merge of two slices of type `typ` with
/// `then_len` and `else_len` element repetitions, how many instructions or
/// values merging it adds.
pub open spec fn slice_merge_steps(typ: TypeView, then_len: u32, else_len: u32, values: bool) -> Seq<
    nat,
> {
    let elements = typ.element_types();
    let n = elements.len() as int;
    let len = if then_len >= else_len {
        then_len
    } else {
        else_len
    };
    Seq::new(
        len as nat * n as nat,
        |k: int| slice_step_count(elements, then_len * n, else_len * n, k, values),
    )
}

/// How many instructions or values merging two slices of type `typ` with
/// `then_len` and `else_len` element repetitions adds: the steps of each
/// element, then the new array.
pub open spec fn slice_merge_count(typ: TypeView, then_len: u32, else_len: u32, values: bool) -> nat {
    sum(slice_merge_steps(typ, then_len, else_len, values)) + 1
}

/// How many instructions or values merging `then_value` and `else_value` adds.
pub open spec fn value_merge_count(
    dfg: DataFlowGraph,
    sizes: Map<ValueId, u32>,
    then_value: ValueId,
    else_value: ValueId,
    values: bool,
) -> nat {
    let typ = dfg.type_of(then_value@ as int);
    if then_value@ == else_value@ {
        0
    } else if typ is Slice {
        slice_merge_count(
            typ,
            slice_length(dfg, sizes, then_value),
            slice_length(dfg, sizes, else_value),
            values,
        )
    } else {
        merge_count(typ, values)
    }
}

/// A type whose values can be merged inside an array, and for which a
/// placeholder can be built: a numeric type, an empty array of any element
/// types, or an array of such types whose flat element indices fit in 32 bits.
pub open spec fn mergeable_element(typ: TypeView) -> bool
    decreases typ,
{
    match typ {
        TypeView::Numeric(_) => true,
        TypeView::Array(elements, len) => len == 0 || {
            &&& elements.len() <= u32::MAX
            &&& len * elements.len() <= u32::MAX + 1
            &&& forall|j: int| 0 <= j < elements.len() ==> mergeable_element(#[trigger] elements[j])
        },
        _ => false,
    }
}

/// The number of element repetitions of slice value `v`: its entry in
/// `sizes`, or else the number of elements of the array that defines it
/// divided by that array's number of element types.
pub open spec fn slice_length(dfg: DataFlowGraph, sizes: Map<ValueId, u32>, v: ValueId) -> u32 {
    if sizes.contains_key(v) {
        sizes[v]
    } else {
        let (ids, t) = dfg.array_constant(v@ as int).unwrap();
        (ids.len() / t.element_types().len()) as u32
    }
}

/// The length of slice value `v` is known: `sizes` holds it, or an array with
/// element types defines `v`.
pub open spec fn slice_length_known(dfg: DataFlowGraph, sizes: Map<ValueId, u32>, v: ValueId) -> bool {
    ||| sizes.contains_key(v)
    ||| {
        &&& dfg.array_constant(v@ as int) is Some
        &&& dfg.array_constant(v@ as int).unwrap().1.is_composite()
        &&& dfg.array_constant(v@ as int).unwrap().1.element_types().len() > 0
    }
}

/// Slices of type `typ` can be merged: their element types are mergeable
/// inside an array, and every flat index fits in 32 bits.
pub open spec fn mergeable_slice(typ: TypeView, then_len: u32, else_len: u32) -> bool {
    let elements = typ.element_types();
    &&& typ is Slice
    &&& elements.len() <= u32::MAX
    &&& then_len * elements.len() <= u32::MAX
    &&& else_len * elements.len() <= u32::MAX
    &&& forall|j: int| 0 <= j < elements.len() ==> mergeable_element(#[trigger] elements[j])
}

/// `len` is how many whole repetitions of `n` element types `m` elements
/// hold: `len * n <= m < (len + 1) * n`, where that count fits in 32 bits.
pub open spec fn repetitions_of(m: int, n: int, len: int) -> bool {
    m / n <= u32::MAX ==> len * n <= m < (len + 1) * n
}

/// A slice whose size is recorded is as long as recorded.
pub proof fn lemma_slice_length_recorded(dfg: DataFlowGraph, sizes: Map<ValueId, u32>, v: ValueId)
    requires
        sizes.contains_key(v),
    ensures
        slice_length(dfg, sizes, v) == sizes[v],
{
}

/// A slice without a recorded size, defined by an array of `m` elements with
/// `n` element types, holds the `m / n` whole repetitions of those types
/// that the array holds: `len * n <= m < (len + 1) * n` (so `len * n == m`
/// when the array holds whole repetitions only), where that count fits in
/// 32 bits.
pub proof fn lemma_slice_length_of_array(dfg: DataFlowGraph, sizes: Map<ValueId, u32>, v: ValueId)
    requires
        !sizes.contains_key(v),
        slice_length_known(dfg, sizes, v),
    ensures
        ({
            let m = dfg.array_constant(v@ as int).unwrap().0.len() as int;
            let n = dfg.array_constant(v@ as int).unwrap().1.element_types().len() as int;
            let len = slice_length(dfg, sizes, v) as int;
            &&& repetitions_of(m, n, len)
            &&& m / n <= u32::MAX && m % n == 0 ==> len * n == m
        }),
{
    let m = dfg.array_constant(v@ as int).unwrap().0.len() as int;
    let n = dfg.array_constant(v@ as int).unwrap().1.element_types().len() as int;
    let q = m / n;
    vstd::arithmetic::div_mod::lemma_fundamental_div_mod(m, n);
    assert(0 <= m % n < n);
    if q <= u32::MAX {
        assert(slice_length(dfg, sizes, v) as int == q);
        assert(q * n <= m < (q + 1) * n) by (nonlinear_arith)
            requires
                m == n * q + m % n,
                0 <= m % n < n,
        ;
    }
}

/// `then_value` and `else_value` can be merged: the then value is no
/// reference or function, and the two are the same value, or numeric values
/// of one type, or arrays of a mergeable type, or slices of a mergeable type
/// with known lengths.
pub open spec fn can_merge(
    dfg: DataFlowGraph,
    sizes: Map<ValueId, u32>,
    then_value: ValueId,
    else_value: ValueId,
) -> bool {
    let typ = dfg.type_of(then_value@ as int);
    &&& !(typ is Reference)
    &&& !(typ is Function)
    &&& can_merge_typed(dfg, sizes, then_value, else_value)
}

/// Given a then value of numeric, array or slice type: the two values can be
/// merged.
pub open spec fn can_merge_typed(
    dfg: DataFlowGraph,
    sizes: Map<ValueId, u32>,
    then_value: ValueId,
    else_value: ValueId,
) -> bool {
    let typ = dfg.type_of(then_value@ as int);
    ||| then_value@ == else_value@
    ||| typ is Numeric && dfg.type_of(else_value@ as int) == typ
    ||| typ is Array && mergeable_element(typ)
    ||| {
        &&& typ is Slice
        &&& slice_length_known(dfg, sizes, then_value)
        &&& slice_length_known(dfg, sizes, else_value)
        &&& mergeable_slice(
            typ,
            slice_length(dfg, sizes, then_value),
            slice_length(dfg, sizes, else_value),
        )
    }
}

/// The meaning of merging `then_value` and `else_value` in `dfg`: the value
/// itself if they are the same, otherwise the merge of their meanings by
/// their type.
pub open spec fn value_merge_term(
    dfg: DataFlowGraph,
    sizes: Map<ValueId, u32>,
    then_condition: ValueId,
    else_condition: ValueId,
    then_value: ValueId,
    else_value: ValueId,
    cs: CallStackId,
) -> Term {
    let typ = dfg.type_of(then_value@ as int);
    let tc = dfg.term_of(then_condition@ as nat);
    let ec = dfg.term_of(else_condition@ as nat);
    let a = dfg.term_of(then_value@ as nat);
    let b = dfg.term_of(else_value@ as nat);
    if then_value@ == else_value@ {
        a
    } else if typ is Slice {
        slice_merge_term(
            typ,
            slice_length(dfg, sizes, then_value),
            slice_length(dfg, sizes, else_value),
            tc,
            ec,
            a,
            b,
            cs,
        )
    } else {
        merged_term(typ, tc, ec, a, b, cs)
    }
}

/// Merges values into one block of a data-flow graph.
pub struct ValueMerger<'a> {
    dfg: &'a mut DataFlowGraph,
    block: BasicBlockId,
    // Maps SSA array values with a slice type to their size.
    // This must be computed before merging values.
    slice_sizes: &'a mut HashMap<ValueId, u32>,
    call_stack: CallStackId,
}

impl<'a> ValueMerger<'a> {
    /// The graph being added to.
    pub closed spec fn dfg(&self) -> DataFlowGraph {
        *self.dfg
    }

    /// The reference to the graph being added to.
    pub closed spec fn dfg_ref(&self) -> &'a mut DataFlowGraph {
        self.dfg
    }

    /// The block that new instructions are appended to.
    pub closed spec fn block(&self) -> BasicBlockId {
        self.block
    }

    /// The known sizes of slice values.
    pub closed spec fn slice_sizes(&self) -> Map<ValueId, u32> {
        self.slice_sizes@
    }

    /// The reference to the known sizes of slice values.
    pub closed spec fn slice_sizes_ref(&self) -> &'a mut HashMap<ValueId, u32> {
        self.slice_sizes
    }

    /// The call stack that new array instructions carry.
    pub closed spec fn call_stack(&self) -> CallStackId {
        self.call_stack
    }

    /// `later` is this merger after some merging: the same block, call stack
    /// and slice sizes.
    pub open spec fn same_context(&self, later: &Self) -> bool {
        &&& later.block() == self.block()
        &&& later.call_stack() == self.call_stack()
        &&& later.slice_sizes() == self.slice_sizes()
    }

    /// The merger's invariant: the graph is well formed and holds its block.
    pub open spec fn wf(&self) -> bool {
        &&& self.dfg().wf()
        &&& self.block()@ < self.dfg().blocks().len()
    }

    /// A merger that appends to `block` of `dfg`, looks up slice lengths in
    /// `slice_sizes`, and gives the array instructions it makes `call_stack`.
    pub fn new(
        dfg: &'a mut DataFlowGraph,
        block: BasicBlockId,
        slice_sizes: &'a mut HashMap<ValueId, u32>,
        call_stack: CallStackId,
    ) -> (merger: Self)
        ensures
            merger.dfg() == *old(dfg),
            *final(merger.dfg_ref()) == *final(dfg),
            merger.block() == block,
            merger.slice_sizes() == old(slice_sizes)@,
            *final(merger.slice_sizes_ref()) == *final(slice_sizes),
            merger.call_stack() == call_stack,
    {
        ValueMerger { dfg, block, slice_sizes, call_stack }
    }

    /// Merges two numeric values `then_value` and `else_value`, placing the new
    /// instructions at the end of `block`. Equal values are returned unchanged.
    #[verifier::rlimit(50)]
    #[verifier::spinoff_prover]
    pub fn merge_numeric_values(
        dfg: &mut DataFlowGraph,
        block: BasicBlockId,
        then_condition: ValueId,
        else_condition: ValueId,
        then_value: ValueId,
        else_value: ValueId,
    ) -> (merged: ValueId)
        requires
            then_value@ != else_value@ ==> has_room(*old(dfg), 5, 5),
            old(dfg).wf(),
            block@ < old(dfg).blocks().len(),
            then_condition@ < old(dfg).values().len(),
            else_condition@ < old(dfg).values().len(),
            then_value@ < old(dfg).values().len(),
            else_value@ < old(dfg).values().len(),
            old(dfg).type_of(then_value@ as int) is Numeric,
            old(dfg).type_of(else_value@ as int) == old(dfg).type_of(then_value@ as int),
        ensures
            final(dfg).wf(),
            old(dfg).appends_into(&*final(dfg), block@ as int),
            merged@ < final(dfg).values().len(),
            final(dfg).type_of(merged@ as int) == old(dfg).type_of(then_value@ as int),
            then_value@ == else_value@ ==> merged == then_value && *final(dfg) == *old(dfg),
            final(dfg).instructions().len() == old(dfg).instructions().len() + (if then_value@
                == else_value@ {
                0nat
            } else {
                5nat
            }),
            final(dfg).values().len() == old(dfg).values().len() + (if then_value@
                == else_value@ {
                0nat
            } else {
                5nat
            }),
            then_value@ != else_value@ ==> ({
                let n = old(dfg).instructions().len() as int;
                let v = old(dfg).values().len() as int;
                let t = old(dfg).type_of(then_value@ as int)->Numeric_0;
                let added = final(dfg).instructions();
                &&& added[n] == Instruction::Cast(then_condition, t)
                &&& added[n + 1] == Instruction::Cast(else_condition, t)
                &&& is_binary(added[n + 2], BinaryOp::Mul { unchecked: true }, v, then_value@ as int)
                &&& is_binary(added[n + 3], BinaryOp::Mul { unchecked: true }, v + 1, else_value@ as int)
                &&& is_binary(added[n + 4], BinaryOp::Add { unchecked: true }, v + 2, v + 3)
                &&& forall|k: int|
                    0 <= k < 5 ==> #[trigger] final(dfg).values()[v + k] is Instruction
                        && final(dfg).values()[v + k]->instruction@ == n + k
                &&& merged@ == v + 4
            }),
            then_value@ != else_value@ ==> final(dfg).term_of(merged@ as nat) == numeric_merge_term(
                old(dfg).type_of(then_value@ as int)->Numeric_0,
                old(dfg).term_of(then_condition@ as nat),
                old(dfg).term_of(else_condition@ as nat),
                old(dfg).term_of(then_value@ as nat),
                old(dfg).term_of(else_value@ as nat),
            ),
    {
        let then_type = dfg.type_of_value(then_value).unwrap_numeric();
        let else_type = dfg.type_of_value(else_value).unwrap_numeric();

        if then_value == else_value {
            proof {
                ValueId::lemma_view_injective(then_value, else_value);
                old(dfg).lemma_appends_reflexive(block@ as int);
            }
            return then_value;
        }
        let ghost d0 = *dfg;

        let then_call_stack = dfg.get_value_call_stack_id(then_value);
        let else_call_stack = dfg.get_value_call_stack_id(else_value);

        let call_stack = if then_call_stack.is_root() {
            else_call_stack
        } else {
            then_call_stack
        };

        // We must cast the bool conditions to the actual numeric type used by each value.
        let cast = Instruction::Cast(then_condition, then_type);
        let then_condition_cast = dfg.insert_instruction_and_results(cast, block, None, call_stack).first();
        let ghost d1 = *dfg;

        let cast = Instruction::Cast(else_condition, else_type);
        let else_condition_cast = dfg.insert_instruction_and_results(cast, block, None, call_stack).first();
        let ghost d2 = *dfg;

        // Unchecked mul because `then_condition` will be 1 or 0
        let mul = Instruction::binary(BinaryOp::Mul { unchecked: true }, then_condition_cast, then_value);
        let then_product = dfg.insert_instruction_and_results(mul, block, None, call_stack).first();
        let ghost d3 = *dfg;

        // Unchecked mul because `else_condition` will be 1 or 0
        let mul = Instruction::binary(BinaryOp::Mul { unchecked: true }, else_condition_cast, else_value);
        let else_product = dfg.insert_instruction_and_results(mul, block, None, call_stack).first();
        let ghost d4 = *dfg;

        // Unchecked add because one of the values will always be 0
        let add = Instruction::binary(BinaryOp::Add { unchecked: true }, then_product, else_product);
        let merged = dfg.insert_instruction_and_results(add, block, None, call_stack).first();
        proof {
            let d5 = *dfg;
            d0.lemma_appends_transitive(&d1, &d2, block@ as int);
            d0.lemma_appends_transitive(&d2, &d3, block@ as int);
            d0.lemma_appends_transitive(&d3, &d4, block@ as int);
            d0.lemma_appends_transitive(&d4, &d5, block@ as int);
            d0.lemma_grows_transitive(&d1, &d2);
            d0.lemma_grows_transitive(&d2, &d3);
            d1.lemma_grows_transitive(&d2, &d3);
            let t = then_type;
            let tc = then_condition@ as nat;
            let ec = else_condition@ as nat;
            let tv = then_value@ as nat;
            let ev = else_value@ as nat;
            let tcc = then_condition_cast@ as nat;
            let ecc = else_condition_cast@ as nat;
            let tp = then_product@ as nat;
            let ep = else_product@ as nat;
            // types
            d2.lemma_value_frame(&d3, tcc as int);
            d1.lemma_value_frame(&d2, tcc as int);
            d3.lemma_value_frame(&d4, tp as int);
            d2.lemma_grows_transitive(&d3, &d4);
            d2.lemma_grows_transitive(&d4, &d5);
            d3.lemma_grows_transitive(&d4, &d5);
            d1.lemma_grows_transitive(&d2, &d5);
            d3.lemma_value_frame(&d5, tp as int);
            d4.lemma_value_frame(&d5, ep as int);
            d2.lemma_value_frame(&d5, ecc as int);
            d1.lemma_value_frame(&d5, tcc as int);
            assert(d5.type_of(merged@ as int) == TypeView::Numeric(t));
            // call stacks
            d0.lemma_value_call_stack(tv);
            d0.lemma_value_call_stack(ev);
            CallStackId::lemma_root_stack();
            assert(call_stack == merged_call_stack(d0.term_of(tv), d0.term_of(ev)));
            // meanings
            d0.lemma_term_of_frame(&d1, ec);
            assert(d1.term_of(tcc) == Term::Cast(Box::new(d0.term_of(tc)), t, call_stack));
            assert(d2.term_of(ecc) == Term::Cast(Box::new(d0.term_of(ec)), t, call_stack));
            d1.lemma_term_of_frame(&d2, tcc);
            d0.lemma_term_of_frame(&d2, tv);
            assert(d3.term_of(tp) == Term::Binary(
                BinaryOp::Mul { unchecked: true },
                Box::new(d1.term_of(tcc)),
                Box::new(d0.term_of(tv)),
                call_stack,
            ));
            d2.lemma_term_of_frame(&d3, ecc);
            d0.lemma_term_of_frame(&d3, ev);
            assert(d4.term_of(ep) == Term::Binary(
                BinaryOp::Mul { unchecked: true },
                Box::new(d2.term_of(ecc)),
                Box::new(d0.term_of(ev)),
                call_stack,
            ));
            d3.lemma_term_of_frame(&d4, tp);
            assert(d5.term_of(merged@ as nat) == Term::Binary(
                BinaryOp::Add { unchecked: true },
                Box::new(d3.term_of(tp)),
                Box::new(d4.term_of(ep)),
                call_stack,
            ));
        }
        merged
    }


    /// Merge two values a and b from separate basic blocks to a single value.
    /// If these two values are numeric, the result will be
    /// `then_condition * then_value + else_condition * else_value`.
    /// Otherwise, if the values being merged are arrays, a new array will be made
    /// recursively from combining each element of both input arrays.
    ///
    /// It is currently an error to call this function on reference or function values
    /// as it is less clear how to merge these.
    pub fn merge_values(
        &mut self,
        then_condition: ValueId,
        else_condition: ValueId,
        then_value: ValueId,
        else_value: ValueId,
    ) -> (merged: ValueId)
        requires
            has_room(
                old(self).dfg(),
                value_merge_count(old(self).dfg(), old(self).slice_sizes(), then_value, else_value, true),
                value_merge_count(old(self).dfg(), old(self).slice_sizes(), then_value, else_value, false),
            ),
            old(self).wf(),
            then_condition@ < old(self).dfg().values().len(),
            else_condition@ < old(self).dfg().values().len(),
            then_value@ < old(self).dfg().values().len(),
            else_value@ < old(self).dfg().values().len(),
            can_merge(old(self).dfg(), old(self).slice_sizes(), then_value, else_value),
        ensures
            final(self).wf(),
            old(self).same_context(&*final(self)),
            *final(final(self).dfg_ref()) == *final(old(self).dfg_ref()),
            *final(final(self).slice_sizes_ref()) == *final(old(self).slice_sizes_ref()),
            old(self).dfg().appends_into(&final(self).dfg(), old(self).block()@ as int),
            merged@ < final(self).dfg().values().len(),
            final(self).dfg().type_of(merged@ as int) == old(self).dfg().type_of(then_value@ as int),
            then_value@ == else_value@ ==> merged == then_value && final(self).dfg() == old(
                self,
            ).dfg(),
            final(self).dfg().instructions().len() == old(self).dfg().instructions().len()
                + value_merge_count(
                old(self).dfg(),
                old(self).slice_sizes(),
                then_value,
                else_value,
                false,
            ),
            final(self).dfg().values().len() == old(self).dfg().values().len() + value_merge_count(
                old(self).dfg(),
                old(self).slice_sizes(),
                then_value,
                else_value,
                true,
            ),
            final(self).dfg().term_of(merged@ as nat) == value_merge_term(
                old(self).dfg(),
                old(self).slice_sizes(),
                then_condition,
                else_condition,
                then_value,
                else_value,
                old(self).call_stack(),
            ),
        decreases old(self).dfg().type_of(then_value@ as int), 1nat,
    {
        if then_value == else_value {
            proof {
                ValueId::lemma_view_injective(then_value, else_value);
                self.dfg().lemma_appends_reflexive(self.block()@ as int);
            }
            return then_value;
        }
        let typ = self.dfg.type_of_value(then_value);
        match typ {
            Type::Numeric(_) => Self::merge_numeric_values(
                self.dfg,
                self.block,
                then_condition,
                else_condition,
                then_value,
                else_value,
            ),
            Type::Array(_, _) => {
                self.merge_array_values(typ, then_condition, else_condition, then_value, else_value)
            },
            Type::Slice(_) => {
                self.merge_slice_values(typ, then_condition, else_condition, then_value, else_value)
            },
            Type::Reference(_) => vstd::pervasive::unreached(),
            Type::Function => vstd::pervasive::unreached(),
        }
    }

    /// Given an if expression that returns an array: `if c { array1 } else { array2 }`,
    /// this function will recursively merge array1 and array2 into a single resulting array
    /// by creating a new array containing the result of self.merge_values for each element.
    #[verifier::rlimit(50)]
    #[verifier::spinoff_prover]
    pub fn merge_array_values(
        &mut self,
        typ: Type,
        then_condition: ValueId,
        else_condition: ValueId,
        then_value: ValueId,
        else_value: ValueId,
    ) -> (merged: ValueId)
        requires
            has_room(old(self).dfg(), merge_count(typ@, true), merge_count(typ@, false)),
            old(self).wf(),
            then_condition@ < old(self).dfg().values().len(),
            else_condition@ < old(self).dfg().values().len(),
            then_value@ < old(self).dfg().values().len(),
            else_value@ < old(self).dfg().values().len(),
            typ@ is Array,
            mergeable_element(typ@),
        ensures
            final(self).wf(),
            old(self).same_context(&*final(self)),
            *final(final(self).dfg_ref()) == *final(old(self).dfg_ref()),
            *final(final(self).slice_sizes_ref()) == *final(old(self).slice_sizes_ref()),
            old(self).dfg().appends_into(&final(self).dfg(), old(self).block()@ as int),
            merged@ < final(self).dfg().values().len(),
            final(self).dfg().type_of(merged@ as int) == typ@,
            final(self).dfg().instructions().len() == old(self).dfg().instructions().len()
                + merge_count(typ@, false),
            final(self).dfg().values().len() == old(self).dfg().values().len() + merge_count(
                typ@,
                true,
            ),
            makes_array_of(final(self).dfg(), merged@ as int, typ@.element_types()),
            final(self).dfg().term_of(merged@ as nat) == merged_term(
                typ@,
                old(self).dfg().term_of(then_condition@ as nat),
                old(self).dfg().term_of(else_condition@ as nat),
                old(self).dfg().term_of(then_value@ as nat),
                old(self).dfg().term_of(else_value@ as nat),
                old(self).call_stack(),
            ),
        decreases typ@, 0nat,
    {
        let mut merged = ValueVector::new();

        let (element_types, len) = match &typ {
            Type::Array(elements, len) => (elements, *len),
            _ => vstd::pervasive::unreached(),
        };

        let ghost d0 = self.dfg();
        let ghost tv = typ@;
        let ghost ets = tv.element_types();
        let ghost cs = self.call_stack();
        let ghost blk = self.block()@ as int;
        let ghost tc = d0.term_of(then_condition@ as nat);
        let ghost ec = d0.term_of(else_condition@ as nat);
        let ghost a = d0.term_of(then_value@ as nat);
        let ghost b = d0.term_of(else_value@ as nat);
        let ghost u32_type = NumericType::Unsigned { bit_size: 32 };
        let n = element_types.len();
        proof {
            d0.lemma_appends_reflexive(blk);
        }

        let mut i: u32 = 0;
        while i < len
            invariant
                i <= len,
                tv == typ@,
                u32_type == (NumericType::Unsigned { bit_size: 32 }),
                tv is Array,
                len == tv->Array_1,
                ets == tv.element_types(),
                n == ets.len(),
                n == element_types@.len(),
                forall|j: int| 0 <= j < n ==> #[trigger] type_view(&element_types[j]) == ets[j],
                len > 0 ==> n <= u32::MAX,
                len > 0 ==> len * n <= u32::MAX + 1,
                forall|j: int| 0 <= j < n && len > 0 ==> mergeable_element(#[trigger] ets[j]),
                self.wf(),
                old(self).same_context(&*self),
                *final(self.dfg_ref()) == *final(old(self).dfg_ref()),
                *final(self.slice_sizes_ref()) == *final(old(self).slice_sizes_ref()),
                d0 == old(self).dfg(),
                d0.wf(),
                has_room(d0, sum(array_merge_steps(tv, true)) + 1, sum(array_merge_steps(tv, false)) + 1),
                cs == self.call_stack(),
                blk == self.block()@,
                d0.appends_into(&self.dfg(), blk),
                then_condition@ < d0.values().len(),
                else_condition@ < d0.values().len(),
                then_value@ < d0.values().len(),
                else_value@ < d0.values().len(),
                tc == d0.term_of(then_condition@ as nat),
                ec == d0.term_of(else_condition@ as nat),
                a == d0.term_of(then_value@ as nat),
                b == d0.term_of(else_value@ as nat),
                vector_ids(merged).len() == i * n,
                forall|k: int|
                    0 <= k < i * n ==> self.dfg().type_of(#[trigger] vector_ids(merged)[k] as int)
                        == ets[k % (n as int)],
                self.dfg().instructions().len() == d0.instructions().len() + sum(
                    array_merge_steps(tv, false).take(i * n),
                ),
                self.dfg().values().len() == d0.values().len() + sum(
                    array_merge_steps(tv, true).take(i * n),
                ),
                forall|k: int|
                    0 <= k < i * n ==> {
                        &&& #[trigger] vector_ids(merged)[k] < self.dfg().values().len()
                        &&& self.dfg().term_of(vector_ids(merged)[k] as nat) == merged_term(
                            ets[k % (n as int)],
                            tc,
                            ec,
                            array_get_term(a, k, u32_type, ets[k % (n as int)], cs),
                            array_get_term(b, k, u32_type, ets[k % (n as int)], cs),
                            cs,
                        )
                    },
            decreases len - i,
        {
            let mut element_index: usize = 0;
            while element_index < n
                invariant
                    i < len,
                    element_index <= n,
                    tv == typ@,
                    u32_type == (NumericType::Unsigned { bit_size: 32 }),
                    tv is Array,
                    len == tv->Array_1,
                    ets == tv.element_types(),
                    n == ets.len(),
                    n == element_types@.len(),
                    forall|j: int| 0 <= j < n ==> #[trigger] type_view(&element_types[j]) == ets[j],
                    len > 0 ==> n <= u32::MAX,
                    len > 0 ==> len * n <= u32::MAX + 1,
                    forall|j: int| 0 <= j < n && len > 0 ==> mergeable_element(#[trigger] ets[j]),
                    self.wf(),
                    old(self).same_context(&*self),
                    *final(self.dfg_ref()) == *final(old(self).dfg_ref()),
                    *final(self.slice_sizes_ref()) == *final(old(self).slice_sizes_ref()),
                    d0 == old(self).dfg(),
                    d0.wf(),
                    has_room(d0, sum(array_merge_steps(tv, true)) + 1, sum(array_merge_steps(tv, false)) + 1),
                    cs == self.call_stack(),
                    blk == self.block()@,
                    d0.appends_into(&self.dfg(), blk),
                    then_condition@ < d0.values().len(),
                    else_condition@ < d0.values().len(),
                    then_value@ < d0.values().len(),
                    else_value@ < d0.values().len(),
                    tc == d0.term_of(then_condition@ as nat),
                    ec == d0.term_of(else_condition@ as nat),
                    a == d0.term_of(then_value@ as nat),
                    b == d0.term_of(else_value@ as nat),
                    vector_ids(merged).len() == i * n + element_index,
                    forall|k: int|
                        0 <= k < i * n + element_index ==> self.dfg().type_of(#[trigger] vector_ids(merged)[k] as int)
                            == ets[k % (n as int)],
                    self.dfg().instructions().len() == d0.instructions().len() + sum(
                        array_merge_steps(tv, false).take(i * n + element_index),
                    ),
                    self.dfg().values().len() == d0.values().len() + sum(
                        array_merge_steps(tv, true).take(i * n + element_index),
                    ),
                    forall|k: int|
                        0 <= k < i * n + element_index ==> {
                            &&& #[trigger] vector_ids(merged)[k] < self.dfg().values().len()
                            &&& self.dfg().term_of(vector_ids(merged)[k] as nat) == merged_term(
                                ets[k % (n as int)],
                                tc,
                                ec,
                                array_get_term(a, k, u32_type, ets[k % (n as int)], cs),
                                array_get_term(b, k, u32_type, ets[k % (n as int)], cs),
                                cs,
                            )
                        },
                decreases n - element_index,
            {
                let element_type = &element_types[element_index];
                let ghost k = i * n + element_index;
                let ghost j = element_index as int;
                proof {
                    assert(i * n + element_index < len * n) by (nonlinear_arith)
                        requires
                            i < len,
                            element_index < n,
                    ;
                    assert(i * n <= i * n + element_index);
                    vstd::arithmetic::div_mod::lemma_fundamental_div_mod_converse(
                        k,
                        n as int,
                        i as int,
                        j,
                    );
                    lemma_sum_take(array_merge_steps(tv, false), k);
                    lemma_sum_take(array_merge_steps(tv, true), k);
                    lemma_sum_take_le(array_merge_steps(tv, false), k + 1);
                    lemma_sum_take_le(array_merge_steps(tv, true), k + 1);
                }
                let index = field_bytes_from_u128((i * n as u32 + element_index as u32) as u128);
                let ghost da = self.dfg();
                let index = self.dfg.make_constant(index, NumericType::length_type());
                let ghost db = self.dfg();

                let get = Instruction::ArrayGet { array: then_value, index };
                let then_element = self.dfg.insert_instruction_and_results(
                    get,
                    self.block,
                    Some(vec![element_type.clone()]),
                    self.call_stack,
                ).first();
                let ghost dc = self.dfg();

                let get = Instruction::ArrayGet { array: else_value, index };
                let else_element = self.dfg.insert_instruction_and_results(
                    get,
                    self.block,
                    Some(vec![element_type.clone()]),
                    self.call_stack,
                ).first();
                let ghost dd = self.dfg();

                proof {
                    da.lemma_appends_values_only(&db, blk);
                    d0.lemma_appends_transitive(&da, &db, blk);
                    d0.lemma_appends_transitive(&db, &dc, blk);
                    d0.lemma_appends_transitive(&dc, &dd, blk);
                    d0.lemma_grows_transitive(&da, &db);
                    d0.lemma_grows_transitive(&db, &dc);
                    db.lemma_grows_transitive(&dc, &dd);
                    d0.lemma_term_of_frame(&db, then_value@ as nat);
                    d0.lemma_term_of_frame(&dc, else_value@ as nat);
                    db.lemma_term_of_frame(&dc, index@ as nat);
                    assert(dc.term_of(then_element@ as nat) == array_get_term(a, k, u32_type, ets[j], cs));
                    assert(dd.term_of(else_element@ as nat) == array_get_term(b, k, u32_type, ets[j], cs));
                    dc.lemma_value_frame(&dd, then_element@ as int);
                    d0.lemma_term_of_frame(&dd, then_condition@ as nat);
                    d0.lemma_term_of_frame(&dd, else_condition@ as nat);
                    dc.lemma_term_of_frame(&dd, then_element@ as nat);
                    assert(decreases_to!(tv => tv->Array_0));
                    assert(tv->Array_0[j] == ets[j]);
                }
                let element = self.merge_values(then_condition, else_condition, then_element, else_element);
                let ghost de = self.dfg();
                proof {
                    d0.lemma_appends_transitive(&dd, &de, blk);
                    da.lemma_grows_transitive(&db, &dc);
                    da.lemma_grows_transitive(&dc, &dd);
                    da.lemma_grows_transitive(&dd, &de);
                    assert forall|m: int| 0 <= m < k implies #[trigger] de.type_of(
                        vector_ids(merged)[m] as int,
                    ) == da.type_of(vector_ids(merged)[m] as int) by {
                        da.lemma_value_frame(&de, vector_ids(merged)[m] as int);
                    }
                    assert forall|m: int| 0 <= m < k implies #[trigger] de.term_of(vector_ids(merged)[m] as nat)
                        == da.term_of(vector_ids(merged)[m] as nat) by {
                        da.lemma_term_of_frame(&de, vector_ids(merged)[m] as nat);
                    }
                }
                merged.push_back(element);
                element_index = element_index + 1;
            }
            proof {
                assert((i + 1) * n == i * n + n) by (nonlinear_arith);
            }
            i = i + 1;
        }

        let ghost dpre = self.dfg();
        proof {
            assert(array_merge_steps(tv, false).take(len * n) =~= array_merge_steps(tv, false));
            assert(array_merge_steps(tv, true).take(len * n) =~= array_merge_steps(tv, true));
        }
        let instruction = Instruction::MakeArray { elements: merged, typ };
        let result = self.dfg.insert_instruction_and_results(instruction, self.block, None, self.call_stack).first();
        proof {
            let dpost = self.dfg();
            d0.lemma_appends_transitive(&dpre, &dpost, blk);
            let ids = vector_ids(merged);
            assert(dpre.terms_of(ids) =~= merged_term(tv, tc, ec, a, b, cs)->MakeArray_0);
            assert forall|m: int| 0 <= m < ids.len() implies #[trigger] dpost.type_of(ids[m] as int)
                == ets[m % (n as int)] by {
                dpre.lemma_value_frame(&dpost, ids[m] as int);
            }
        }
        result
    }

    /// The number of element repetitions of slice `value`: the size recorded
    /// for it, or else the length of the array that defines it divided by
    /// that array's number of element types.
    fn slice_length(&self, value: ValueId) -> (len: u32)
        requires
            self.wf(),
            value@ < self.dfg().values().len(),
            slice_length_known(self.dfg(), self.slice_sizes(), value),
        ensures
            len == slice_length(self.dfg(), self.slice_sizes(), value),
            self.slice_sizes().contains_key(value) ==> len == self.slice_sizes()[value],
            !self.slice_sizes().contains_key(value) ==> repetitions_of(
                self.dfg().array_constant(value@ as int).unwrap().0.len() as int,
                self.dfg().array_constant(value@ as int).unwrap().1.element_types().len() as int,
                len as int,
            ),
    {
        proof {
            if self.slice_sizes().contains_key(value) {
                lemma_slice_length_recorded(self.dfg(), self.slice_sizes(), value);
            } else {
                lemma_slice_length_of_array(self.dfg(), self.slice_sizes(), value);
            }
        }
        match slice_size_of(self.slice_sizes, &value) {
            Some(len) => len,
            None => {
                let (slice, typ) = self.dfg.get_array_constant(value).unwrap();
                (slice.len() / typ.element_types().len()) as u32
            },
        }
    }

    /// Element `index_u32` of `array`, a slice holding `len` elements: read at
    /// index `index` if the slice has that element, otherwise a placeholder.
    ///
    /// The smaller slice is filled with placeholder data. Codegen for slice accesses must
    /// include checks against the dynamic slice length so that this placeholder data is not
    /// incorrectly accessed.
    fn slice_element(
        &mut self,
        array: ValueId,
        index: ValueId,
        index_u32: u32,
        len: u32,
        element_type: &Type,
    ) -> (element: ValueId)
        requires
            has_room(
                old(self).dfg(),
                slice_element_count(len as int, index_u32 as int, element_type@, true),
                slice_element_count(len as int, index_u32 as int, element_type@, false),
            ),
            old(self).wf(),
            array@ < old(self).dfg().values().len(),
            index@ < old(self).dfg().values().len(),
            old(self).dfg().term_of(index@ as nat) == index_term(
                index_u32 as int,
                NumericType::NativeField,
            ),
            mergeable_element(element_type@),
        ensures
            final(self).wf(),
            old(self).same_context(&*final(self)),
            *final(final(self).dfg_ref()) == *final(old(self).dfg_ref()),
            *final(final(self).slice_sizes_ref()) == *final(old(self).slice_sizes_ref()),
            old(self).dfg().appends_into(&final(self).dfg(), old(self).block()@ as int),
            old(self).dfg().values().len() <= element@ < final(self).dfg().values().len(),
            final(self).dfg().type_of(element@ as int) == element_type@,
            final(self).dfg().instructions().len() == old(self).dfg().instructions().len()
                + slice_element_count(len as int, index_u32 as int, element_type@, false),
            final(self).dfg().values().len() == old(self).dfg().values().len()
                + slice_element_count(len as int, index_u32 as int, element_type@, true),
            final(self).dfg().term_of(element@ as nat) == slice_element_term(
                old(self).dfg().term_of(array@ as nat),
                len as int,
                index_u32 as int,
                element_type@,
                old(self).call_stack(),
            ),
    {
        if len <= index_u32 {
            self.make_slice_dummy_data(element_type)
        } else {
            let get = Instruction::ArrayGet { array, index };
            let element = self.dfg.insert_instruction_and_results(
                get,
                self.block,
                Some(vec![element_type.clone()]),
                self.call_stack,
            ).first();
            element
        }
    }

    #[verifier::rlimit(50)]
    #[verifier::spinoff_prover]
    fn merge_slice_values(
        &mut self,
        typ: Type,
        then_condition: ValueId,
        else_condition: ValueId,
        then_value_id: ValueId,
        else_value_id: ValueId,
    ) -> (merged: ValueId)
        requires
            has_room(
                old(self).dfg(),
                slice_merge_count(
                    typ@,
                    slice_length(old(self).dfg(), old(self).slice_sizes(), then_value_id),
                    slice_length(old(self).dfg(), old(self).slice_sizes(), else_value_id),
                    true,
                ),
                slice_merge_count(
                    typ@,
                    slice_length(old(self).dfg(), old(self).slice_sizes(), then_value_id),
                    slice_length(old(self).dfg(), old(self).slice_sizes(), else_value_id),
                    false,
                ),
            ),
            old(self).wf(),
            then_condition@ < old(self).dfg().values().len(),
            else_condition@ < old(self).dfg().values().len(),
            then_value_id@ < old(self).dfg().values().len(),
            else_value_id@ < old(self).dfg().values().len(),
            typ@ is Slice,
            slice_length_known(old(self).dfg(), old(self).slice_sizes(), then_value_id),
            slice_length_known(old(self).dfg(), old(self).slice_sizes(), else_value_id),
            mergeable_slice(
                typ@,
                slice_length(old(self).dfg(), old(self).slice_sizes(), then_value_id),
                slice_length(old(self).dfg(), old(self).slice_sizes(), else_value_id),
            ),
        ensures
            final(self).wf(),
            old(self).same_context(&*final(self)),
            *final(final(self).dfg_ref()) == *final(old(self).dfg_ref()),
            *final(final(self).slice_sizes_ref()) == *final(old(self).slice_sizes_ref()),
            old(self).dfg().appends_into(&final(self).dfg(), old(self).block()@ as int),
            merged@ < final(self).dfg().values().len(),
            final(self).dfg().type_of(merged@ as int) == typ@,
            final(self).dfg().instructions().len() == old(self).dfg().instructions().len()
                + slice_merge_count(
                typ@,
                slice_length(old(self).dfg(), old(self).slice_sizes(), then_value_id),
                slice_length(old(self).dfg(), old(self).slice_sizes(), else_value_id),
                false,
            ),
            final(self).dfg().values().len() == old(self).dfg().values().len() + slice_merge_count(
                typ@,
                slice_length(old(self).dfg(), old(self).slice_sizes(), then_value_id),
                slice_length(old(self).dfg(), old(self).slice_sizes(), else_value_id),
                true,
            ),
            makes_array_of(final(self).dfg(), merged@ as int, typ@.element_types()),
            final(self).dfg().term_of(merged@ as nat) == slice_merge_term(
                typ@,
                slice_length(old(self).dfg(), old(self).slice_sizes(), then_value_id),
                slice_length(old(self).dfg(), old(self).slice_sizes(), else_value_id),
                old(self).dfg().term_of(then_condition@ as nat),
                old(self).dfg().term_of(else_condition@ as nat),
                old(self).dfg().term_of(then_value_id@ as nat),
                old(self).dfg().term_of(else_value_id@ as nat),
                old(self).call_stack(),
            ),
        decreases typ@, 0nat,
    {
        let mut merged = ValueVector::new();

        let element_types = match &typ {
            Type::Slice(elements) => elements,
            _ => vstd::pervasive::unreached(),
        };

        let then_len = self.slice_length(then_value_id);
        let else_len = self.slice_length(else_value_id);

        let len = if then_len >= else_len {
            then_len
        } else {
            else_len
        };

        let ghost d0 = self.dfg();
        let ghost tv = typ@;
        let ghost ets = tv.element_types();
        let ghost cs = self.call_stack();
        let ghost blk = self.block()@ as int;
        let ghost tc = d0.term_of(then_condition@ as nat);
        let ghost ec = d0.term_of(else_condition@ as nat);
        let ghost a = d0.term_of(then_value_id@ as nat);
        let ghost b = d0.term_of(else_value_id@ as nat);
        let n = element_types.len();
        proof {
            d0.lemma_appends_reflexive(blk);
            assert(len * n <= u32::MAX) by (nonlinear_arith)
                requires
                    len == then_len || len == else_len,
                    then_len * n <= u32::MAX,
                    else_len * n <= u32::MAX,
            ;
        }

        let mut i: u32 = 0;
        while i < len
            invariant
                i <= len,
                tv == typ@,
                tv is Slice,
                len == (if then_len >= else_len { then_len } else { else_len }),
                ets == tv.element_types(),
                n == ets.len(),
                n == element_types@.len(),
                forall|j: int| 0 <= j < n ==> #[trigger] type_view(&element_types[j]) == ets[j],
                n <= u32::MAX,
                len * n <= u32::MAX,
                then_len * n <= u32::MAX,
                else_len * n <= u32::MAX,
                forall|j: int| 0 <= j < n ==> mergeable_element(#[trigger] ets[j]),
                self.wf(),
                old(self).same_context(&*self),
                *final(self.dfg_ref()) == *final(old(self).dfg_ref()),
                *final(self.slice_sizes_ref()) == *final(old(self).slice_sizes_ref()),
                d0 == old(self).dfg(),
                d0.wf(),
                has_room(
                    d0,
                    sum(slice_merge_steps(tv, then_len, else_len, true)) + 1,
                    sum(slice_merge_steps(tv, then_len, else_len, false)) + 1,
                ),
                cs == self.call_stack(),
                blk == self.block()@,
                d0.appends_into(&self.dfg(), blk),
                then_condition@ < d0.values().len(),
                else_condition@ < d0.values().len(),
                then_value_id@ < d0.values().len(),
                else_value_id@ < d0.values().len(),
                tc == d0.term_of(then_condition@ as nat),
                ec == d0.term_of(else_condition@ as nat),
                a == d0.term_of(then_value_id@ as nat),
                b == d0.term_of(else_value_id@ as nat),
                vector_ids(merged).len() == i * n,
                forall|k: int|
                    0 <= k < i * n ==> self.dfg().type_of(#[trigger] vector_ids(merged)[k] as int)
                        == ets[k % (n as int)],
                self.dfg().instructions().len() == d0.instructions().len() + sum(
                    slice_merge_steps(tv, then_len, else_len, false).take(i * n),
                ),
                self.dfg().values().len() == d0.values().len() + sum(
                    slice_merge_steps(tv, then_len, else_len, true).take(i * n),
                ),
                forall|k: int|
                    0 <= k < i * n ==> {
                        &&& #[trigger] vector_ids(merged)[k] < self.dfg().values().len()
                        &&& self.dfg().term_of(vector_ids(merged)[k] as nat) == merged_term(
                            ets[k % (n as int)],
                            tc,
                            ec,
                            slice_element_term(a, then_len * n, k, ets[k % (n as int)], cs),
                            slice_element_term(b, else_len * n, k, ets[k % (n as int)], cs),
                            cs,
                        )
                    },
            decreases len - i,
        {
            let mut element_index: usize = 0;
            while element_index < n
                invariant
                    i < len,
                    len == (if then_len >= else_len { then_len } else { else_len }),
                    element_index <= n,
                    tv == typ@,
                    tv is Slice,
                    ets == tv.element_types(),
                    n == ets.len(),
                    n == element_types@.len(),
                    forall|j: int| 0 <= j < n ==> #[trigger] type_view(&element_types[j]) == ets[j],
                    n <= u32::MAX,
                    len * n <= u32::MAX,
                    then_len * n <= u32::MAX,
                    else_len * n <= u32::MAX,
                    forall|j: int| 0 <= j < n ==> mergeable_element(#[trigger] ets[j]),
                    self.wf(),
                    old(self).same_context(&*self),
                    *final(self.dfg_ref()) == *final(old(self).dfg_ref()),
                    *final(self.slice_sizes_ref()) == *final(old(self).slice_sizes_ref()),
                    d0 == old(self).dfg(),
                    d0.wf(),
                    has_room(
                        d0,
                        sum(slice_merge_steps(tv, then_len, else_len, true)) + 1,
                        sum(slice_merge_steps(tv, then_len, else_len, false)) + 1,
                    ),
                    cs == self.call_stack(),
                    blk == self.block()@,
                    d0.appends_into(&self.dfg(), blk),
                    then_condition@ < d0.values().len(),
                    else_condition@ < d0.values().len(),
                    then_value_id@ < d0.values().len(),
                    else_value_id@ < d0.values().len(),
                    tc == d0.term_of(then_condition@ as nat),
                    ec == d0.term_of(else_condition@ as nat),
                    a == d0.term_of(then_value_id@ as nat),
                    b == d0.term_of(else_value_id@ as nat),
                    vector_ids(merged).len() == i * n + element_index,
                    forall|k: int|
                        0 <= k < i * n + element_index ==> self.dfg().type_of(#[trigger] vector_ids(merged)[k] as int)
                            == ets[k % (n as int)],
                    self.dfg().instructions().len() == d0.instructions().len() + sum(
                        slice_merge_steps(tv, then_len, else_len, false).take(i * n + element_index),
                    ),
                    self.dfg().values().len() == d0.values().len() + sum(
                        slice_merge_steps(tv, then_len, else_len, true).take(i * n + element_index),
                    ),
                    forall|k: int|
                        0 <= k < i * n + element_index ==> {
                            &&& #[trigger] vector_ids(merged)[k] < self.dfg().values().len()
                            &&& self.dfg().term_of(vector_ids(merged)[k] as nat) == merged_term(
                                ets[k % (n as int)],
                                tc,
                                ec,
                                slice_element_term(a, then_len * n, k, ets[k % (n as int)], cs),
                                slice_element_term(b, else_len * n, k, ets[k % (n as int)], cs),
                                cs,
                            )
                        },
                decreases n - element_index,
            {
                let element_type = &element_types[element_index];
                let ghost k = i * n + element_index;
                let ghost j = element_index as int;
                proof {
                    assert(i * n + element_index < len * n) by (nonlinear_arith)
                        requires
                            i < len,
                            element_index < n,
                    ;
                    assert(i * n <= i * n + element_index);
                    vstd::arithmetic::div_mod::lemma_fundamental_div_mod_converse(
                        k,
                        n as int,
                        i as int,
                        j,
                    );
                    lemma_sum_take(slice_merge_steps(tv, then_len, else_len, false), k);
                    lemma_sum_take(slice_merge_steps(tv, then_len, else_len, true), k);
                    lemma_sum_take_le(slice_merge_steps(tv, then_len, else_len, false), k + 1);
                    lemma_sum_take_le(slice_merge_steps(tv, then_len, else_len, true), k + 1);
                }
                let index_u32 = i * n as u32 + element_index as u32;
                let index_value = field_bytes_from_u128(index_u32 as u128);
                let ghost da = self.dfg();
                let index = self.dfg.make_constant(index_value, NumericType::NativeField);
                let ghost db = self.dfg();
                proof {
                    da.lemma_appends_values_only(&db, blk);
                    d0.lemma_appends_transitive(&da, &db, blk);
                    d0.lemma_grows_transitive(&da, &db);
                    d0.lemma_term_of_frame(&db, then_value_id@ as nat);
                }

                let then_element = self.slice_element(
                    then_value_id,
                    index,
                    index_u32,
                    then_len * n as u32,
                    element_type,
                );
                let ghost dc = self.dfg();
                proof {
                    d0.lemma_appends_transitive(&db, &dc, blk);
                    d0.lemma_grows_transitive(&db, &dc);
                    db.lemma_term_of_frame(&dc, index@ as nat);
                    d0.lemma_term_of_frame(&dc, else_value_id@ as nat);
                }
                let else_element = self.slice_element(
                    else_value_id,
                    index,
                    index_u32,
                    else_len * n as u32,
                    element_type,
                );
                let ghost dd = self.dfg();

                proof {
                    d0.lemma_appends_transitive(&dc, &dd, blk);
                    db.lemma_grows_transitive(&dc, &dd);
                    d0.lemma_grows_transitive(&dc, &dd);
                    dc.lemma_value_frame(&dd, then_element@ as int);
                    d0.lemma_term_of_frame(&dd, then_condition@ as nat);
                    d0.lemma_term_of_frame(&dd, else_condition@ as nat);
                    dc.lemma_term_of_frame(&dd, then_element@ as nat);
                    assert(decreases_to!(tv => tv->Slice_0));
                    assert(tv->Slice_0[j] == ets[j]);
                }
                let element = self.merge_values(then_condition, else_condition, then_element, else_element);
                let ghost de = self.dfg();
                proof {
                    d0.lemma_appends_transitive(&dd, &de, blk);
                    da.lemma_grows_transitive(&db, &dc);
                    da.lemma_grows_transitive(&dc, &dd);
                    da.lemma_grows_transitive(&dd, &de);
                    assert forall|m: int| 0 <= m < k implies #[trigger] de.type_of(
                        vector_ids(merged)[m] as int,
                    ) == da.type_of(vector_ids(merged)[m] as int) by {
                        da.lemma_value_frame(&de, vector_ids(merged)[m] as int);
                    }
                    assert forall|m: int| 0 <= m < k implies #[trigger] de.term_of(vector_ids(merged)[m] as nat)
                        == da.term_of(vector_ids(merged)[m] as nat) by {
                        da.lemma_term_of_frame(&de, vector_ids(merged)[m] as nat);
                    }
                }
                merged.push_back(element);
                element_index = element_index + 1;
            }
            proof {
                assert((i + 1) * n == i * n + n) by (nonlinear_arith);
            }
            i = i + 1;
        }

        let ghost dpre = self.dfg();
        proof {
            assert(slice_merge_steps(tv, then_len, else_len, false).take(len * n)
                =~= slice_merge_steps(tv, then_len, else_len, false));
            assert(slice_merge_steps(tv, then_len, else_len, true).take(len * n)
                =~= slice_merge_steps(tv, then_len, else_len, true));
        }
        let instruction = Instruction::MakeArray { elements: merged, typ };
        let call_stack = self.call_stack;
        let result = self.dfg.insert_instruction_and_results(instruction, self.block, None, call_stack).first();
        proof {
            let dpost = self.dfg();
            d0.lemma_appends_transitive(&dpre, &dpost, blk);
            let ids = vector_ids(merged);
            assert forall|m: int| 0 <= m < ids.len() implies #[trigger] dpost.type_of(ids[m] as int)
                == ets[m % (n as int)] by {
                dpre.lemma_value_frame(&dpost, ids[m] as int);
            }
            assert(dpre.terms_of(ids) =~= slice_merge_term(tv, then_len, else_len, tc, ec, a, b, cs)->MakeArray_0);
        }
        result
    }

    /// Construct a dummy value to be attached to the smaller of two slices being merged.
    /// We need to make sure we follow the internal element type structure of the slice type
    /// even for dummy data to ensure that we do not have errors later in the compiler,
    /// such as with dynamic indexing of non-homogenous slices.
    #[verifier::rlimit(50)]
    #[verifier::spinoff_prover]
    fn make_slice_dummy_data(&mut self, typ: &Type) -> (dummy: ValueId)
        requires
            has_room(old(self).dfg(), dummy_count(typ@, true), dummy_count(typ@, false)),
            old(self).wf(),
            mergeable_element(typ@),
        ensures
            final(self).wf(),
            old(self).same_context(&*final(self)),
            *final(final(self).dfg_ref()) == *final(old(self).dfg_ref()),
            *final(final(self).slice_sizes_ref()) == *final(old(self).slice_sizes_ref()),
            old(self).dfg().appends_into(&final(self).dfg(), old(self).block()@ as int),
            old(self).dfg().values().len() <= dummy@ < final(self).dfg().values().len(),
            final(self).dfg().type_of(dummy@ as int) == typ@,
            final(self).dfg().instructions().len() == old(self).dfg().instructions().len()
                + dummy_count(typ@, false),
            final(self).dfg().values().len() == old(self).dfg().values().len() + dummy_count(
                typ@,
                true,
            ),
            final(self).dfg().term_of(dummy@ as nat) == dummy_term(typ@, old(self).call_stack()),
            typ@ is Array ==> makes_array_of(final(self).dfg(), dummy@ as int, typ@.element_types()),
        decreases typ@,
    {
        let ghost d0 = self.dfg();
        let ghost blk = self.block()@ as int;
        match typ {
            Type::Numeric(numeric_type) => {
                let zero = field_bytes_zero();
                let dummy = self.dfg.make_constant(zero, *numeric_type);
                proof {
                    d0.lemma_appends_values_only(&self.dfg(), blk);
                }
                dummy
            },
            Type::Array(element_types, len) => {
                let mut array = ValueVector::new();
                let ghost tv = typ@;
                let ghost ets = tv.element_types();
                let ghost cs = self.call_stack();
                let n = element_types.len();
                proof {
                    d0.lemma_appends_reflexive(blk);
                }
                let mut i: u32 = 0;
                while i < *len
                    invariant
                        i <= *len,
                        tv == typ@,
                        tv is Array,
                        *len == tv->Array_1,
                        ets == tv.element_types(),
                        n == ets.len(),
                        n == element_types@.len(),
                        forall|j: int| 0 <= j < n ==> #[trigger] type_view(&element_types[j]) == ets[j],
                        forall|j: int| 0 <= j < n && *len > 0 ==> mergeable_element(#[trigger] ets[j]),
                        self.wf(),
                        old(self).same_context(&*self),
                        *final(self.dfg_ref()) == *final(old(self).dfg_ref()),
                        *final(self.slice_sizes_ref()) == *final(old(self).slice_sizes_ref()),
                        d0 == old(self).dfg(),
                        d0.wf(),
                        has_room(d0, sum(dummy_steps(tv, true)) + 1, sum(dummy_steps(tv, false)) + 1),
                        cs == self.call_stack(),
                        blk == self.block()@,
                        d0.appends_into(&self.dfg(), blk),
                        vector_ids(array).len() == i * n,
                        forall|k: int|
                            0 <= k < i * n ==> self.dfg().type_of(#[trigger] vector_ids(array)[k] as int)
                                == ets[k % (n as int)],
                        self.dfg().instructions().len() == d0.instructions().len() + sum(
                            dummy_steps(tv, false).take(i * n),
                        ),
                        self.dfg().values().len() == d0.values().len() + sum(
                            dummy_steps(tv, true).take(i * n),
                        ),
                        forall|k: int|
                            0 <= k < i * n ==> {
                                &&& #[trigger] vector_ids(array)[k] < self.dfg().values().len()
                                &&& self.dfg().term_of(vector_ids(array)[k] as nat) == dummy_term(
                                    ets[k % (n as int)],
                                    cs,
                                )
                            },
                    decreases *len - i,
                {
                    let mut element_index: usize = 0;
                    while element_index < n
                        invariant
                            i < *len,
                            *len == tv->Array_1,
                            element_index <= n,
                            tv == typ@,
                            tv is Array,
                            ets == tv.element_types(),
                            n == ets.len(),
                            n == element_types@.len(),
                            forall|j: int| 0 <= j < n ==> #[trigger] type_view(&element_types[j]) == ets[j],
                            forall|j: int| 0 <= j < n && *len > 0 ==> mergeable_element(#[trigger] ets[j]),
                            self.wf(),
                            old(self).same_context(&*self),
                            *final(self.dfg_ref()) == *final(old(self).dfg_ref()),
                            *final(self.slice_sizes_ref()) == *final(old(self).slice_sizes_ref()),
                            d0 == old(self).dfg(),
                            d0.wf(),
                            has_room(d0, sum(dummy_steps(tv, true)) + 1, sum(dummy_steps(tv, false)) + 1),
                            cs == self.call_stack(),
                            blk == self.block()@,
                            d0.appends_into(&self.dfg(), blk),
                            vector_ids(array).len() == i * n + element_index,
                            forall|k: int|
                                0 <= k < i * n + element_index ==> self.dfg().type_of(#[trigger] vector_ids(array)[k] as int)
                                    == ets[k % (n as int)],
                            self.dfg().instructions().len() == d0.instructions().len() + sum(
                                dummy_steps(tv, false).take(i * n + element_index),
                            ),
                            self.dfg().values().len() == d0.values().len() + sum(
                                dummy_steps(tv, true).take(i * n + element_index),
                            ),
                            forall|k: int|
                                0 <= k < i * n + element_index ==> {
                                    &&& #[trigger] vector_ids(array)[k] < self.dfg().values().len()
                                    &&& self.dfg().term_of(vector_ids(array)[k] as nat) == dummy_term(
                                        ets[k % (n as int)],
                                        cs,
                                    )
                                },
                        decreases n - element_index,
                    {
                        let element_type = &element_types[element_index];
                        let ghost k = i * n + element_index;
                        let ghost j = element_index as int;
                        proof {
                            assert(i * n + element_index < *len * n) by (nonlinear_arith)
                                requires
                                    i < *len,
                                    element_index < n,
                            ;
                            assert(i * n <= i * n + element_index);
                            vstd::arithmetic::div_mod::lemma_fundamental_div_mod_converse(
                                k,
                                n as int,
                                i as int,
                                j,
                            );
                            assert(decreases_to!(tv => tv->Array_0));
                            assert(tv->Array_0[j] == ets[j]);
                            lemma_sum_take(dummy_steps(tv, false), k);
                            lemma_sum_take(dummy_steps(tv, true), k);
                            lemma_sum_take_le(dummy_steps(tv, false), k + 1);
                            lemma_sum_take_le(dummy_steps(tv, true), k + 1);
                        }
                        let ghost da = self.dfg();
                        let element = self.make_slice_dummy_data(element_type);
                        let ghost db = self.dfg();
                        proof {
                            d0.lemma_appends_transitive(&da, &db, blk);
                            assert forall|m: int| 0 <= m < k implies #[trigger] db.type_of(
                                vector_ids(array)[m] as int,
                            ) == da.type_of(vector_ids(array)[m] as int) by {
                                da.lemma_value_frame(&db, vector_ids(array)[m] as int);
                            }
                            assert forall|m: int| 0 <= m < k implies #[trigger] db.term_of(
                                vector_ids(array)[m] as nat,
                            ) == da.term_of(vector_ids(array)[m] as nat) by {
                                da.lemma_term_of_frame(&db, vector_ids(array)[m] as nat);
                            }
                        }
                        array.push_back(element);
                        element_index = element_index + 1;
                    }
                    proof {
                        assert((i + 1) * n == i * n + n) by (nonlinear_arith);
                    }
                    i = i + 1;
                }
                let ghost dpre = self.dfg();
                proof {
                    assert(dummy_steps(tv, false).take(*len * n) =~= dummy_steps(tv, false));
                    assert(dummy_steps(tv, true).take(*len * n) =~= dummy_steps(tv, true));
                }
                let instruction = Instruction::MakeArray { elements: array, typ: typ.clone() };
                let call_stack = self.call_stack;
                let dummy = self.dfg.insert_instruction_and_results(instruction, self.block, None, call_stack).first();
                proof {
                    let dpost = self.dfg();
                    d0.lemma_appends_transitive(&dpre, &dpost, blk);
                    let ids = vector_ids(array);
                    assert(dpre.terms_of(ids) =~= dummy_term(tv, cs)->MakeArray_0);
                    assert forall|m: int| 0 <= m < ids.len() implies #[trigger] dpost.type_of(
                        ids[m] as int,
                    ) == ets[m % (n as int)] by {
                        dpre.lemma_value_frame(&dpost, ids[m] as int);
                    }
                }
                dummy
            },
            Type::Slice(_) => {
                // A slice of slices has no placeholder of the true user-facing length.
                vstd::pervasive::unreached()
            },
            Type::Reference(_) => vstd::pervasive::unreached(),
            Type::Function => vstd::pervasive::unreached(),
        }
    }
}

/// Two arrays of type `Array(elements, len)` merge into an array of the same
/// type with `len * elements.len()` elements, element `k` merging the
/// elements `k` of the two arrays, read at index `k`.
pub proof fn lemma_array_merge_elementwise(
    typ: TypeView,
    then_condition: Term,
    else_condition: Term,
    a: Term,
    b: Term,
    cs: CallStackId,
    k: int,
)
    requires
        typ is Array,
        0 <= k < typ->Array_1 * typ.element_types().len(),
    ensures
        merged_term(typ, then_condition, else_condition, a, b, cs) is MakeArray,
        merged_term(typ, then_condition, else_condition, a, b, cs)->MakeArray_0.len() == typ->Array_1
            * typ.element_types().len(),
        merged_term(typ, then_condition, else_condition, a, b, cs)->MakeArray_1 == typ,
        merged_term(typ, then_condition, else_condition, a, b, cs)->MakeArray_0[k] == ({
            let elements = typ.element_types();
            let element = elements[k % elements.len() as int];
            merged_term(
                element,
                then_condition,
                else_condition,
                array_get_term(a, k, NumericType::Unsigned { bit_size: 32 }, element, cs),
                array_get_term(b, k, NumericType::Unsigned { bit_size: 32 }, element, cs),
                cs,
            )
        }),
{
    assert(typ.element_types().len() > 0) by (nonlinear_arith)
        requires
            0 <= k < typ->Array_1 * typ.element_types().len(),
    ;
}

/// Two slices of type `typ` merge into an array of that type as long as the
/// longer slice. Below the length of a slice, its elements are read from it;
/// past it, placeholders stand in.
pub proof fn lemma_slice_merge_pads_shorter(
    typ: TypeView,
    then_len: u32,
    else_len: u32,
    then_condition: Term,
    else_condition: Term,
    a: Term,
    b: Term,
    cs: CallStackId,
    k: int,
)
    requires
        typ is Slice,
        typ.element_types().len() > 0,
        0 <= k < (if then_len >= else_len { then_len } else { else_len }) * typ.element_types().len(),
    ensures
        ({
            let merged = slice_merge_term(typ, then_len, else_len, then_condition, else_condition, a, b, cs);
            let n = typ.element_types().len() as int;
            let element = typ.element_types()[k % n];
            &&& merged is MakeArray
            &&& merged->MakeArray_1 == typ
            &&& merged->MakeArray_0.len() == (if then_len >= else_len {
                then_len
            } else {
                else_len
            }) * n
            &&& merged->MakeArray_0[k] == merged_term(
                element,
                then_condition,
                else_condition,
                slice_element_term(a, then_len * n, k, element, cs),
                slice_element_term(b, else_len * n, k, element, cs),
                cs,
            )
            &&& k < then_len * n ==> slice_element_term(a, then_len * n, k, element, cs)
                == array_get_term(a, k, NumericType::NativeField, element, cs)
            &&& k >= then_len * n ==> slice_element_term(a, then_len * n, k, element, cs)
                == dummy_term(element, cs)
            &&& k < else_len * n ==> slice_element_term(b, else_len * n, k, element, cs)
                == array_get_term(b, k, NumericType::NativeField, element, cs)
            &&& k >= else_len * n ==> slice_element_term(b, else_len * n, k, element, cs)
                == dummy_term(element, cs)
        }),
{
}

} // verus!
