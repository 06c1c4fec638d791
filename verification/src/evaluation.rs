//! What values compute: an evaluation of [`Term`]s on given block
//! parameters, and the laws that merged values obey under it. A merged value
//! is `if c { then_value } else { else_value }`: with the then and else
//! conditions 1 and 0 it evaluates to the then value, with 0 and 1 to the
//! else value; merged slices are padded to the longer length with zeros.
use crate::call_stack::CallStackId;
use crate::dfg::Term;
use crate::field::be_value;
use crate::instruction::BinaryOp;
use crate::types::{NumericType, TypeView};
use crate::dfg::DataFlowGraph;
use crate::value::ValueId;
use crate::value_merger::{
    can_merge, dummy_term, index_term, merged_term, mergeable_element, numeric_merge_term,
    slice_element_term, slice_length, slice_merge_term, value_merge_term,
};
use vstd::prelude::*;

verus! {

/// A run-time value: a number or an array of values.
pub enum Val {
    Num(int),
    Arr(Seq<Val>),
}

/// The number a value holds, or zero for an array.
pub open spec fn num(v: Val) -> int {
    match v {
        Val::Num(x) => x,
        Val::Arr(_) => 0,
    }
}

/// What term `t` evaluates to when block parameter `v` holds `params(v)`:
/// constants by their encoding, additions and multiplications exactly, casts
/// keeping the value (as they do for the 0 and 1 of a condition), array reads
/// picking the element at the index, and arrays built from their elements.
pub open spec fn eval(t: Term, params: spec_fn(usize) -> Val) -> Val
    decreases t,
{
    match t {
        Term::Param(v) => params(v),
        Term::Constant(bytes, _) => Val::Num(be_value(bytes) as int),
        Term::Cast(x, _, _) => eval(*x, params),
        Term::Binary(BinaryOp::Add { .. }, x, y, _) => Val::Num(
            num(eval(*x, params)) + num(eval(*y, params)),
        ),
        Term::Binary(BinaryOp::Mul { .. }, x, y, _) => Val::Num(
            num(eval(*x, params)) * num(eval(*y, params)),
        ),
        Term::ArrayGet(array, index, _, _) => {
            let k = num(eval(*index, params));
            match eval(*array, params) {
                Val::Arr(items) => if 0 <= k < items.len() {
                    items[k]
                } else {
                    Val::Num(0)
                },
                Val::Num(_) => Val::Num(0),
            }
        },
        Term::MakeArray(elements, _, _) => Val::Arr(
            Seq::new(
                elements.len(),
                |k: int|
                    if 0 <= k < elements.len() {
                        eval(elements[k], params)
                    } else {
                        Val::Num(0)
                    },
            ),
        ),
    }
}

/// Value `v` has the shape of type `typ`: a number for a numeric type; for
/// an array type, `len` repetitions of values of the element types.
pub open spec fn has_type(v: Val, typ: TypeView) -> bool
    decreases typ,
{
    match typ {
        TypeView::Numeric(_) => v is Num,
        TypeView::Array(elements, len) => {
            let n = elements.len() as int;
            &&& v is Arr
            &&& v->Arr_0.len() == len * n
            &&& forall|k: int|
                0 <= k < v->Arr_0.len() ==> n > 0 && has_type(
                    #[trigger] v->Arr_0[k],
                    elements[k % n],
                )
        },
        _ => false,
    }
}

/// Value `v` starts with `reps` repetitions of values of the types
/// `elements`, as a slice of those element types recorded as `reps` long
/// does; it may hold more.
pub open spec fn has_slice_type(v: Val, elements: Seq<TypeView>, reps: int) -> bool {
    let n = elements.len() as int;
    &&& v is Arr
    &&& v->Arr_0.len() >= reps * n
    &&& forall|k: int|
        0 <= k < reps * n ==> n > 0 && has_type(#[trigger] v->Arr_0[k], elements[k % n])
}

/// The zero value of type `typ`.
pub open spec fn zero_value(typ: TypeView) -> Val
    decreases typ,
{
    match typ {
        TypeView::Numeric(_) => Val::Num(0),
        TypeView::Array(elements, len) => {
            let n = elements.len();
            Val::Arr(
                Seq::new(
                    len as nat * n,
                    |k: int|
                        if 0 <= k && n > 0 {
                            zero_value(elements[k % (n as int)])
                        } else {
                            Val::Num(0)
                        },
                ),
            )
        },
        _ => Val::Num(0),
    }
}

/// The first `size` elements of slice value `v` (of element types
/// `elements`), padded to `total` elements with zeros.
pub open spec fn padded(v: Val, elements: Seq<TypeView>, size: int, total: int) -> Val {
    let n = elements.len() as int;
    Val::Arr(
        Seq::new(
            total as nat,
            |k: int|
                if k < size {
                    v->Arr_0[k]
                } else {
                    zero_value(elements[k % n])
                },
        ),
    )
}

/// The conditions are complementary booleans: 1 and 0, or 0 and 1.
pub open spec fn complementary(then_condition: Val, else_condition: Val) -> bool {
    ||| num(then_condition) == 1 && num(else_condition) == 0
    ||| num(then_condition) == 0 && num(else_condition) == 1
}

/// A merged numeric value is `if c { a } else { b }`: when the then and else
/// conditions are 1 and 0 it evaluates to the then value, when they are 0
/// and 1 to the else value.
pub proof fn lemma_numeric_merge_selects(
    t: NumericType,
    then_condition: Term,
    else_condition: Term,
    a: Term,
    b: Term,
    params: spec_fn(usize) -> Val,
)
    requires
        complementary(eval(then_condition, params), eval(else_condition, params)),
        eval(a, params) is Num,
        eval(b, params) is Num,
    ensures
        eval(numeric_merge_term(t, then_condition, else_condition, a, b), params) == if num(
            eval(then_condition, params),
        ) == 1 {
            eval(a, params)
        } else {
            eval(b, params)
        },
{
    let x = num(eval(a, params));
    let y = num(eval(b, params));
    let c = num(eval(then_condition, params));
    let d = num(eval(else_condition, params));
    reveal_with_fuel(eval, 4);
    assert(num(eval(numeric_merge_term(t, then_condition, else_condition, a, b), params)) == c * x
        + d * y);
    assert(1 * x + 0 * y == x && 0 * x + 1 * y == y) by (nonlinear_arith);
}

/// The constant that reads element `k` of an array or slice evaluates to `k`.
pub proof fn lemma_index_term_value(k: u128, t: NumericType, params: spec_fn(usize) -> Val)
    ensures
        eval(index_term(k as int, t), params) == Val::Num(k as int),
{
    crate::field::lemma_field_bytes_of_u128(k);
}

/// A placeholder evaluates to the zero value of its type.
pub proof fn lemma_dummy_is_zero(typ: TypeView, cs: CallStackId, params: spec_fn(usize) -> Val)
    requires
        mergeable_element(typ),
    ensures
        eval(dummy_term(typ, cs), params) == zero_value(typ),
    decreases typ,
{
    match typ {
        TypeView::Numeric(_) => {
            crate::field::lemma_field_bytes_of_u128(0);
        },
        TypeView::Array(elements, len) => {
            let n = elements.len() as int;
            let dummies = dummy_term(typ, cs)->MakeArray_0;
            assert forall|k: int| 0 <= k < dummies.len() implies #[trigger] eval(dummies[k], params)
                == zero_value(typ)->Arr_0[k] by {
                assert(n > 0) by (nonlinear_arith)
                    requires
                        0 <= k < len * n,
                        n >= 0,
                ;
                assert(0 <= k % n < n);
                assert(decreases_to!(typ => elements));
                lemma_dummy_is_zero(elements[k % n], cs, params);
            }
            let whole = eval(dummy_term(typ, cs), params)->Arr_0;
            assert(whole.len() == dummies.len());
            assert forall|k: int| 0 <= k < whole.len() implies whole[k] == zero_value(typ)->Arr_0[k] by {
                assert(whole[k] == eval(dummies[k], params));
            }
            assert(whole =~= zero_value(typ)->Arr_0);
        },
        _ => {},
    }
}

/// The zero value of a type has the shape of that type.
pub proof fn lemma_zero_value_has_type(typ: TypeView)
    requires
        mergeable_element(typ),
    ensures
        has_type(zero_value(typ), typ),
    decreases typ,
{
    match typ {
        TypeView::Array(elements, len) => {
            let n = elements.len() as int;
            let zeros = zero_value(typ)->Arr_0;
            assert forall|k: int| 0 <= k < zeros.len() implies n > 0 && has_type(
                #[trigger] zeros[k],
                elements[k % n],
            ) by {
                assert(n > 0) by (nonlinear_arith)
                    requires
                        0 <= k < len * n,
                        n >= 0,
                ;
                assert(0 <= k % n < n);
                assert(decreases_to!(typ => elements));
                lemma_zero_value_has_type(elements[k % n]);
            }
        },
        _ => {},
    }
}

/// A merged value of a numeric or array type is `if c { a } else { b }`:
/// under complementary conditions it evaluates to the then value when the
/// then condition is 1 and to the else value otherwise, element by element
/// for arrays.
pub proof fn lemma_merge_selects(
    typ: TypeView,
    then_condition: Term,
    else_condition: Term,
    a: Term,
    b: Term,
    cs: CallStackId,
    params: spec_fn(usize) -> Val,
)
    requires
        mergeable_element(typ),
        complementary(eval(then_condition, params), eval(else_condition, params)),
        has_type(eval(a, params), typ),
        has_type(eval(b, params), typ),
    ensures
        eval(merged_term(typ, then_condition, else_condition, a, b, cs), params) == if num(
            eval(then_condition, params),
        ) == 1 {
            eval(a, params)
        } else {
            eval(b, params)
        },
    decreases typ,
{
    match typ {
        TypeView::Numeric(t) => {
            lemma_numeric_merge_selects(t, then_condition, else_condition, a, b, params);
        },
        TypeView::Array(elements, len) => {
            let n = elements.len() as int;
            let merged = merged_term(typ, then_condition, else_condition, a, b, cs)->MakeArray_0;
            let chosen = if num(eval(then_condition, params)) == 1 {
                eval(a, params)
            } else {
                eval(b, params)
            };
            let u32_type = NumericType::Unsigned { bit_size: 32 };
            assert forall|k: int| 0 <= k < merged.len() implies #[trigger] eval(merged[k], params)
                == chosen->Arr_0[k] by {
                assert(n > 0) by (nonlinear_arith)
                    requires
                        0 <= k < len * n,
                        n >= 0,
                ;
                assert(0 <= k % n < n);
                let element = elements[k % n];
                lemma_index_term_value(k as u128, u32_type, params);
                assert(k as u128 == k);
                let ga = Term::ArrayGet(Box::new(a), Box::new(index_term(k, u32_type)), element, cs);
                let gb = Term::ArrayGet(Box::new(b), Box::new(index_term(k, u32_type)), element, cs);
                assert(eval(ga, params) == eval(a, params)->Arr_0[k]);
                assert(eval(gb, params) == eval(b, params)->Arr_0[k]);
                assert(decreases_to!(typ => elements));
                lemma_merge_selects(element, then_condition, else_condition, ga, gb, cs, params);
            }
            let whole = eval(merged_term(typ, then_condition, else_condition, a, b, cs), params)->Arr_0;
            assert(whole.len() == merged.len());
            assert forall|k: int| 0 <= k < whole.len() implies whole[k] == chosen->Arr_0[k] by {
                assert(whole[k] == eval(merged[k], params));
            }
            assert(whole =~= chosen->Arr_0);
        },
        _ => {},
    }
}

/// Two merged slices are `if c { a } else { b }` cut to its recorded length
/// and padded with zeros to the longer one: under complementary conditions
/// the merge evaluates to the then slice so treated when the then condition
/// is 1, and to the else slice so treated otherwise. Run-time slices may hold
/// more than their recorded length.
pub proof fn lemma_slice_merge_selects(
    typ: TypeView,
    then_len: u32,
    else_len: u32,
    then_condition: Term,
    else_condition: Term,
    a: Term,
    b: Term,
    cs: CallStackId,
    params: spec_fn(usize) -> Val,
)
    requires
        typ is Slice,
        forall|j: int|
            0 <= j < typ.element_types().len() ==> mergeable_element(
                #[trigger] typ.element_types()[j],
            ),
        then_len * typ.element_types().len() <= u32::MAX,
        else_len * typ.element_types().len() <= u32::MAX,
        complementary(eval(then_condition, params), eval(else_condition, params)),
        has_slice_type(eval(a, params), typ.element_types(), then_len as int),
        has_slice_type(eval(b, params), typ.element_types(), else_len as int),
    ensures
        ({
            let elements = typ.element_types();
            let total = (if then_len >= else_len {
                then_len
            } else {
                else_len
            }) * elements.len();
            eval(
                slice_merge_term(typ, then_len, else_len, then_condition, else_condition, a, b, cs),
                params,
            ) == if num(eval(then_condition, params)) == 1 {
                padded(eval(a, params), elements, then_len * elements.len(), total)
            } else {
                padded(eval(b, params), elements, else_len * elements.len(), total)
            }
        }),
{
    let elements = typ.element_types();
    let n = elements.len() as int;
    let len = if then_len >= else_len {
        then_len
    } else {
        else_len
    };
    let total = len * n;
    let merged = slice_merge_term(typ, then_len, else_len, then_condition, else_condition, a, b, cs)->MakeArray_0;
    let chosen = if num(eval(then_condition, params)) == 1 {
        padded(eval(a, params), elements, then_len * elements.len(), total)
    } else {
        padded(eval(b, params), elements, else_len * elements.len(), total)
    };
    assert(total <= u32::MAX) by (nonlinear_arith)
        requires
            total == len * n,
            len == then_len || len == else_len,
            then_len * n <= u32::MAX,
            else_len * n <= u32::MAX,
    ;
    assert forall|k: int| 0 <= k < merged.len() implies #[trigger] eval(merged[k], params)
        == chosen->Arr_0[k] by {
        assert(n > 0) by (nonlinear_arith)
            requires
                0 <= k < len * n,
                n >= 0,
        ;
        assert(0 <= k % n < n);
        let element = elements[k % n];
        let sa = slice_element_term(a, then_len * n, k, element, cs);
        let sb = slice_element_term(b, else_len * n, k, element, cs);
        lemma_index_term_value(k as u128, NumericType::NativeField, params);
        assert(k as u128 == k);
        lemma_zero_value_has_type(element);
        if k < then_len * n {
            assert(eval(sa, params) == eval(a, params)->Arr_0[k]);
        } else {
            lemma_dummy_is_zero(element, cs, params);
        }
        if k < else_len * n {
            assert(eval(sb, params) == eval(b, params)->Arr_0[k]);
        } else {
            lemma_dummy_is_zero(element, cs, params);
        }
        lemma_merge_selects(element, then_condition, else_condition, sa, sb, cs, params);
    }
    let whole = eval(
        slice_merge_term(typ, then_len, else_len, then_condition, else_condition, a, b, cs),
        params,
    )->Arr_0;
    assert(whole.len() == merged.len());
    assert forall|k: int| 0 <= k < whole.len() implies whole[k] == chosen->Arr_0[k] by {
        assert(whole[k] == eval(merged[k], params));
    }
    assert(whole =~= chosen->Arr_0);
}

/// What `ValueMerger::merge_values` gives for two numeric or array values is
/// `if c { then_value } else { else_value }` under complementary conditions.
pub proof fn lemma_value_merge_selects(
    dfg: DataFlowGraph,
    sizes: Map<ValueId, u32>,
    then_condition: ValueId,
    else_condition: ValueId,
    then_value: ValueId,
    else_value: ValueId,
    cs: CallStackId,
    params: spec_fn(usize) -> Val,
)
    requires
        can_merge(dfg, sizes, then_value, else_value),
        !(dfg.type_of(then_value@ as int) is Slice),
        complementary(
            eval(dfg.term_of(then_condition@ as nat), params),
            eval(dfg.term_of(else_condition@ as nat), params),
        ),
        has_type(eval(dfg.term_of(then_value@ as nat), params), dfg.type_of(then_value@ as int)),
        has_type(eval(dfg.term_of(else_value@ as nat), params), dfg.type_of(then_value@ as int)),
    ensures
        eval(
            value_merge_term(dfg, sizes, then_condition, else_condition, then_value, else_value, cs),
            params,
        ) == if num(eval(dfg.term_of(then_condition@ as nat), params)) == 1 {
            eval(dfg.term_of(then_value@ as nat), params)
        } else {
            eval(dfg.term_of(else_value@ as nat), params)
        },
{
    if then_value@ != else_value@ {
        lemma_merge_selects(
            dfg.type_of(then_value@ as int),
            dfg.term_of(then_condition@ as nat),
            dfg.term_of(else_condition@ as nat),
            dfg.term_of(then_value@ as nat),
            dfg.term_of(else_value@ as nat),
            cs,
            params,
        );
    }
}

/// What `ValueMerger::merge_values` gives for two different slice values is
/// `if c { then_value } else { else_value }`, cut to its recorded length and
/// padded with zeros to the longer recorded length, under complementary
/// conditions; a slice merged with itself is itself.
pub proof fn lemma_value_merge_selects_slices(
    dfg: DataFlowGraph,
    sizes: Map<ValueId, u32>,
    then_condition: ValueId,
    else_condition: ValueId,
    then_value: ValueId,
    else_value: ValueId,
    cs: CallStackId,
    params: spec_fn(usize) -> Val,
)
    requires
        can_merge(dfg, sizes, then_value, else_value),
        dfg.type_of(then_value@ as int) is Slice,
        complementary(
            eval(dfg.term_of(then_condition@ as nat), params),
            eval(dfg.term_of(else_condition@ as nat), params),
        ),
        has_slice_type(
            eval(dfg.term_of(then_value@ as nat), params),
            dfg.type_of(then_value@ as int).element_types(),
            slice_length(dfg, sizes, then_value) as int,
        ),
        has_slice_type(
            eval(dfg.term_of(else_value@ as nat), params),
            dfg.type_of(then_value@ as int).element_types(),
            slice_length(dfg, sizes, else_value) as int,
        ),
    ensures
        ({
            let elements = dfg.type_of(then_value@ as int).element_types();
            let then_len = slice_length(dfg, sizes, then_value);
            let else_len = slice_length(dfg, sizes, else_value);
            let total = (if then_len >= else_len {
                then_len
            } else {
                else_len
            }) * elements.len();
            eval(
                value_merge_term(
                    dfg,
                    sizes,
                    then_condition,
                    else_condition,
                    then_value,
                    else_value,
                    cs,
                ),
                params,
            ) == if then_value@ == else_value@ {
                eval(dfg.term_of(then_value@ as nat), params)
            } else if num(eval(dfg.term_of(then_condition@ as nat), params)) == 1 {
                padded(
                    eval(dfg.term_of(then_value@ as nat), params),
                    elements,
                    then_len * elements.len(),
                    total,
                )
            } else {
                padded(
                    eval(dfg.term_of(else_value@ as nat), params),
                    elements,
                    else_len * elements.len(),
                    total,
                )
            }
        }),
{
    let typ = dfg.type_of(then_value@ as int);
    let elements = typ.element_types();
    let then_len = slice_length(dfg, sizes, then_value);
    if then_value@ != else_value@ {
        lemma_slice_merge_selects(
            typ,
            then_len,
            slice_length(dfg, sizes, else_value),
            dfg.term_of(then_condition@ as nat),
            dfg.term_of(else_condition@ as nat),
            dfg.term_of(then_value@ as nat),
            dfg.term_of(else_value@ as nat),
            cs,
            params,
        );
    }
}

} // verus!
