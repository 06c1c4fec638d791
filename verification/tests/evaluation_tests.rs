//! Runs merged values on concrete inputs with a small interpreter of the
//! instructions that merging emits.
use fxhash::FxHashMap;
use noirc_evaluator::call_stack::CallStackId;
use noirc_evaluator::dfg::DataFlowGraph;
use noirc_evaluator::instruction::{Binary, BinaryOp, Instruction};
use noirc_evaluator::types::{NumericType, Type};
use noirc_evaluator::value::{Value, ValueId};
use noirc_evaluator::value_merger::ValueMerger;
use std::collections::HashMap;

#[derive(Clone, Debug, PartialEq)]
enum Eval {
    Number(u128),
    Array(Vec<Eval>),
}

fn number(e: Eval) -> u128 {
    match e {
        Eval::Number(x) => x,
        Eval::Array(_) => panic!("expected a number"),
    }
}

fn eval(dfg: &DataFlowGraph, v: ValueId, params: &HashMap<ValueId, Eval>) -> Eval {
    match dfg.value(v) {
        Value::Param { .. } => params[&v].clone(),
        Value::NumericConstant { constant, .. } => {
            assert_eq!(constant.len(), 32);
            Eval::Number(constant[16..].iter().fold(0u128, |acc, b| (acc << 8) | *b as u128))
        }
        Value::Instruction { instruction, .. } => match dfg.instruction(*instruction) {
            Instruction::Cast(x, _) => eval(dfg, *x, params),
            Instruction::Binary(Binary { lhs, rhs, operator }) => {
                let l = number(eval(dfg, *lhs, params));
                let r = number(eval(dfg, *rhs, params));
                Eval::Number(match operator {
                    BinaryOp::Add { .. } => l + r,
                    BinaryOp::Mul { .. } => l * r,
                })
            }
            Instruction::ArrayGet { array, index } => {
                let Eval::Array(items) = eval(dfg, *array, params) else { panic!("expected an array") };
                items[number(eval(dfg, *index, params)) as usize].clone()
            }
            Instruction::MakeArray { elements, .. } => {
                Eval::Array(elements.to_ids().iter().map(|e| eval(dfg, *e, params)).collect())
            }
        },
    }
}

fn numbers(xs: &[u128]) -> Eval {
    Eval::Array(xs.iter().map(|x| Eval::Number(*x)).collect())
}

fn run_merge(typ: Type, then_input: Eval, else_input: Eval, sizes: &[u32]) -> (Eval, Eval) {
    let mut dfg = DataFlowGraph::new();
    let block = dfg.make_block();
    let bool_type = || Type::Numeric(NumericType::Unsigned { bit_size: 1 });
    let c = dfg.add_block_parameter(block, bool_type());
    let not_c = dfg.add_block_parameter(block, bool_type());
    let a = dfg.add_block_parameter(block, typ.clone());
    let b = dfg.add_block_parameter(block, typ);
    let mut slice_sizes = FxHashMap::default();
    if let [then_size, else_size] = sizes {
        slice_sizes.insert(a, *then_size);
        slice_sizes.insert(b, *else_size);
    }
    let mut merger = ValueMerger::new(&mut dfg, block, &mut slice_sizes, CallStackId::root());
    let merged = merger.merge_values(c, not_c, a, b);
    let mut results = Vec::new();
    for cond in [1u128, 0u128] {
        let mut params = HashMap::new();
        params.insert(c, Eval::Number(cond));
        params.insert(not_c, Eval::Number(1 - cond));
        params.insert(a, then_input.clone());
        params.insert(b, else_input.clone());
        results.push(eval(&dfg, merged, &params));
    }
    (results[0].clone(), results[1].clone())
}

#[test]
fn merged_number_selects_by_condition() {
    let typ = Type::Numeric(NumericType::NativeField);
    let (when_true, when_false) = run_merge(typ, Eval::Number(5), Eval::Number(9), &[]);
    assert_eq!(when_true, Eval::Number(5));
    assert_eq!(when_false, Eval::Number(9));
}

#[test]
fn merged_array_selects_elementwise() {
    let typ = Type::Array(vec![Type::Numeric(NumericType::NativeField)], 3);
    let (when_true, when_false) = run_merge(typ, numbers(&[1, 2, 3]), numbers(&[7, 8, 9]), &[]);
    assert_eq!(when_true, numbers(&[1, 2, 3]));
    assert_eq!(when_false, numbers(&[7, 8, 9]));
}

#[test]
fn merged_nested_array_selects_elementwise() {
    let inner = Type::Array(vec![Type::Numeric(NumericType::NativeField)], 2);
    let typ = Type::Array(vec![inner, Type::Numeric(NumericType::Unsigned { bit_size: 8 })], 2);
    let then_input = Eval::Array(vec![numbers(&[1, 2]), Eval::Number(3), numbers(&[4, 5]), Eval::Number(6)]);
    let else_input = Eval::Array(vec![numbers(&[10, 20]), Eval::Number(30), numbers(&[40, 50]), Eval::Number(60)]);
    let (when_true, when_false) = run_merge(typ, then_input.clone(), else_input.clone(), &[]);
    assert_eq!(when_true, then_input);
    assert_eq!(when_false, else_input);
}

#[test]
fn merged_slice_pads_shorter_with_zero() {
    let typ = Type::Slice(vec![Type::Numeric(NumericType::NativeField)]);
    let (when_true, when_false) = run_merge(typ, numbers(&[1, 2, 3]), numbers(&[7]), &[3, 1]);
    assert_eq!(when_true, numbers(&[1, 2, 3]));
    assert_eq!(when_false, numbers(&[7, 0, 0]));
}

#[test]
fn merged_slice_of_arrays_pads_with_zero_arrays() {
    let element = Type::Array(vec![Type::Numeric(NumericType::NativeField)], 2);
    let typ = Type::Slice(vec![element]);
    let then_input = Eval::Array(vec![numbers(&[1, 2])]);
    let else_input = Eval::Array(vec![numbers(&[3, 4]), numbers(&[5, 6])]);
    let (when_true, when_false) = run_merge(typ, then_input, else_input.clone(), &[1, 2]);
    assert_eq!(when_true, Eval::Array(vec![numbers(&[1, 2]), numbers(&[0, 0])]));
    assert_eq!(when_false, else_input);
}

#[test]
fn merged_slice_uses_only_recorded_lengths() {
    // At run time the then slice holds more than its recorded two elements.
    let typ = Type::Slice(vec![Type::Numeric(NumericType::NativeField)]);
    let (when_true, when_false) = run_merge(typ, numbers(&[1, 2, 3]), numbers(&[7]), &[2, 1]);
    assert_eq!(when_true, numbers(&[1, 2]));
    assert_eq!(when_false, numbers(&[7, 0]));
}
