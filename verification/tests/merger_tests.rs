use fxhash::FxHashMap;
use noirc_evaluator::basic_block::BasicBlockId;
use noirc_evaluator::call_stack::CallStackId;
use noirc_evaluator::dfg::DataFlowGraph;
use noirc_evaluator::instruction::{Binary, BinaryOp, Instruction, ValueVector};
use noirc_evaluator::map::Id;
use noirc_evaluator::types::{NumericType, Type};
use noirc_evaluator::value::{Value, ValueId};
use noirc_evaluator::value_merger::ValueMerger;

fn u32_type() -> Type {
    Type::Numeric(NumericType::Unsigned { bit_size: 32 })
}

fn field_type() -> Type {
    Type::Numeric(NumericType::NativeField)
}

fn bool_type() -> Type {
    Type::Numeric(NumericType::Unsigned { bit_size: 1 })
}

fn bytes_of(x: u128) -> Vec<u8> {
    let mut bytes = vec![0u8; 32];
    for i in 0..16 {
        bytes[31 - i] = ((x >> (8 * i)) & 0xff) as u8;
    }
    bytes
}

/// A graph with one block holding the parameters `c`, `not_c`, and two more of
/// the given type.
fn setup(typ: fn() -> Type) -> (DataFlowGraph, BasicBlockId, [ValueId; 4]) {
    let mut dfg = DataFlowGraph::new();
    let block = dfg.make_block();
    let c = dfg.add_block_parameter(block, bool_type());
    let not_c = dfg.add_block_parameter(block, bool_type());
    let a = dfg.add_block_parameter(block, typ());
    let b = dfg.add_block_parameter(block, typ());
    (dfg, block, [c, not_c, a, b])
}

fn constant_bytes(dfg: &DataFlowGraph, v: ValueId) -> Vec<u8> {
    match dfg.value(v) {
        Value::NumericConstant { constant, .. } => constant.clone(),
        other => panic!("expected a constant, found {:?}", other),
    }
}

fn defining_instruction(dfg: &DataFlowGraph, v: ValueId) -> &Instruction {
    match dfg.value(v) {
        Value::Instruction { instruction, .. } => dfg.instruction(*instruction),
        other => panic!("expected an instruction result, found {:?}", other),
    }
}

#[test]
fn call_stack_root() {
    assert!(CallStackId::root().is_root());
    assert!(!CallStackId::new(3).is_root());
    assert_eq!(CallStackId::root(), CallStackId::new(0));
}

#[test]
fn type_helpers() {
    assert_eq!(NumericType::length_type(), NumericType::Unsigned { bit_size: 32 });
    let t = Type::Array(vec![field_type(), Type::Slice(vec![u32_type()])], 3);
    assert_eq!(t.clone(), t);
    assert_eq!(t.element_types().len(), 2);
    assert_eq!(field_type().unwrap_numeric(), NumericType::NativeField);
}

#[test]
fn value_vector_round_trip() {
    let ids: Vec<ValueId> = vec![Id::test_new(3), Id::test_new(1), Id::test_new(4)];
    let mut v = ValueVector::from_ids(&ids);
    assert_eq!(v.len(), 3);
    v.push_back(Id::test_new(9));
    let back = v.to_ids();
    assert_eq!(back.len(), 4);
    assert!(back[0] == Id::test_new(3) && back[1] == Id::test_new(1) && back[2] == Id::test_new(4));
    assert!(back[3] == Id::test_new(9));
    let c = v.clone();
    assert_eq!(c.len(), 4);
    assert_eq!(ValueVector::new().len(), 0);
}

#[test]
fn insert_instruction_appends_to_block() {
    let (mut dfg, block, [c, _, a, _]) = setup(field_type);
    let cast = Instruction::Cast(c, NumericType::NativeField);
    let result = dfg.insert_instruction_and_results(cast, block, None, CallStackId::new(7));
    let v = result.first();
    assert!(v == Id::test_new(4));
    assert_eq!(dfg.type_of_value(v), field_type());
    assert_eq!(dfg.get_value_call_stack_id(v), CallStackId::new(7));
    assert_eq!(dfg.get_value_call_stack_id(a), CallStackId::root());
    let instructions = dfg.block(block).instructions();
    assert_eq!(instructions.len(), 1);
    assert!(instructions[0] == result.instruction());
    assert_eq!(dfg.block(block).parameters().len(), 4);
}

#[test]
fn array_constant_of_make_array() {
    let (mut dfg, block, [_, _, a, b]) = setup(field_type);
    let typ = Type::Array(vec![field_type()], 2);
    let elements = ValueVector::from_ids(&vec![a, b]);
    let array = dfg
        .insert_instruction_and_results(Instruction::MakeArray { elements, typ }, block, None, CallStackId::root())
        .first();
    let (elements, typ) = dfg.get_array_constant(array).unwrap();
    assert_eq!(elements.len(), 2);
    assert_eq!(typ, Type::Array(vec![field_type()], 2));
    assert!(dfg.get_array_constant(a).is_none());
}

#[test]
fn merge_same_value_returns_it() {
    let (mut dfg, block, [c, not_c, a, _]) = setup(field_type);
    let mut sizes = FxHashMap::default();
    let mut merger = ValueMerger::new(&mut dfg, block, &mut sizes, CallStackId::new(1));
    let merged = merger.merge_values(c, not_c, a, a);
    assert!(merged == a);
    assert_eq!(dfg.block(block).instructions().len(), 0);
}

#[test]
fn merge_numeric_values_builds_select() {
    let (mut dfg, block, [c, not_c, a, b]) = setup(field_type);
    let merged = ValueMerger::merge_numeric_values(&mut dfg, block, c, not_c, a, b);
    let instructions = dfg.block(block).instructions().clone();
    assert_eq!(instructions.len(), 5);
    // Parameters carry the root call stack, so the instructions do too.
    for id in instructions.iter() {
        assert!(dfg.instruction_call_stack(*id).is_root());
    }
    assert_eq!(dfg.type_of_value(merged), field_type());
    let Instruction::Binary(Binary { lhs, rhs, operator }) = defining_instruction(&dfg, merged) else {
        panic!("expected an addition");
    };
    assert_eq!(*operator, BinaryOp::Add { unchecked: true });
    let (lhs, rhs) = (*lhs, *rhs);
    let Instruction::Binary(Binary { lhs: cast_c, rhs: then_value, operator }) = defining_instruction(&dfg, lhs) else {
        panic!("expected a multiplication");
    };
    assert_eq!(*operator, BinaryOp::Mul { unchecked: true });
    assert!(*then_value == a);
    let Instruction::Cast(cond, t) = defining_instruction(&dfg, *cast_c) else {
        panic!("expected a cast");
    };
    assert!(*cond == c);
    assert_eq!(*t, NumericType::NativeField);
    let Instruction::Binary(Binary { lhs: cast_not_c, rhs: else_value, operator }) = defining_instruction(&dfg, rhs) else {
        panic!("expected a multiplication");
    };
    assert_eq!(*operator, BinaryOp::Mul { unchecked: true });
    assert!(*else_value == b);
    let Instruction::Cast(cond, _) = defining_instruction(&dfg, *cast_not_c) else {
        panic!("expected a cast");
    };
    assert!(*cond == not_c);
}

#[test]
fn merge_numeric_takes_else_call_stack_when_then_is_root() {
    let (mut dfg, block, [c, not_c, a, b]) = setup(field_type);
    // Give the else value a call stack by computing it with an instruction.
    let b2 = dfg
        .insert_instruction_and_results(Instruction::Cast(b, NumericType::NativeField), block, None, CallStackId::new(9))
        .first();
    let merged = ValueMerger::merge_numeric_values(&mut dfg, block, c, not_c, a, b2);
    assert_eq!(dfg.get_value_call_stack_id(merged), CallStackId::new(9));
    let merged_again = ValueMerger::merge_numeric_values(&mut dfg, block, c, not_c, b2, a);
    assert_eq!(dfg.get_value_call_stack_id(merged_again), CallStackId::new(9));
}

#[test]
fn merge_arrays_elementwise() {
    let array_type = || Type::Array(vec![field_type(), u32_type()], 2);
    let (mut dfg, block, [c, not_c, a, b]) = setup(array_type);
    let mut sizes = FxHashMap::default();
    let mut merger = ValueMerger::new(&mut dfg, block, &mut sizes, CallStackId::new(2));
    let merged = merger.merge_values(c, not_c, a, b);
    assert_eq!(dfg.type_of_value(merged), array_type());
    let Instruction::MakeArray { elements, typ } = defining_instruction(&dfg, merged) else {
        panic!("expected an array");
    };
    assert_eq!(*typ, array_type());
    let elements = elements.to_ids();
    assert_eq!(elements.len(), 4);
    for (k, element) in elements.iter().enumerate() {
        let expected_type = if k % 2 == 0 { field_type() } else { u32_type() };
        assert_eq!(dfg.type_of_value(*element), expected_type);
        assert_eq!(dfg.get_value_call_stack_id(*element), CallStackId::new(2));
        let Instruction::Binary(Binary { lhs, .. }) = defining_instruction(&dfg, *element) else {
            panic!("expected an addition");
        };
        let Instruction::Binary(Binary { rhs: read, .. }) = defining_instruction(&dfg, *lhs) else {
            panic!("expected a multiplication");
        };
        let Instruction::ArrayGet { array, index } = defining_instruction(&dfg, *read) else {
            panic!("expected an array read");
        };
        assert!(*array == a);
        assert_eq!(constant_bytes(&dfg, *index), bytes_of(k as u128));
        assert_eq!(dfg.type_of_value(*index), u32_type());
    }
}

#[test]
fn merge_slices_pads_the_shorter() {
    let slice_type = || Type::Slice(vec![field_type()]);
    let (mut dfg, block, [c, not_c, a, b]) = setup(slice_type);
    let mut sizes = FxHashMap::default();
    sizes.insert(a, 2u32);
    sizes.insert(b, 1u32);
    let mut merger = ValueMerger::new(&mut dfg, block, &mut sizes, CallStackId::root());
    let merged = merger.merge_values(c, not_c, a, b);
    let Instruction::MakeArray { elements, typ } = defining_instruction(&dfg, merged) else {
        panic!("expected an array");
    };
    assert_eq!(*typ, slice_type());
    let elements = elements.to_ids();
    assert_eq!(elements.len(), 2);
    // The second element of the else slice is a zero placeholder.
    let Instruction::Binary(Binary { rhs: else_product, .. }) = defining_instruction(&dfg, elements[1]) else {
        panic!("expected an addition");
    };
    let Instruction::Binary(Binary { rhs: else_read, .. }) = defining_instruction(&dfg, *else_product) else {
        panic!("expected a multiplication");
    };
    assert_eq!(constant_bytes(&dfg, *else_read), vec![0u8; 32]);
    // The first element of the else slice is read from it at field index 0.
    let Instruction::Binary(Binary { rhs: else_product, .. }) = defining_instruction(&dfg, elements[0]) else {
        panic!("expected an addition");
    };
    let Instruction::Binary(Binary { rhs: else_read, .. }) = defining_instruction(&dfg, *else_product) else {
        panic!("expected a multiplication");
    };
    let Instruction::ArrayGet { array, index } = defining_instruction(&dfg, *else_read) else {
        panic!("expected an array read");
    };
    assert!(*array == b);
    assert_eq!(constant_bytes(&dfg, *index), bytes_of(0));
    assert_eq!(dfg.type_of_value(*index), field_type());
}

#[test]
fn merge_slices_length_from_array_constant() {
    let slice_type = || Type::Slice(vec![field_type(), field_type()]);
    let (mut dfg, block, [c, not_c, a, b]) = setup(field_type);
    // Two slices built by MakeArray: three and one repetitions of two fields.
    let then_slice = dfg
        .insert_instruction_and_results(
            Instruction::MakeArray { elements: ValueVector::from_ids(&vec![a, b, a, b, a, b]), typ: slice_type() },
            block,
            None,
            CallStackId::root(),
        )
        .first();
    let else_slice = dfg
        .insert_instruction_and_results(
            Instruction::MakeArray { elements: ValueVector::from_ids(&vec![b, a]), typ: slice_type() },
            block,
            None,
            CallStackId::root(),
        )
        .first();
    let mut sizes = FxHashMap::default();
    let mut merger = ValueMerger::new(&mut dfg, block, &mut sizes, CallStackId::root());
    let merged = merger.merge_values(c, not_c, then_slice, else_slice);
    let Instruction::MakeArray { elements, .. } = defining_instruction(&dfg, merged) else {
        panic!("expected an array");
    };
    assert_eq!(elements.len(), 6);
}

#[test]
fn merge_array_values_directly() {
    let (mut dfg, block, [c, not_c, a, b]) = setup(field_type);
    let mut sizes = FxHashMap::default();
    let mut merger = ValueMerger::new(&mut dfg, block, &mut sizes, CallStackId::new(4));
    let typ = Type::Array(vec![Type::Array(vec![field_type()], 2)], 1);
    let merged = merger.merge_array_values(typ, c, not_c, a, b);
    let Instruction::MakeArray { elements, .. } = defining_instruction(&dfg, merged) else {
        panic!("expected an array");
    };
    let outer = elements.to_ids();
    assert_eq!(outer.len(), 1);
    let Instruction::MakeArray { elements, .. } = defining_instruction(&dfg, outer[0]) else {
        panic!("expected an inner array");
    };
    assert_eq!(elements.len(), 2);
}

#[test]
fn merge_empty_arrays_of_any_element_type() {
    let array_type = || Type::Array(vec![Type::Slice(vec![field_type()])], 0);
    let (mut dfg, block, [c, not_c, a, b]) = setup(array_type);
    let mut sizes = FxHashMap::default();
    let mut merger = ValueMerger::new(&mut dfg, block, &mut sizes, CallStackId::root());
    let merged = merger.merge_values(c, not_c, a, b);
    let Instruction::MakeArray { elements, typ } = defining_instruction(&dfg, merged) else {
        panic!("expected an array");
    };
    assert_eq!(elements.len(), 0);
    assert_eq!(*typ, array_type());
    assert_eq!(dfg.block(block).instructions().len(), 1);
}

#[test]
fn merge_numeric_appends_casts_then_products_then_sum() {
    let (mut dfg, block, [c, not_c, a, b]) = setup(u32_type);
    let merged = ValueMerger::merge_numeric_values(&mut dfg, block, c, not_c, a, b);
    let ids = dfg.block(block).instructions().clone();
    assert!(matches!(dfg.instruction(ids[0]), Instruction::Cast(x, _) if *x == c));
    assert!(matches!(dfg.instruction(ids[1]), Instruction::Cast(x, _) if *x == not_c));
    assert!(matches!(dfg.instruction(ids[2]), Instruction::Binary(Binary { rhs, .. }) if *rhs == a));
    assert!(matches!(dfg.instruction(ids[3]), Instruction::Binary(Binary { rhs, .. }) if *rhs == b));
    assert!(matches!(
        dfg.instruction(ids[4]),
        Instruction::Binary(Binary { operator: BinaryOp::Add { unchecked: true }, .. })
    ));
    assert!(matches!(dfg.value(merged), Value::Instruction { instruction, .. } if *instruction == ids[4]));
}
