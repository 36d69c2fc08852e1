use evm_analyzer::contract_utils::get_pubblic_method;
use evm_analyzer::contract_utils::look_for_calldata;
use evm_analyzer::contract_utils::top_level_data;
use evm_analyzer::contract_utils::DataType;
use evm_analyzer::evm_memory::EvmMemory;
use evm_analyzer::evm_memory::EvmStack;
use evm_analyzer::evm_types::StackValue;
use evm_analyzer::word::Word;

fn lit(n: u64) -> StackValue {
    StackValue::ActualValue(Word::from_u64(n))
}

fn b(v: StackValue) -> Box<StackValue> {
    Box::new(v)
}

#[test]
fn expression_simplifier_sv_test() {
    let value = StackValue::And(
        Box::from(StackValue::ActualValue(Word::from_u64(256))),
        Box::from(StackValue::And(
            Box::from(StackValue::ActualValue(Word::from_u64(256))),
            Box::from(StackValue::CallValue),
        )),
    );
    let simplified = value.simplify();
    assert!(simplified.same(&value));
}

#[test]
fn expression_simplify_sys_sv_test() {
    let value = StackValue::And(
        Box::from(StackValue::ActualValue(Word::from_u64(256))),
        Box::from(StackValue::And(
            Box::from(StackValue::ActualValue(Word::from_u64(256))),
            Box::from(StackValue::CallValue),
        )),
    );
    assert_eq!(value.simplify().resolve(), None);
}

#[test]
fn simplify_folds_what_folds() {
    let value = StackValue::Mul(
        b(StackValue::Add(b(lit(2)), b(lit(3)))),
        b(StackValue::CallValue),
    );
    let expected = StackValue::Mul(b(lit(5)), b(StackValue::CallValue));
    assert!(value.simplify().same(&expected));
    assert!(StackValue::Add(b(lit(2)), b(lit(3))).simplify().same(&lit(5)));
}

#[test]
fn resolve_folds_the_allowed_operators_only() {
    assert_eq!(lit(7).resolve(), Some(Word::from_u64(7)));
    assert_eq!(StackValue::Add(b(lit(2)), b(lit(3))).resolve(), Some(Word::from_u64(5)));
    assert_eq!(StackValue::And(b(lit(0b1100)), b(lit(0b1010))).resolve(), Some(Word::from_u64(0b1000)));
    // the shift is the first operand, the shifted value the second
    assert_eq!(StackValue::ShL(b(lit(4)), b(lit(1))).resolve(), Some(Word::from_u64(16)));
    assert_eq!(StackValue::Shr(b(lit(4)), b(lit(32))).resolve(), Some(Word::from_u64(2)));
    assert_eq!(StackValue::CodeSection(vec![0x01, 0x00]).resolve(), Some(Word::from_u64(256)));
    assert_eq!(StackValue::CodeSection(vec![0u8; 33]).resolve(), None);
    assert_eq!(StackValue::Mul(b(lit(2)), b(lit(3))).resolve(), None);
    assert_eq!(StackValue::Sub(b(lit(3)), b(lit(2))).resolve(), None);
    assert_eq!(StackValue::Add(b(lit(2)), b(StackValue::Caller)).resolve(), None);
    assert_eq!(StackValue::CallValue.resolve(), None);
}

#[test]
fn resolve_wraps_a_sum() {
    let max = StackValue::ActualValue(Word { w0: u64::MAX, w1: u64::MAX, w2: u64::MAX, w3: u64::MAX });
    assert_eq!(StackValue::Add(b(max), b(lit(1))).resolve(), Some(Word::zero()));
}

#[test]
fn same_is_structural_equality() {
    let x = StackValue::Sha3(vec![(0, lit(1)), (32, StackValue::Caller)]);
    let y = StackValue::Sha3(vec![(0, lit(1)), (32, StackValue::Caller)]);
    let z = StackValue::Sha3(vec![(0, lit(1)), (64, StackValue::Caller)]);
    assert!(x.same(&y));
    assert!(!x.same(&z));
    assert!(x.clone().same(&x));
    assert!(!StackValue::Add(b(lit(1)), b(lit(2))).same(&StackValue::Mul(b(lit(1)), b(lit(2)))));
    assert!(!StackValue::Add(b(lit(1)), b(lit(2))).same(&StackValue::Add(b(lit(2)), b(lit(1)))));
    assert!(StackValue::CodeSection(vec![1, 2]).same(&StackValue::CodeSection(vec![1, 2])));
    assert!(!StackValue::CodeSection(vec![1, 2]).same(&StackValue::CodeSection(vec![1])));
    assert!(!StackValue::Origin.same(&StackValue::Caller));
}

#[test]
fn placeholders_are_replaced_by_the_caller_state() {
    let mut stack = EvmStack::new();
    stack.push(lit(10));
    stack.push(lit(20));
    let mut memory = EvmMemory::new();
    memory.store(lit(64), StackValue::Caller, lit(32));

    assert!(StackValue::StackPaceHolder(1).replace_parent_call(&stack, &memory).same(&lit(20)));
    assert!(StackValue::StackPaceHolder(2).replace_parent_call(&stack, &memory).same(&lit(10)));
    // beyond the caller's own values the placeholder moves on to its caller
    assert!(StackValue::StackPaceHolder(3)
        .replace_parent_call(&stack, &memory)
        .same(&StackValue::StackPaceHolder(1)));
    let read = StackValue::MemoryPlaceHolder(b(lit(64)), b(lit(32)));
    assert!(read.replace_parent_call(&stack, &memory).same(&StackValue::Caller));
    let miss = StackValue::MemoryPlaceHolder(b(lit(96)), b(lit(32)));
    assert!(miss.replace_parent_call(&stack, &memory).same(&miss));
    let sum = StackValue::Add(b(StackValue::StackPaceHolder(1)), b(StackValue::StackPaceHolder(2)));
    assert!(sum
        .replace_parent_call(&stack, &memory)
        .same(&StackValue::Add(b(lit(20)), b(lit(10)))));
    let hash = StackValue::Sha3(vec![(0, StackValue::StackPaceHolder(1))]);
    assert!(hash
        .replace_parent_call(&stack, &memory)
        .same(&StackValue::Sha3(vec![(0, lit(20))])));
    // operators other than sums, products and hashes are left as they are
    let sub = StackValue::Sub(b(StackValue::StackPaceHolder(1)), b(lit(1)));
    assert!(sub.replace_parent_call(&stack, &memory).same(&sub));
}

#[test]
fn calldata_load_of_zero_is_found_anywhere() {
    let load = StackValue::CallDataLoad(b(lit(0)));
    assert!(look_for_calldata(&load));
    assert!(!look_for_calldata(&StackValue::CallDataLoad(b(lit(4)))));
    assert!(look_for_calldata(&StackValue::Div(b(load.clone()), b(lit(1 << 32)))));
    assert!(look_for_calldata(&StackValue::And(b(lit(0xffff_ffff)), b(StackValue::Shr(b(lit(224)), b(load.clone()))))));
    assert!(look_for_calldata(&StackValue::IsZero(b(load.clone()))));
    assert!(look_for_calldata(&StackValue::Sha3(vec![(0, lit(1)), (32, load.clone())])));
    assert!(!look_for_calldata(&StackValue::Add(b(lit(0)), b(StackValue::CallDataSize))));
}

#[test]
fn selector_is_the_literal_side_of_the_equality() {
    let load = StackValue::CallDataLoad(b(lit(0)));
    let parents: Vec<(&EvmStack, &EvmMemory)> = Vec::new();
    let guard = StackValue::EQ(b(lit(0x34)), b(load.clone()));
    assert_eq!(get_pubblic_method(&guard, &parents), Some(Word::from_u64(0x34)));
    let guard = StackValue::EQ(b(StackValue::Shr(b(lit(224)), b(load.clone()))), b(lit(0x2347)));
    assert_eq!(get_pubblic_method(&guard, &parents), Some(Word::from_u64(0x2347)));
    let guard = StackValue::EQ(b(lit(1)), b(StackValue::CallValue));
    assert_eq!(get_pubblic_method(&guard, &parents), None);
    let guard = StackValue::LT(b(lit(0x34)), b(load));
    assert_eq!(get_pubblic_method(&guard, &parents), None);
}

fn is_field(d: &DataType, v: &StackValue) -> bool {
    matches!(d, DataType::Field(x) if x.same(v))
}

#[test]
fn locations_are_classified_by_shape() {
    assert!(is_field(&top_level_data(&lit(3)), &lit(3)));
    // a literal base plus something: a member of a structure
    let member = StackValue::Add(b(StackValue::Caller), b(lit(3)));
    assert!(matches!(top_level_data(&member), DataType::Struct(x) if x.same(&lit(3))));
    // a hash of one preimage: an array
    let array = StackValue::Sha3(vec![(0, lit(5))]);
    assert!(matches!(top_level_data(&array), DataType::Vector(x) if x.same(&lit(5))));
    let slot = StackValue::Add(b(array.clone()), b(StackValue::Caller));
    assert!(matches!(top_level_data(&slot), DataType::Vector(x) if x.same(&lit(5))));
    // a hash of two preimages: a mapping whose base is the preimage at the larger offset
    let mapping = StackValue::Sha3(vec![(0, StackValue::Caller), (32, lit(7))]);
    assert!(matches!(top_level_data(&mapping), DataType::Mapping(x, y) if x.same(&lit(7)) && y.same(&mapping)));
    let mapping = StackValue::Sha3(vec![(32, lit(7)), (0, StackValue::Caller)]);
    assert!(matches!(top_level_data(&mapping), DataType::Mapping(x, y) if x.same(&lit(7)) && y.same(&mapping)));
    let mapping = StackValue::Sha3(vec![(32, StackValue::Caller), (0, lit(7))]);
    assert!(matches!(top_level_data(&mapping), DataType::Mapping(x, y) if x.same(&StackValue::Caller) && y.same(&mapping)));
    // anything else
    assert!(matches!(top_level_data(&StackValue::Caller), DataType::Unknown(x) if x.same(&StackValue::Caller)));
    let three = StackValue::Sha3(vec![(0, lit(1)), (32, lit(2)), (64, lit(3))]);
    assert!(matches!(top_level_data(&three), DataType::Unknown(x) if x.same(&three)));
    let sum = StackValue::Add(b(lit(1)), b(StackValue::Caller));
    assert!(matches!(top_level_data(&sum), DataType::Unknown(x) if x.same(&StackValue::Add(Box::new(lit(1)), Box::new(StackValue::Caller)))));
    assert!(top_level_data(&lit(3)).value().same(&lit(3)));
}
