use evm_analyzer::contract_logger::NoLogger;
use evm_analyzer::evm_function::EvmFunction;
use evm_analyzer::evm_memory::EvmMemory;
use evm_analyzer::evm_memory::EvmStack;
use evm_analyzer::evm_types::StackValue;
use evm_analyzer::word::Word;

fn lit(n: u64) -> StackValue {
    StackValue::ActualValue(Word::from_u64(n))
}

fn b(v: StackValue) -> Box<StackValue> {
    Box::new(v)
}

fn run(code: &[u8], position: usize) -> EvmFunction<'_> {
    let mut f = EvmFunction::new(position, code);
    f.execute(&mut NoLogger());
    f
}

#[test]
fn sload_records_a_read() {
    // PUSH1 0x00; SLOAD; STOP
    let code = [0x60, 0x00, 0x54, 0x00];
    let f = run(&code, 0);
    assert_eq!(f.storage_access_read.len(), 1);
    assert!(f.storage_access_read.contains(&lit(0)));
    assert_eq!(f.storage_access_write.len(), 0);
    assert_eq!(f.internal_calls.len(), 0);
    assert_eq!(f.external_calls.len(), 0);
    assert!(f.ended);
    assert!(f.return_value.is_none());
}

#[test]
fn sstore_records_a_write() {
    // PUSH1 0x05; PUSH1 0x00; SSTORE; STOP
    let code = [0x60, 0x05, 0x60, 0x00, 0x55, 0x00];
    let f = run(&code, 0);
    assert_eq!(f.storage_access_write.len(), 1);
    assert!(f.storage_access_write.contains(&lit(0)));
    assert_eq!(f.storage_access_read.len(), 0);
    assert!(f.ended);
}

#[test]
fn arithmetic_stays_symbolic() {
    // PUSH1 2; PUSH1 3; ADD; PUSH1 0; SSTORE ... the sum is not folded on the stack
    let code = [0x60, 0x02, 0x60, 0x03, 0x01, 0x00];
    let mut f = run(&code, 0);
    let top = f.stack.pop();
    assert!(top.same(&StackValue::Add(b(lit(3)), b(lit(2)))));
    assert_eq!(top.resolve(), Some(Word::from_u64(5)));
}

#[test]
fn popping_below_the_block_yields_placeholders() {
    // ADD; STOP on an empty stack
    let code = [0x01, 0x00];
    let mut f = run(&code, 0);
    assert_eq!(f.stack.deficit(), 1);
    // the sum went to the caller's slot 2 and is found there again
    let top = f.stack.pop();
    assert!(top.same(&StackValue::Add(
        b(StackValue::StackPaceHolder(1)),
        b(StackValue::StackPaceHolder(2))
    )));
    assert_eq!(f.stack.deficit(), 2);
}

#[test]
fn stack_counts_the_deficit() {
    let mut stack = EvmStack::new();
    assert!(stack.pop().same(&StackValue::StackPaceHolder(1)));
    assert!(stack.pop().same(&StackValue::StackPaceHolder(2)));
    assert_eq!(stack.deficit(), 2);
    stack.push(lit(9));
    assert_eq!(stack.deficit(), 1);
    assert!(stack.clone_pos(1).same(&lit(9)));
    assert!(stack.pop().same(&lit(9)));
    assert_eq!(stack.deficit(), 2);
    assert!(stack.pop().same(&StackValue::StackPaceHolder(3)));
    assert!(stack.clone_pos(0).same(&StackValue::StackPaceHolder(0)));
}

#[test]
fn swap_exchanges_within_and_below_the_block() {
    let mut stack = EvmStack::new();
    stack.push(lit(1));
    stack.push(lit(2));
    stack.push(lit(3));
    stack.swap(2);
    assert!(stack.pop().same(&lit(1)));
    assert!(stack.pop().same(&lit(2)));
    assert!(stack.pop().same(&lit(3)));

    let mut stack = EvmStack::new();
    stack.push(lit(7));
    stack.swap(1);
    // the top is now the caller's first slot, and that slot holds 7
    assert!(stack.pop().same(&StackValue::StackPaceHolder(1)));
    assert!(stack.pop().same(&lit(7)));
}

#[test]
fn memory_is_looked_up_by_offset_expression() {
    let mut memory = EvmMemory::new();
    memory.store(lit(0), lit(11), lit(32));
    memory.store(StackValue::Caller, lit(22), lit(32));
    memory.store(lit(0), lit(33), lit(32));
    assert!(memory.retrive(lit(0), lit(32)).unwrap().same(&lit(33)));
    assert!(memory.retrive(StackValue::Caller, lit(32)).unwrap().same(&lit(22)));
    assert!(memory
        .retrive(lit(64), lit(32))
        .unwrap()
        .same(&StackValue::MemoryPlaceHolder(b(lit(64)), b(lit(32)))));
}

#[test]
fn memory_window_lists_the_entries_inside_newest_first() {
    let mut memory = EvmMemory::new();
    memory.store(lit(0), lit(11), lit(32));
    memory.store(lit(32), lit(22), lit(32));
    memory.store(lit(64), lit(33), lit(32));
    memory.store(StackValue::Caller, lit(44), lit(32));
    let window = memory.retrive_array(Word::from_u64(0), Word::from_u64(64));
    assert_eq!(window.len(), 2);
    assert_eq!(window[0].0, 32);
    assert!(window[0].1.same(&lit(22)));
    assert_eq!(window[1].0, 0);
    assert!(window[1].1.same(&lit(11)));
    let window = memory.retrive_array(Word::from_u64(32), Word::from_u64(32));
    assert_eq!(window.len(), 1);
    assert_eq!(window[0].0, 32);
    // a window that ends at the top of the address space holds nothing that lies lower
    let max = Word { w0: u64::MAX, w1: u64::MAX, w2: u64::MAX, w3: u64::MAX };
    assert_eq!(memory.retrive_array(max, Word::from_u64(64)).len(), 0);
}

#[test]
fn jump_is_recorded_as_an_edge_and_ends_the_block() {
    // PUSH1 0x04; JUMP; STOP; JUMPDEST; STOP
    let code = [0x60, 0x04, 0x56, 0x00, 0x5b, 0x00];
    let f = run(&code, 0);
    assert!(f.ended);
    assert_eq!(f.pc, 3);
    assert_eq!(f.internal_calls.len(), 1);
    assert!(f.internal_calls[0].0.same(&lit(4)));
    assert!(f.internal_calls[0].3.is_none());
}

#[test]
fn jumpi_is_recorded_with_its_condition_and_goes_on() {
    // PUSH1 1; PUSH1 0x07; JUMPI; PUSH1 0; SLOAD; STOP; JUMPDEST; STOP
    let code = [0x60, 0x01, 0x60, 0x07, 0x57, 0x60, 0x00, 0x54, 0x00, 0x5b, 0x00];
    let f = run(&code, 0);
    assert_eq!(f.internal_calls.len(), 1);
    assert!(f.internal_calls[0].0.same(&lit(7)));
    assert!(f.internal_calls[0].3.as_ref().unwrap().same(&lit(1)));
    assert!(f.storage_access_read.contains(&lit(0)));
    assert!(f.ended);
}

#[test]
fn revert_voids_the_effects() {
    // PUSH1 0; SLOAD; PUSH1 1; PUSH1 2; SSTORE; REVERT
    let code = [0x60, 0x00, 0x54, 0x60, 0x01, 0x60, 0x02, 0x55, 0xfd];
    let f = run(&code, 0);
    assert!(f.ended);
    assert_eq!(f.storage_access_read.len(), 0);
    assert_eq!(f.storage_access_write.len(), 0);
    assert_eq!(f.external_calls.len(), 0);
}

#[test]
fn return_records_the_area() {
    // PUSH1 0x20; PUSH1 0x40; RETURN
    let code = [0x60, 0x20, 0x60, 0x40, 0xf3];
    let f = run(&code, 0);
    assert!(f.ended);
    let area = f.return_value.as_ref().unwrap();
    assert!(area.0.same(&lit(0x20)));
    assert!(area.1.same(&lit(0x40)));
}

#[test]
fn unknown_opcode_and_end_of_code_end_the_block() {
    let code = [0x60, 0x01, 0x0c];
    let f = run(&code, 0);
    assert!(f.ended);
    let code = [0x60, 0x01];
    let f = run(&code, 0);
    assert!(f.ended);
    assert_eq!(f.pc, 2);
    let f = run(&[], 0);
    assert!(f.ended);
}

#[test]
fn truncated_push_takes_what_is_there() {
    // PUSH2 with one byte of data
    let code = [0x61, 0xab];
    let mut f = run(&code, 0);
    assert!(f.stack.pop().same(&lit(0xab)));
    assert!(f.ended);
}

#[test]
fn codecopy_captures_a_window_of_the_code() {
    // PUSH1 2 (length); PUSH1 1 (offset); PUSH1 0 (dest); CODECOPY; STOP
    let code = [0x60, 0x02, 0x60, 0x01, 0x60, 0x00, 0x39, 0x00];
    let f = run(&code, 0);
    let stored = f.memory.retrive(lit(0), lit(2)).unwrap();
    assert!(stored.same(&StackValue::CodeSection(vec![0x02, 0x60])));
    // a window that leaves the code stays symbolic
    let code = [0x60, 0x09, 0x60, 0x01, 0x60, 0x00, 0x39, 0x00];
    let f = run(&code, 0);
    let stored = f.memory.retrive(lit(0), lit(9)).unwrap();
    assert!(stored.same(&StackValue::CodeCopy(b(lit(1)), b(lit(9)))));
}

#[test]
fn call_records_target_and_call_data() {
    // MSTORE call data 0x34 at 0, then CALL with target 0x78
    // PUSH1 0x34; PUSH1 0; MSTORE; PUSH1 0 (out size); PUSH1 0 (out offset); PUSH1 0x20 (in size);
    // PUSH1 0 (in offset); PUSH1 0 (value); PUSH1 0x78 (target); GAS; CALL; STOP
    let code = [
        0x60, 0x34, 0x60, 0x00, 0x52, 0x60, 0x00, 0x60, 0x00, 0x60, 0x20, 0x60, 0x00, 0x60, 0x00,
        0x60, 0x78, 0x5a, 0xf1, 0x00,
    ];
    let f = run(&code, 0);
    assert_eq!(f.external_calls.len(), 1);
    assert!(f.external_calls.contains(&(lit(0x78), lit(0x34))));
}

#[test]
fn sha3_hashes_the_window_or_gives_up() {
    // PUSH1 7; PUSH1 0; MSTORE; PUSH1 0x20; PUSH1 0; SHA3; STOP
    let code = [0x60, 0x07, 0x60, 0x00, 0x52, 0x60, 0x20, 0x60, 0x00, 0x20, 0x00];
    let mut f = run(&code, 0);
    assert!(f.stack.pop().same(&StackValue::Sha3(vec![(0, lit(7))])));
    // CALLER; CALLER; SHA3: no concrete window
    let code = [0x33, 0x33, 0x20, 0x00];
    let mut f = run(&code, 0);
    assert!(f.stack.pop().same(&StackValue::Unknown));
}

#[test]
fn dup_and_pc_and_log() {
    // PUSH1 5; DUP1; PC; LOG0; STOP
    let code = [0x60, 0x05, 0x80, 0x58, 0xa0, 0x00];
    let mut f = run(&code, 0);
    // LOG0 took the program counter and the copy
    assert!(f.stack.pop().same(&lit(5)));
    assert_eq!(f.stack.deficit(), 0);
    assert!(f.stack.pop().same(&StackValue::StackPaceHolder(1)));
}

#[test]
fn single_instructions_work_on_the_block() {
    let code = [0x00];
    let mut f = EvmFunction::new(0, &code);
    let mut logger = NoLogger();
    f.caller(&mut logger);
    f.callvalue(&mut logger);
    f.lt(&mut logger);
    f.iszero(&mut logger);
    let top = f.stack.pop();
    assert!(top.same(&StackValue::IsZero(b(StackValue::LT(
        b(StackValue::CallValue),
        b(StackValue::Caller)
    )))));
    assert!(!f.ended);
    f.stop(&mut logger);
    assert!(f.ended);
}
