use evm_analyzer::contract_analyzer::analyze_contract;
use evm_analyzer::contract_analyzer::analyze_contract_report;
use evm_analyzer::contract_analyzer::analyze_contract_single;
use evm_analyzer::contract_analyzer::list_functions;
use evm_analyzer::contract_analyzer::resolve_function_storage;
use evm_analyzer::contract_analyzer::resolve_return_node;
use evm_analyzer::contract_analyzer::UnresolvedJump;
use evm_analyzer::contract_data::ContractMethod;
use evm_analyzer::contract_logger::NoLogger;
use evm_analyzer::contract_utils::DataType;
use evm_analyzer::cycle_resolution::CycleSolver;
use evm_analyzer::cycle_resolution::is_suffix;
use evm_analyzer::cycle_resolution::path_repeats;
use evm_analyzer::cycle_resolution::MaxIterations;
use evm_analyzer::cycle_resolution::NocycleSolver;
use evm_analyzer::evm_function::FunctionRegistry;
use evm_analyzer::evm_memory::EvmMemory;
use evm_analyzer::evm_memory::EvmStack;
use evm_analyzer::evm_types::StackValue;
use evm_analyzer::function_analyzer::single_threded_function_analyzer;
use evm_analyzer::word::Word;
use evm_analyzer::word_map::WordMap;

fn lit(n: u64) -> StackValue {
    StackValue::ActualValue(Word::from_u64(n))
}

fn field(n: u64) -> DataType {
    DataType::Field(lit(n))
}

fn registry(code: &[u8]) -> FunctionRegistry<'_> {
    let functions = list_functions(code);
    single_threded_function_analyzer(code, &functions, &mut NoLogger())
}

/// The runtime code of a contract with one method, selector 0x34, that reads and writes slot 0.
fn runtime() -> Vec<u8> {
    vec![
        0x60, 0x00, // PUSH1 0
        0x35, // CALLDATALOAD
        0x60, 0x34, // PUSH1 0x34
        0x14, // EQ
        0x60, 0x0a, // PUSH1 10
        0x57, // JUMPI
        0x00, // STOP
        0x5b, // JUMPDEST (10)
        0x60, 0x00, // PUSH1 0
        0x54, // SLOAD
        0x60, 0x00, // PUSH1 0
        0x55, // SSTORE
        0x00, // STOP
    ]
}

/// A constructor that writes slot 7 and returns `runtime()`.
fn deployment() -> Vec<u8> {
    let body = runtime();
    let mut code = vec![
        0x60, 0x01, // PUSH1 1
        0x60, 0x07, // PUSH1 7
        0x55, // SSTORE
        0x60, body.len() as u8, // PUSH1 length
        0x60, 0x11, // PUSH1 offset of the runtime code
        0x60, 0x00, // PUSH1 0
        0x39, // CODECOPY
        0x60, body.len() as u8, // PUSH1 length
        0x60, 0x00, // PUSH1 0
        0xf3, // RETURN
    ];
    assert_eq!(code.len(), 0x11);
    code.extend(body);
    code
}

#[test]
fn a_contract_is_analysed_from_its_deployment_code() {
    let code = deployment();
    let data = analyze_contract_single(&code).unwrap();
    assert_eq!(data.constructor.storage_write.len(), 1);
    assert!(data.constructor.storage_write.contains(&field(7)));
    assert_eq!(data.constructor.storage_read.len(), 0);
    assert_eq!(data.methods.len(), 1);
    let method = data.methods.get(&Word::from_u64(0x34)).unwrap();
    assert_eq!(method.storage_read.len(), 1);
    assert!(method.storage_read.contains(&field(0)));
    assert_eq!(method.storage_write.len(), 1);
    assert!(method.storage_write.contains(&field(0)));
    assert_eq!(method.method_call.len(), 0);
}

#[test]
fn code_that_returns_no_code_is_no_contract() {
    assert!(analyze_contract_single(&runtime()).is_none());
    assert!(analyze_contract_single(&[]).is_none());
    assert!(analyze_contract(&[0x00], &NocycleSolver(), &mut NoLogger()).is_none());
}

#[test]
fn the_return_walk_finds_the_runtime_code() {
    let code = deployment();
    let registry = registry(&code);
    let start = registry.get_from_address(0).unwrap();
    let found = resolve_return_node(start, &registry, Vec::new(), &NocycleSolver(), vec![0]);
    assert!(found.unwrap().same(&StackValue::CodeSection(runtime())));
}

#[test]
fn a_loop_in_the_call_graph_ends_the_walk() {
    // JUMPDEST; PUSH1 1; SLOAD; POP; PUSH1 0; JUMP: a block that jumps back to itself
    let code = [0x5b, 0x60, 0x01, 0x54, 0x50, 0x60, 0x00, 0x56];
    let registry = registry(&code);
    let start = registry.get_from_address(0).unwrap();
    let mut method = ContractMethod::new();
    let mut storage = WordMap::new();
    let mut unresolved = Vec::new();
    resolve_function_storage(
        start,
        &registry,
        Vec::new(),
        &mut method,
        false,
        &NocycleSolver(),
        &mut storage,
        vec![0],
        &mut unresolved,
    );
    assert_eq!(method.storage_read.len(), 1);
    assert!(method.storage_read.contains(&field(1)));
    assert_eq!(unresolved.len(), 0);

    // with three revisits allowed the walk ends too, with the same footprint
    let mut method = ContractMethod::new();
    resolve_function_storage(
        start,
        &registry,
        Vec::new(),
        &mut method,
        false,
        &MaxIterations(3),
        &mut storage,
        vec![0],
        &mut unresolved,
    );
    assert_eq!(method.storage_read.len(), 1);
    assert!(analyze_contract_single(&code).is_none());
}

#[test]
fn two_blocks_that_jump_to_each_other_end_the_walk() {
    // 0: JUMPDEST; PUSH1 4; JUMP; 4: JUMPDEST; PUSH1 0; JUMP
    let code = [0x5b, 0x60, 0x04, 0x56, 0x5b, 0x60, 0x00, 0x56];
    let (data, unresolved) = analyze_contract_report(&code, &NocycleSolver(), &mut NoLogger());
    assert!(data.is_none());
    assert_eq!(unresolved.len(), 0);
}

#[test]
fn an_edge_without_a_block_is_abandoned_and_reported() {
    // PUSH1 1; SLOAD; JUMP: the target is no literal.  PUSH1 9; JUMP: the target is no JUMPDEST.
    let code = [0x60, 0x01, 0x54, 0x56];
    let (data, unresolved) = analyze_contract_report(&code, &NocycleSolver(), &mut NoLogger());
    assert!(data.is_none());
    assert_eq!(unresolved, vec![UnresolvedJump { position: 0, edge: 0 }]);
    let code = [0x60, 0x09, 0x56];
    let (_, unresolved) = analyze_contract_report(&code, &NocycleSolver(), &mut NoLogger());
    assert_eq!(unresolved, vec![UnresolvedJump { position: 0, edge: 0 }]);
}

#[test]
fn callee_placeholders_are_resolved_against_the_caller() {
    // 0: PUSH1 5; PUSH1 4; JUMP   4: JUMPDEST; SLOAD; STOP   -- the callee reads the slot that the caller pushed
    let code = [0x60, 0x05, 0x60, 0x04, 0x56, 0x5b, 0x54, 0x00];
    let code = {
        let mut c = code.to_vec();
        c[3] = 0x05;
        c
    };
    let registry = registry(&code);
    let callee = registry.get_from_address(5).unwrap();
    assert!(callee.storage_access_read.contains(&StackValue::StackPaceHolder(1)));
    let start = registry.get_from_address(0).unwrap();
    let mut method = ContractMethod::new();
    let mut storage = WordMap::new();
    let mut unresolved = Vec::new();
    resolve_function_storage(
        start,
        &registry,
        Vec::new(),
        &mut method,
        false,
        &NocycleSolver(),
        &mut storage,
        vec![0],
        &mut unresolved,
    );
    assert_eq!(method.storage_read.len(), 1);
    assert!(method.storage_read.contains(&field(5)));
}

#[test]
fn the_guard_declines_a_block_on_the_stack() {
    let code = [0x00];
    let registry = registry(&code);
    let guard = NocycleSolver();
    assert!(guard.should_go(&vec![0, 4, 9], 7, 9, &registry, &None));
    assert!(!guard.should_go(&vec![0, 4, 9], 4, 9, &registry, &None));
    assert!(!guard.should_go(&vec![0, 4, 9], 0, 9, &registry, &None));
    assert!(guard.should_go(&vec![], 0, 0, &registry, &None));
    let bounded = MaxIterations(1);
    assert!(bounded.should_go(&vec![0, 4, 9], 4, 9, &registry, &None));
    assert!(!bounded.should_go(&vec![0, 4, 9, 4], 4, 4, &registry, &None));
    assert!(MaxIterations(0).should_go(&vec![0, 4, 9], 7, 9, &registry, &None));
    assert!(!MaxIterations(0).should_go(&vec![0, 4, 9], 9, 9, &registry, &None));
}

#[test]
fn a_repeated_path_is_recognised() {
    // the segment between the two 4s, [9], is the end of the stack
    assert!(path_repeats(&vec![0, 4, 9, 4, 9], 4));
    assert!(!path_repeats(&vec![0, 4, 9, 4, 5], 4));
    assert!(!path_repeats(&vec![0, 4, 9], 4));
    assert!(!path_repeats(&vec![0, 4, 9], 7));
    // an empty segment between two occurrences repeats whatever follows
    assert!(path_repeats(&vec![4, 4, 1], 4));
    assert!(is_suffix(&vec![1, 2, 3, 2, 3], 1, 3));
    assert!(!is_suffix(&vec![1, 2, 3, 2, 4], 1, 3));
    assert!(is_suffix(&vec![1, 2], 1, 1));
}

#[test]
fn the_registry_keeps_the_blocks_in_order() {
    let code = [0x5b, 0x00, 0x5b, 0x00, 0x5b, 0x00];
    let registry = registry(&code);
    assert_eq!(registry.analyzed.len(), 3);
    assert_eq!(registry.analyzed[1].position, 2);
    assert!(registry.get_from_address(4).is_some());
    assert!(registry.get_from_address(3).is_none());
    assert_eq!(registry.find(4), Some(2));
    let _: Vec<(&EvmStack, &EvmMemory)> = Vec::new();
}
