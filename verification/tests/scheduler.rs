use evm_analyzer::contract_data::ContractData;
use evm_analyzer::contract_data::ContractMethod;
use evm_analyzer::contract_utils::DataType;
use evm_analyzer::evm_types::StackValue;
use evm_analyzer::net::net_executor::enqueue_ready;
use evm_analyzer::net::netbuilder::NetBuilder;
use evm_analyzer::net::netbuilder::SubmitError;
use evm_analyzer::net::runtime_delegation::RuntimeDelegationState;
use evm_analyzer::net::transaction::Dependent;
use evm_analyzer::net::transaction::MethodType;
use evm_analyzer::net::transaction::Transaction;
use evm_analyzer::net::transaction::TransactionDataProvider;
use evm_analyzer::value_set::ValueSet;
use evm_analyzer::word::Word;
use evm_analyzer::word_map::WordMap;

pub struct MockTransaction {
    pub target: Word,
    pub method: MethodType,
}

impl TransactionDataProvider for MockTransaction {
    fn get_target_contract(&self) -> Word {
        self.target
    }
    fn get_target_method(&self) -> MethodType {
        self.method.clone()
    }
}

fn word(n: u64) -> Word {
    Word::from_u64(n)
}

fn lit(n: u64) -> StackValue {
    StackValue::ActualValue(Word::from_u64(n))
}

fn field(n: u64) -> DataType {
    DataType::Field(lit(n))
}

/// A method that reads and writes the given slots and calls, with an unknown target, the given selectors.
fn method(reads: &[u64], writes: &[u64], calls: &[u64]) -> ContractMethod {
    let mut m = ContractMethod::new();
    let mut readaccess = ValueSet::new();
    for r in reads {
        readaccess.insert(field(*r));
    }
    m.access_read(readaccess);
    let mut writeaccess = ValueSet::new();
    for w in writes {
        writeaccess.insert(field(*w));
    }
    m.access_write(writeaccess);
    let mut called = ValueSet::new();
    for c in calls {
        called.insert((StackValue::SLoad(Box::from(lit(0))), lit(*c)));
    }
    m.method_calls(called);
    m
}

/// A contract from (selector, method) pairs; selector 0 stands for the constructor.
fn contract_data(methods: Vec<(u64, ContractMethod)>) -> ContractData {
    let mut contract = ContractData::new();
    for (selector, m) in methods {
        if selector == 0 {
            contract.set_constructor(m);
        } else {
            let slot = contract.get_method(word(selector));
            slot.access_read(m.storage_read.duplicate());
            slot.access_write(m.storage_write.duplicate());
            slot.method_calls(m.method_call.duplicate());
        }
    }
    contract
}

fn transaction(target: u64, method: u64) -> MockTransaction {
    MockTransaction {
        target: word(target),
        method: if method == 0 { MethodType::Constructor } else { MethodType::Method(word(method)) },
    }
}

fn contract1() -> ContractData {
    let constructor = ContractMethod::new();
    let mut method1 = ContractMethod::new();
    let mut read = ValueSet::<DataType>::new();
    read.insert(DataType::Field(StackValue::ActualValue(Word::from_u64(0))));
    method1.access_read(read.duplicate());
    method1.access_write(read);
    let mut methods = WordMap::<ContractMethod>::new();
    methods.insert(Word::from_u64(34), method1);
    ContractData { constructor, methods }
}

fn contract2() -> ContractData {
    let mut constructor = ContractMethod::new();
    let mut calls = ValueSet::new();
    calls.insert((StackValue::CodeSize, StackValue::ActualValue(Word::from_u64(34))));
    constructor.method_call = calls;

    let mut method1 = ContractMethod::new();
    let mut read = ValueSet::<DataType>::new();
    read.insert(DataType::Field(StackValue::ActualValue(Word::from_u64(0))));
    method1.access_read(read.duplicate());
    method1.access_write(read);
    let mut methods = WordMap::<ContractMethod>::new();
    methods.insert(Word::from_u64(72), method1);

    ContractData { constructor, methods }
}

fn edges(builder: &NetBuilder, from: usize) -> Vec<usize> {
    builder.net.transactions[from].dependencies.iter().map(|d| d.id).collect()
}

#[test]
fn test_simple_net_building() {
    let mut builder = NetBuilder::new();
    let c1 = contract1();
    builder.register_contract(Word::from_u64(120), c1);
    let transaction = MockTransaction {
        target: Word::from_u64(120),
        method: MethodType::Method(Word::from_u64(34)),
    };
    // no constructor transaction was submitted for the contract
    assert_eq!(builder.new_transaction(&transaction), Err(SubmitError::MissingConstructorTransaction));
    let transaction2 = MockTransaction {
        target: Word::from_u64(120),
        method: MethodType::Method(Word::from_u64(34)),
    };
    assert_eq!(builder.new_transaction(&transaction2), Err(SubmitError::MissingConstructorTransaction));
    assert_eq!(builder.net.transactions.len(), 0);
}

#[test]
fn test_net_building_2() {
    let mut builder = NetBuilder::new();
    let c1 = contract1();
    builder.register_contract(Word::from_u64(120), c1);
    let c2 = contract2();
    builder.register_contract(Word::from_u64(765), c2);

    let transaction = MockTransaction {
        target: Word::from_u64(120),
        method: MethodType::Constructor,
    };
    assert_eq!(builder.new_transaction(&transaction), Ok(0));

    let transaction2 = MockTransaction {
        target: Word::from_u64(120),
        method: MethodType::Method(Word::from_u64(34)),
    };
    assert_eq!(builder.new_transaction(&transaction2), Ok(1));

    let transaction3 = MockTransaction {
        target: Word::from_u64(765),
        method: MethodType::Constructor,
    };
    assert_eq!(builder.new_transaction(&transaction3), Ok(2));

    let transaction4 = MockTransaction {
        target: Word::from_u64(765),
        method: MethodType::Method(Word::from_u64(72)),
    };
    assert_eq!(builder.new_transaction(&transaction4), Ok(3));

    // the method waits for the constructor of its contract
    assert_eq!(edges(&builder, 0), vec![1, 2]);
    // the constructor of the second contract runs method 34 of the first: it waits for that
    // contract's constructor and for the earlier run of the method
    assert_eq!(edges(&builder, 1), vec![2]);
    assert_eq!(edges(&builder, 2), vec![3]);
    assert_eq!(builder.net.transactions[0].count, 0);
    assert_eq!(builder.net.transactions[1].count, 1);
    assert_eq!(builder.net.transactions[2].count, 2);
    assert_eq!(builder.net.transactions[3].count, 1);
    assert_eq!(builder.zero_deps, vec![0]);
    assert_eq!(builder.runtime_dependent.len(), 0);
}

#[test]
fn full_test() {
    let mut builder = NetBuilder::new();

    builder.register_contract(
        word(10),
        contract_data(vec![
            (0, method(&[0, 1], &[0, 1], &[])),
            (0x43, method(&[0], &[0], &[])),
            (0x345, method(&[1], &[1], &[])),
            (0x2347, method(&[0, 1], &[0, 1], &[])),
        ]),
    );
    assert_eq!(builder.new_transaction(&transaction(10, 0)), Ok(0));
    assert_eq!(builder.new_transaction(&transaction(10, 0x43)), Ok(1));
    assert_eq!(builder.new_transaction(&transaction(10, 0x2347)), Ok(2));
    assert_eq!(builder.new_transaction(&transaction(10, 0x345)), Ok(3));
    builder.register_contract(
        word(15),
        contract_data(vec![
            (0, method(&[2, 1, 4], &[2, 1, 3], &[])),
            (0x57, method(&[0], &[0, 1], &[])),
            (0x96, method(&[1, 0], &[1], &[0x2347])),
            (0x2147, method(&[0, 1], &[0, 1], &[])),
        ]),
    );
    assert_eq!(builder.new_transaction(&transaction(15, 0)), Ok(4));
    assert_eq!(builder.new_transaction(&transaction(15, 0x57)), Ok(5));
    assert_eq!(builder.new_transaction(&transaction(10, 0x345)), Ok(6));
    assert_eq!(builder.new_transaction(&transaction(15, 0x96)), Ok(7));

    assert_eq!(builder.zero_deps, vec![0, 4]);
    assert_eq!(builder.runtime_dependent.len(), 0);
    // every edge leads to a transaction submitted later
    for (from, t) in builder.net.transactions.iter().enumerate() {
        assert_eq!(t.id, from);
        for d in &t.dependencies {
            assert!(from < d.id);
            assert!(!d.conservative);
        }
    }
    // each transaction counts the edges that lead to it
    for (to, t) in builder.net.transactions.iter().enumerate() {
        let incoming =
            builder.net.transactions.iter().filter(|p| p.dependencies.iter().any(|d| d.id == to)).count();
        assert_eq!(t.count, incoming);
    }
    // slot 1 of contract 10: written by 0, 2, 3, 6 and, through the call of 0x2347, by 7
    assert_eq!(edges(&builder, 3), vec![6, 7]);
    assert_eq!(edges(&builder, 6), vec![7]);
    // the last transaction waits for the constructors of both contracts
    assert!(edges(&builder, 0).contains(&7));
    assert!(edges(&builder, 4).contains(&7));
}

#[test]
fn a_reader_waits_for_the_writer() {
    let mut builder = NetBuilder::new();
    builder.register_contract(
        word(1),
        contract_data(vec![(0x11, method(&[], &[5], &[])), (0x22, method(&[5], &[], &[])), (0x33, method(&[6], &[], &[]))]),
    );
    assert_eq!(builder.submit(word(1), MethodType::Constructor), Ok(0));
    assert_eq!(builder.submit(word(1), MethodType::Method(word(0x11))), Ok(1));
    assert_eq!(builder.submit(word(1), MethodType::Method(word(0x22))), Ok(2));
    assert_eq!(builder.submit(word(1), MethodType::Method(word(0x33))), Ok(3));
    assert_eq!(edges(&builder, 1), vec![2]);
    assert_eq!(builder.net.transactions[2].count, 2);
    assert_eq!(builder.net.transactions[3].count, 1);
    assert_eq!(builder.zero_deps, vec![0]);

    // the reader is not ready before the writer has ended
    let (mut net, ready) = builder.finalize();
    assert_eq!(ready, vec![0]);
    let mut queue = Vec::new();
    enqueue_ready(&mut net, &mut queue, 0);
    assert_eq!(queue, vec![1, 3]);
    enqueue_ready(&mut net, &mut queue, 3);
    assert_eq!(queue, vec![1, 3]);
    enqueue_ready(&mut net, &mut queue, 1);
    assert_eq!(queue, vec![1, 3, 2]);
    // a transaction ends once
    assert_eq!(Transaction::ended(&mut net, 1), Vec::<usize>::new());
    assert_eq!(Transaction::ended(&mut net, 99), Vec::<usize>::new());
    assert_eq!(Transaction::ended(&mut net, 2), Vec::<usize>::new());
}

#[test]
fn a_writer_waits_for_readers_and_writers() {
    let mut builder = NetBuilder::new();
    builder.register_contract(
        word(1),
        contract_data(vec![(0x11, method(&[5], &[], &[])), (0x22, method(&[], &[5], &[]))]),
    );
    builder.submit(word(1), MethodType::Constructor).unwrap();
    builder.submit(word(1), MethodType::Method(word(0x11))).unwrap();
    builder.submit(word(1), MethodType::Method(word(0x11))).unwrap();
    builder.submit(word(1), MethodType::Method(word(0x22))).unwrap();
    builder.submit(word(1), MethodType::Method(word(0x22))).unwrap();
    // two readers do not wait for each other
    assert_eq!(edges(&builder, 1), vec![3, 4]);
    assert_eq!(edges(&builder, 2), vec![3, 4]);
    // a writer waits for the readers and for the writer before it
    assert_eq!(edges(&builder, 3), vec![4]);
    assert_eq!(builder.net.transactions[3].count, 3);
    // the second writer waits for both readers too: a writer is recorded as a reader
    assert_eq!(builder.net.transactions[4].count, 4);
}

#[test]
fn refused_transactions_leave_no_trace() {
    let mut builder = NetBuilder::new();
    builder.register_contract(word(1), contract_data(vec![(0x11, method(&[5], &[], &[]))]));
    assert_eq!(builder.submit(word(2), MethodType::Constructor), Err(SubmitError::UnknownContract));
    assert_eq!(builder.submit(word(2), MethodType::Method(word(0x11))), Err(SubmitError::UnknownContract));
    assert_eq!(builder.submit(word(1), MethodType::Method(word(0x12))), Err(SubmitError::UnknownMethod));
    assert_eq!(
        builder.submit(word(1), MethodType::Method(word(0x11))),
        Err(SubmitError::MissingConstructorTransaction)
    );
    assert_eq!(builder.net.transactions.len(), 0);
    assert_eq!(builder.submit(word(1), MethodType::Constructor), Ok(0));
    assert_eq!(builder.submit(word(1), MethodType::Method(word(0x11))), Ok(1));
}

#[test]
fn a_resolvable_call_is_inlined() {
    // contract A: method 0x34 reads and writes slot 0.  Contract B: the constructor calls A's 0x34.
    let mut builder = NetBuilder::new();
    builder.register_contract(word(120), contract_data(vec![(0x34, method(&[0], &[0], &[]))]));
    let mut constructor = ContractMethod::new();
    constructor.push_external_call((lit(120), lit(0x34)));
    let mut b = ContractData::new();
    b.set_constructor(constructor);
    builder.register_contract(word(765), b);

    assert_eq!(builder.submit(word(120), MethodType::Constructor), Ok(0));
    assert_eq!(builder.submit(word(765), MethodType::Constructor), Ok(1));
    assert_eq!(builder.submit(word(120), MethodType::Method(word(0x34))), Ok(2));
    // B's constructor must precede the later transaction on slot 0
    assert_eq!(edges(&builder, 1), vec![2]);
    assert_eq!(edges(&builder, 0), vec![1, 2]);
    assert_eq!(builder.net.transactions[1].count, 1);
    assert_eq!(builder.net.transactions[2].count, 2);
    assert_eq!(builder.runtime_dependent.len(), 0);
}

#[test]
fn too_many_candidates_delegate_to_runtime() {
    let mut builder = NetBuilder::new();
    builder.threshold = 2;
    builder.register_contract(word(1), contract_data(vec![(0x34, method(&[0], &[0], &[]))]));
    builder.register_contract(word(2), contract_data(vec![(0x34, method(&[0], &[0], &[]))]));
    builder.register_contract(word(3), contract_data(vec![(0x50, method(&[], &[], &[0x34])), (0x60, method(&[9], &[], &[]))]));
    for c in [1u64, 2, 3] {
        builder.submit(word(c), MethodType::Constructor).unwrap();
    }
    // two contracts have a method 0x34: not fewer than the threshold
    assert_eq!(builder.submit(word(3), MethodType::Method(word(0x50))), Ok(3));
    assert_eq!(builder.runtime_dependent, vec![3]);
    // every later transaction waits for the delegated one by a conservative edge
    assert_eq!(builder.submit(word(3), MethodType::Method(word(0x60))), Ok(4));
    assert_eq!(
        builder.net.transactions[3].dependencies,
        vec![Dependent { id: 4, conservative: true }]
    );
    assert_eq!(builder.net.transactions[4].count, 2);

    // with a higher threshold the call fans out into both contracts
    let mut builder = NetBuilder::new();
    builder.threshold = 3;
    builder.register_contract(word(1), contract_data(vec![(0x34, method(&[0], &[0], &[]))]));
    builder.register_contract(word(2), contract_data(vec![(0x34, method(&[0], &[0], &[]))]));
    builder.register_contract(word(3), contract_data(vec![(0x50, method(&[], &[], &[0x34]))]));
    for c in [1u64, 2, 3] {
        builder.submit(word(c), MethodType::Constructor).unwrap();
    }
    assert_eq!(builder.submit(word(3), MethodType::Method(word(0x50))), Ok(3));
    assert_eq!(builder.runtime_dependent.len(), 0);
    assert_eq!(builder.net.transactions[3].count, 3);
    assert_eq!(builder.submit(word(1), MethodType::Method(word(0x34))), Ok(4));
    assert_eq!(edges(&builder, 3), vec![4]);
}

#[test]
fn an_address_that_does_not_fold_delegates_to_runtime() {
    let mut builder = NetBuilder::new();
    let mut m = ContractMethod::new();
    m.push_read_location(DataType::Unknown(StackValue::Caller));
    let mut c = ContractData::new();
    *c.get_method(word(0x11)) = m;
    builder.register_contract(word(1), c);
    builder.submit(word(1), MethodType::Constructor).unwrap();
    assert_eq!(builder.submit(word(1), MethodType::Method(word(0x11))), Ok(1));
    assert_eq!(builder.runtime_dependent, vec![1]);
    let (net, _) = builder.finalize();
    assert_eq!(
        net.transactions[1].runtime,
        Some(RuntimeDelegationState { contracthash: word(1), methodhash: word(0x11) })
    );
    assert!(net.transactions[0].runtime.is_none());
}

#[test]
fn runtime_correction_releases_what_does_not_conflict() {
    let mut builder = NetBuilder::new();
    builder.register_contract(
        word(1),
        contract_data(vec![
            // a call whose call data does not fold: the footprint is not known before the run
            (0x50, {
                let mut m = ContractMethod::new();
                m.push_external_call((StackValue::Caller, StackValue::CallValue));
                m
            }),
            (0x60, method(&[7], &[], &[])),
            (0x70, method(&[], &[8], &[])),
            (0x80, method(&[], &[7], &[])),
        ]),
    );
    assert_eq!(builder.submit(word(1), MethodType::Constructor), Ok(0));
    assert_eq!(builder.submit(word(1), MethodType::Method(word(0x50))), Ok(1));
    assert_eq!(builder.submit(word(1), MethodType::Method(word(0x60))), Ok(2));
    assert_eq!(builder.submit(word(1), MethodType::Method(word(0x70))), Ok(3));
    assert_eq!(builder.runtime_dependent, vec![1]);
    assert_eq!(
        builder.net.transactions[1].dependencies,
        vec![Dependent { id: 2, conservative: true }, Dependent { id: 3, conservative: true }]
    );
    assert_eq!(builder.net.transactions[2].count, 2);
    assert_eq!(builder.net.transactions[3].count, 2);
    let (mut net, ready) = builder.finalize();
    assert_eq!(ready, vec![0]);
    assert_eq!(Transaction::ended(&mut net, 0), vec![1]);

    // the delegated transaction turns out to call method 0x80, which writes slot 7:
    // transaction 2 reads slot 7 and goes on waiting, transaction 3 is released
    let freed = Transaction::resolve_runtime(&mut net, 1, word(1), word(0x80), 10);
    assert_eq!(freed, vec![3]);
    assert_eq!(net.transactions[3].count, 0);
    assert_eq!(net.transactions[2].count, 1);
    assert_eq!(net.transactions[1].dependencies, vec![Dependent { id: 2, conservative: true }]);
    // a correction happens once: nothing is left to release
    assert_eq!(Transaction::resolve_runtime(&mut net, 1, word(1), word(0x80), 10), Vec::<usize>::new());
    assert_eq!(net.transactions[3].count, 0);
    // no correction for a transaction that was not delegated, or for an unknown method
    assert_eq!(Transaction::resolve_runtime(&mut net, 2, word(1), word(0x80), 10), Vec::<usize>::new());
    assert_eq!(Transaction::resolve_runtime(&mut net, 1, word(1), word(0x99), 10), Vec::<usize>::new());
    assert_eq!(Transaction::ended(&mut net, 1), vec![2]);
}

#[test]
fn the_graph_has_no_cycle() {
    let mut builder = NetBuilder::new();
    builder.register_contract(
        word(1),
        contract_data(vec![(0x11, method(&[1, 2], &[2, 3], &[])), (0x22, method(&[3], &[1], &[]))]),
    );
    builder.submit(word(1), MethodType::Constructor).unwrap();
    for i in 0..6u64 {
        let selector = if i % 2 == 0 { 0x11 } else { 0x22 };
        builder.submit(word(1), MethodType::Method(word(selector))).unwrap();
    }
    let (mut net, ready) = builder.finalize();
    // draining the graph from the ready transactions runs every transaction once
    let mut queue = ready;
    let mut next = 0;
    while next < queue.len() {
        let id = queue[next];
        for p in &net.transactions {
            if p.dependencies.iter().any(|d| d.id == id) {
                assert!(p.finished);
            }
        }
        enqueue_ready(&mut net, &mut queue, id);
        next += 1;
    }
    let mut order = queue.clone();
    order.sort();
    assert_eq!(order, vec![0, 1, 2, 3, 4, 5, 6]);
}

#[test]
fn transactions_record_their_edges_once() {
    let mut t = Transaction::new(3);
    assert!(t.required_by(5, true));
    assert!(!t.required_by(5, true));
    assert_eq!(t.dependencies, vec![Dependent { id: 5, conservative: true }]);
    // an edge with a reason of its own is conservative no more
    assert!(!t.required_by(5, false));
    assert_eq!(t.dependencies, vec![Dependent { id: 5, conservative: false }]);
    assert!(!t.required_by(5, true));
    assert_eq!(t.dependencies, vec![Dependent { id: 5, conservative: false }]);
    assert!(t.required_by(4, false));
    assert!(t.release(5));
    assert!(!t.release(5));
    assert_eq!(t.dependencies, vec![Dependent { id: 4, conservative: false }]);
    t.wait_for(2);
    assert!(!t.stop_waiting());
    assert!(t.stop_waiting());
    assert_eq!(t.count, 0);
}
