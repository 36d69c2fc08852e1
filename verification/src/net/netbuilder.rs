//! Building the graph of transactions from the footprints of contracts.
//!
//! A transaction waits for every earlier transaction that wrote what it
//! reads or writes, and for every earlier transaction that read what it
//! writes.  The storage index of each contract records, address by
//! address, which transactions read and which wrote.

use vstd::prelude::*;
use crate::contract_data::ContractData;
use crate::contract_data::ContractMethod;
use crate::contract_utils::DataModel;
use crate::net::footprints::Pair;
use crate::net::footprints::collect;
use crate::net::footprints::data_wf;
use crate::net::footprints::footprint;
use crate::net::footprints::footprint_of;
use crate::net::footprints::is_closure;
use crate::net::footprints::known;
use crate::net::footprints::lost_upto;
use crate::net::runtime_delegation::RuntimeDelegationState;
use crate::net::transaction::DependencyNet;
use crate::net::transaction::MethodType;
use crate::net::transaction::Transaction;
use crate::net::transaction::TransactionDataProvider;
use crate::net::transaction::TxModel;
use crate::net::transaction::fresh;
use crate::net::transaction::graph_ok;
use crate::net::transaction::graph_wf;
use crate::net::transaction::lemma_pending_change;
use crate::net::transaction::lemma_waits_for_unfinished;
use crate::net::transaction::pending;
use crate::net::transaction::has_edge;
use crate::net::transaction::link;
use crate::net::transaction::linked;
use crate::net::transaction::push_transaction;
use crate::net::transaction::tx_models;
use crate::word::Word;
use crate::word_map::WordMap;

verus! {

/// The transactions that a map of lists records at an address.
pub open spec fn recorded(lists: Map<Word, Vec<usize>>, address: Word) -> Set<usize> {
    if lists.contains_key(address) {
        lists[address]@.to_set()
    } else {
        Set::empty()
    }
}

/// The scheduling index of one contract: the transaction that constructs
/// it, and for each storage address the transactions that wrote and that
/// read it, in the order of their submission.
#[derive(Debug)]
pub struct ContractStorage {
    pub contructor_transition: Option<usize>,
    pub storage_write: WordMap<Vec<usize>>,
    pub storage_read: WordMap<Vec<usize>>,
}

/// Adds a transaction to the list at an address.
pub fn record(lists: &mut WordMap<Vec<usize>>, address: Word, transaction: usize)
    requires
        old(lists).wf(),
    ensures
        final(lists).wf(),
        forall|a: Word|
            #[trigger] recorded(final(lists)@, a) == (if a == address {
                recorded(old(lists)@, a).insert(transaction)
            } else {
                recorded(old(lists)@, a)
            }),
{
    let ghost before = lists@;
    if lists.contains_key(&address) {
        let list = lists.get_mut(&address).unwrap();
        let ghost was = list@;
        list.push(transaction);
        proof {
            was.lemma_push_to_set_commute(transaction);
        }
    } else {
        let mut list: Vec<usize> = Vec::new();
        list.push(transaction);
        assert(list@ =~= Seq::<usize>::empty().push(transaction));
        proof {
            Seq::<usize>::empty().lemma_push_to_set_commute(transaction);
            assert(Seq::<usize>::empty().to_set() =~= Set::<usize>::empty());
        }
        lists.insert(address, list);
    }
    assert forall|a: Word|
        #[trigger] recorded(lists@, a) == (if a == address {
            recorded(before, a).insert(transaction)
        } else {
            recorded(before, a)
        }) by {
        if a == address {
            assert(recorded(lists@, a) =~= recorded(before, a).insert(transaction));
        }
    }
}

impl ContractStorage {
    /// Neither index holds an address twice.
    pub open spec fn wf(&self) -> bool {
        self.storage_write.wf() && self.storage_read.wf()
    }

    /// The transactions recorded as writers of an address.
    pub open spec fn writers(&self, address: Word) -> Set<usize> {
        recorded(self.storage_write@, address)
    }

    /// The transactions recorded as readers of an address.
    pub open spec fn readers(&self, address: Word) -> Set<usize> {
        recorded(self.storage_read@, address)
    }

    /// Whether every recorded transaction has a number below `bound`.
    pub open spec fn below(&self, bound: nat) -> bool {
        &&& forall|a: Word, t: usize| #[trigger] self.writers(a).contains(t) ==> t < bound
        &&& forall|a: Word, t: usize| #[trigger] self.readers(a).contains(t) ==> t < bound
        &&& self.contructor_transition matches Some(t) ==> t < bound
    }

    /// The index of a contract that no transaction has touched: no
    /// transaction constructs it, and no address has a list.
    pub fn new() -> (r: Self)
        ensures
            r.wf(),
            r.contructor_transition is None,
            r.storage_write@ == Map::<Word, Vec<usize>>::empty(),
            r.storage_read@ == Map::<Word, Vec<usize>>::empty(),
            r.storage_write.keys() == Seq::<Word>::empty(),
            r.storage_read.keys() == Seq::<Word>::empty(),
            forall|a: Word| r.writers(a) == Set::<usize>::empty(),
            forall|a: Word| r.readers(a) == Set::<usize>::empty(),
    {
        ContractStorage {
            storage_write: WordMap::new(),
            storage_read: WordMap::new(),
            contructor_transition: None,
        }
    }
}

/// Whether an edge leads from transaction `p` to transaction `d`.
pub open spec fn edge(txs: Seq<TxModel>, p: usize, d: usize) -> bool {
    has_edge(txs, p as int, d)
}

/// The mark of the edge from `p` to `d`.
pub open spec fn mark(txs: Seq<TxModel>, p: usize, d: usize) -> bool {
    txs[p as int].edges[d]
}

/// Whether graph `b` is graph `a` with an edge from each of `sources` to
/// transaction `tx`.  An edge that is new has the mark `conservative`; one
/// that stood already keeps the mark of a conservative edge only where the
/// new one has it too.  Nothing else differs but the count of `tx`.
pub open spec fn extended(
    a: Seq<TxModel>,
    b: Seq<TxModel>,
    tx: usize,
    sources: Set<usize>,
    conservative: bool,
) -> bool {
    &&& a.len() == b.len()
    &&& forall|p: int|
        0 <= p < a.len() ==> (#[trigger] b[p]).finished == a[p].finished && b[p].runtime
            == a[p].runtime
    &&& forall|p: int| 0 <= p < a.len() && p != tx ==> (#[trigger] b[p]).count == a[p].count
    &&& forall|p: usize, d: usize|
        #[trigger] edge(b, p, d) <==> edge(a, p, d) || (d == tx && p < a.len() && sources.contains(p))
    &&& forall|p: usize, d: usize|
        edge(b, p, d) ==> #[trigger] mark(b, p, d) == (if d == tx && sources.contains(p) {
            conservative && (edge(a, p, d) ==> mark(a, p, d))
        } else {
            mark(a, p, d)
        })
}

/// A graph is itself with no edge added.
pub proof fn lemma_extended_by_nothing(a: Seq<TxModel>, tx: usize, conservative: bool)
    ensures
        extended(a, a, tx, Set::empty(), conservative),
{
}

/// Whether none of the transactions has ended.
pub open spec fn none_finished(txs: Seq<TxModel>) -> bool {
    forall|p: int| 0 <= p < txs.len() ==> !(#[trigger] txs[p]).finished
}

/// Whether none of the transactions is marked as delegated to runtime.
pub open spec fn none_marked(txs: Seq<TxModel>) -> bool {
    forall|p: int| 0 <= p < txs.len() ==> (#[trigger] txs[p]).runtime is None
}

/// Lets transaction `tx` wait for each transaction of `list` but itself.
pub fn link_all(transactions: &mut Vec<Transaction>, list: &Vec<usize>, tx: usize, conservative: bool)
    requires
        graph_ok(old(transactions)@),
        tx < old(transactions)@.len(),
        forall|i: int| 0 <= i < list@.len() ==> list@[i] <= tx,
        none_finished(tx_models(old(transactions)@)),
    ensures
        graph_ok(final(transactions)@),
        none_finished(tx_models(final(transactions)@)),
        extended(
            tx_models(old(transactions)@),
            tx_models(final(transactions)@),
            tx,
            list@.to_set().remove(tx),
            conservative,
        ),
{
    let ghost start = tx_models(transactions@);
    let mut i: usize = 0;
    assert(list@.take(0).to_set().remove(tx) =~= Set::<usize>::empty());
    while i < list.len()
        invariant
            i <= list.len(),
            tx < transactions@.len(),
            graph_ok(transactions@),
            none_finished(start),
            forall|k: int| 0 <= k < list@.len() ==> list@[k] <= tx,
            extended(
                start,
                tx_models(transactions@),
                tx,
                list@.take(i as int).to_set().remove(tx),
                conservative,
            ),
        decreases list.len() - i,
    {
        let p = list[i];
        let ghost before = tx_models(transactions@);
        let ghost done = list@.take(i as int).to_set().remove(tx);
        proof {
            list@.take(i as int).lemma_push_to_set_commute(p);
            assert(list@.take(i + 1) =~= list@.take(i as int).push(p));
        }
        if p != tx {
            assert(before[p as int].finished == start[p as int].finished);
            assert(transactions@[p as int]@ == before[p as int]);
            link(transactions, p, tx, conservative);
            proof {
                let after = tx_models(transactions@);
                assert(list@.take(i + 1).to_set().remove(tx) =~= done.insert(p));
                lemma_extended_step(start, before, after, tx, done, p, conservative);
            }
        } else {
            assert(list@.take(i + 1).to_set().remove(tx) =~= done);
        }
        i += 1;
    }
    assert(list@.take(list@.len() as int) =~= list@);
    proof {
        let last = tx_models(transactions@);
        assert forall|p: int| 0 <= p < last.len() implies !(#[trigger] last[p]).finished by {
            assert(!start[p].finished);
        }
    }
}

/// A new edge changes the graph at its two ends alone.
pub proof fn lemma_linked(b: Seq<TxModel>, p: usize, tx: usize, conservative: bool)
    requires
        p < tx < b.len(),
    ensures
        ({
            let c = linked(b, p as int, tx, conservative);
            &&& c.len() == b.len()
            &&& forall|q: int|
                0 <= q < b.len() ==> (#[trigger] c[q]).finished == b[q].finished && c[q].runtime
                    == b[q].runtime
            &&& forall|q: int| 0 <= q < b.len() && q != tx ==> (#[trigger] c[q]).count == b[q].count
            &&& forall|q: usize, d: usize| #[trigger] edge(c, q, d) <==> edge(b, q, d) || (q == p && d == tx)
            &&& forall|q: usize, d: usize|
                edge(c, q, d) ==> #[trigger] mark(c, q, d) == (if q == p && d == tx {
                    conservative && (edge(b, q, d) ==> mark(b, q, d))
                } else {
                    mark(b, q, d)
                })
        }),
{
    let c = linked(b, p as int, tx, conservative);
    assert forall|q: usize, d: usize| #[trigger] edge(c, q, d) <==> edge(b, q, d) || (q == p && d == tx) by {
        if q < b.len() {
            if q == p {
                assert(c[q as int].edges.dom() =~= b[q as int].edges.dom().insert(tx));
            } else {
                assert(c[q as int].edges == b[q as int].edges);
            }
        }
    }
    assert forall|q: usize, d: usize| edge(c, q, d) implies #[trigger] mark(c, q, d) == (if q == p && d
        == tx {
        conservative && (edge(b, q, d) ==> mark(b, q, d))
    } else {
        mark(b, q, d)
    }) by {
        if q != p {
            assert(c[q as int].edges == b[q as int].edges);
        }
    }
}

/// One more edge to `tx` extends an extended graph.
pub proof fn lemma_extended_step(
    a: Seq<TxModel>,
    b: Seq<TxModel>,
    c: Seq<TxModel>,
    tx: usize,
    sources: Set<usize>,
    p: usize,
    conservative: bool,
)
    requires
        extended(a, b, tx, sources, conservative),
        p < tx < b.len(),
        c == linked(b, p as int, tx, conservative),
    ensures
        extended(a, c, tx, sources.insert(p), conservative),
{
    lemma_linked(b, p, tx, conservative);
    assert forall|q: usize, d: usize|
        #[trigger] edge(c, q, d) <==> edge(a, q, d) || (d == tx && q < a.len() && sources.insert(
            p,
        ).contains(q)) by {
        assert(edge(b, q, d) <==> edge(a, q, d) || (d == tx && q < a.len() && sources.contains(q)));
    }
    assert forall|q: usize, d: usize| edge(c, q, d) implies #[trigger] mark(c, q, d) == (if d == tx
        && sources.insert(p).contains(q) {
        conservative && (edge(a, q, d) ==> mark(a, q, d))
    } else {
        mark(a, q, d)
    }) by {
        assert(edge(b, q, d) <==> edge(a, q, d) || (d == tx && q < a.len() && sources.contains(q)));
        if edge(b, q, d) {
            assert(mark(b, q, d) == (if d == tx && sources.contains(q) {
                conservative && (edge(a, q, d) ==> mark(a, q, d))
            } else {
                mark(a, q, d)
            }));
        }
    }
    assert forall|q: int| 0 <= q < a.len() implies (#[trigger] c[q]).finished == a[q].finished
        && c[q].runtime == a[q].runtime by {
        assert(b[q].finished == a[q].finished);
    }
    assert forall|q: int| 0 <= q < a.len() && q != tx implies (#[trigger] c[q]).count == a[q].count by {
        assert(b[q].count == a[q].count);
    }
}

/// Edges added one set after the other are the edges of both sets.
pub proof fn lemma_extended_twice(
    a: Seq<TxModel>,
    b: Seq<TxModel>,
    c: Seq<TxModel>,
    tx: usize,
    first: Set<usize>,
    second: Set<usize>,
    conservative: bool,
)
    requires
        extended(a, b, tx, first, conservative),
        extended(b, c, tx, second, conservative),
    ensures
        extended(a, c, tx, first.union(second), conservative),
{
    assert forall|q: usize, d: usize|
        #[trigger] edge(c, q, d) <==> edge(a, q, d) || (d == tx && q < a.len() && first.union(
            second,
        ).contains(q)) by {
        assert(edge(b, q, d) <==> edge(a, q, d) || (d == tx && q < a.len() && first.contains(q)));
    }
    assert forall|q: usize, d: usize| edge(c, q, d) implies #[trigger] mark(c, q, d) == (if d == tx
        && first.union(second).contains(q) {
        conservative && (edge(a, q, d) ==> mark(a, q, d))
    } else {
        mark(a, q, d)
    }) by {
        assert(edge(b, q, d) <==> edge(a, q, d) || (d == tx && q < a.len() && first.contains(q)));
        if edge(b, q, d) {
            assert(mark(b, q, d) == (if d == tx && first.contains(q) {
                conservative && (edge(a, q, d) ==> mark(a, q, d))
            } else {
                mark(a, q, d)
            }));
        }
    }
    assert forall|q: int| 0 <= q < a.len() implies (#[trigger] c[q]).finished == a[q].finished
        && c[q].runtime == a[q].runtime by {
        assert(b[q].finished == a[q].finished);
    }
    assert forall|q: int| 0 <= q < a.len() && q != tx implies (#[trigger] c[q]).count == a[q].count by {
        assert(b[q].count == a[q].count);
    }
}

/// The concrete storage address of a classified location, if its
/// expression folds to one.
pub open spec fn address_of(location: DataModel) -> Option<Word> {
    location.value().resolve()
}

/// Whether one of the locations is the concrete address `a`.
pub open spec fn touches(locations: Set<DataModel>, a: Word) -> bool {
    exists|l: DataModel| locations.contains(l) && #[trigger] address_of(l) == Some(a)
}

/// Whether each of the locations has a concrete address.
pub open spec fn all_concrete(locations: Set<DataModel>) -> bool {
    forall|l: DataModel| locations.contains(l) ==> (#[trigger] address_of(l)) is Some
}

/// Whether transaction `p` is recorded where a method with the given reads
/// and writes conflicts with it: as a writer of an address that the method
/// reads or writes, or as a reader of an address that the method writes.
pub open spec fn conflicts(
    writers: Map<Word, Vec<usize>>,
    readers: Map<Word, Vec<usize>>,
    reads: Set<DataModel>,
    writes: Set<DataModel>,
    p: usize,
) -> bool {
    ||| exists|a: Word|
        (touches(reads, a) || touches(writes, a)) && #[trigger] recorded(writers, a).contains(p)
    ||| exists|a: Word| touches(writes, a) && #[trigger] recorded(readers, a).contains(p)
}

/// The transactions with which a method with the given reads and writes
/// conflicts.
pub open spec fn conflicting(
    writers: Map<Word, Vec<usize>>,
    readers: Map<Word, Vec<usize>>,
    reads: Set<DataModel>,
    writes: Set<DataModel>,
) -> Set<usize> {
    Set::new(|p: usize| conflicts(writers, readers, reads, writes, p))
}

/// The transactions of a list of optional addresses that are recorded at
/// one of the first `upto` of them.
pub open spec fn hits(addresses: Seq<Option<Word>>, lists: Map<Word, Vec<usize>>, upto: int) -> Set<
    usize,
> {
    Set::new(
        |p: usize|
            exists|j: int|
                0 <= j < upto && j < addresses.len() && (#[trigger] addresses[j]) is Some && recorded(
                    lists,
                    addresses[j]->0,
                ).contains(p),
    )
}

/// Whether `a` is one of the first `upto` addresses.
pub open spec fn among(addresses: Seq<Option<Word>>, a: Word, upto: int) -> bool {
    exists|j: int| 0 <= j < upto && j < addresses.len() && #[trigger] addresses[j] == Some(a)
}

/// The addresses of a list of locations.
pub open spec fn addresses_of(locations: Seq<DataModel>) -> Seq<Option<Word>> {
    Seq::new(locations.len(), |j: int| address_of(locations[j]))
}

/// The transactions recorded at one more address are those recorded at
/// the addresses before it and those recorded at it.
pub proof fn lemma_hits_step(addresses: Seq<Option<Word>>, lists: Map<Word, Vec<usize>>, i: int)
    requires
        0 <= i < addresses.len(),
    ensures
        hits(addresses, lists, i + 1) == hits(addresses, lists, i).union(
            match addresses[i] {
                Some(a) => recorded(lists, a),
                None => Set::empty(),
            },
        ),
{
    let more = match addresses[i] {
        Some(a) => recorded(lists, a),
        None => Set::empty(),
    };
    assert forall|p: usize| hits(addresses, lists, i + 1).contains(p) <==> hits(
        addresses,
        lists,
        i,
    ).union(more).contains(p) by {
        if hits(addresses, lists, i + 1).contains(p) {
            let j = choose|j: int|
                0 <= j < i + 1 && j < addresses.len() && (#[trigger] addresses[j]) is Some && recorded(
                    lists,
                    addresses[j]->0,
                ).contains(p);
            if j < i {
                assert(hits(addresses, lists, i).contains(p));
            }
        }
        if hits(addresses, lists, i).contains(p) {
            let j = choose|j: int|
                0 <= j < i && j < addresses.len() && (#[trigger] addresses[j]) is Some && recorded(
                    lists,
                    addresses[j]->0,
                ).contains(p);
            assert(0 <= j < i + 1);
        }
        if more.contains(p) {
            assert(addresses[i] is Some);
        }
    }
    assert(hits(addresses, lists, i + 1) =~= hits(addresses, lists, i).union(more));
}

/// Lets transaction `tx` wait for each transaction recorded at `address`
/// but itself.
pub fn touch(transactions: &mut Vec<Transaction>, lists: &WordMap<Vec<usize>>, address: &Word, tx: usize)
    requires
        graph_ok(old(transactions)@),
        tx < old(transactions)@.len(),
        lists.wf(),
        forall|a: Word, t: usize| #[trigger] recorded(lists@, a).contains(t) ==> t <= tx,
        none_finished(tx_models(old(transactions)@)),
    ensures
        graph_ok(final(transactions)@),
        none_finished(tx_models(final(transactions)@)),
        extended(
            tx_models(old(transactions)@),
            tx_models(final(transactions)@),
            tx,
            recorded(lists@, *address).remove(tx),
            false,
        ),
{
    match lists.get(address) {
        Some(list) => {
            assert forall|i: int| 0 <= i < list@.len() implies list@[i] <= tx by {
                assert(list@.to_set().contains(list@[i]));
                assert(recorded(lists@, *address).contains(list@[i]));
            }
            link_all(transactions, list, tx, false);
        },
        None => {
            assert(recorded(lists@, *address).remove(tx) =~= Set::<usize>::empty());
        },
    }
}

/// An address is among those of the ordered members of a set exactly
/// where the set touches it.
pub proof fn lemma_among_touches(order: Seq<DataModel>, locations: Set<DataModel>, a: Word)
    requires
        order.to_set() == locations,
    ensures
        among(addresses_of(order), a, order.len() as int) == touches(locations, a),
{
    let addresses = addresses_of(order);
    if among(addresses, a, order.len() as int) {
        let j = choose|j: int|
            0 <= j < order.len() && j < addresses.len() && #[trigger] addresses[j] == Some(a);
        assert(order.to_set().contains(order[j]));
        assert(address_of(order[j]) == Some(a));
    }
    if touches(locations, a) {
        let l = choose|l: DataModel| locations.contains(l) && #[trigger] address_of(l) == Some(a);
        assert(order.to_set().contains(l));
        let j = choose|j: int| 0 <= j < order.len() && order[j] == l;
        assert(addresses[j] == Some(a));
    }
}

/// A transaction is recorded at one of the addresses of the ordered
/// members of a set exactly where it is recorded at an address that the
/// set touches.
pub proof fn lemma_hits_touches(
    order: Seq<DataModel>,
    locations: Set<DataModel>,
    lists: Map<Word, Vec<usize>>,
    p: usize,
)
    requires
        order.to_set() == locations,
    ensures
        hits(addresses_of(order), lists, order.len() as int).contains(p) == (exists|a: Word|
            touches(locations, a) && #[trigger] recorded(lists, a).contains(p)),
{
    let addresses = addresses_of(order);
    if hits(addresses, lists, order.len() as int).contains(p) {
        let j = choose|j: int|
            0 <= j < order.len() && j < addresses.len() && (#[trigger] addresses[j]) is Some && recorded(
                lists,
                addresses[j]->0,
            ).contains(p);
        let a = addresses[j]->0;
        assert(order.to_set().contains(order[j]));
        assert(address_of(order[j]) == Some(a));
        assert(touches(locations, a) && recorded(lists, a).contains(p));
    }
    if exists|a: Word| touches(locations, a) && #[trigger] recorded(lists, a).contains(p) {
        let a = choose|a: Word| touches(locations, a) && #[trigger] recorded(lists, a).contains(p);
        let l = choose|l: DataModel| locations.contains(l) && #[trigger] address_of(l) == Some(a);
        assert(order.to_set().contains(l));
        let j = choose|j: int| 0 <= j < order.len() && order[j] == l;
        assert(addresses[j] == Some(a));
    }
}

/// Whether each of the first `upto` addresses is concrete.
pub open spec fn concrete_upto(addresses: Seq<Option<Word>>, upto: int) -> bool {
    forall|j: int| 0 <= j < upto && j < addresses.len() ==> (#[trigger] addresses[j]) is Some
}

/// The ordered members of a set all have a concrete address exactly where
/// all members of the set have one.
pub proof fn lemma_concrete(order: Seq<DataModel>, locations: Set<DataModel>)
    requires
        order.to_set() == locations,
    ensures
        concrete_upto(addresses_of(order), order.len() as int) == all_concrete(locations),
{
    let addresses = addresses_of(order);
    if concrete_upto(addresses, order.len() as int) {
        assert forall|l: DataModel| locations.contains(l) implies (#[trigger] address_of(l)) is Some by {
            assert(order.to_set().contains(l));
            let j = choose|j: int| 0 <= j < order.len() && order[j] == l;
            assert(addresses[j] is Some);
        }
    }
    if all_concrete(locations) {
        assert forall|j: int| 0 <= j < order.len() && j < addresses.len() implies (
        #[trigger] addresses[j]) is Some by {
            assert(order.to_set().contains(order[j]));
        }
    }
}

impl NetBuilder {
    /// Enters one method that transaction `transaction` runs on a contract
    /// into the index of that contract and into the graph.
    ///
    /// The transaction waits for every other transaction that is recorded
    /// as a writer of an address that the method reads or writes, and for
    /// every other transaction that is recorded as a reader of an address
    /// that the method writes.  It is recorded as a reader of each address
    /// that the method reads or writes, and as a writer of each address
    /// that it writes.  A location without a concrete address enters
    /// nothing; the result says whether there was none.
    pub fn analyze_method(
        method_data: &ContractMethod,
        contract: &mut ContractStorage,
        transactions: &mut Vec<Transaction>,
        transaction: usize,
    ) -> (concrete: bool)
        requires
            graph_ok(old(transactions)@),
            transaction < old(transactions)@.len(),
            none_finished(tx_models(old(transactions)@)),
            old(contract).wf(),
            old(contract).below((transaction + 1) as nat),
        ensures
            graph_ok(final(transactions)@),
            none_finished(tx_models(final(transactions)@)),
            final(contract).wf(),
            final(contract).below((transaction + 1) as nat),
            final(contract).contructor_transition == old(contract).contructor_transition,
            concrete == (all_concrete(method_data@.storage_read) && all_concrete(
                method_data@.storage_write,
            )),
            extended(
                tx_models(old(transactions)@),
                tx_models(final(transactions)@),
                transaction,
                conflicting(
                    old(contract).storage_write@,
                    old(contract).storage_read@,
                    method_data@.storage_read,
                    method_data@.storage_write,
                ).remove(transaction),
                false,
            ),
            forall|a: Word|
                #[trigger] final(contract).writers(a) == (if touches(method_data@.storage_write, a) {
                    old(contract).writers(a).insert(transaction)
                } else {
                    old(contract).writers(a)
                }),
            forall|a: Word|
                #[trigger] final(contract).readers(a) == (if touches(method_data@.storage_read, a)
                    || touches(method_data@.storage_write, a) {
                    old(contract).readers(a).insert(transaction)
                } else {
                    old(contract).readers(a)
                }),
    {
        let tx = transaction;
        let ghost start = tx_models(transactions@);
        let ghost w0 = contract.storage_write@;
        let ghost r0 = contract.storage_read@;
        let ghost reads = method_data.storage_read.order();
        let ghost ra = addresses_of(reads);
        let mut concrete = true;
        let n = method_data.storage_read.len();
        let mut i: usize = 0;
        proof {
            lemma_extended_by_nothing(start, tx, false);
            assert(hits(ra, w0, 0).remove(tx) =~= Set::<usize>::empty());
            assert forall|a: Word, t: usize| #[trigger] recorded(w0, a).contains(t) implies t <= tx by {
                assert(contract.writers(a).contains(t));
            }
            assert forall|a: Word, t: usize| #[trigger] recorded(r0, a).contains(t) implies t <= tx by {
                assert(contract.readers(a).contains(t));
            }
        }
        while i < n
            invariant
                i <= n,
                n == reads.len(),
                reads == method_data.storage_read.order(),
                ra == addresses_of(reads),
                tx < transactions@.len(),
                graph_ok(transactions@),
                none_finished(tx_models(transactions@)),
                contract.wf(),
                contract.storage_write@ == w0,
                contract.contructor_transition == old(contract).contructor_transition,
                forall|a: Word, t: usize| #[trigger] recorded(w0, a).contains(t) ==> t <= tx,
                forall|a: Word, t: usize| #[trigger] recorded(r0, a).contains(t) ==> t <= tx,
                forall|a: Word|
                    #[trigger] recorded(contract.storage_read@, a) == (if among(ra, a, i as int) {
                        recorded(r0, a).insert(tx)
                    } else {
                        recorded(r0, a)
                    }),
                extended(start, tx_models(transactions@), tx, hits(ra, w0, i as int).remove(tx), false),
                concrete == concrete_upto(ra, i as int),
            decreases n - i,
        {
            let location = method_data.storage_read.get(i);
            let ghost before = tx_models(transactions@);
            let ghost listed = contract.storage_read@;
            proof {
                lemma_hits_step(ra, w0, i as int);
                assert(ra[i as int] == address_of(location@));
            }
            match location.value().resolve() {
                Some(a) => {
                    touch(transactions, &contract.storage_write, &a, tx);
                    record(&mut contract.storage_read, a, tx);
                    proof {
                        lemma_extended_twice(
                            start,
                            before,
                            tx_models(transactions@),
                            tx,
                            hits(ra, w0, i as int).remove(tx),
                            recorded(w0, a).remove(tx),
                            false,
                        );
                        assert(hits(ra, w0, i as int).remove(tx).union(recorded(w0, a).remove(tx))
                            =~= hits(ra, w0, i + 1).remove(tx));
                        assert forall|b: Word|
                            #[trigger] recorded(contract.storage_read@, b) == (if among(ra, b, i + 1) {
                                recorded(r0, b).insert(tx)
                            } else {
                                recorded(r0, b)
                            }) by {
                            assert(recorded(listed, b) == (if among(ra, b, i as int) {
                                recorded(r0, b).insert(tx)
                            } else {
                                recorded(r0, b)
                            }));
                            lemma_among_step(ra, b, i as int);
                            if b == a {
                                assert(recorded(r0, b).insert(tx).insert(tx) =~= recorded(r0, b).insert(
                                    tx,
                                ));
                            }
                        }
                    }
                },
                None => {
                    concrete = false;
                    proof {
                        assert(hits(ra, w0, i + 1).remove(tx) =~= hits(ra, w0, i as int).remove(tx));
                        assert forall|b: Word|
                            #[trigger] recorded(contract.storage_read@, b) == (if among(ra, b, i + 1) {
                                recorded(r0, b).insert(tx)
                            } else {
                                recorded(r0, b)
                            }) by {
                            lemma_among_step(ra, b, i as int);
                        }
                    }
                },
            }
            proof {
                lemma_concrete_step(ra, i as int);
            }
            i += 1;
        }
        let ghost middle = tx_models(transactions@);
        let ghost r1 = contract.storage_read@;
        let ghost from_reads = hits(ra, w0, n as int);
        let ghost writes = method_data.storage_write.order();
        let ghost wa = addresses_of(writes);
        let read_concrete = concrete;
        let m = method_data.storage_write.len();
        let mut i: usize = 0;
        proof {
            assert(from_reads.union(hits(wa, w0, 0)).union(hits(wa, r0, 0)).remove(tx)
                =~= from_reads.remove(tx));
        }
        while i < m
            invariant
                i <= m,
                m == writes.len(),
                writes == method_data.storage_write.order(),
                wa == addresses_of(writes),
                tx < transactions@.len(),
                graph_ok(transactions@),
                none_finished(tx_models(transactions@)),
                contract.wf(),
                contract.contructor_transition == old(contract).contructor_transition,
                forall|a: Word, t: usize| #[trigger] recorded(w0, a).contains(t) ==> t <= tx,
                forall|a: Word, t: usize| #[trigger] recorded(r0, a).contains(t) ==> t <= tx,
                forall|a: Word| #[trigger] recorded(r1, a).remove(tx) == recorded(r0, a).remove(tx),
                forall|a: Word, t: usize| #[trigger] recorded(r1, a).contains(t) ==> t <= tx,
                forall|a: Word|
                    #[trigger] recorded(contract.storage_write@, a) == (if among(wa, a, i as int) {
                        recorded(w0, a).insert(tx)
                    } else {
                        recorded(w0, a)
                    }),
                forall|a: Word|
                    #[trigger] recorded(contract.storage_read@, a) == (if among(wa, a, i as int) {
                        recorded(r1, a).insert(tx)
                    } else {
                        recorded(r1, a)
                    }),
                extended(
                    start,
                    tx_models(transactions@),
                    tx,
                    from_reads.union(hits(wa, w0, i as int)).union(hits(wa, r0, i as int)).remove(tx),
                    false,
                ),
                concrete == (read_concrete && concrete_upto(wa, i as int)),
            decreases m - i,
        {
            let location = method_data.storage_write.get(i);
            let ghost before = tx_models(transactions@);
            let ghost written = contract.storage_write@;
            let ghost listed = contract.storage_read@;
            let ghost sofar = from_reads.union(hits(wa, w0, i as int)).union(hits(wa, r0, i as int)).remove(
                tx,
            );
            proof {
                lemma_hits_step(wa, w0, i as int);
                lemma_hits_step(wa, r0, i as int);
                assert(wa[i as int] == address_of(location@));
            }
            match location.value().resolve() {
                Some(a) => {
                    proof {
                        assert forall|b: Word, t: usize| #[trigger]
                            recorded(written, b).contains(t) implies t <= tx by {
                            assert(recorded(written, b) == (if among(wa, b, i as int) {
                                recorded(w0, b).insert(tx)
                            } else {
                                recorded(w0, b)
                            }));
                            if t != tx {
                                assert(recorded(w0, b).contains(t));
                            }
                        }
                        assert forall|b: Word, t: usize| #[trigger]
                            recorded(listed, b).contains(t) implies t <= tx by {
                            assert(recorded(listed, b) == (if among(wa, b, i as int) {
                                recorded(r1, b).insert(tx)
                            } else {
                                recorded(r1, b)
                            }));
                            if t != tx {
                                assert(recorded(r1, b).contains(t));
                            }
                        }
                    }
                    touch(transactions, &contract.storage_write, &a, tx);
                    let ghost between = tx_models(transactions@);
                    touch(transactions, &contract.storage_read, &a, tx);
                    record(&mut contract.storage_write, a, tx);
                    record(&mut contract.storage_read, a, tx);
                    proof {
                        assert(recorded(written, a) == (if among(wa, a, i as int) {
                            recorded(w0, a).insert(tx)
                        } else {
                            recorded(w0, a)
                        }));
                        assert(recorded(listed, a) == (if among(wa, a, i as int) {
                            recorded(r1, a).insert(tx)
                        } else {
                            recorded(r1, a)
                        }));
                        assert(recorded(written, a).remove(tx) =~= recorded(w0, a).remove(tx));
                        assert(recorded(r1, a).remove(tx) == recorded(r0, a).remove(tx));
                        assert(recorded(listed, a).remove(tx) =~= recorded(r0, a).remove(tx));
                        lemma_extended_twice(
                            start,
                            before,
                            between,
                            tx,
                            sofar,
                            recorded(w0, a).remove(tx),
                            false,
                        );
                        lemma_extended_twice(
                            start,
                            between,
                            tx_models(transactions@),
                            tx,
                            sofar.union(recorded(w0, a).remove(tx)),
                            recorded(r0, a).remove(tx),
                            false,
                        );
                        assert(sofar.union(recorded(w0, a).remove(tx)).union(
                            recorded(r0, a).remove(tx),
                        ) =~= from_reads.union(hits(wa, w0, i + 1)).union(hits(wa, r0, i + 1)).remove(
                            tx,
                        ));
                        assert forall|b: Word|
                            #[trigger] recorded(contract.storage_write@, b) == (if among(wa, b, i + 1) {
                                recorded(w0, b).insert(tx)
                            } else {
                                recorded(w0, b)
                            }) by {
                            assert(recorded(written, b) == (if among(wa, b, i as int) {
                                recorded(w0, b).insert(tx)
                            } else {
                                recorded(w0, b)
                            }));
                            lemma_among_step(wa, b, i as int);
                            if b == a {
                                assert(recorded(w0, b).insert(tx).insert(tx) =~= recorded(w0, b).insert(
                                    tx,
                                ));
                            }
                        }
                        assert forall|b: Word|
                            #[trigger] recorded(contract.storage_read@, b) == (if among(wa, b, i + 1) {
                                recorded(r1, b).insert(tx)
                            } else {
                                recorded(r1, b)
                            }) by {
                            assert(recorded(listed, b) == (if among(wa, b, i as int) {
                                recorded(r1, b).insert(tx)
                            } else {
                                recorded(r1, b)
                            }));
                            lemma_among_step(wa, b, i as int);
                            if b == a {
                                assert(recorded(r1, b).insert(tx).insert(tx) =~= recorded(r1, b).insert(
                                    tx,
                                ));
                            }
                        }
                    }
                },
                None => {
                    concrete = false;
                    proof {
                        assert(from_reads.union(hits(wa, w0, i + 1)).union(hits(wa, r0, i + 1)).remove(
                            tx,
                        ) =~= sofar);
                        assert forall|b: Word|
                            #[trigger] recorded(contract.storage_write@, b) == (if among(wa, b, i + 1) {
                                recorded(w0, b).insert(tx)
                            } else {
                                recorded(w0, b)
                            }) by {
                            lemma_among_step(wa, b, i as int);
                        }
                        assert forall|b: Word|
                            #[trigger] recorded(contract.storage_read@, b) == (if among(wa, b, i + 1) {
                                recorded(r1, b).insert(tx)
                            } else {
                                recorded(r1, b)
                            }) by {
                            lemma_among_step(wa, b, i as int);
                        }
                    }
                },
            }
            proof {
                lemma_concrete_step(wa, i as int);
            }
            i += 1;
        }
        proof {
            let rs = method_data@.storage_read;
            let ws = method_data@.storage_write;
            lemma_concrete(reads, rs);
            lemma_concrete(writes, ws);
            let all = from_reads.union(hits(wa, w0, m as int)).union(hits(wa, r0, m as int));
            assert forall|p: usize| all.contains(p) <==> conflicts(w0, r0, rs, ws, p) by {
                lemma_hits_touches(reads, rs, w0, p);
                lemma_hits_touches(writes, ws, w0, p);
                lemma_hits_touches(writes, ws, r0, p);
            }
            assert(all.remove(tx) =~= conflicting(w0, r0, rs, ws).remove(tx));
            assert forall|a: Word|
                #[trigger] contract.writers(a) == (if touches(ws, a) {
                    old(contract).writers(a).insert(tx)
                } else {
                    old(contract).writers(a)
                }) by {
                lemma_among_touches(writes, ws, a);
            }
            assert forall|a: Word|
                #[trigger] contract.readers(a) == (if touches(rs, a) || touches(ws, a) {
                    old(contract).readers(a).insert(tx)
                } else {
                    old(contract).readers(a)
                }) by {
                lemma_among_touches(writes, ws, a);
                lemma_among_touches(reads, rs, a);
                assert(recorded(contract.storage_read@, a) == (if among(wa, a, m as int) {
                    recorded(r1, a).insert(tx)
                } else {
                    recorded(r1, a)
                }));
                assert(recorded(r1, a) == (if among(ra, a, n as int) {
                    recorded(r0, a).insert(tx)
                } else {
                    recorded(r0, a)
                }));
                assert(recorded(r0, a).insert(tx).insert(tx) =~= recorded(r0, a).insert(tx));
            }
        }
        concrete
    }
}

/// One more address is among the addresses exactly where it is that one or
/// was among those before it.
pub proof fn lemma_among_step(addresses: Seq<Option<Word>>, a: Word, i: int)
    requires
        0 <= i < addresses.len(),
    ensures
        among(addresses, a, i + 1) == (among(addresses, a, i) || addresses[i] == Some(a)),
{
    if among(addresses, a, i + 1) {
        let j = choose|j: int| 0 <= j < i + 1 && j < addresses.len() && #[trigger] addresses[j] == Some(a);
        if j < i {
            assert(among(addresses, a, i));
        }
    }
    if among(addresses, a, i) {
        let j = choose|j: int| 0 <= j < i && j < addresses.len() && #[trigger] addresses[j] == Some(a);
        assert(0 <= j < i + 1);
    }
}

/// The addresses up to one more are concrete exactly where that one is
/// and those before it are.
pub proof fn lemma_concrete_step(addresses: Seq<Option<Word>>, i: int)
    requires
        0 <= i < addresses.len(),
    ensures
        concrete_upto(addresses, i + 1) == (concrete_upto(addresses, i) && addresses[i] is Some),
{
}

/// The builder of a net of transactions.
pub struct NetBuilder {
    /// The graph, the footprints and the storage indices.
    pub net: DependencyNet,
    /// The transactions delegated to runtime, in the order of submission.
    pub runtime_dependent: Vec<usize>,
    /// For each transaction delegated to runtime, the contract and method
    /// that it was submitted for.
    pub runtime_targets: Vec<RuntimeDelegationState>,
    /// The transactions that wait for nothing.
    pub zero_deps: Vec<usize>,
    /// How many contracts may expose the selector of a call with an
    /// unknown target before the transaction is delegated to runtime.
    pub threshold: usize,
}

/// Whether the indices are in order and record no transaction with a
/// number of `bound` or more.
pub open spec fn index_wf(contracts: &WordMap<ContractStorage>, bound: nat) -> bool {
    &&& contracts.wf()
    &&& forall|c: Word|
        #[trigger] contracts@.contains_key(c) ==> contracts@[c].wf() && contracts@[c].below(bound)
}

/// The transaction that constructs a contract, as a set.
pub open spec fn constructor_of(storage: ContractStorage) -> Set<usize> {
    match storage.contructor_transition {
        Some(p) => set![p],
        None => Set::empty(),
    }
}

/// The transactions that a transaction which runs method `pair` has to
/// wait for: those that the method conflicts with, and the one that
/// constructs the contract.
pub open spec fn item_sources(
    contracts: Map<Word, ContractStorage>,
    data: &WordMap<ContractData>,
    pair: Pair,
) -> Set<usize> {
    let storage = contracts[pair.0];
    let method = footprint_of(data, pair)@;
    conflicting(
        storage.storage_write@,
        storage.storage_read@,
        method.storage_read,
        method.storage_write,
    ).union(constructor_of(storage))
}

/// Whether every location that a method reads or writes has a concrete
/// address.
pub open spec fn is_concrete(data: &WordMap<ContractData>, pair: Pair) -> bool {
    all_concrete(footprint_of(data, pair)@.storage_read) && all_concrete(
        footprint_of(data, pair)@.storage_write,
    )
}

/// The index of a contract after transaction `tx` has run method `pair` on
/// it.
pub open spec fn entered(before: ContractStorage, after: ContractStorage, data: &WordMap<ContractData>, pair: Pair, tx: usize) -> bool {
    let method = footprint_of(data, pair)@;
    &&& after.contructor_transition == before.contructor_transition
    &&& forall|a: Word|
        #[trigger] after.writers(a) == (if touches(method.storage_write, a) {
            before.writers(a).insert(tx)
        } else {
            before.writers(a)
        })
    &&& forall|a: Word|
        #[trigger] after.readers(a) == (if touches(method.storage_read, a) || touches(
            method.storage_write,
            a,
        ) {
            before.readers(a).insert(tx)
        } else {
            before.readers(a)
        })
}

/// Enters one method that transaction `id` runs into the graph and the
/// index of its contract: the transaction waits for the one that
/// constructs the contract and for those that the method conflicts with.
pub fn enter_method(
    data: &WordMap<ContractData>,
    contracts: &mut WordMap<ContractStorage>,
    transactions: &mut Vec<Transaction>,
    pair: Pair,
    id: usize,
) -> (concrete: bool)
    requires
        data_wf(data),
        known(data, pair),
        index_wf(old(contracts), (id + 1) as nat),
        old(contracts)@.contains_key(pair.0),
        graph_ok(old(transactions)@),
        id < old(transactions)@.len(),
        none_finished(tx_models(old(transactions)@)),
    ensures
        graph_ok(final(transactions)@),
        none_finished(tx_models(final(transactions)@)),
        index_wf(final(contracts), (id + 1) as nat),
        final(contracts).keys() == old(contracts).keys(),
        final(contracts)@.dom() == old(contracts)@.dom(),
        forall|c: Word|
            c != pair.0 && old(contracts)@.contains_key(c) ==> #[trigger] final(contracts)@[c] == old(
                contracts,
            )@[c],
        entered(old(contracts)@[pair.0], final(contracts)@[pair.0], data, pair, id),
        concrete == is_concrete(data, pair),
        extended(
            tx_models(old(transactions)@),
            tx_models(final(transactions)@),
            id,
            item_sources(old(contracts)@, data, pair).remove(id),
            false,
        ),
{
    let ghost start = tx_models(transactions@);
    let ghost index = contracts@;
    let method = footprint(data, &pair).unwrap();
    let storage = contracts.get_mut(&pair.0).unwrap();
    let ghost was = *storage;
    let ghost by_constructor = constructor_of(was).remove(id);
    match storage.contructor_transition {
        Some(ct) => {
            if ct != id {
                assert(storage.below((id + 1) as nat));
                assert(!start[ct as int].finished);
                link(transactions, ct, id, false);
                proof {
                    lemma_extended_by_nothing(start, id, false);
                    lemma_extended_step(
                        start,
                        start,
                        tx_models(transactions@),
                        id,
                        Set::empty(),
                        ct,
                        false,
                    );
                    assert(Set::<usize>::empty().insert(ct) =~= by_constructor);
                    let now = tx_models(transactions@);
                    assert forall|p: int| 0 <= p < now.len() implies !(#[trigger] now[p]).finished by {
                        assert(!start[p].finished);
                    }
                }
            } else {
                proof {
                    lemma_extended_by_nothing(start, id, false);
                    assert(by_constructor =~= Set::<usize>::empty());
                }
            }
        },
        None => {
            proof {
                lemma_extended_by_nothing(start, id, false);
                assert(by_constructor =~= Set::<usize>::empty());
            }
        },
    }
    let ghost middle = tx_models(transactions@);
    let concrete = NetBuilder::analyze_method(method, storage, transactions, id);
    proof {
        let conflict = conflicting(
            was.storage_write@,
            was.storage_read@,
            method@.storage_read,
            method@.storage_write,
        );
        lemma_extended_twice(
            start,
            middle,
            tx_models(transactions@),
            id,
            by_constructor,
            conflict.remove(id),
            false,
        );
        assert(by_constructor.union(conflict.remove(id)) =~= item_sources(index, data, pair).remove(id));
    }
    concrete
}

/// The transactions that a transaction which runs the first `k` methods
/// of the list has to wait for.
pub open spec fn sources_upto(
    contracts: Map<Word, ContractStorage>,
    data: &WordMap<ContractData>,
    list: Seq<Pair>,
    k: int,
) -> Set<usize> {
    Set::new(
        |p: usize|
            exists|i: int|
                0 <= i < k && i < list.len() && #[trigger] item_sources(contracts, data, list[i]).contains(
                    p,
                ),
    )
}

/// Whether one of the first `k` methods of the list writes address `a` of
/// contract `c`.
pub open spec fn wrote_upto(data: &WordMap<ContractData>, list: Seq<Pair>, c: Word, a: Word, k: int) -> bool {
    exists|i: int|
        0 <= i < k && i < list.len() && (#[trigger] list[i]).0 == c && touches(
            footprint_of(data, list[i])@.storage_write,
            a,
        )
}

/// Whether one of the first `k` methods of the list reads or writes
/// address `a` of contract `c`.
pub open spec fn accessed_upto(data: &WordMap<ContractData>, list: Seq<Pair>, c: Word, a: Word, k: int) -> bool {
    exists|i: int|
        0 <= i < k && i < list.len() && (#[trigger] list[i]).0 == c && (touches(
            footprint_of(data, list[i])@.storage_read,
            a,
        ) || touches(footprint_of(data, list[i])@.storage_write, a))
}

/// Whether each of the first `k` methods of the list has concrete
/// addresses only.
pub open spec fn concrete_all_upto(data: &WordMap<ContractData>, list: Seq<Pair>, k: int) -> bool {
    forall|i: int| 0 <= i < k && i < list.len() ==> is_concrete(data, #[trigger] list[i])
}

/// Whether the indices `now` are the indices `base` with transaction `id`
/// recorded for the first `k` methods of the list.
pub open spec fn indexed(
    base: Map<Word, ContractStorage>,
    now: Map<Word, ContractStorage>,
    data: &WordMap<ContractData>,
    list: Seq<Pair>,
    k: int,
    id: usize,
) -> bool {
    &&& now.dom() == base.dom()
    &&& forall|c: Word|
        #[trigger] base.contains_key(c) ==> now[c].contructor_transition
            == base[c].contructor_transition
    &&& forall|c: Word, a: Word|
        base.contains_key(c) ==> #[trigger] now[c].writers(a) == (if wrote_upto(data, list, c, a, k) {
            base[c].writers(a).insert(id)
        } else {
            base[c].writers(a)
        })
    &&& forall|c: Word, a: Word|
        base.contains_key(c) ==> #[trigger] now[c].readers(a) == (if accessed_upto(
            data,
            list,
            c,
            a,
            k,
        ) {
            base[c].readers(a).insert(id)
        } else {
            base[c].readers(a)
        })
}

/// One more method of the list entered: the indices stay those of the
/// base with the transaction recorded.
pub proof fn lemma_indexed_step(
    base: Map<Word, ContractStorage>,
    now: Map<Word, ContractStorage>,
    next: Map<Word, ContractStorage>,
    data: &WordMap<ContractData>,
    list: Seq<Pair>,
    k: int,
    id: usize,
)
    requires
        0 <= k < list.len(),
        indexed(base, now, data, list, k, id),
        base.contains_key(list[k].0),
        next.dom() == now.dom(),
        forall|c: Word| c != list[k].0 && now.contains_key(c) ==> #[trigger] next[c] == now[c],
        entered(now[list[k].0], next[list[k].0], data, list[k], id),
    ensures
        indexed(base, next, data, list, k + 1, id),
{
    let pair = list[k];
    assert forall|c: Word, a: Word| base.contains_key(c) implies #[trigger] next[c].writers(a) == (
    if wrote_upto(data, list, c, a, k + 1) {
        base[c].writers(a).insert(id)
    } else {
        base[c].writers(a)
    }) by {
        assert(now[c].writers(a) == (if wrote_upto(data, list, c, a, k) {
            base[c].writers(a).insert(id)
        } else {
            base[c].writers(a)
        }));
        let here = c == pair.0 && touches(footprint_of(data, pair)@.storage_write, a);
        assert(wrote_upto(data, list, c, a, k + 1) == (wrote_upto(data, list, c, a, k) || here)) by {
            if wrote_upto(data, list, c, a, k + 1) {
                let i = choose|i: int|
                    0 <= i < k + 1 && i < list.len() && (#[trigger] list[i]).0 == c && touches(
                        footprint_of(data, list[i])@.storage_write,
                        a,
                    );
                if i < k {
                    assert(wrote_upto(data, list, c, a, k));
                }
            }
            if wrote_upto(data, list, c, a, k) {
                let i = choose|i: int|
                    0 <= i < k && i < list.len() && (#[trigger] list[i]).0 == c && touches(
                        footprint_of(data, list[i])@.storage_write,
                        a,
                    );
                assert(0 <= i < k + 1);
            }
            if here {
                assert(list[k].0 == c);
            }
        }
        if c == pair.0 {
            assert(next[c].writers(a) == (if touches(footprint_of(data, pair)@.storage_write, a) {
                now[c].writers(a).insert(id)
            } else {
                now[c].writers(a)
            }));
            assert(base[c].writers(a).insert(id).insert(id) =~= base[c].writers(a).insert(id));
        } else {
            assert(next[c] == now[c]);
        }
    }
    assert forall|c: Word, a: Word| base.contains_key(c) implies #[trigger] next[c].readers(a) == (
    if accessed_upto(data, list, c, a, k + 1) {
        base[c].readers(a).insert(id)
    } else {
        base[c].readers(a)
    }) by {
        assert(now[c].readers(a) == (if accessed_upto(data, list, c, a, k) {
            base[c].readers(a).insert(id)
        } else {
            base[c].readers(a)
        }));
        let here = c == pair.0 && (touches(footprint_of(data, pair)@.storage_read, a) || touches(
            footprint_of(data, pair)@.storage_write,
            a,
        ));
        assert(accessed_upto(data, list, c, a, k + 1) == (accessed_upto(data, list, c, a, k) || here)) by {
            if accessed_upto(data, list, c, a, k + 1) {
                let i = choose|i: int|
                    0 <= i < k + 1 && i < list.len() && (#[trigger] list[i]).0 == c && (touches(
                        footprint_of(data, list[i])@.storage_read,
                        a,
                    ) || touches(footprint_of(data, list[i])@.storage_write, a));
                if i < k {
                    assert(accessed_upto(data, list, c, a, k));
                }
            }
            if accessed_upto(data, list, c, a, k) {
                let i = choose|i: int|
                    0 <= i < k && i < list.len() && (#[trigger] list[i]).0 == c && (touches(
                        footprint_of(data, list[i])@.storage_read,
                        a,
                    ) || touches(footprint_of(data, list[i])@.storage_write, a));
                assert(0 <= i < k + 1);
            }
            if here {
                assert(list[k].0 == c);
            }
        }
        if c == pair.0 {
            assert(next[c].readers(a) == (if touches(footprint_of(data, pair)@.storage_read, a)
                || touches(footprint_of(data, pair)@.storage_write, a) {
                now[c].readers(a).insert(id)
            } else {
                now[c].readers(a)
            }));
            assert(base[c].readers(a).insert(id).insert(id) =~= base[c].readers(a).insert(id));
        } else {
            assert(next[c] == now[c]);
        }
    }
    assert forall|c: Word| #[trigger] base.contains_key(c) implies next[c].contructor_transition
        == base[c].contructor_transition by {
        if c != pair.0 {
            assert(next[c] == now[c]);
        }
    }
}

/// The transactions that conflict with a method, but for transaction
/// `id`, do not depend on where `id` itself is recorded.
pub proof fn lemma_sources_ignore(
    base: Map<Word, ContractStorage>,
    now: Map<Word, ContractStorage>,
    data: &WordMap<ContractData>,
    pair: Pair,
    id: usize,
)
    requires
        now.contains_key(pair.0),
        base.contains_key(pair.0),
        now[pair.0].contructor_transition == base[pair.0].contructor_transition,
        forall|a: Word| #[trigger] now[pair.0].writers(a).remove(id) == base[pair.0].writers(a).remove(id),
        forall|a: Word| #[trigger] now[pair.0].readers(a).remove(id) == base[pair.0].readers(a).remove(id),
    ensures
        item_sources(now, data, pair).remove(id) == item_sources(base, data, pair).remove(id),
{
    let method = footprint_of(data, pair)@;
    let n = now[pair.0];
    let b = base[pair.0];
    let rs = method.storage_read;
    let ws = method.storage_write;
    assert forall|p: usize| p != id implies (conflicts(n.storage_write@, n.storage_read@, rs, ws, p)
        == conflicts(b.storage_write@, b.storage_read@, rs, ws, p)) by {
        assert forall|a: Word| #[trigger] recorded(n.storage_write@, a).contains(p) == recorded(
            b.storage_write@,
            a,
        ).contains(p) by {
            assert(n.writers(a).remove(id) == b.writers(a).remove(id));
            assert(n.writers(a).remove(id).contains(p) == n.writers(a).contains(p));
            assert(b.writers(a).remove(id).contains(p) == b.writers(a).contains(p));
        }
        assert forall|a: Word| #[trigger] recorded(n.storage_read@, a).contains(p) == recorded(
            b.storage_read@,
            a,
        ).contains(p) by {
            assert(n.readers(a).remove(id) == b.readers(a).remove(id));
            assert(n.readers(a).remove(id).contains(p) == n.readers(a).contains(p));
            assert(b.readers(a).remove(id).contains(p) == b.readers(a).contains(p));
        }
        if conflicts(n.storage_write@, n.storage_read@, rs, ws, p) {
            lemma_conflicts_same(
                n.storage_write@,
                n.storage_read@,
                b.storage_write@,
                b.storage_read@,
                rs,
                ws,
                p,
            );
        }
        if conflicts(b.storage_write@, b.storage_read@, rs, ws, p) {
            lemma_conflicts_same(
                b.storage_write@,
                b.storage_read@,
                n.storage_write@,
                n.storage_read@,
                rs,
                ws,
                p,
            );
        }
    }
    assert(item_sources(now, data, pair).remove(id) =~= item_sources(base, data, pair).remove(id));
}

/// A transaction that conflicts with a method under one pair of indices
/// conflicts with it under another where it is recorded at the same
/// addresses.
pub proof fn lemma_conflicts_same(
    w1: Map<Word, Vec<usize>>,
    r1: Map<Word, Vec<usize>>,
    w2: Map<Word, Vec<usize>>,
    r2: Map<Word, Vec<usize>>,
    reads: Set<DataModel>,
    writes: Set<DataModel>,
    p: usize,
)
    requires
        forall|a: Word| #[trigger] recorded(w1, a).contains(p) == recorded(w2, a).contains(p),
        forall|a: Word| #[trigger] recorded(r1, a).contains(p) == recorded(r2, a).contains(p),
        conflicts(w1, r1, reads, writes, p),
    ensures
        conflicts(w2, r2, reads, writes, p),
{
    if exists|a: Word|
        (touches(reads, a) || touches(writes, a)) && #[trigger] recorded(w1, a).contains(p) {
        let a = choose|a: Word|
            (touches(reads, a) || touches(writes, a)) && #[trigger] recorded(w1, a).contains(p);
        assert(recorded(w2, a).contains(p));
    } else {
        let a = choose|a: Word| touches(writes, a) && #[trigger] recorded(r1, a).contains(p);
        assert(recorded(r2, a).contains(p));
    }
}

/// The sources of one more method are those of the methods before it and
/// its own.
pub proof fn lemma_sources_step(
    contracts: Map<Word, ContractStorage>,
    data: &WordMap<ContractData>,
    list: Seq<Pair>,
    k: int,
)
    requires
        0 <= k < list.len(),
    ensures
        sources_upto(contracts, data, list, k + 1) == sources_upto(contracts, data, list, k).union(
            item_sources(contracts, data, list[k]),
        ),
{
    let more = item_sources(contracts, data, list[k]);
    assert forall|p: usize| sources_upto(contracts, data, list, k + 1).contains(p) <==> sources_upto(
        contracts,
        data,
        list,
        k,
    ).union(more).contains(p) by {
        if sources_upto(contracts, data, list, k + 1).contains(p) {
            let i = choose|i: int|
                0 <= i < k + 1 && i < list.len() && #[trigger] item_sources(
                    contracts,
                    data,
                    list[i],
                ).contains(p);
            if i < k {
                assert(sources_upto(contracts, data, list, k).contains(p));
            }
        }
        if sources_upto(contracts, data, list, k).contains(p) {
            let i = choose|i: int|
                0 <= i < k && i < list.len() && #[trigger] item_sources(contracts, data, list[i]).contains(
                    p,
                );
            assert(0 <= i < k + 1);
        }
        if more.contains(p) {
            assert(item_sources(contracts, data, list[k]).contains(p));
        }
    }
    assert(sources_upto(contracts, data, list, k + 1) =~= sources_upto(contracts, data, list, k).union(
        more,
    ));
}

/// Enters every method of the list for transaction `id`.
pub fn enter_all(
    data: &WordMap<ContractData>,
    contracts: &mut WordMap<ContractStorage>,
    transactions: &mut Vec<Transaction>,
    list: &Vec<Pair>,
    id: usize,
) -> (concrete: bool)
    requires
        data_wf(data),
        forall|i: int| 0 <= i < list@.len() ==> known(data, #[trigger] list@[i]),
        forall|i: int| 0 <= i < list@.len() ==> old(contracts)@.contains_key((#[trigger] list@[i]).0),
        index_wf(old(contracts), (id + 1) as nat),
        graph_ok(old(transactions)@),
        id < old(transactions)@.len(),
        none_finished(tx_models(old(transactions)@)),
    ensures
        graph_ok(final(transactions)@),
        none_finished(tx_models(final(transactions)@)),
        index_wf(final(contracts), (id + 1) as nat),
        final(contracts).keys() == old(contracts).keys(),
        indexed(old(contracts)@, final(contracts)@, data, list@, list@.len() as int, id),
        concrete == concrete_all_upto(data, list@, list@.len() as int),
        extended(
            tx_models(old(transactions)@),
            tx_models(final(transactions)@),
            id,
            sources_upto(old(contracts)@, data, list@, list@.len() as int).remove(id),
            false,
        ),
{
    let ghost base = contracts@;
    let ghost start = tx_models(transactions@);
    let mut concrete = true;
    let mut k: usize = 0;
    proof {
        lemma_extended_by_nothing(start, id, false);
        assert(sources_upto(base, data, list@, 0).remove(id) =~= Set::<usize>::empty());
        assert forall|c: Word, a: Word| base.contains_key(c) implies #[trigger] base[c].writers(a) == (
        if wrote_upto(data, list@, c, a, 0) {
            base[c].writers(a).insert(id)
        } else {
            base[c].writers(a)
        }) by {}
    }
    while k < list.len()
        invariant
            k <= list@.len(),
            data_wf(data),
            forall|i: int| 0 <= i < list@.len() ==> known(data, #[trigger] list@[i]),
            forall|i: int| 0 <= i < list@.len() ==> base.contains_key((#[trigger] list@[i]).0),
            index_wf(contracts, (id + 1) as nat),
            contracts.keys() == old(contracts).keys(),
            graph_ok(transactions@),
            id < transactions@.len(),
            none_finished(tx_models(transactions@)),
            indexed(base, contracts@, data, list@, k as int, id),
            concrete == concrete_all_upto(data, list@, k as int),
            extended(
                start,
                tx_models(transactions@),
                id,
                sources_upto(base, data, list@, k as int).remove(id),
                false,
            ),
        decreases list@.len() - k,
    {
        let pair = list[k];
        let ghost now = contracts@;
        let ghost before = tx_models(transactions@);
        proof {
            assert(base.contains_key(list@[k as int].0));
            assert forall|a: Word| #[trigger] now[pair.0].writers(a).remove(id) == base[pair.0].writers(
                a,
            ).remove(id) by {
                assert(now[pair.0].writers(a) == (if wrote_upto(data, list@, pair.0, a, k as int) {
                    base[pair.0].writers(a).insert(id)
                } else {
                    base[pair.0].writers(a)
                }));
                assert(base[pair.0].writers(a).insert(id).remove(id) =~= base[pair.0].writers(a).remove(
                    id,
                ));
            }
            assert forall|a: Word| #[trigger] now[pair.0].readers(a).remove(id) == base[pair.0].readers(
                a,
            ).remove(id) by {
                assert(now[pair.0].readers(a) == (if accessed_upto(data, list@, pair.0, a, k as int) {
                    base[pair.0].readers(a).insert(id)
                } else {
                    base[pair.0].readers(a)
                }));
                assert(base[pair.0].readers(a).insert(id).remove(id) =~= base[pair.0].readers(a).remove(
                    id,
                ));
            }
            lemma_sources_ignore(base, now, data, pair, id);
            lemma_sources_step(base, data, list@, k as int);
        }
        let one = enter_method(data, contracts, transactions, pair, id);
        proof {
            lemma_indexed_step(base, now, contracts@, data, list@, k as int, id);
            lemma_extended_twice(
                start,
                before,
                tx_models(transactions@),
                id,
                sources_upto(base, data, list@, k as int).remove(id),
                item_sources(base, data, pair).remove(id),
                false,
            );
            assert(sources_upto(base, data, list@, k as int).remove(id).union(
                item_sources(base, data, pair).remove(id),
            ) =~= sources_upto(base, data, list@, k + 1).remove(id));
        }
        concrete = concrete && one;
        k += 1;
    }
    concrete
}

/// Why a transaction was not accepted.
#[derive(Clone, Copy, Debug, PartialEq, Eq, Structural)]
pub enum SubmitError {
    /// The contract is not registered.
    UnknownContract,
    /// The contract has no method with the selector.
    UnknownMethod,
    /// A method was called on a contract for which no constructor
    /// transaction has been submitted.
    MissingConstructorTransaction,
}

/// What a submission changes: the graph, the indices, the list of the
/// transactions delegated to runtime and the list of the ready ones.
pub struct Submission {
    pub graph: Seq<TxModel>,
    pub index: Map<Word, ContractStorage>,
    pub delegated: Seq<usize>,
    pub targets: Seq<RuntimeDelegationState>,
    pub ready: Seq<usize>,
}

/// The mark of a transaction delegated to runtime that was submitted for
/// `method` of `contract`: the contract, and the selector or, for the
/// constructor, the word zero.
pub open spec fn mark_for(contract: Word, method: MethodType) -> RuntimeDelegationState {
    RuntimeDelegationState {
        contracthash: contract,
        methodhash: match method {
            MethodType::Method(s) => s,
            MethodType::Constructor => Word { w0: 0, w1: 0, w2: 0, w3: 0 },
        },
    }
}

/// The indices at the moment transaction `id` begins to enter its methods:
/// those before it, with `id` as the transaction that constructs
/// `contract` where it is submitted for the constructor.
pub open spec fn based(
    contracts: Map<Word, ContractStorage>,
    contract: Word,
    method: MethodType,
    id: usize,
) -> Map<Word, ContractStorage> {
    if method is Constructor {
        contracts.insert(
            contract,
            ContractStorage { contructor_transition: Some(id), ..contracts[contract] },
        )
    } else {
        contracts
    }
}

impl NetBuilder {
    /// The models of the transactions, in order.
    pub open spec fn model(&self) -> Seq<TxModel> {
        tx_models(self.net.transactions@)
    }

    /// The builder is in order: the graph is sound, nothing has ended, no
    /// contract or address is held twice, every contract has an index, and
    /// every transaction that is recorded or listed exists.
    pub open spec fn wf(&self) -> bool {
        &&& graph_ok(self.net.transactions@)
        &&& none_finished(self.model())
        &&& none_marked(self.model())
        &&& data_wf(&self.net.contract_data)
        &&& index_wf(&self.net.contracts, self.net.transactions@.len())
        &&& self.net.contracts@.dom() == self.net.contract_data@.dom()
        &&& forall|i: int|
            0 <= i < self.runtime_dependent@.len() ==> (#[trigger] self.runtime_dependent@[i])
                < self.net.transactions@.len()
        &&& forall|i: int, j: int|
            0 <= i < j < self.runtime_dependent@.len() ==> self.runtime_dependent@[i]
                < self.runtime_dependent@[j]
        &&& self.runtime_targets@.len() == self.runtime_dependent@.len()
        &&& forall|i: int|
            0 <= i < self.zero_deps@.len() ==> (#[trigger] self.zero_deps@[i])
                < self.net.transactions@.len()
    }

    /// Whether a transaction for `method` of `contract` is accepted.
    pub open spec fn accepts(&self, contract: Word, method: MethodType) -> bool {
        known(&self.net.contract_data, (contract, method)) && (method is Constructor
            || self.net.contracts@[contract].contructor_transition is Some)
    }

    /// The error with which a transaction for `method` of `contract` is
    /// refused.
    pub open spec fn refusal(&self, contract: Word, method: MethodType) -> SubmitError {
        if !self.net.contract_data@.contains_key(contract) {
            SubmitError::UnknownContract
        } else if !known(&self.net.contract_data, (contract, method)) {
            SubmitError::UnknownMethod
        } else {
            SubmitError::MissingConstructorTransaction
        }
    }

    /// Whether `r` and `after` are what the submission of a transaction
    /// for `method` of `contract` gives: the number of the transaction and
    /// what the builder holds then, where the transaction is accepted, and
    /// else the error with which it is refused.
    pub open spec fn answered(
        &self,
        after: Submission,
        r: Result<usize, SubmitError>,
        contract: Word,
        method: MethodType,
    ) -> bool {
        if self.accepts(contract, method) {
            &&& r == Ok::<usize, SubmitError>(self.next_id())
            &&& exists|list: Seq<Pair>|
                #[trigger] self.submitted(after, contract, method, self.next_id(), list)
        } else {
            r == Err::<usize, SubmitError>(self.refusal(contract, method))
        }
    }

    /// Whether transaction `id` is delegated to runtime: one of its
    /// methods makes a call that cannot be followed, or touches a location
    /// without a concrete address.
    pub open spec fn delegates(&self, list: Seq<Pair>) -> bool {
        lost_upto(&self.net.contract_data, self.threshold as nat, list, list.len() as int)
            || !concrete_all_upto(&self.net.contract_data, list, list.len() as int)
    }

    /// Whether `after` is what builder `self` holds once a transaction `id`
    /// for `method` of `contract` is submitted, where `list` holds the
    /// methods that the transaction runs.
    ///
    /// The transaction waits, with a conservative edge, for every
    /// transaction delegated to runtime before it, and for every
    /// transaction that constructs a contract it runs a method of or that
    /// one of its methods conflicts with.  It is recorded, in the index of
    /// each contract, as a reader of every address that one of its methods
    /// reads or writes there and as a writer of every address that one
    /// writes.  It is listed as delegated where `delegates` says so, and
    /// as ready where it waits for nothing.
    pub open spec fn submitted(
        &self,
        after: Submission,
        contract: Word,
        method: MethodType,
        id: usize,
        list: Seq<Pair>,
    ) -> bool {
        let data = &self.net.contract_data;
        let base = based(self.net.contracts@, contract, method, id);
        &&& is_closure(data, self.threshold as nat, (contract, method), list)
        &&& id == self.net.transactions@.len()
        &&& indexed(base, after.index, data, list, list.len() as int, id)
        &&& exists|mid: Seq<TxModel>|
            #![trigger extended(mid, after.graph, id, sources_upto(base, data, list, list.len() as int).remove(id), false)]
            extended(self.model().push(fresh()), mid, id, self.runtime_dependent@.to_set(), true)
                && extended(
                mid,
                after.graph,
                id,
                sources_upto(base, data, list, list.len() as int).remove(id),
                false,
            )
        &&& after.delegated == (if self.delegates(list) {
            self.runtime_dependent@.push(id)
        } else {
            self.runtime_dependent@
        })
        &&& after.targets == (if self.delegates(list) {
            self.runtime_targets@.push(mark_for(contract, method))
        } else {
            self.runtime_targets@
        })
        &&& after.ready == (if after.graph[id as int].count == 0 {
            self.zero_deps@.push(id)
        } else {
            self.zero_deps@
        })
    }

    /// The number that the next transaction gets.
    pub open spec fn next_id(&self) -> usize {
        self.net.transactions@.len() as usize
    }

    /// What a submission changes, as the builder holds it.
    pub open spec fn outcome(&self) -> Submission {
        Submission {
            graph: self.model(),
            index: self.net.contracts@,
            delegated: self.runtime_dependent@,
            targets: self.runtime_targets@,
            ready: self.zero_deps@,
        }
    }

    /// A builder without contracts and transactions.  A call with an
    /// unknown target is followed into up to nine contracts.
    pub fn new() -> (r: Self)
        ensures
            r.wf(),
            r.model().len() == 0,
            r.net.contract_data@ == Map::<Word, ContractData>::empty(),
            r.runtime_dependent@.len() == 0,
            r.runtime_targets@.len() == 0,
            r.zero_deps@.len() == 0,
            r.threshold == 10,
    {
        let r = NetBuilder {
            net: DependencyNet {
                transactions: Vec::new(),
                contract_data: WordMap::new(),
                contracts: WordMap::new(),
            },
            runtime_dependent: Vec::new(),
            runtime_targets: Vec::new(),
            zero_deps: Vec::new(),
            threshold: 10,
        };
        assert(r.net.contracts@.dom() =~= r.net.contract_data@.dom());
        r
    }

    /// Registers the footprint of the contract at `address`, with an empty
    /// index, in place of what was registered for it.
    pub fn register_contract(&mut self, address: Word, contract: ContractData)
        requires
            old(self).wf(),
            contract.wf(),
        ensures
            final(self).wf(),
            final(self).net.contract_data@ == old(self).net.contract_data@.insert(address, contract),
            final(self).net.contracts@.dom() == old(self).net.contracts@.dom().insert(address),
            final(self).net.contracts@[address].contructor_transition is None,
            forall|a: Word| final(self).net.contracts@[address].writers(a) == Set::<usize>::empty(),
            forall|a: Word| final(self).net.contracts@[address].readers(a) == Set::<usize>::empty(),
            forall|c: Word|
                c != address && old(self).net.contracts@.contains_key(c) ==> #[trigger] final(self).net.contracts@[c]
                    == old(self).net.contracts@[c],
            final(self).net.transactions == old(self).net.transactions,
            final(self).runtime_dependent == old(self).runtime_dependent,
            final(self).runtime_targets == old(self).runtime_targets,
            final(self).zero_deps == old(self).zero_deps,
            final(self).threshold == old(self).threshold,
    {
        let fresh_index = ContractStorage::new();
        assert(fresh_index.below(self.net.transactions@.len())) by {
            assert forall|a: Word, t: usize| #[trigger]
                fresh_index.writers(a).contains(t) implies t < self.net.transactions@.len() by {
                assert(fresh_index.writers(a) == Set::<usize>::empty());
            }
            assert forall|a: Word, t: usize| #[trigger]
                fresh_index.readers(a).contains(t) implies t < self.net.transactions@.len() by {
                assert(fresh_index.readers(a) == Set::<usize>::empty());
            }
        }
        self.net.contracts.insert(address, fresh_index);
        self.net.contract_data.insert(address, contract);
        assert(self.net.contracts@.dom() =~= self.net.contract_data@.dom());
        assert(self.net.contracts@.dom() =~= old(self).net.contracts@.dom().insert(address));
    }
}

impl NetBuilder {
    /// Submits a transaction for `method` of `contract` and gives its
    /// number.
    ///
    /// The transaction is refused, and nothing changes, where the contract
    /// is not registered, where it has no such method, or where a method is
    /// called before a constructor transaction for the contract was
    /// submitted.
    pub fn submit(&mut self, contract: Word, method: MethodType) -> (r: Result<usize, SubmitError>)
        requires
            old(self).wf(),
        ensures
            final(self).wf(),
            r is Ok == old(self).accepts(contract, method),
            r matches Ok(id) ==> id == old(self).next_id(),
            r is Ok ==> exists|list: Seq<Pair>|
                #[trigger] old(self).submitted(
                    final(self).outcome(),
                    contract,
                    method,
                    old(self).next_id(),
                    list,
                ),
            r is Ok ==> final(self).net.contract_data == old(self).net.contract_data,
            r is Ok ==> final(self).threshold == old(self).threshold,
            r matches Err(e) ==> e == old(self).refusal(contract, method) && *final(self) == *old(self),
    {
        let pair = (contract, method);
        if !self.net.contract_data.contains_key(&contract) {
            return Err(SubmitError::UnknownContract);
        }
        if footprint(&self.net.contract_data, &pair).is_none() {
            return Err(SubmitError::UnknownMethod);
        }
        let constructed = match self.net.contracts.get(&contract) {
            Some(storage) => storage.contructor_transition.is_some(),
            None => false,
        };
        match method {
            MethodType::Constructor => {},
            MethodType::Method(_) => {
                if !constructed {
                    return Err(SubmitError::MissingConstructorTransaction);
                }
            },
        }
        let ghost start = self.model();
        let ghost index = self.net.contracts@;
        let id = push_transaction(&mut self.net.transactions);
        proof {
            let pushed = tx_models(self.net.transactions@);
            assert forall|p: int| 0 <= p < pushed.len() implies !(#[trigger] pushed[p]).finished by {
                if p < start.len() {
                    assert(!start[p].finished);
                }
            }
        }
        let ghost pushed = tx_models(self.net.transactions@);
        assert(pushed.len() == self.net.transactions@.len());
        assert(id == start.len());
        link_all(&mut self.net.transactions, &self.runtime_dependent, id, true);
        let ghost mid = tx_models(self.net.transactions@);
        proof {
            assert(self.runtime_dependent@.to_set().remove(id) =~= self.runtime_dependent@.to_set()) by {
                if self.runtime_dependent@.to_set().contains(id) {
                    let i = choose|i: int|
                        0 <= i < self.runtime_dependent@.len() && self.runtime_dependent@[i] == id;
                    assert(self.runtime_dependent@[i] < id);
                }
            }
        }
        match method {
            MethodType::Constructor => {
                let storage = self.net.contracts.get_mut(&contract).unwrap();
                storage.contructor_transition = Some(id);
            },
            MethodType::Method(_) => {},
        }
        let ghost base = self.net.contracts@;
        proof {
            assert(base =~= based(index, contract, method, id));
            assert forall|c: Word| #[trigger] base.contains_key(c) implies base[c].wf() && base[c].below(
                (id + 1) as nat,
            ) by {
                assert(index.contains_key(c));
                assert(index[c].below(id as nat));
                assert forall|a: Word, t: usize| #[trigger] base[c].writers(a).contains(t) implies t
                    < id + 1 by {
                    assert(index[c].writers(a).contains(t));
                }
                assert forall|a: Word, t: usize| #[trigger] base[c].readers(a).contains(t) implies t
                    < id + 1 by {
                    assert(index[c].readers(a).contains(t));
                }
            }
        }
        let found = collect(&self.net.contract_data, self.threshold, contract, method);
        let list = found.0;
        proof {
            assert forall|i: int| 0 <= i < list@.len() implies base.contains_key(
                (#[trigger] list@[i]).0,
            ) by {
                assert(known(&self.net.contract_data, list@[i]));
                assert(self.net.contract_data@.dom().contains(list@[i].0));
            }
        }
        let concrete = enter_all(
            &self.net.contract_data,
            &mut self.net.contracts,
            &mut self.net.transactions,
            &list,
            id,
        );
        if found.1 || !concrete {
            self.runtime_dependent.push(id);
            let selector = match method {
                MethodType::Method(x) => x,
                MethodType::Constructor => Word::zero(),
            };
            self.runtime_targets.push(
                RuntimeDelegationState { contracthash: contract, methodhash: selector },
            );
        }
        if self.net.transactions[id].count == 0 {
            self.zero_deps.push(id);
        }
        proof {
            let after = self.model();
            assert(after[id as int].count == self.net.transactions@[id as int].count);
            assert(self.net.contracts@.dom() =~= self.net.contract_data@.dom()) by {
                assert(self.net.contracts@.dom() == base.dom());
                assert(base.dom() =~= index.dom());
            }
            assert forall|c: Word| #[trigger] self.net.contracts@.contains_key(c) implies self.net.contracts@[c].below(
                (id + 1) as nat,
            ) by {}
            assert(extended(pushed, mid, id, old(self).runtime_dependent@.to_set(), true));
            assert forall|p: int| 0 <= p < after.len() implies (#[trigger] after[p]).runtime is None by {
                assert(mid[p].runtime == pushed[p].runtime);
                if p < start.len() {
                    assert(start[p].runtime is None);
                }
            }
            assert(old(self).submitted(self.outcome(), contract, method, id, list@));
            assert(id == old(self).net.transactions@.len());
            assert(old(self).next_id() == id);
        }
        Ok(id)
    }

    /// Submits the transaction that `transaction_data` describes: asks it
    /// for its contract and its method, and submits a transaction for them.
    /// Whatever contract and method it names, the result is that of their
    /// submission.
    pub fn new_transaction<T: TransactionDataProvider>(&mut self, transaction_data: &T) -> (r: Result<
        usize,
        SubmitError,
    >)
        requires
            old(self).wf(),
        ensures
            final(self).wf(),
            exists|contract: Word, method: MethodType|
                #[trigger] old(self).answered(final(self).outcome(), r, contract, method),
            r is Err ==> *final(self) == *old(self),
            r matches Ok(id) ==> id == old(self).next_id(),
            r is Ok ==> final(self).net.contract_data == old(self).net.contract_data,
            r is Ok ==> final(self).threshold == old(self).threshold,
    {
        let contract = transaction_data.get_target_contract();
        let method = transaction_data.get_target_method();
        let r = self.submit(contract, method);
        assert(old(self).answered(self.outcome(), r, contract, method));
        r
    }

    /// Ends the building: marks each transaction delegated to runtime with
    /// the contract and method it was submitted for, and gives the net
    /// together with the transactions that are ready to run.
    pub fn finalize(self) -> (r: (DependencyNet, Vec<usize>))
        requires
            self.wf(),
        ensures
            r.0.wf(),
            r.0.contract_data == self.net.contract_data,
            r.0.contracts == self.net.contracts,
            r.1 == self.zero_deps,
            r.0.model().len() == self.model().len(),
            forall|i: int|
                0 <= i < self.model().len() ==> (#[trigger] r.0.model()[i]).count == self.model()[i].count
                    && r.0.model()[i].edges == self.model()[i].edges && !r.0.model()[i].finished,
            forall|k: int|
                0 <= k < self.runtime_dependent@.len() ==> r.0.model()[(
                #[trigger] self.runtime_dependent@[k]) as int].runtime == Some(self.runtime_targets@[k]),
            forall|i: int|
                0 <= i < self.model().len() && !self.runtime_dependent@.contains(i as usize) ==> (
                #[trigger] r.0.model()[i]).runtime is None,
    {
        let NetBuilder { net, runtime_dependent, runtime_targets, zero_deps, threshold } = self;
        let mut net = net;
        let ghost start = tx_models(net.transactions@);
        let mut k: usize = 0;
        while k < runtime_dependent.len()
            invariant
                k <= runtime_dependent@.len(),
                runtime_targets@.len() == runtime_dependent@.len(),
                net.contract_data == self.net.contract_data,
                net.contracts == self.net.contracts,
                start == self.model(),
                none_finished(start),
                none_marked(start),
                net.transactions@.len() == start.len(),
                graph_wf(start),
                forall|i: int|
                    0 <= i < runtime_dependent@.len() ==> (#[trigger] runtime_dependent@[i])
                        < start.len(),
                forall|i: int, j: int|
                    0 <= i < j < runtime_dependent@.len() ==> runtime_dependent@[i]
                        < runtime_dependent@[j],
                forall|i: int|
                    0 <= i < start.len() ==> (#[trigger] net.transactions@[i]).wf()
                        && net.transactions@[i].id == i,
                forall|i: int|
                    0 <= i < start.len() ==> (#[trigger] tx_models(net.transactions@)[i]).count
                        == start[i].count && tx_models(net.transactions@)[i].edges == start[i].edges
                        && tx_models(net.transactions@)[i].finished == start[i].finished,
                forall|j: int|
                    0 <= j < k ==> tx_models(net.transactions@)[(#[trigger] runtime_dependent@[j]) as int].runtime
                        == Some(runtime_targets@[j]),
                forall|i: int|
                    0 <= i < start.len() && !runtime_dependent@.take(k as int).contains(i as usize) ==> (
                    #[trigger] tx_models(net.transactions@)[i]).runtime is None,
            decreases runtime_dependent@.len() - k,
        {
            let id = runtime_dependent[k];
            let state = runtime_targets[k];
            let ghost before = tx_models(net.transactions@);
            let marked = &mut net.transactions[id];
            marked.mark_delegated(state);
            proof {
                let now = tx_models(net.transactions@);
                let done = runtime_dependent@.take(k as int);
                let more = runtime_dependent@.take(k + 1);
                assert(more =~= done.push(id));
                assert forall|j: int| 0 <= j < k + 1 implies now[(#[trigger] runtime_dependent@[j]) as int].runtime
                    == Some(runtime_targets@[j]) by {
                    if j < k {
                        assert(runtime_dependent@[j] < runtime_dependent@[k as int]);
                        assert(before[runtime_dependent@[j] as int].runtime == Some(runtime_targets@[j]));
                    }
                }
                assert forall|i: int| 0 <= i < start.len() && !more.contains(i as usize) implies (
                #[trigger] now[i]).runtime is None by {
                    assert(more[k as int] == id);
                    if done.contains(i as usize) {
                        let j = choose|j: int| 0 <= j < done.len() && done[j] == i as usize;
                        assert(more[j] == i as usize);
                    }
                    assert(before[i].runtime is None);
                }
                assert forall|i: int| 0 <= i < start.len() implies (#[trigger] now[i]).count
                    == start[i].count && now[i].edges == start[i].edges && now[i].finished
                    == start[i].finished by {
                    assert(before[i].count == start[i].count);
                }
            }
            k += 1;
        }
        proof {
            assert(runtime_dependent@.take(runtime_dependent@.len() as int) =~= runtime_dependent@);
            lemma_same_graph(start, tx_models(net.transactions@));
        }
        (net, zero_deps)
    }
}

/// A graph with the edges, counts and ends of a sound graph is sound.
pub proof fn lemma_same_graph(a: Seq<TxModel>, b: Seq<TxModel>)
    requires
        graph_wf(a),
        a.len() == b.len(),
        forall|i: int|
            0 <= i < a.len() ==> (#[trigger] b[i]).count == a[i].count && b[i].edges == a[i].edges
                && b[i].finished == a[i].finished,
    ensures
        graph_wf(b),
{
    assert forall|p: int, d: usize| #[trigger] has_edge(b, p, d) implies p < d < b.len() by {
        assert(has_edge(a, p, d));
    }
    assert forall|d: usize| d < b.len() implies (#[trigger] b[d as int]).count
        == pending(b, d) by {
        assert(a[d as int].count == pending(a, d));
        lemma_pending_change(a, b, d, -1, a.len());
    }
}

/// A transaction that reads a storage address waits for every transaction
/// that was recorded as a writer of that address when it was submitted:
/// the edge stands, it is not conservative, the count of the new
/// transaction is not zero, and the new transaction is not listed as
/// ready.
pub proof fn lemma_read_after_write(
    before: &NetBuilder,
    after: Submission,
    contract: Word,
    method: MethodType,
    id: usize,
    list: Seq<Pair>,
    writer: usize,
    slot: Word,
)
    requires
        before.wf(),
        before.submitted(after, contract, method, id, list),
        graph_wf(after.graph),
        none_finished(after.graph),
        before.net.contracts@.contains_key(contract),
        before.net.contracts@[contract].writers(slot).contains(writer),
        touches(footprint_of(&before.net.contract_data, (contract, method))@.storage_read, slot)
            || touches(footprint_of(&before.net.contract_data, (contract, method))@.storage_write, slot),
    ensures
        writer < id,
        edge(after.graph, writer, id),
        !mark(after.graph, writer, id),
        after.graph[id as int].count >= 1,
        !after.ready.contains(id),
{
    let data = &before.net.contract_data;
    let base = based(before.net.contracts@, contract, method, id);
    let all = sources_upto(base, data, list, list.len() as int);
    assert(before.net.contracts@[contract].below(id as nat));
    assert(writer < id);
    assert(base[contract].storage_write == before.net.contracts@[contract].storage_write);
    assert(recorded(base[contract].storage_write@, slot).contains(writer));
    assert(conflicts(
        base[contract].storage_write@,
        base[contract].storage_read@,
        footprint_of(data, (contract, method))@.storage_read,
        footprint_of(data, (contract, method))@.storage_write,
        writer,
    ));
    assert(item_sources(base, data, list[0]).contains(writer));
    assert(all.contains(writer));
    assert(all.remove(id).contains(writer));
    let mid = choose|mid: Seq<TxModel>|
        #![trigger extended(mid, after.graph, id, sources_upto(base, data, list, list.len() as int).remove(id), false)]
        extended(before.model().push(fresh()), mid, id, before.runtime_dependent@.to_set(), true)
            && extended(
            mid,
            after.graph,
            id,
            sources_upto(base, data, list, list.len() as int).remove(id),
            false,
        );
    assert(edge(after.graph, writer, id));
    assert(mark(after.graph, writer, id) == false);
    lemma_waits_for_unfinished(after.graph, writer as int, id);
    if after.ready.contains(id) {
        let i = choose|i: int| 0 <= i < after.ready.len() && after.ready[i] == id;
        assert(before.zero_deps@[i] < id);
    }
}

} // verus!
