//! What is kept for a transaction whose footprint could not be determined
//! before it runs.

use vstd::prelude::*;
use crate::contract_data::ContractData;
use crate::contract_utils::DataType;
use crate::net::footprints::Pair;
use crate::net::footprints::collect;
use crate::net::footprints::data_wf;
use crate::net::footprints::footprint;
use crate::net::footprints::footprint_of;
use crate::net::footprints::is_closure;
use crate::net::footprints::known;
use crate::net::footprints::lost_upto;
use crate::net::netbuilder::ContractStorage;
use crate::net::netbuilder::addresses_of;
use crate::net::netbuilder::concrete_all_upto;
use crate::net::netbuilder::conflicts;
use crate::net::netbuilder::hits;
use crate::net::netbuilder::is_concrete;
use crate::net::netbuilder::lemma_hits_step;
use crate::net::netbuilder::lemma_hits_touches;
use crate::net::netbuilder::recorded;
use crate::net::transaction::DependencyNet;
use crate::net::transaction::edge_index;
use crate::net::transaction::edges_of;
use crate::net::transaction::distinct_targets;
use crate::net::transaction::lemma_edge_index;
use crate::net::transaction::lemma_target_is_new;
use crate::net::transaction::MethodType;
use crate::net::transaction::Transaction;
use crate::net::transaction::TxModel;
use crate::net::transaction::graph_ok;
use crate::net::transaction::graph_wf;
use crate::net::transaction::has_edge;
use crate::net::transaction::lemma_pending_change;
use crate::net::transaction::pending;
use crate::net::transaction::tx_models;
use crate::value_set::ValueSet;
use crate::word::Word;
use crate::word_map::WordMap;

verus! {

/// The mark of a transaction that was delegated to runtime: the contract
/// and the method that it was submitted for (the word zero for a
/// constructor).  The footprints and the storage indices that the
/// correction at runtime reads are held once, by the net of transactions.
#[derive(Clone, Copy, Debug, PartialEq, Eq, Structural)]
pub struct RuntimeDelegationState {
    pub contracthash: Word,
    pub methodhash: Word,
}

/// Whether the list holds the number.
pub fn holds(list: &Vec<usize>, p: usize) -> (r: bool)
    ensures
        r == list@.to_set().contains(p),
{
    let mut i: usize = 0;
    while i < list.len()
        invariant
            i <= list.len(),
            forall|j: int| 0 <= j < i ==> list@[j] != p,
        decreases list.len() - i,
    {
        if list[i] == p {
            assert(list@.contains(p));
            return true;
        }
        i += 1;
    }
    false
}

/// Whether transaction `p` is recorded at the address of one of the
/// locations.
pub fn recorded_at(locations: &ValueSet<DataType>, lists: &WordMap<Vec<usize>>, p: usize) -> (r: bool)
    requires
        lists.wf(),
    ensures
        r == hits(addresses_of(locations.order()), lists@, locations.order().len() as int).contains(p),
{
    let ghost order = locations.order();
    let ghost addresses = addresses_of(order);
    let n = locations.len();
    let mut found = false;
    let mut i: usize = 0;
    while i < n
        invariant
            i <= n,
            n == order.len(),
            order == locations.order(),
            addresses == addresses_of(order),
            lists.wf(),
            found == hits(addresses, lists@, i as int).contains(p),
        decreases n - i,
    {
        let location = locations.get(i);
        proof {
            lemma_hits_step(addresses, lists@, i as int);
            assert(addresses[i as int] == crate::net::netbuilder::address_of(location@));
        }
        match location.value().resolve() {
            Some(a) => {
                match lists.get(&a) {
                    Some(list) => {
                        if holds(list, p) {
                            found = true;
                        }
                    },
                    None => {},
                }
            },
            None => {},
        }
        i += 1;
    }
    found
}

/// Whether transaction `p` is recorded where the method at `pair`
/// conflicts with it.
pub open spec fn clashes(
    data: &WordMap<ContractData>,
    contracts: Map<Word, ContractStorage>,
    pair: Pair,
    p: usize,
) -> bool {
    conflicts(
        contracts[pair.0].storage_write@,
        contracts[pair.0].storage_read@,
        footprint_of(data, pair)@.storage_read,
        footprint_of(data, pair)@.storage_write,
        p,
    )
}

/// Whether transaction `p` is recorded where one of the first `k` methods
/// of the list conflicts with it.
pub open spec fn clashes_upto(
    data: &WordMap<ContractData>,
    contracts: Map<Word, ContractStorage>,
    list: Seq<Pair>,
    p: usize,
    k: int,
) -> bool {
    exists|i: int| 0 <= i < k && i < list.len() && #[trigger] clashes(data, contracts, list[i], p)
}

/// Whether transaction `p` is recorded where the method at `pair`
/// conflicts with it.
pub fn method_clashes(
    data: &WordMap<ContractData>,
    contracts: &WordMap<ContractStorage>,
    pair: &Pair,
    p: usize,
) -> (r: bool)
    requires
        data_wf(data),
        known(data, *pair),
        contracts.wf(),
        contracts@.contains_key(pair.0),
        contracts@[pair.0].wf(),
    ensures
        r == clashes(data, contracts@, *pair, p),
{
    let method = footprint(data, pair).unwrap();
    let storage = contracts.get(&pair.0).unwrap();
    let n1 = method.storage_read.len();
    let n2 = method.storage_write.len();
    proof {
        lemma_hits_touches(method.storage_read.order(), method@.storage_read, storage.storage_write@, p);
        lemma_hits_touches(method.storage_write.order(), method@.storage_write, storage.storage_write@, p);
        lemma_hits_touches(method.storage_write.order(), method@.storage_write, storage.storage_read@, p);
    }
    recorded_at(&method.storage_read, &storage.storage_write, p) || recorded_at(
        &method.storage_write,
        &storage.storage_write,
        p,
    ) || recorded_at(&method.storage_write, &storage.storage_read, p)
}

/// Whether transaction `p` is recorded where one of the methods of the
/// list conflicts with it.
pub fn any_clashes(
    data: &WordMap<ContractData>,
    contracts: &WordMap<ContractStorage>,
    list: &Vec<Pair>,
    p: usize,
) -> (r: bool)
    requires
        data_wf(data),
        contracts.wf(),
        forall|i: int| 0 <= i < list@.len() ==> known(data, #[trigger] list@[i]),
        forall|i: int|
            0 <= i < list@.len() ==> contracts@.contains_key((#[trigger] list@[i]).0)
                && contracts@[list@[i].0].wf(),
    ensures
        r == clashes_upto(data, contracts@, list@, p, list@.len() as int),
{
    let mut i: usize = 0;
    while i < list.len()
        invariant
            i <= list@.len(),
            data_wf(data),
            contracts.wf(),
            forall|j: int| 0 <= j < list@.len() ==> known(data, #[trigger] list@[j]),
            forall|j: int|
                0 <= j < list@.len() ==> contracts@.contains_key((#[trigger] list@[j]).0)
                    && contracts@[list@[j].0].wf(),
            !clashes_upto(data, contracts@, list@, p, i as int),
        decreases list@.len() - i,
    {
        let pair = list[i];
        assert(known(data, list@[i as int]));
        assert(contracts@.contains_key(list@[i as int].0));
        if method_clashes(data, contracts, &pair, p) {
            assert(clashes(data, contracts@, list@[i as int], p));
            return true;
        }
        i += 1;
    }
    false
}

/// Whether every method of the list has concrete addresses only.
pub fn all_methods_concrete(data: &WordMap<ContractData>, list: &Vec<Pair>) -> (r: bool)
    requires
        data_wf(data),
        forall|i: int| 0 <= i < list@.len() ==> known(data, #[trigger] list@[i]),
    ensures
        r == concrete_all_upto(data, list@, list@.len() as int),
{
    let mut i: usize = 0;
    while i < list.len()
        invariant
            i <= list@.len(),
            data_wf(data),
            forall|j: int| 0 <= j < list@.len() ==> known(data, #[trigger] list@[j]),
            concrete_all_upto(data, list@, i as int),
        decreases list@.len() - i,
    {
        let pair = list[i];
        assert(known(data, list@[i as int]));
        let method = footprint(data, &pair).unwrap();
        if !locations_concrete(&method.storage_read) || !locations_concrete(&method.storage_write) {
            assert(!is_concrete(data, list@[i as int]));
            return false;
        }
        i += 1;
    }
    true
}

/// Whether every location has a concrete address.
pub fn locations_concrete(locations: &ValueSet<DataType>) -> (r: bool)
    ensures
        r == crate::net::netbuilder::all_concrete(locations@),
{
    let ghost order = locations.order();
    let n = locations.len();
    let mut i: usize = 0;
    proof {
        crate::net::netbuilder::lemma_concrete(order, locations@);
    }
    while i < n
        invariant
            i <= n,
            n == order.len(),
            order == locations.order(),
            crate::net::netbuilder::concrete_upto(addresses_of(order), i as int),
        decreases n - i,
    {
        let location = locations.get(i);
        assert(addresses_of(order)[i as int] == crate::net::netbuilder::address_of(location@));
        if location.value().resolve().is_none() {
            return false;
        }
        i += 1;
    }
    true
}

/// The graph after the transactions `released` no longer wait for
/// transaction `id`: the edges to them are gone, and each of them waits
/// for one transaction less.
pub open spec fn corrected(txs: Seq<TxModel>, id: int, released: Set<usize>) -> Seq<TxModel> {
    Seq::new(
        txs.len(),
        |i: int|
            if i == id {
                TxModel { edges: txs[i].edges.remove_keys(released), ..txs[i] }
            } else if released.contains(i as usize) {
                TxModel { count: (txs[i].count - 1) as nat, ..txs[i] }
            } else {
                txs[i]
            },
    )
}

/// Releasing transactions that wait for one that has not ended keeps the
/// graph sound, and each of them waited for at least one.
pub proof fn lemma_corrected_wf(txs: Seq<TxModel>, id: int, released: Set<usize>)
    requires
        graph_wf(txs),
        0 <= id < txs.len(),
        !txs[id].finished,
        forall|d: usize| released.contains(d) ==> #[trigger] txs[id].edges.contains_key(d),
    ensures
        graph_wf(corrected(txs, id, released)),
        forall|d: usize| #[trigger] released.contains(d) ==> id < d < txs.len() && txs[d as int].count >= 1,
{
    let after = corrected(txs, id, released);
    assert forall|p: int, d: usize| #[trigger] has_edge(after, p, d) implies p < d < after.len() by {
        assert(has_edge(txs, p, d));
    }
    assert forall|d: usize| #[trigger] released.contains(d) implies id < d < txs.len() && txs[d as int].count
        >= 1 by {
        assert(txs[id].edges.contains_key(d));
        assert(has_edge(txs, id, d));
        assert(txs[d as int].count == pending(txs, d));
        lemma_pending_change(txs, after, d, id, txs.len());
    }
    assert forall|d: usize| d < after.len() implies (#[trigger] after[d as int]).count == pending(
        after,
        d,
    ) by {
        assert(txs[d as int].count == pending(txs, d));
        lemma_pending_change(txs, after, d, id, txs.len());
        if released.contains(d) {
            assert(has_edge(txs, id, d));
        }
        if d == id as usize {
            assert(!has_edge(txs, id, d));
        }
    }
}

/// Whether transaction `d` waits for transaction `id` for no other reason
/// than that the footprint of `id` was not known, and is recorded nowhere
/// where a method of the list conflicts with it.
pub open spec fn releasable(
    txs: Seq<TxModel>,
    data: &WordMap<ContractData>,
    contracts: Map<Word, ContractStorage>,
    id: usize,
    list: Seq<Pair>,
    d: usize,
) -> bool {
    &&& txs[id as int].edges.contains_key(d)
    &&& txs[id as int].edges[d]
    &&& !clashes_upto(data, contracts, list, d, list.len() as int)
}

/// The transactions that the correction of transaction `id` releases.
pub open spec fn released_by(
    txs: Seq<TxModel>,
    data: &WordMap<ContractData>,
    contracts: Map<Word, ContractStorage>,
    id: usize,
    list: Seq<Pair>,
) -> Set<usize> {
    Set::new(|d: usize| releasable(txs, data, contracts, id, list, d))
}

/// Whether the footprint of transaction `id` can be corrected: it is a
/// transaction that was delegated to runtime and has not ended, and the
/// method that it turned out to call is registered.
pub open spec fn correctable(txs: Seq<TxModel>, data: &WordMap<ContractData>, id: usize, target: Pair) -> bool {
    &&& id < txs.len()
    &&& !txs[id as int].finished
    &&& txs[id as int].runtime is Some
    &&& known(data, target)
}

/// Whether `after` and `freed` are what the correction of transaction
/// `id` leaves, where `list` holds the methods that it really runs.
///
/// Where one of the methods makes a call that cannot be followed or
/// touches a location without a concrete address, nothing is released.
/// Else every transaction that waits for `id` by a conservative edge and is
/// recorded nowhere where one of the methods conflicts with it is
/// released: it waits for one transaction less, once.  Those that wait for
/// nothing any more are freed.
pub open spec fn resolved(
    txs: Seq<TxModel>,
    after: Seq<TxModel>,
    freed: Seq<usize>,
    data: &WordMap<ContractData>,
    contracts: Map<Word, ContractStorage>,
    threshold: nat,
    id: usize,
    target: Pair,
    list: Seq<Pair>,
) -> bool {
    &&& is_closure(data, threshold, target, list)
    &&& if lost_upto(data, threshold, list, list.len() as int) || !concrete_all_upto(
        data,
        list,
        list.len() as int,
    ) {
        after == txs && freed.len() == 0
    } else {
        &&& after == corrected(txs, id as int, released_by(txs, data, contracts, id, list))
        &&& forall|d: usize|
            freed.contains(d) <==> releasable(txs, data, contracts, id, list, d) && after[d as int].count
                == 0
    }
}

/// The transactions that wait for transaction `id` by a conservative edge
/// and are recorded nowhere where a method of the list conflicts with
/// them.
pub fn pick_released(
    transactions: &Vec<Transaction>,
    data: &WordMap<ContractData>,
    contracts: &WordMap<ContractStorage>,
    id: usize,
    list: &Vec<Pair>,
) -> (picked: Vec<usize>)
    requires
        graph_ok(transactions@),
        id < transactions@.len(),
        data_wf(data),
        contracts.wf(),
        forall|i: int| 0 <= i < list@.len() ==> known(data, #[trigger] list@[i]),
        forall|i: int|
            0 <= i < list@.len() ==> contracts@.contains_key((#[trigger] list@[i]).0)
                && contracts@[list@[i].0].wf(),
    ensures
        picked@.no_duplicates(),
        picked@.to_set() == released_by(tx_models(transactions@), data, contracts@, id, list@),
{
    let ghost txs = tx_models(transactions@);
    let subject = &transactions[id];
    let ghost deps = subject.dependents();
    let m = subject.dependents_len();
    let mut picked: Vec<usize> = Vec::new();
    let mut k: usize = 0;
    assert(subject.wf());
    while k < m
        invariant
            k <= m,
            m == deps.len(),
            deps == subject.dependents(),
            subject.wf(),
            distinct_targets(deps),
            subject@ == txs[id as int],
            txs[id as int].edges == edges_of(deps),
            data_wf(data),
            contracts.wf(),
            forall|i: int| 0 <= i < list@.len() ==> known(data, #[trigger] list@[i]),
            forall|i: int|
                0 <= i < list@.len() ==> contracts@.contains_key((#[trigger] list@[i]).0)
                    && contracts@[list@[i].0].wf(),
            picked@.no_duplicates(),
            forall|d: usize|
                picked@.contains(d) <==> edge_index(deps, d, k as int) >= 0 && releasable(
                    txs,
                    data,
                    contracts@,
                    id,
                    list@,
                    d,
                ),
        decreases m - k,
    {
        let dep = subject.dependent_at(k);
        let ghost had = picked@;
        proof {
            lemma_target_is_new(deps, k as int);
        }
        if dep.conservative && !any_clashes(data, contracts, list, dep.id) {
            picked.push(dep.id);
            assert(!had.contains(dep.id));
            assert forall|i: int, j: int| 0 <= i < j < picked@.len() implies picked@[i] != picked@[j] by {
                if j == had.len() {
                    assert(had.contains(had[i]));
                } else {
                    assert(had[i] != had[j]);
                }
            }
        }
        proof {
            assert forall|e: usize|
                (edge_index(deps, e, k + 1) >= 0) == (edge_index(deps, e, k as int) >= 0 || e == dep.id) by {
                lemma_edge_index(deps, e, k as int);
            }
            assert forall|e: usize| picked@.contains(e) implies edge_index(deps, e, k + 1) >= 0
                && releasable(txs, data, contracts@, id, list@, e) by {
                if e != dep.id {
                    let j = choose|j: int| 0 <= j < picked@.len() && picked@[j] == e;
                    if j < had.len() {
                        assert(had[j] == e);
                        assert(had.contains(e));
                    }
                }
            }
            assert forall|e: usize|
                edge_index(deps, e, k + 1) >= 0 && releasable(
                    txs,
                    data,
                    contracts@,
                    id,
                    list@,
                    e,
                ) implies picked@.contains(e) by {
                if e != dep.id {
                    assert(had.contains(e));
                    let j = choose|j: int| 0 <= j < had.len() && had[j] == e;
                    assert(picked@[j] == e);
                } else {
                    assert(picked@[had.len() as int] == e);
                }
            }
        }
        k += 1;
    }
    proof {
        assert forall|d: usize| picked@.to_set().contains(d) <==> released_by(
            txs,
            data,
            contracts@,
            id,
            list@,
        ).contains(d) by {
            lemma_edge_index(deps, d, deps.len() as int);
        }
        assert(picked@.to_set() =~= released_by(txs, data, contracts@, id, list@));
    }
    picked
}

/// Releases the transactions `picked` from waiting for transaction `id`,
/// and gives those that wait for nothing any more.
pub fn release_all(transactions: &mut Vec<Transaction>, id: usize, picked: &Vec<usize>) -> (freed: Vec<
    usize,
>)
    requires
        graph_ok(old(transactions)@),
        id < old(transactions)@.len(),
        !old(transactions)@[id as int].finished,
        picked@.no_duplicates(),
        forall|d: usize|
            picked@.to_set().contains(d) ==> #[trigger] tx_models(old(transactions)@)[id as int].edges.contains_key(
                d,
            ),
    ensures
        graph_ok(final(transactions)@),
        tx_models(final(transactions)@) == corrected(
            tx_models(old(transactions)@),
            id as int,
            picked@.to_set(),
        ),
        freed@.no_duplicates(),
        forall|d: usize|
            freed@.contains(d) <==> picked@.to_set().contains(d) && tx_models(
                final(transactions)@,
            )[d as int].count == 0,
{
    let ghost before = tx_models(transactions@);
    let n = transactions.len();
    let mut freed: Vec<usize> = Vec::new();
    let mut j: usize = 0;
    proof {
        assert(picked@.take(0).to_set() =~= Set::<usize>::empty());
        assert(before[id as int].edges.remove_keys(Set::<usize>::empty()) =~= before[id as int].edges);
        assert(tx_models(transactions@) =~= corrected(before, id as int, Set::<usize>::empty()));
    }
    while j < picked.len()
        invariant
            j <= picked@.len(),
            id < n,
            n == transactions@.len(),
            n == before.len(),
            graph_wf(before),
            !before[id as int].finished,
            picked@.no_duplicates(),
            forall|d: usize| picked@.to_set().contains(d) ==> #[trigger] before[id as int].edges.contains_key(d),
            forall|i: int|
                0 <= i < n ==> (#[trigger] transactions@[i]).wf() && transactions@[i].id == i,
            tx_models(transactions@) == corrected(before, id as int, picked@.take(j as int).to_set()),
            freed@.no_duplicates(),
            forall|d: usize|
                freed@.contains(d) <==> picked@.take(j as int).to_set().contains(d) && d < n
                    && before[d as int].count == 1,
        decreases picked@.len() - j,
    {
        let d = picked[j];
        let ghost done = picked@.take(j as int).to_set();
        let ghost now = tx_models(transactions@);
        let ghost listed = freed@;
        proof {
            assert(picked@.to_set().contains(d));
            lemma_corrected_wf(before, id as int, picked@.to_set());
            assert(picked@.take(j + 1) =~= picked@.take(j as int).push(d));
            picked@.take(j as int).lemma_push_to_set_commute(d);
            assert(!done.contains(d)) by {
                if done.contains(d) {
                    let i = choose|i: int| 0 <= i < j && picked@.take(j as int)[i] == d;
                    assert(picked@[i] == picked@[j as int]);
                }
            }
            assert(now[d as int] == before[d as int]);
        }
        let subject = &mut transactions[id];
        subject.release(d);
        let waiting = &mut transactions[d];
        let free = waiting.stop_waiting();
        if free {
            freed.push(d);
            assert(!listed.contains(d));
            assert forall|a: int, b: int| 0 <= a < b < freed@.len() implies freed@[a] != freed@[b] by {
                if b == listed.len() {
                    assert(listed.contains(listed[a]));
                } else {
                    assert(listed[a] != listed[b]);
                }
            }
        }
        proof {
            let next = tx_models(transactions@);
            let wanted = corrected(before, id as int, done.insert(d));
            assert(before[id as int].edges.remove_keys(done).remove(d) =~= before[id as int].edges.remove_keys(
                done.insert(d),
            ));
            assert(id < d < n);
            assert forall|i: int| 0 <= i < n implies next[i] == wanted[i] by {
                if i == id {
                    assert(next[i].edges == now[i].edges.remove(d));
                    assert(now[i].edges == before[i].edges.remove_keys(done));
                } else if i == d {
                    assert(now[i] == before[i]);
                } else {
                    assert(next[i] == now[i]);
                }
            }
            assert(next =~= wanted);
            assert forall|e: usize| freed@.contains(e) implies done.insert(d).contains(e) && e < n
                && before[e as int].count == 1 by {
                if e != d {
                    let i = choose|i: int| 0 <= i < freed@.len() && freed@[i] == e;
                    if i < listed.len() {
                        assert(listed[i] == e);
                        assert(listed.contains(e));
                    }
                }
            }
            assert forall|e: usize|
                done.insert(d).contains(e) && e < n && before[e as int].count
                    == 1 implies freed@.contains(e) by {
                if e != d {
                    assert(listed.contains(e));
                    let i = choose|i: int| 0 <= i < listed.len() && listed[i] == e;
                    assert(freed@[i] == e);
                } else {
                    assert(freed@[listed.len() as int] == e);
                }
            }
        }
        j += 1;
    }
    proof {
        assert(picked@.take(picked@.len() as int) =~= picked@);
        lemma_corrected_wf(before, id as int, picked@.to_set());
        assert forall|d: usize|
            freed@.contains(d) <==> picked@.to_set().contains(d) && corrected(
                before,
                id as int,
                picked@.to_set(),
            )[d as int].count == 0 by {}
    }
    freed
}

impl DependencyNet {
    /// The net is in order: the graph is sound, no contract or address is
    /// held twice, and every contract has an index.
    pub open spec fn wf(&self) -> bool {
        &&& graph_ok(self.transactions@)
        &&& data_wf(&self.contract_data)
        &&& self.contracts.wf()
        &&& forall|c: Word| #[trigger] self.contracts@.contains_key(c) ==> self.contracts@[c].wf()
        &&& self.contracts@.dom() == self.contract_data@.dom()
    }
}

impl Transaction {
    /// Corrects the footprint of transaction `id`, which was delegated to
    /// runtime, once the method that it really calls is known: method
    /// `real_selector` of contract `real_contract`.
    ///
    /// Gives the transactions that are ready to run now.  Nothing happens
    /// where `id` is no transaction that was delegated and has not ended, or
    /// where the method is not registered.
    pub fn resolve_runtime(
        net: &mut DependencyNet,
        id: usize,
        real_contract: Word,
        real_selector: Word,
        threshold: usize,
    ) -> (freed: Vec<usize>)
        requires
            old(net).wf(),
        ensures
            final(net).wf(),
            final(net).contract_data == old(net).contract_data,
            final(net).contracts == old(net).contracts,
            freed@.no_duplicates(),
            correctable(
                old(net).model(),
                &old(net).contract_data,
                id,
                (real_contract, MethodType::Method(real_selector)),
            ) ==> exists|list: Seq<Pair>|
                #[trigger] resolved(
                    old(net).model(),
                    final(net).model(),
                    freed@,
                    &old(net).contract_data,
                    old(net).contracts@,
                    threshold as nat,
                    id,
                    (real_contract, MethodType::Method(real_selector)),
                    list,
                ),
            !correctable(
                old(net).model(),
                &old(net).contract_data,
                id,
                (real_contract, MethodType::Method(real_selector)),
            ) ==> final(net).model() == old(net).model() && freed@.len() == 0,
    {
        let target = (real_contract, MethodType::Method(real_selector));
        let n = net.transactions.len();
        let ghost txs = net.model();
        if id >= n {
            return Vec::new();
        }
        assert(txs[id as int] == net.transactions@[id as int]@);
        if net.transactions[id].is_finished() || net.transactions[id].runtime.is_none() {
            return Vec::new();
        }
        if footprint(&net.contract_data, &target).is_none() {
            return Vec::new();
        }
        let found = collect(&net.contract_data, threshold, real_contract, MethodType::Method(real_selector));
        let list = found.0;
        proof {
            assert forall|i: int| 0 <= i < list@.len() implies net.contracts@.contains_key(
                (#[trigger] list@[i]).0,
            ) && net.contracts@[list@[i].0].wf() by {
                assert(known(&net.contract_data, list@[i]));
                assert(net.contract_data@.dom().contains(list@[i].0));
            }
        }
        if found.1 || !all_methods_concrete(&net.contract_data, &list) {
            let freed: Vec<usize> = Vec::new();
            assert(resolved(
                txs,
                net.model(),
                freed@,
                &net.contract_data,
                net.contracts@,
                threshold as nat,
                id,
                target,
                list@,
            ));
            return freed;
        }
        let picked = pick_released(&net.transactions, &net.contract_data, &net.contracts, id, &list);
        let freed = release_all(&mut net.transactions, id, &picked);
        proof {
            assert forall|d: usize|
                freed@.contains(d) <==> releasable(
                    txs,
                    &net.contract_data,
                    net.contracts@,
                    id,
                    list@,
                    d,
                ) && net.model()[d as int].count == 0 by {}
            assert(resolved(
                txs,
                net.model(),
                freed@,
                &net.contract_data,
                net.contracts@,
                threshold as nat,
                id,
                target,
                list@,
            ));
        }
        freed
    }
}

/// A transaction that waits for a delegated transaction for no other
/// reason than that its footprint was not known, and that is recorded
/// nowhere where the methods that the delegated one really runs conflict
/// with it, waits for one transaction less after the correction, exactly
/// one, and is freed where it waits for none any more.
pub proof fn lemma_released_once(
    txs: Seq<TxModel>,
    after: Seq<TxModel>,
    freed: Seq<usize>,
    data: &WordMap<ContractData>,
    contracts: Map<Word, ContractStorage>,
    threshold: nat,
    id: usize,
    target: Pair,
    list: Seq<Pair>,
    d: usize,
)
    requires
        graph_wf(txs),
        correctable(txs, data, id, target),
        resolved(txs, after, freed, data, contracts, threshold, id, target, list),
        !lost_upto(data, threshold, list, list.len() as int),
        concrete_all_upto(data, list, list.len() as int),
        txs[id as int].edges.contains_key(d),
        txs[id as int].edges[d],
        !clashes_upto(data, contracts, list, d, list.len() as int),
    ensures
        id < d < txs.len(),
        txs[d as int].count >= 1,
        after[d as int].count == txs[d as int].count - 1,
        !after[id as int].edges.contains_key(d),
        after[d as int].count == 0 ==> freed.contains(d),
        graph_wf(after),
{
    let released = released_by(txs, data, contracts, id, list);
    assert(released.contains(d));
    lemma_corrected_wf(txs, id as int, released);
}

/// A transaction that conflicts with a method that the delegated
/// transaction really runs goes on waiting for it.
pub proof fn lemma_conflict_keeps_waiting(
    txs: Seq<TxModel>,
    after: Seq<TxModel>,
    freed: Seq<usize>,
    data: &WordMap<ContractData>,
    contracts: Map<Word, ContractStorage>,
    threshold: nat,
    id: usize,
    target: Pair,
    list: Seq<Pair>,
    d: usize,
)
    requires
        graph_wf(txs),
        correctable(txs, data, id, target),
        resolved(txs, after, freed, data, contracts, threshold, id, target, list),
        txs[id as int].edges.contains_key(d),
        clashes_upto(data, contracts, list, d, list.len() as int) || !txs[id as int].edges[d],
    ensures
        after[id as int].edges.contains_key(d),
        after[d as int].count == txs[d as int].count,
        !freed.contains(d),
{
    assert(has_edge(txs, id as int, d));
    let released = released_by(txs, data, contracts, id, list);
    assert(!released.contains(d));
}

} // verus!
