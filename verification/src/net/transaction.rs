//! Transactions and the graph of their dependencies.
//!
//! The transactions of a net are numbered in the order of their submission.
//! An edge from one transaction to another says that the second must not
//! run before the first has ended; every edge leads from a lower number to
//! a higher one.  Each transaction counts the transactions it still waits
//! for.

use vstd::prelude::*;
use crate::contract_data::ContractData;
use crate::net::netbuilder::ContractStorage;
use crate::net::runtime_delegation::RuntimeDelegationState;
use crate::word::Word;
use crate::word_map::WordMap;

verus! {

/// A source of the chain's state at runtime.
pub trait ChainStateProvider {

}

/// What a submitted transaction tells about itself: the bridge between the
/// library and its client.
pub trait TransactionDataProvider {
    /// The contract that the transaction calls.
    fn get_target_contract(&self) -> Word;

    /// The method that the transaction calls.
    fn get_target_method(&self) -> MethodType;
}

/// What a transaction calls: the constructor of a contract, or the method
/// with a selector.
#[derive(Clone, Copy, Debug, PartialEq, Eq, Structural)]
pub enum MethodType {
    Constructor,
    Method(Word),
}

/// An edge of the graph, as the transaction it starts at holds it.
#[derive(Clone, Copy, Debug, PartialEq, Eq, Structural)]
pub struct Dependent {
    /// The transaction that has to wait.
    pub id: usize,
    /// Whether the edge stands only because the footprint of the
    /// transaction it starts at is not known before that one runs.
    pub conservative: bool,
}

/// The model of a transaction.
pub struct TxModel {
    /// How many transactions it still waits for.
    pub count: nat,
    /// The transactions that wait for it, each with the mark of a
    /// conservative edge.
    pub edges: Map<usize, bool>,
    /// Whether it has ended.
    pub finished: bool,
    /// The mark of a transaction delegated to runtime.
    pub runtime: Option<RuntimeDelegationState>,
}

/// A transaction.
#[derive(Debug)]
pub struct Transaction {
    /// The transactions that wait for this one.
    pub dependencies: Vec<Dependent>,
    /// How many transactions this one still waits for.
    pub count: usize,
    /// The number of the transaction in its net.
    pub id: usize,
    /// The mark of a transaction delegated to runtime.
    pub runtime: Option<RuntimeDelegationState>,
    /// Whether the transaction has ended.
    pub finished: bool,
}

/// The index of the first of the first `end` edges that leads to `id`, or -1.
pub open spec fn edge_index(deps: Seq<Dependent>, id: usize, end: int) -> int
    decreases end,
{
    if end <= 0 {
        -1
    } else if edge_index(deps, id, end - 1) >= 0 {
        edge_index(deps, id, end - 1)
    } else if deps[end - 1].id == id {
        end - 1
    } else {
        -1
    }
}

/// Where the index is not -1 it is that of an edge to `id`, and else no
/// edge leads there.
pub proof fn lemma_edge_index(deps: Seq<Dependent>, id: usize, end: int)
    requires
        0 <= end <= deps.len(),
    ensures
        edge_index(deps, id, end) >= 0 ==> 0 <= edge_index(deps, id, end) < end && deps[edge_index(
            deps,
            id,
            end,
        )].id == id,
        edge_index(deps, id, end) < 0 ==> edge_index(deps, id, end) == -1 && forall|k: int|
            0 <= k < end ==> (#[trigger] deps[k]).id != id,
    decreases end,
{
    if end > 0 {
        lemma_edge_index(deps, id, end - 1);
    }
}

/// The edges of a list as a map from target to mark.
pub open spec fn edges_of(deps: Seq<Dependent>) -> Map<usize, bool> {
    Map::new(
        |d: usize| edge_index(deps, d, deps.len() as int) >= 0,
        |d: usize| deps[edge_index(deps, d, deps.len() as int)].conservative,
    )
}

/// Whether no two edges of a list lead to the same transaction.
pub open spec fn distinct_targets(deps: Seq<Dependent>) -> bool {
    forall|i: int, j: int|
        0 <= i < j < deps.len() ==> (#[trigger] deps[i]).id != (#[trigger] deps[j]).id
}

impl View for Transaction {
    type V = TxModel;

    open spec fn view(&self) -> TxModel {
        TxModel {
            count: self.count as nat,
            edges: edges_of(self.dependencies@),
            finished: self.finished,
            runtime: self.runtime,
        }
    }
}

impl Transaction {
    /// The edges in the order in which they were added.
    pub open spec fn dependents(&self) -> Seq<Dependent> {
        self.dependencies@
    }

    /// No two edges lead to the same transaction.
    pub open spec fn wf(&self) -> bool {
        distinct_targets(self.dependencies@)
    }

    /// A transaction that waits for nothing and for which nothing waits.
    pub fn new(id: usize) -> (r: Self)
        ensures
            r.wf(),
            r.id == id,
            r@ == (TxModel { count: 0, edges: Map::empty(), finished: false, runtime: None }),
            r.dependents() == Seq::<Dependent>::empty(),
    {
        let r = Transaction {
            dependencies: Vec::new(),
            count: 0,
            id,
            runtime: None,
            finished: false,
        };
        assert(r@.edges =~= Map::<usize, bool>::empty());
        r
    }

    /// Whether the transaction has ended.
    pub fn is_finished(&self) -> (r: bool)
        ensures
            r == self@.finished,
    {
        self.finished
    }

    /// The number of edges.
    pub fn dependents_len(&self) -> (r: usize)
        ensures
            r == self.dependents().len(),
    {
        self.dependencies.len()
    }

    /// The edge at a place of the order.
    pub fn dependent_at(&self, k: usize) -> (r: Dependent)
        requires
            k < self.dependents().len(),
        ensures
            r == self.dependents()[k as int],
            self@.edges.contains_key(r.id),
            self.wf() ==> self@.edges[r.id] == r.conservative,
    {
        proof {
            let deps = self.dependencies@;
            lemma_edge_index(deps, deps[k as int].id, deps.len() as int);
        }
        self.dependencies[k]
    }

    /// The place of the edge to `id` in the order, if there is one.
    pub fn find_dependent(&self, id: usize) -> (r: Option<usize>)
        ensures
            r is Some == self@.edges.contains_key(id),
            r matches Some(k) ==> k < self.dependents().len() && self.dependents()[k as int].id == id
                && k == edge_index(self.dependents(), id, self.dependents().len() as int),
    {
        let mut k: usize = 0;
        while k < self.dependencies.len()
            invariant
                k <= self.dependencies.len(),
                edge_index(self.dependencies@, id, k as int) == -1,
            ensures
                k <= self.dependencies.len(),
                k < self.dependencies.len() ==> self.dependencies@[k as int].id == id && edge_index(
                    self.dependencies@,
                    id,
                    k as int,
                ) == -1,
                k == self.dependencies.len() ==> edge_index(self.dependencies@, id, k as int) == -1,
            decreases self.dependencies.len() - k,
        {
            if self.dependencies[k].id == id {
                break;
            }
            k += 1;
        }
        if k < self.dependencies.len() {
            proof {
                lemma_index_found(self.dependencies@, id, k as int, self.dependencies@.len() as int);
            }
            Some(k)
        } else {
            None
        }
    }

    /// Lets the transaction wait for `number` more transactions.
    pub fn wait_for(&mut self, number: usize)
        requires
            old(self).count + number <= usize::MAX,
        ensures
            final(self)@ == (TxModel { count: (old(self)@.count + number) as nat, ..old(self)@ }),
            final(self).dependents() == old(self).dependents(),
            final(self).id == old(self).id,
            final(self).wf() == old(self).wf(),
    {
        self.count += number;
    }

    /// Records that transaction `other` has to wait for this one.  An
    /// edge that stands already is not added again; it loses the mark of a
    /// conservative edge unless the new one is conservative too.  Says
    /// whether the edge is new.
    pub fn required_by(&mut self, other: usize, conservative: bool) -> (added: bool)
        requires
            old(self).wf(),
        ensures
            final(self).wf(),
            added == !old(self)@.edges.contains_key(other),
            final(self)@ == (TxModel {
                edges: old(self)@.edges.insert(
                    other,
                    conservative && (added || old(self)@.edges[other]),
                ),
                ..old(self)@
            }),
            final(self).id == old(self).id,
            final(self).count == old(self).count,
            added ==> final(self).dependents() == old(self).dependents().push(
                Dependent { id: other, conservative },
            ),
            !added ==> final(self).dependents().len() == old(self).dependents().len(),
    {
        let ghost before = self.dependencies@;
        match self.find_dependent(other) {
            Some(k) => {
                let was = self.dependencies[k].conservative;
                self.dependencies.set(k, Dependent { id: other, conservative: conservative && was });
                proof {
                    let after = self.dependencies@;
                    lemma_edge_index(before, other, before.len() as int);
                    assert forall|d: usize| #[trigger]
                        edge_index(after, d, after.len() as int) == edge_index(
                            before,
                            d,
                            before.len() as int,
                        ) by {
                        lemma_same_targets(before, after, d, before.len() as int);
                    }
                    assert forall|d: usize| edges_of(after).contains_key(d) implies #[trigger] edges_of(
                        after,
                    )[d] == edges_of(before).insert(other, conservative && was)[d] by {
                        lemma_edge_index(before, d, before.len() as int);
                        let i = edge_index(before, d, before.len() as int);
                        assert(edge_index(after, d, after.len() as int) == i);
                        if d != other {
                            assert(i != k);
                        } else {
                            assert(i == k);
                        }
                    }
                    assert(edges_of(after).dom() =~= edges_of(before).insert(
                        other,
                        conservative && was,
                    ).dom());
                    assert(edges_of(after) =~= edges_of(before).insert(other, conservative && was));
                }
                false
            },
            None => {
                self.dependencies.push(Dependent { id: other, conservative });
                proof {
                    let after = self.dependencies@;
                    lemma_edge_index(before, other, before.len() as int);
                    assert forall|d: usize| #[trigger]
                        edge_index(after, d, after.len() as int) == (if edge_index(
                            before,
                            d,
                            before.len() as int,
                        ) >= 0 {
                            edge_index(before, d, before.len() as int)
                        } else if d == other {
                            before.len() as int
                        } else {
                            -1
                        }) by {
                        lemma_same_targets(before, after, d, before.len() as int);
                        lemma_edge_index(before, d, before.len() as int);
                        assert(after.len() == before.len() + 1);
                        assert(after[before.len() as int].id == other);
                    }
                    assert forall|d: usize| edges_of(after).contains_key(d) implies #[trigger] edges_of(
                        after,
                    )[d] == edges_of(before).insert(other, conservative)[d] by {
                        lemma_edge_index(before, d, before.len() as int);
                        let i = edge_index(before, d, before.len() as int);
                        if i >= 0 {
                            assert(after[i] == before[i]);
                        }
                    }
                    assert(edges_of(after).dom() =~= edges_of(before).insert(other, conservative).dom());
                    assert(edges_of(after) =~= edges_of(before).insert(other, conservative));
                }
                true
            },
        }
    }

    /// Takes away the edge to `other`, if there is one.
    pub fn release(&mut self, other: usize) -> (removed: bool)
        requires
            old(self).wf(),
        ensures
            final(self).wf(),
            removed == old(self)@.edges.contains_key(other),
            final(self)@ == (TxModel { edges: old(self)@.edges.remove(other), ..old(self)@ }),
            final(self).id == old(self).id,
            final(self).count == old(self).count,
    {
        let ghost before = self.dependencies@;
        match self.find_dependent(other) {
            Some(k) => {
                self.dependencies.remove(k);
                proof {
                    let after = self.dependencies@;
                    assert(after =~= before.remove(k as int));
                    assert forall|d: usize|
                        (edge_index(after, d, after.len() as int) >= 0) == (d != other && edge_index(
                            before,
                            d,
                            before.len() as int,
                        ) >= 0) && (d != other && edge_index(before, d, before.len() as int) >= 0
                            ==> after[edge_index(after, d, after.len() as int)].conservative
                            == before[edge_index(before, d, before.len() as int)].conservative) by {
                        lemma_edge_index(before, d, before.len() as int);
                        lemma_edge_index(after, d, after.len() as int);
                        let i = edge_index(before, d, before.len() as int);
                        let j = edge_index(after, d, after.len() as int);
                        if i >= 0 && d != other {
                            let i2 = if i < k { i } else { i - 1 };
                            assert(after[i2].id == d);
                            let j0 = if j < k { j } else { j + 1 };
                            assert(before[j0].id == d);
                        }
                        if j >= 0 {
                            let j0 = if j < k { j } else { j + 1 };
                            assert(before[j0].id == d);
                        }
                    }
                    assert(edges_of(after) =~= edges_of(before).remove(other));
                }
                true
            },
            None => {
                assert(edges_of(before).remove(other) =~= edges_of(before));
                false
            },
        }
    }

    /// Lets the transaction wait for one transaction less, and says
    /// whether it waits for none any more.
    pub fn stop_waiting(&mut self) -> (ready: bool)
        requires
            old(self).count >= 1,
        ensures
            final(self)@ == (TxModel { count: (old(self)@.count - 1) as nat, ..old(self)@ }),
            final(self).dependents() == old(self).dependents(),
            final(self).id == old(self).id,
            final(self).wf() == old(self).wf(),
            ready == (final(self)@.count == 0),
    {
        self.count -= 1;
        self.count == 0
    }

    /// Marks the transaction as delegated to runtime.
    pub fn mark_delegated(&mut self, state: RuntimeDelegationState)
        ensures
            final(self)@ == (TxModel { runtime: Some(state), ..old(self)@ }),
            final(self).dependents() == old(self).dependents(),
            final(self).id == old(self).id,
            final(self).wf() == old(self).wf(),
    {
        self.runtime = Some(state);
    }

    /// Marks the transaction as ended.
    pub fn finish(&mut self)
        ensures
            final(self)@ == (TxModel { finished: true, ..old(self)@ }),
            final(self).dependents() == old(self).dependents(),
            final(self).id == old(self).id,
            final(self).wf() == old(self).wf(),
    {
        self.finished = true;
    }
}

/// An edge to `id` at place `k`, with none before it, is the first.
pub proof fn lemma_index_found(deps: Seq<Dependent>, id: usize, k: int, end: int)
    requires
        0 <= k < end <= deps.len(),
        deps[k].id == id,
        edge_index(deps, id, k) == -1,
    ensures
        edge_index(deps, id, end) == k,
    decreases end - k,
{
    if end > k + 1 {
        lemma_index_found(deps, id, k, end - 1);
    }
}

/// Lists whose edges lead to the same transactions, place by place, have
/// the same first edge to each transaction.
pub proof fn lemma_same_targets(a: Seq<Dependent>, b: Seq<Dependent>, id: usize, end: int)
    requires
        0 <= end <= a.len(),
        end <= b.len(),
        forall|k: int| 0 <= k < end ==> (#[trigger] a[k]).id == b[k].id,
    ensures
        edge_index(a, id, end) == edge_index(b, id, end),
    decreases end,
{
    if end > 0 {
        lemma_same_targets(a, b, id, end - 1);
    }
}

/// Whether an edge leads from transaction `p` to transaction `d`.
pub open spec fn has_edge(txs: Seq<TxModel>, p: int, d: usize) -> bool {
    0 <= p < txs.len() && txs[p].edges.contains_key(d)
}

/// Whether transaction `d` still waits for transaction `p`.
pub open spec fn blocks(txs: Seq<TxModel>, p: int, d: usize) -> bool {
    has_edge(txs, p, d) && !txs[p].finished
}

/// How many of the first `k` transactions transaction `d` still waits for.
pub open spec fn pending_upto(txs: Seq<TxModel>, d: usize, k: nat) -> nat
    decreases k,
{
    if k == 0 {
        0
    } else {
        pending_upto(txs, d, (k - 1) as nat) + if blocks(txs, k - 1, d) {
            1nat
        } else {
            0nat
        }
    }
}

/// How many transactions transaction `d` still waits for.
pub open spec fn pending(txs: Seq<TxModel>, d: usize) -> nat {
    pending_upto(txs, d, txs.len())
}

/// Every edge leads from a transaction to one submitted later.
pub open spec fn edges_forward(txs: Seq<TxModel>) -> bool {
    forall|p: int, d: usize| #[trigger] has_edge(txs, p, d) ==> p < d < txs.len()
}

/// Every transaction counts the transactions that it still waits for.
pub open spec fn counts_exact(txs: Seq<TxModel>) -> bool {
    forall|d: usize| d < txs.len() ==> (#[trigger] txs[d as int]).count == pending(txs, d)
}

/// The graph is sound: the edges lead forward and the counts are exact.
pub open spec fn graph_wf(txs: Seq<TxModel>) -> bool {
    edges_forward(txs) && counts_exact(txs)
}

/// A transaction waits for no more transactions than were looked at.
pub proof fn lemma_pending_bound(txs: Seq<TxModel>, d: usize, k: nat)
    ensures
        pending_upto(txs, d, k) <= k,
    decreases k,
{
    if k > 0 {
        lemma_pending_bound(txs, d, (k - 1) as nat);
    }
}

/// Two graphs that differ, as far as `d` is concerned, at transaction `p`
/// alone: the numbers that `d` waits for differ by what `p` makes up.
pub proof fn lemma_pending_change(a: Seq<TxModel>, b: Seq<TxModel>, d: usize, p: int, k: nat)
    requires
        k <= a.len(),
        k <= b.len(),
        forall|q: int| 0 <= q < k && q != p ==> blocks(a, q, d) == blocks(b, q, d),
    ensures
        pending_upto(b, d, k) + (if 0 <= p < k && blocks(a, p, d) {
            1nat
        } else {
            0nat
        }) == pending_upto(a, d, k) + (if 0 <= p < k && blocks(b, p, d) {
            1nat
        } else {
            0nat
        }),
    decreases k,
{
    if k > 0 {
        lemma_pending_change(a, b, d, p, (k - 1) as nat);
    }
}

/// The state of the storage indices and footprints of a net.
pub struct DependencyNet {
    /// The transactions in the order of their submission.
    pub transactions: Vec<Transaction>,
    /// The footprint of each registered contract.
    pub contract_data: WordMap<ContractData>,
    /// The scheduling index of each registered contract.
    pub contracts: WordMap<ContractStorage>,
}

/// The graph after an edge from `from` to `to` was asked for.  A new edge
/// lets `to` wait for one transaction more; an edge that stands already
/// loses the mark of a conservative edge unless the new one has it too.
pub open spec fn linked(txs: Seq<TxModel>, from: int, to: usize, conservative: bool) -> Seq<TxModel> {
    let added = !txs[from].edges.contains_key(to);
    let source = TxModel {
        edges: txs[from].edges.insert(to, conservative && (added || txs[from].edges[to])),
        ..txs[from]
    };
    let marked = txs.update(from, source);
    if added {
        marked.update(to as int, TxModel { count: marked[to as int].count + 1, ..marked[to as int] })
    } else {
        marked
    }
}

/// The graph after transaction `id` has ended: no transaction waits for
/// it any more.
pub open spec fn completed(txs: Seq<TxModel>, id: int) -> Seq<TxModel> {
    Seq::new(
        txs.len(),
        |i: int|
            if i == id {
                TxModel { finished: true, ..txs[i] }
            } else if txs[id].edges.contains_key(i as usize) {
                TxModel { count: (txs[i].count - 1) as nat, ..txs[i] }
            } else {
                txs[i]
            },
    )
}

/// A new edge from a transaction that has not ended keeps the graph sound.
pub proof fn lemma_linked_wf(txs: Seq<TxModel>, from: int, to: usize, conservative: bool)
    requires
        graph_wf(txs),
        0 <= from < to < txs.len(),
        !txs[from].finished,
    ensures
        graph_wf(linked(txs, from, to, conservative)),
        !txs[from].edges.contains_key(to) ==> txs[to as int].count < txs.len(),
{
    let after = linked(txs, from, to, conservative);
    assert forall|p: int, d: usize| #[trigger] has_edge(after, p, d) implies p < d < after.len() by {
        if !(p == from && d == to) {
            assert(has_edge(txs, p, d));
        }
    }
    assert forall|d: usize| d < after.len() implies (#[trigger] after[d as int]).count == pending(
        after,
        d,
    ) by {
        assert(txs[d as int].count == pending(txs, d));
        lemma_pending_change(txs, after, d, from, txs.len());
    }
    lemma_pending_bound(after, to, txs.len());
    assert(after[to as int].count == pending(after, to));
}

/// The end of a transaction keeps the graph sound, and a transaction that
/// waited for it waited for at least one.
pub proof fn lemma_completed_wf(txs: Seq<TxModel>, id: int)
    requires
        graph_wf(txs),
        0 <= id < txs.len(),
        !txs[id].finished,
    ensures
        graph_wf(completed(txs, id)),
        forall|d: usize| #[trigger] txs[id].edges.contains_key(d) ==> txs[d as int].count >= 1,
{
    let after = completed(txs, id);
    assert forall|p: int, d: usize| #[trigger] has_edge(after, p, d) implies p < d < after.len() by {
        assert(has_edge(txs, p, d));
    }
    assert forall|d: usize| d < after.len() implies (#[trigger] after[d as int]).count == pending(
        after,
        d,
    ) by {
        assert(txs[d as int].count == pending(txs, d));
        lemma_pending_change(txs, after, d, id, txs.len());
        if d == id as usize {
            assert(!has_edge(txs, id, d));
        }
    }
    assert forall|d: usize| #[trigger] txs[id].edges.contains_key(d) implies txs[d as int].count
        >= 1 by {
        assert(has_edge(txs, id, d));
        assert(txs[d as int].count == pending(txs, d));
        lemma_pending_change(txs, after, d, id, txs.len());
    }
}

/// The models of a list of transactions, in order.
pub open spec fn tx_models(transactions: Seq<Transaction>) -> Seq<TxModel> {
    Seq::new(transactions.len(), |i: int| transactions[i]@)
}

/// The transactions are numbered in order, none holds an edge twice, and
/// the graph is sound.
pub open spec fn graph_ok(transactions: Seq<Transaction>) -> bool {
    &&& forall|i: int|
        0 <= i < transactions.len() ==> (#[trigger] transactions[i]).wf() && transactions[i].id == i
    &&& graph_wf(tx_models(transactions))
}

/// The model of a transaction that waits for nothing and for which
/// nothing waits.
pub open spec fn fresh() -> TxModel {
    TxModel { count: 0, edges: Map::empty(), finished: false, runtime: None }
}

/// Adds a transaction that waits for nothing, and gives its number.
pub fn push_transaction(transactions: &mut Vec<Transaction>) -> (id: usize)
    requires
        graph_ok(old(transactions)@),
    ensures
        graph_ok(final(transactions)@),
        id == old(transactions)@.len(),
        tx_models(final(transactions)@) == tx_models(old(transactions)@).push(fresh()),
{
    let id = transactions.len();
    let ghost before = tx_models(transactions@);
    transactions.push(Transaction::new(id));
    proof {
        let after = tx_models(transactions@);
        assert(after =~= before.push(fresh()));
        assert forall|p: int, d: usize| #[trigger] has_edge(after, p, d) implies p < d < after.len() by {
            assert(has_edge(before, p, d));
        }
        assert forall|d: usize| d < after.len() implies (#[trigger] after[d as int]).count == pending(
            after,
            d,
        ) by {
            lemma_pending_change(before, after, d, -1, before.len());
            if d == id {
                assert forall|q: int| 0 <= q < before.len() implies !blocks(before, q, d) by {
                    if has_edge(before, q, d) {
                        assert(d < before.len());
                    }
                }
                lemma_nothing_pending(before, d, before.len());
            } else {
                assert(before[d as int].count == pending(before, d));
            }
        }
    }
    id
}

/// Lets transaction `to` wait for transaction `from`.
pub fn link(transactions: &mut Vec<Transaction>, from: usize, to: usize, conservative: bool)
    requires
        graph_ok(old(transactions)@),
        from < to < old(transactions)@.len(),
        !old(transactions)@[from as int].finished,
    ensures
        graph_ok(final(transactions)@),
        tx_models(final(transactions)@) == linked(
            tx_models(old(transactions)@),
            from as int,
            to,
            conservative,
        ),
{
    let ghost before = tx_models(transactions@);
    let n = transactions.len();
    proof {
        lemma_linked_wf(before, from as int, to, conservative);
    }
    let source = &mut transactions[from];
    let added = source.required_by(to, conservative);
    if added {
        assert(transactions@[to as int]@.count == before[to as int].count);
        assert(before[to as int].count < before.len());
        let target = &mut transactions[to];
        target.wait_for(1);
    }
    assert(tx_models(transactions@) =~= linked(before, from as int, to, conservative));
}

impl DependencyNet {
    /// The models of the transactions, in order.
    pub open spec fn model(&self) -> Seq<TxModel> {
        tx_models(self.transactions@)
    }

    /// The number of transactions.
    pub fn len(&self) -> (r: usize)
        ensures
            r == self.transactions@.len(),
            r == self.model().len(),
    {
        self.transactions.len()
    }
}

/// A transaction that nothing blocks waits for nothing.
pub proof fn lemma_nothing_pending(txs: Seq<TxModel>, d: usize, k: nat)
    requires
        k <= txs.len(),
        forall|q: int| 0 <= q < k ==> !blocks(txs, q, d),
    ensures
        pending_upto(txs, d, k) == 0,
    decreases k,
{
    if k > 0 {
        lemma_nothing_pending(txs, d, (k - 1) as nat);
    }
}

/// In a list without two edges to one transaction, no edge before place
/// `k` leads where the edge at place `k` leads.
pub proof fn lemma_target_is_new(deps: Seq<Dependent>, k: int)
    requires
        distinct_targets(deps),
        0 <= k < deps.len(),
    ensures
        edge_index(deps, deps[k].id, k) == -1,
{
    lemma_edge_index(deps, deps[k].id, k);
    let i = edge_index(deps, deps[k].id, k);
    if i >= 0 {
        assert(deps[i].id == deps[k].id);
    }
}

/// Records that transaction `id` has ended, and gives the transactions
/// that waited for it alone: those that are ready to run now.  Nothing
/// happens for a number that is no transaction or one that has ended
/// already.
pub fn complete(transactions: &mut Vec<Transaction>, id: usize) -> (ready: Vec<usize>)
    requires
        graph_ok(old(transactions)@),
    ensures
        graph_ok(final(transactions)@),
        ready@.no_duplicates(),
        ({
            let before = tx_models(old(transactions)@);
            let after = tx_models(final(transactions)@);
            if id < before.len() && !before[id as int].finished {
                &&& after == completed(before, id as int)
                &&& forall|d: usize|
                    ready@.contains(d) <==> before[id as int].edges.contains_key(d) && after[d as int].count
                        == 0
            } else {
                after == before && ready@.len() == 0
            }
        }),
{
    let mut ready: Vec<usize> = Vec::new();
    let n = transactions.len();
    if id >= n || transactions[id].is_finished() {
        return ready;
    }
    let ghost before = tx_models(transactions@);
    let ghost deps = transactions@[id as int].dependents();
    proof {
        lemma_completed_wf(before, id as int);
    }
    let m = transactions[id].dependents_len();
    let subject = &mut transactions[id];
    subject.finish();
    let mut k: usize = 0;
    while k < m
        invariant
            k <= m,
            m == deps.len(),
            id < n,
            n == transactions@.len(),
            n == before.len(),
            graph_wf(before),
            !before[id as int].finished,
            before[id as int].edges == edges_of(deps),
            distinct_targets(deps),
            transactions@[id as int].dependents() == deps,
            forall|d: usize| #[trigger] before[id as int].edges.contains_key(d) ==> before[d as int].count >= 1,
            forall|i: int|
                0 <= i < n ==> (#[trigger] transactions@[i]).wf() && transactions@[i].id == i,
            forall|i: int|
                0 <= i < n ==> #[trigger] transactions@[i]@ == (if i == id {
                    TxModel { finished: true, ..before[i] }
                } else if edge_index(deps, i as usize, k as int) >= 0 {
                    TxModel { count: (before[i].count - 1) as nat, ..before[i] }
                } else {
                    before[i]
                }),
            ready@.no_duplicates(),
            forall|d: usize|
                ready@.contains(d) <==> edge_index(deps, d, k as int) >= 0 && d < n && before[d as int].count
                    == 1,
        decreases m - k,
    {
        let d = transactions[id].dependent_at(k).id;
        proof {
            lemma_target_is_new(deps, k as int);
            assert(before[id as int].edges.contains_key(d)) by {
                lemma_index_or_later(deps, d, k as int);
            }
            assert(has_edge(before, id as int, d));
            assert(id < d < n);
            assert(transactions@[d as int]@ == before[d as int]);
            assert(before[d as int].count >= 1);
        }
        let waiting = &mut transactions[d];
        let free = waiting.stop_waiting();
        let ghost listed = ready@;
        if free {
            ready.push(d);
            assert(!listed.contains(d));
            assert forall|i: int, j: int| 0 <= i < j < ready@.len() implies ready@[i] != ready@[j] by {
                if j == listed.len() {
                    assert(listed.contains(listed[i]));
                } else {
                    assert(listed[i] != listed[j]);
                }
            }
            assert forall|e: usize| ready@.contains(e) <==> (listed.contains(e) || e == d) by {
                if listed.contains(e) {
                    let j = choose|j: int| 0 <= j < listed.len() && listed[j] == e;
                    assert(ready@[j] == e);
                }
                if e == d {
                    assert(ready@[listed.len() as int] == e);
                }
            }
        }
        assert forall|e: usize|
            (edge_index(deps, e, k + 1) >= 0) == (edge_index(deps, e, k as int) >= 0 || e == d) by {
            lemma_edge_index(deps, e, k as int);
        }
        assert forall|e: usize| ready@.contains(e) implies edge_index(deps, e, k + 1) >= 0 && e < n
            && before[e as int].count == 1 by {
            if e != d {
                assert(listed.contains(e));
            }
        }
        assert forall|e: usize|
            edge_index(deps, e, k + 1) >= 0 && e < n && before[e as int].count
                == 1 implies ready@.contains(e) by {
            if e != d {
                assert(listed.contains(e));
            }
        }
        k += 1;
    }
    proof {
        assert(tx_models(transactions@) =~= completed(before, id as int));
        assert forall|d: usize|
            ready@.contains(d) <==> before[id as int].edges.contains_key(d) && completed(
                before,
                id as int,
            )[d as int].count == 0 by {
            if before[id as int].edges.contains_key(d) {
                assert(has_edge(before, id as int, d));
            }
        }
    }
    ready
}

/// An edge at place `k` is found among the edges of the whole list.
pub proof fn lemma_index_or_later(deps: Seq<Dependent>, id: usize, k: int)
    requires
        0 <= k < deps.len(),
        deps[k].id == id,
    ensures
        edge_index(deps, id, deps.len() as int) >= 0,
{
    lemma_edge_index(deps, id, deps.len() as int);
}

impl Transaction {
    /// Records that transaction `id` of `net` has ended, and gives the
    /// transactions that are ready to run now.
    pub fn ended(net: &mut DependencyNet, id: usize) -> (ready: Vec<usize>)
        requires
            graph_ok(old(net).transactions@),
        ensures
            graph_ok(final(net).transactions@),
            final(net).contract_data == old(net).contract_data,
            final(net).contracts == old(net).contracts,
            ready@.no_duplicates(),
            ({
                let before = old(net).model();
                let after = final(net).model();
                if id < before.len() && !before[id as int].finished {
                    &&& after == completed(before, id as int)
                    &&& forall|d: usize|
                        ready@.contains(d) <==> before[id as int].edges.contains_key(d) && after[d as int].count
                            == 0
                } else {
                    after == before && ready@.len() == 0
                }
            }),
    {
        complete(&mut net.transactions, id)
    }
}

/// Whether each transaction of a list but the first waits for the one
/// before it.
pub open spec fn is_path(txs: Seq<TxModel>, path: Seq<usize>) -> bool {
    forall|i: int| 0 <= i < path.len() - 1 ==> #[trigger] has_edge(txs, path[i] as int, path[i + 1])
}

/// The graph has no cycle: along a chain of edges the numbers of the
/// transactions grow, so that no chain leads back to where it began.
pub proof fn lemma_acyclic(txs: Seq<TxModel>, path: Seq<usize>)
    requires
        edges_forward(txs),
        is_path(txs, path),
        path.len() >= 2,
    ensures
        path.first() < path.last(),
    decreases path.len(),
{
    let n = path.len() as int;
    let last = n - 2;
    assert(has_edge(txs, path[last] as int, path[last + 1]));
    if n > 2 {
        let shorter = path.drop_last();
        assert forall|i: int| 0 <= i < shorter.len() - 1 implies #[trigger] has_edge(
            txs,
            shorter[i] as int,
            shorter[i + 1],
        ) by {
            assert(has_edge(txs, path[i] as int, path[i + 1]));
        }
        lemma_acyclic(txs, shorter);
    }
}

/// A transaction is not ready while one that it waits for has not ended:
/// its count is not zero.
pub proof fn lemma_waits_for_unfinished(txs: Seq<TxModel>, p: int, d: usize)
    requires
        graph_wf(txs),
        blocks(txs, p, d),
    ensures
        txs[d as int].count >= 1,
{
    assert(has_edge(txs, p, d));
    lemma_blocked_pending(txs, d, p, txs.len());
}

/// A transaction that one of the first `k` blocks waits for at least one.
pub proof fn lemma_blocked_pending(txs: Seq<TxModel>, d: usize, p: int, k: nat)
    requires
        0 <= p < k <= txs.len(),
        blocks(txs, p, d),
    ensures
        pending_upto(txs, d, k) >= 1,
    decreases k,
{
    if p < k - 1 {
        lemma_blocked_pending(txs, d, p, (k - 1) as nat);
    }
}

} // verus!
