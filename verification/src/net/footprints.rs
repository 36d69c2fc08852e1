//! Which methods a transaction runs: the method it is submitted for and
//! every method that one of them calls with a target that is known before
//! the transaction runs.

use vstd::prelude::*;
use crate::contract_data::ContractData;
use crate::contract_data::ContractMethod;
use crate::evm_types::Expr;
use crate::net::transaction::MethodType;
use crate::word::Word;
use crate::word_map::WordMap;

verus! {

/// A method of a contract: the contract and what is called on it.
pub type Pair = (Word, MethodType);

/// Whether the footprints are in order: no contract and no method twice.
pub open spec fn data_wf(data: &WordMap<ContractData>) -> bool {
    &&& data.wf()
    &&& forall|c: Word| #[trigger] data@.contains_key(c) ==> data@[c].wf()
}

/// Whether the footprint of a method is registered.
pub open spec fn known(data: &WordMap<ContractData>, pair: Pair) -> bool {
    data@.contains_key(pair.0) && match pair.1 {
        MethodType::Constructor => true,
        MethodType::Method(s) => data@[pair.0].methods@.contains_key(s),
    }
}

/// The registered footprint of a method.
pub open spec fn footprint_of(data: &WordMap<ContractData>, pair: Pair) -> ContractMethod {
    match pair.1 {
        MethodType::Constructor => data@[pair.0].constructor,
        MethodType::Method(s) => data@[pair.0].methods@[s],
    }
}

/// How many of the first `k` registered contracts have a method with
/// selector `s`.
pub open spec fn exposers_upto(data: &WordMap<ContractData>, s: Word, k: nat) -> nat
    decreases k,
{
    if k == 0 {
        0
    } else {
        exposers_upto(data, s, (k - 1) as nat) + if known(
            data,
            (data.keys()[k - 1], MethodType::Method(s)),
        ) {
            1nat
        } else {
            0nat
        }
    }
}

/// How many registered contracts have a method with selector `s`.
pub open spec fn exposers(data: &WordMap<ContractData>, s: Word) -> nat {
    exposers_upto(data, s, data.keys().len())
}

/// Whether the call leads to method `q`.  The call data must fold to a
/// selector.  A target that folds to a contract leads to that contract's
/// method with the selector; a target that does not fold leads to the
/// method with the selector of every contract that has one, as long as
/// fewer than `threshold` contracts have one.
pub open spec fn follows(data: &WordMap<ContractData>, threshold: nat, call: (Expr, Expr), q: Pair) -> bool {
    match call.1.resolve() {
        None => false,
        Some(s) => q.1 == MethodType::Method(s) && known(data, q) && match call.0.resolve() {
            Some(c) => q.0 == c,
            None => exposers(data, s) < threshold,
        },
    }
}

/// Whether the call cannot be followed before the transaction runs: its
/// call data folds to no selector, its target is a contract without such a
/// method, or its target is unknown and too many contracts have one.
pub open spec fn unfollowed(data: &WordMap<ContractData>, threshold: nat, call: (Expr, Expr)) -> bool {
    match call.1.resolve() {
        None => true,
        Some(s) => match call.0.resolve() {
            Some(c) => !known(data, (c, MethodType::Method(s))),
            None => exposers(data, s) >= threshold,
        },
    }
}

/// Whether method `p` calls method `q`.
pub open spec fn calls(data: &WordMap<ContractData>, threshold: nat, p: Pair, q: Pair) -> bool {
    exists|call: (Expr, Expr)|
        footprint_of(data, p).method_call@.contains(call) && #[trigger] follows(
            data,
            threshold,
            call,
            q,
        )
}

/// Whether method `p` makes a call that cannot be followed.
pub open spec fn loses_track(data: &WordMap<ContractData>, threshold: nat, p: Pair) -> bool {
    exists|call: (Expr, Expr)|
        footprint_of(data, p).method_call@.contains(call) && #[trigger] unfollowed(
            data,
            threshold,
            call,
        )
}

/// Whether every method that one of the first `upto` of the list calls is
/// in the list.
pub open spec fn closed_upto(data: &WordMap<ContractData>, threshold: nat, list: Seq<Pair>, upto: int) -> bool {
    forall|i: int, q: Pair|
        0 <= i < upto && i < list.len() && #[trigger] calls(data, threshold, list[i], q)
            ==> list.contains(q)
}

/// Whether the method at place `i` of the list is called by one before it.
pub open spec fn has_caller(data: &WordMap<ContractData>, threshold: nat, list: Seq<Pair>, i: int) -> bool {
    exists|j: int| 0 <= j < i && #[trigger] calls(data, threshold, list[j], list[i])
}

/// Whether every method of the list but the first is called by one before
/// it.
pub open spec fn rooted(data: &WordMap<ContractData>, threshold: nat, list: Seq<Pair>) -> bool {
    forall|i: int| 1 <= i < list.len() ==> #[trigger] has_caller(data, threshold, list, i)
}

/// Whether each method of the list is registered.
pub open spec fn all_known(data: &WordMap<ContractData>, list: Seq<Pair>) -> bool {
    forall|i: int| 0 <= i < list.len() ==> known(data, #[trigger] list[i])
}

/// Whether the list holds exactly the methods that a transaction for
/// `seed` runs: `seed` first, each other one called by one before it, each
/// once, and every method that one of them calls.
pub open spec fn is_closure(data: &WordMap<ContractData>, threshold: nat, seed: Pair, list: Seq<Pair>) -> bool {
    &&& list.len() >= 1
    &&& list[0] == seed
    &&& list.no_duplicates()
    &&& all_known(data, list)
    &&& rooted(data, threshold, list)
    &&& closed_upto(data, threshold, list, list.len() as int)
}

/// Whether one of the first `upto` methods of the list makes a call that
/// cannot be followed.
pub open spec fn lost_upto(data: &WordMap<ContractData>, threshold: nat, list: Seq<Pair>, upto: int) -> bool {
    exists|i: int| 0 <= i < upto && i < list.len() && #[trigger] loses_track(data, threshold, list[i])
}

/// The methods of one contract: its constructor and each of its methods.
pub open spec fn contract_pairs(c: Word, selectors: Seq<Word>) -> Seq<Pair> {
    seq![(c, MethodType::Constructor)] + Seq::new(
        selectors.len(),
        |j: int| (c, MethodType::Method(selectors[j])),
    )
}

/// The methods of the first `k` registered contracts.
pub open spec fn pairs_upto(data: &WordMap<ContractData>, k: nat) -> Seq<Pair>
    decreases k,
{
    if k == 0 {
        Seq::empty()
    } else {
        pairs_upto(data, (k - 1) as nat) + contract_pairs(
            data.keys()[k - 1],
            data@[data.keys()[k - 1]].methods.keys(),
        )
    }
}

/// How many of the entries of `all` the list lacks.
pub open spec fn missing(all: Seq<Pair>, list: Seq<Pair>) -> nat
    decreases all.len(),
{
    if all.len() == 0 {
        0
    } else {
        missing(all.drop_last(), list) + if list.contains(all.last()) {
            0nat
        } else {
            1nat
        }
    }
}

/// A longer list lacks no more.
pub proof fn lemma_missing_monotone(all: Seq<Pair>, list: Seq<Pair>, x: Pair)
    ensures
        missing(all, list.push(x)) <= missing(all, list),
    decreases all.len(),
{
    if all.len() > 0 {
        lemma_missing_monotone(all.drop_last(), list, x);
        if list.contains(all.last()) {
            let j = choose|j: int| 0 <= j < list.len() && list[j] == all.last();
            assert(list.push(x)[j] == all.last());
        }
    }
}

/// A list that gains one of the entries it lacked lacks fewer.
pub proof fn lemma_missing_push(all: Seq<Pair>, list: Seq<Pair>, x: Pair)
    requires
        all.contains(x),
        !list.contains(x),
    ensures
        missing(all, list.push(x)) < missing(all, list),
    decreases all.len(),
{
    let rest = all.drop_last();
    lemma_missing_monotone(rest, list, x);
    if all.last() == x {
        assert(list.push(x)[list.len() as int] == x);
    } else {
        let i = choose|i: int| 0 <= i < all.len() && all[i] == x;
        assert(rest[i] == x);
        lemma_missing_push(rest, list, x);
        if list.contains(all.last()) {
            let j = choose|j: int| 0 <= j < list.len() && list[j] == all.last();
            assert(list.push(x)[j] == all.last());
        }
    }
}

/// The methods of the first `k` contracts are among those of more.
pub proof fn lemma_pairs_grow(data: &WordMap<ContractData>, k: nat, n: nat, q: Pair)
    requires
        k <= n,
        pairs_upto(data, k).contains(q),
    ensures
        pairs_upto(data, n).contains(q),
    decreases n - k,
{
    if k < n {
        let i = choose|i: int| 0 <= i < pairs_upto(data, k).len() && pairs_upto(data, k)[i] == q;
        let more = pairs_upto(data, (k + 1) as nat);
        assert(more[i] == q);
        lemma_pairs_grow(data, (k + 1) as nat, n, q);
    }
}

/// Every registered method is among the methods of all contracts.
pub proof fn lemma_known_listed(data: &WordMap<ContractData>, q: Pair)
    requires
        data_wf(data),
        known(data, q),
    ensures
        pairs_upto(data, data.keys().len()).contains(q),
{
    data.lemma_keys();
    let keys = data.keys();
    assert(keys.to_set().contains(q.0));
    let i = choose|i: int| 0 <= i < keys.len() && keys[i] == q.0;
    let selectors = data@[keys[i]].methods.keys();
    let own = contract_pairs(keys[i], selectors);
    let before = pairs_upto(data, i as nat);
    let upto = pairs_upto(data, (i + 1) as nat);
    assert(upto == before + own);
    match q.1 {
        MethodType::Constructor => {
            assert(own[0] == q);
            assert(upto[before.len() as int] == q);
        },
        MethodType::Method(s) => {
            data@[keys[i]].methods.lemma_keys();
            assert(selectors.to_set().contains(s));
            let j = choose|j: int| 0 <= j < selectors.len() && selectors[j] == s;
            assert(own[j + 1] == q);
            assert(upto[before.len() + j + 1] == q);
        },
    }
    lemma_pairs_grow(data, (i + 1) as nat, keys.len(), q);
}

/// Whether the list holds every method that one of the first `k` calls
/// leads to.
pub open spec fn followed_upto(
    data: &WordMap<ContractData>,
    threshold: nat,
    calls: Seq<(Expr, Expr)>,
    list: Seq<Pair>,
    k: int,
) -> bool {
    forall|kk: int, q: Pair|
        0 <= kk < k && kk < calls.len() && #[trigger] follows(data, threshold, calls[kk], q)
            ==> list.contains(q)
}

/// Whether one of the first `k` calls cannot be followed.
pub open spec fn unfollowed_upto(
    data: &WordMap<ContractData>,
    threshold: nat,
    calls: Seq<(Expr, Expr)>,
    k: int,
) -> bool {
    exists|kk: int| 0 <= kk < k && kk < calls.len() && #[trigger] unfollowed(data, threshold, calls[kk])
}

/// The basic shape of a list of methods on the way to a closure.
pub open spec fn growing(data: &WordMap<ContractData>, threshold: nat, seed: Pair, list: Seq<Pair>) -> bool {
    &&& list.len() >= 1
    &&& list[0] == seed
    &&& list.no_duplicates()
    &&& all_known(data, list)
    &&& rooted(data, threshold, list)
}

/// A list that gains a method called by one of its own keeps its shape,
/// and what it held of the methods called it still holds.
pub proof fn lemma_push_keeps(
    data: &WordMap<ContractData>,
    threshold: nat,
    seed: Pair,
    list: Seq<Pair>,
    x: Pair,
    caller: int,
    upto: int,
    calls_made: Seq<(Expr, Expr)>,
    k: int,
)
    requires
        growing(data, threshold, seed, list),
        known(data, x),
        !list.contains(x),
        0 <= caller < list.len(),
        calls(data, threshold, list[caller], x),
        upto <= list.len(),
        closed_upto(data, threshold, list, upto),
        followed_upto(data, threshold, calls_made, list, k),
    ensures
        growing(data, threshold, seed, list.push(x)),
        closed_upto(data, threshold, list.push(x), upto),
        followed_upto(data, threshold, calls_made, list.push(x), k),
        forall|q: Pair| list.contains(q) ==> list.push(x).contains(q),
        list.push(x).contains(x),
{
    let more = list.push(x);
    assert forall|i: int| 0 <= i < more.len() implies known(data, #[trigger] more[i]) by {
        if i < list.len() {
            assert(known(data, list[i]));
        }
    }
    assert forall|q: Pair| list.contains(q) implies more.contains(q) by {
        let j = choose|j: int| 0 <= j < list.len() && list[j] == q;
        assert(more[j] == q);
    }
    assert(more[list.len() as int] == x);
    assert forall|i: int, j: int| 0 <= i < j < more.len() implies more[i] != more[j] by {
        if j == list.len() {
            assert(list.contains(list[i]));
        }
    }
    assert forall|i: int| 1 <= i < more.len() implies #[trigger] has_caller(
        data,
        threshold,
        more,
        i,
    ) by {
        if i < list.len() {
            assert(has_caller(data, threshold, list, i));
            let j = choose|j: int| 0 <= j < i && #[trigger] calls(data, threshold, list[j], list[i]);
            assert(calls(data, threshold, more[j], more[i]));
        } else {
            assert(calls(data, threshold, more[caller], more[i]));
        }
    }
    assert forall|i: int, q: Pair|
        0 <= i < upto && i < more.len() && #[trigger] calls(
            data,
            threshold,
            more[i],
            q,
        ) implies more.contains(q) by {
        if i < list.len() {
            assert(calls(data, threshold, list[i], q));
            assert(list.contains(q));
        }
    }
}

/// The footprint of a method, if it is registered.
pub fn footprint<'a>(data: &'a WordMap<ContractData>, pair: &Pair) -> (r: Option<&'a ContractMethod>)
    requires
        data_wf(data),
    ensures
        r is Some == known(data, *pair),
        r matches Some(f) ==> *f == footprint_of(data, *pair),
{
    match data.get(&pair.0) {
        None => None,
        Some(contract) => match pair.1 {
            MethodType::Constructor => Some(&contract.constructor),
            MethodType::Method(s) => contract.methods.get(&s),
        },
    }
}

/// Whether the list holds the method.
pub fn list_has(list: &Vec<Pair>, pair: &Pair) -> (r: bool)
    ensures
        r == list@.contains(*pair),
{
    let mut i: usize = 0;
    while i < list.len()
        invariant
            i <= list.len(),
            forall|j: int| 0 <= j < i ==> list@[j] != *pair,
        decreases list.len() - i,
    {
        if list[i].0 == pair.0 && list[i].1 == pair.1 {
            return true;
        }
        i += 1;
    }
    false
}

/// How many registered contracts have a method with selector `s`.
pub fn count_exposers(data: &WordMap<ContractData>, s: Word) -> (r: usize)
    requires
        data_wf(data),
    ensures
        r == exposers(data, s),
{
    let n = data.len();
    let mut count: usize = 0;
    let mut i: usize = 0;
    proof {
        data.lemma_keys();
    }
    while i < n
        invariant
            i <= n,
            n == data.keys().len(),
            data_wf(data),
            count <= i,
            count == exposers_upto(data, s, i as nat),
            forall|j: int| 0 <= j < data.keys().len() ==> data@.contains_key(#[trigger] data.keys()[j]),
        decreases n - i,
    {
        let contract = data.value_at(i);
        if contract.methods.contains_key(&s) {
            count += 1;
        }
        i += 1;
    }
    count
}

/// What stays true of a list while the methods that the one at place
/// `caller` calls are added to it.
pub open spec fn expanding(
    data: &WordMap<ContractData>,
    threshold: nat,
    seed: Pair,
    list: Seq<Pair>,
    caller: int,
    made: Seq<(Expr, Expr)>,
    k: int,
) -> bool {
    &&& data_wf(data)
    &&& growing(data, threshold, seed, list)
    &&& 0 <= caller < list.len()
    &&& closed_upto(data, threshold, list, caller)
    &&& followed_upto(data, threshold, made, list, k)
    &&& made.to_set() == footprint_of(data, list[caller]).method_call@
}

/// Adds to the list the method `x` that the method at place `caller`
/// calls, unless the list holds it.
fn push_new(
    data: &WordMap<ContractData>,
    threshold: usize,
    list: &mut Vec<Pair>,
    x: Pair,
    Ghost(seed): Ghost<Pair>,
    Ghost(caller): Ghost<int>,
    Ghost(made): Ghost<Seq<(Expr, Expr)>>,
    Ghost(k): Ghost<int>,
)
    requires
        expanding(data, threshold as nat, seed, old(list)@, caller, made, k),
        known(data, x),
        calls(data, threshold as nat, old(list)@[caller], x),
    ensures
        expanding(data, threshold as nat, seed, final(list)@, caller, made, k),
        forall|q: Pair| old(list)@.contains(q) ==> final(list)@.contains(q),
        final(list)@.contains(x),
        final(list)@.len() >= old(list)@.len(),
        forall|i: int| 0 <= i < old(list)@.len() ==> final(list)@[i] == old(list)@[i],
        missing(pairs_upto(data, data.keys().len()), final(list)@) + final(list)@.len() <= missing(
            pairs_upto(data, data.keys().len()),
            old(list)@,
        ) + old(list)@.len(),
{
    if !list_has(list, &x) {
        proof {
            lemma_push_keeps(data, threshold as nat, seed, list@, x, caller, caller, made, k);
            lemma_known_listed(data, x);
            lemma_missing_push(pairs_upto(data, data.keys().len()), list@, x);
        }
        list.push(x);
    }
}

/// Adds to the list the method with selector `s` of every contract that
/// has one: the methods that a call with an unknown target leads to.
fn fan_out(
    data: &WordMap<ContractData>,
    threshold: usize,
    list: &mut Vec<Pair>,
    s: Word,
    Ghost(call): Ghost<(Expr, Expr)>,
    Ghost(seed): Ghost<Pair>,
    Ghost(caller): Ghost<int>,
    Ghost(made): Ghost<Seq<(Expr, Expr)>>,
    Ghost(k): Ghost<int>,
)
    requires
        expanding(data, threshold as nat, seed, old(list)@, caller, made, k),
        footprint_of(data, old(list)@[caller]).method_call@.contains(call),
        call.1.resolve() == Some(s),
        call.0.resolve() is None,
        exposers(data, s) < threshold,
    ensures
        expanding(data, threshold as nat, seed, final(list)@, caller, made, k),
        forall|q: Pair| #[trigger] follows(data, threshold as nat, call, q) ==> final(list)@.contains(q),
        final(list)@.len() >= old(list)@.len(),
        forall|i: int| 0 <= i < old(list)@.len() ==> final(list)@[i] == old(list)@[i],
        missing(pairs_upto(data, data.keys().len()), final(list)@) + final(list)@.len() <= missing(
            pairs_upto(data, data.keys().len()),
            old(list)@,
        ) + old(list)@.len(),
{
    let ghost th = threshold as nat;
    let ghost p = list@[caller];
    let contracts = data.len();
    let mut ci: usize = 0;
    proof {
        data.lemma_keys();
    }
    while ci < contracts
        invariant
            ci <= contracts,
            contracts == data.keys().len(),
            th == threshold as nat,
            forall|j: int| 0 <= j < data.keys().len() ==> data@.contains_key(#[trigger] data.keys()[j]),
            expanding(data, th, seed, list@, caller, made, k),
            list@[caller] == p,
            footprint_of(data, p).method_call@.contains(call),
            call.1.resolve() == Some(s),
            call.0.resolve() is None,
            exposers(data, s) < th,
            list@.len() >= old(list)@.len(),
            forall|i: int| 0 <= i < old(list)@.len() ==> list@[i] == old(list)@[i],
            missing(pairs_upto(data, data.keys().len()), list@) + list@.len() <= missing(
                pairs_upto(data, data.keys().len()),
                old(list)@,
            ) + old(list)@.len(),
            forall|j: int|
                0 <= j < ci && known(data, (#[trigger] data.keys()[j], MethodType::Method(s)))
                    ==> list@.contains((data.keys()[j], MethodType::Method(s))),
        decreases contracts - ci,
    {
        let key = data.key_at(ci);
        let q = (key, MethodType::Method(s));
        if data.value_at(ci).methods.contains_key(&s) {
            assert(known(data, q));
            assert(follows(data, th, call, q));
            assert(calls(data, th, p, q));
            push_new(data, threshold, list, q, Ghost(seed), Ghost(caller), Ghost(made), Ghost(k));
        }
        ci += 1;
    }
    proof {
        assert forall|q: Pair| #[trigger] follows(data, th, call, q) implies list@.contains(q) by {
            data.lemma_keys();
            assert(data.keys().to_set().contains(q.0));
            let j = choose|j: int| 0 <= j < data.keys().len() && data.keys()[j] == q.0;
            assert(known(data, (data.keys()[j], MethodType::Method(s))));
        }
    }
}

/// One more call is followed.
pub proof fn lemma_followed_step(
    data: &WordMap<ContractData>,
    threshold: nat,
    made: Seq<(Expr, Expr)>,
    list: Seq<Pair>,
    k: int,
)
    requires
        0 <= k < made.len(),
        followed_upto(data, threshold, made, list, k),
        forall|q: Pair| #[trigger] follows(data, threshold, made[k], q) ==> list.contains(q),
    ensures
        followed_upto(data, threshold, made, list, k + 1),
{
    assert forall|kk: int, q: Pair|
        0 <= kk < k + 1 && kk < made.len() && #[trigger] follows(
            data,
            threshold,
            made[kk],
            q,
        ) implies list.contains(q) by {
        if kk < k {
            assert(followed_upto(data, threshold, made, list, k));
        }
    }
}

/// One of the calls up to one more cannot be followed exactly where that
/// one cannot or one before it cannot.
pub proof fn lemma_unfollowed_step(
    data: &WordMap<ContractData>,
    threshold: nat,
    made: Seq<(Expr, Expr)>,
    k: int,
)
    requires
        0 <= k < made.len(),
    ensures
        unfollowed_upto(data, threshold, made, k + 1) == (unfollowed_upto(data, threshold, made, k)
            || unfollowed(data, threshold, made[k])),
{
    if unfollowed_upto(data, threshold, made, k + 1) {
        let kk = choose|kk: int|
            0 <= kk < k + 1 && kk < made.len() && #[trigger] unfollowed(data, threshold, made[kk]);
        if kk < k {
            assert(unfollowed_upto(data, threshold, made, k));
        }
    }
    if unfollowed_upto(data, threshold, made, k) {
        let kk = choose|kk: int|
            0 <= kk < k && kk < made.len() && #[trigger] unfollowed(data, threshold, made[kk]);
        assert(0 <= kk < k + 1);
    }
    if unfollowed(data, threshold, made[k]) {
        assert(0 <= k < k + 1);
    }
}

/// Follows one call of the method at place `caller`: adds the methods it
/// leads to, and says whether it cannot be followed.
fn follow_call(
    data: &WordMap<ContractData>,
    threshold: usize,
    list: &mut Vec<Pair>,
    call: &(crate::evm_types::StackValue, crate::evm_types::StackValue),
    Ghost(seed): Ghost<Pair>,
    Ghost(caller): Ghost<int>,
    Ghost(made): Ghost<Seq<(Expr, Expr)>>,
    Ghost(k): Ghost<int>,
) -> (lost: bool)
    requires
        expanding(data, threshold as nat, seed, old(list)@, caller, made, k),
        0 <= k < made.len(),
        made[k] == call@,
    ensures
        expanding(data, threshold as nat, seed, final(list)@, caller, made, k + 1),
        lost == unfollowed(data, threshold as nat, call@),
        final(list)@.len() >= old(list)@.len(),
        forall|i: int| 0 <= i < old(list)@.len() ==> final(list)@[i] == old(list)@[i],
        missing(pairs_upto(data, data.keys().len()), final(list)@) + final(list)@.len() <= missing(
            pairs_upto(data, data.keys().len()),
            old(list)@,
        ) + old(list)@.len(),
{
    let ghost th = threshold as nat;
    let ghost p = list@[caller];
    assert(made.to_set().contains(made[k]));
    let mut lost = false;
    match call.1.resolve() {
        None => {
            lost = true;
        },
        Some(s) => {
            match call.0.resolve() {
                Some(c) => {
                    let q = (c, MethodType::Method(s));
                    if footprint(data, &q).is_some() {
                        assert(follows(data, th, call@, q));
                        assert(calls(data, th, p, q));
                        push_new(data, threshold, list, q, Ghost(seed), Ghost(caller), Ghost(made), Ghost(k));
                    } else {
                        lost = true;
                    }
                },
                None => {
                    if count_exposers(data, s) < threshold {
                        fan_out(
                            data,
                            threshold,
                            list,
                            s,
                            Ghost(call@),
                            Ghost(seed),
                            Ghost(caller),
                            Ghost(made),
                            Ghost(k),
                        );
                    } else {
                        lost = true;
                    }
                },
            }
        },
    }
    proof {
        lemma_followed_step(data, th, made, list@, k);
    }
    lost
}

/// Adds to the list the methods that the method at place `next` calls,
/// and says whether it makes a call that cannot be followed.
fn expand(
    data: &WordMap<ContractData>,
    threshold: usize,
    list: &mut Vec<Pair>,
    next: usize,
    Ghost(seed): Ghost<Pair>,
) -> (lost: bool)
    requires
        data_wf(data),
        growing(data, threshold as nat, seed, old(list)@),
        next < old(list)@.len(),
        closed_upto(data, threshold as nat, old(list)@, next as int),
    ensures
        growing(data, threshold as nat, seed, final(list)@),
        closed_upto(data, threshold as nat, final(list)@, next + 1),
        lost == loses_track(data, threshold as nat, old(list)@[next as int]),
        final(list)@.len() >= old(list)@.len(),
        forall|i: int| 0 <= i <= next ==> final(list)@[i] == old(list)@[i],
        missing(pairs_upto(data, data.keys().len()), final(list)@) + final(list)@.len() <= missing(
            pairs_upto(data, data.keys().len()),
            old(list)@,
        ) + old(list)@.len(),
{
    let ghost th = threshold as nat;
    let p = list[next];
    assert(known(data, list@[next as int]));
    let fp = footprint(data, &p).unwrap();
    let ghost made = fp.method_call.order();
    let ncalls = fp.method_call.len();
    let mut lost = false;
    let mut k: usize = 0;
    while k < ncalls
        invariant
            k <= ncalls,
            ncalls == made.len(),
            made == fp.method_call.order(),
            *fp == footprint_of(data, p),
            th == threshold as nat,
            list@[next as int] == p,
            expanding(data, th, seed, list@, next as int, made, k as int),
            lost == unfollowed_upto(data, th, made, k as int),
            list@.len() >= old(list)@.len(),
            forall|i: int| 0 <= i <= next ==> list@[i] == old(list)@[i],
            missing(pairs_upto(data, data.keys().len()), list@) + list@.len() <= missing(
                pairs_upto(data, data.keys().len()),
                old(list)@,
            ) + old(list)@.len(),
        decreases ncalls - k,
    {
        let call = fp.method_call.get(k);
        let ghost held = list@;
        proof {
            lemma_unfollowed_step(data, th, made, k as int);
        }
        let one = follow_call(
            data,
            threshold,
            list,
            call,
            Ghost(seed),
            Ghost(next as int),
            Ghost(made),
            Ghost(k as int),
        );
        lost = lost || one;
        k += 1;
    }
    proof {
        assert forall|i: int, q: Pair|
            0 <= i < next + 1 && i < list@.len() && #[trigger] calls(
                data,
                th,
                list@[i],
                q,
            ) implies list@.contains(q) by {
            if i == next {
                let call = choose|call: (Expr, Expr)|
                    footprint_of(data, p).method_call@.contains(call) && #[trigger] follows(
                        data,
                        th,
                        call,
                        q,
                    );
                assert(made.to_set().contains(call));
                let kk = choose|kk: int| 0 <= kk < made.len() && made[kk] == call;
                assert(follows(data, th, made[kk], q));
            } else {
                assert(closed_upto(data, th, list@, next as int));
            }
        }
        if loses_track(data, th, p) {
            let call = choose|call: (Expr, Expr)|
                footprint_of(data, p).method_call@.contains(call) && #[trigger] unfollowed(
                    data,
                    th,
                    call,
                );
            assert(made.to_set().contains(call));
            let kk = choose|kk: int| 0 <= kk < made.len() && made[kk] == call;
            assert(unfollowed(data, th, made[kk]));
        }
        if unfollowed_upto(data, th, made, ncalls as int) {
            let kk = choose|kk: int|
                0 <= kk < ncalls && kk < made.len() && #[trigger] unfollowed(data, th, made[kk]);
            assert(made.to_set().contains(made[kk]));
        }
    }
    lost
}

/// One of the methods up to one more loses track exactly where that one
/// does or one before it does.
pub proof fn lemma_lost_step(data: &WordMap<ContractData>, threshold: nat, list: Seq<Pair>, next: int)
    requires
        0 <= next < list.len(),
    ensures
        lost_upto(data, threshold, list, next + 1) == (lost_upto(data, threshold, list, next)
            || loses_track(data, threshold, list[next])),
{
    if lost_upto(data, threshold, list, next + 1) {
        let i = choose|i: int|
            0 <= i < next + 1 && i < list.len() && #[trigger] loses_track(data, threshold, list[i]);
        if i < next {
            assert(lost_upto(data, threshold, list, next));
        }
    }
    if lost_upto(data, threshold, list, next) {
        let i = choose|i: int|
            0 <= i < next && i < list.len() && #[trigger] loses_track(data, threshold, list[i]);
        assert(0 <= i < next + 1);
    }
    if loses_track(data, threshold, list[next]) {
        assert(0 <= next < next + 1);
    }
}

/// Whether two lists agree on their first `upto` entries.
pub open spec fn same_prefix(a: Seq<Pair>, b: Seq<Pair>, upto: int) -> bool {
    forall|i: int| 0 <= i < upto ==> #[trigger] a[i] == b[i]
}

/// Lists that agree on their first entries agree on whether one of those
/// loses track.
pub proof fn lemma_lost_prefix(
    data: &WordMap<ContractData>,
    threshold: nat,
    a: Seq<Pair>,
    b: Seq<Pair>,
    upto: int,
)
    requires
        upto <= a.len() <= b.len(),
        same_prefix(a, b, upto),
    ensures
        lost_upto(data, threshold, a, upto) == lost_upto(data, threshold, b, upto),
{
    if lost_upto(data, threshold, a, upto) {
        let i = choose|i: int|
            0 <= i < upto && i < a.len() && #[trigger] loses_track(data, threshold, a[i]);
        assert(a[i] == b[i]);
        assert(loses_track(data, threshold, b[i]));
    }
    if lost_upto(data, threshold, b, upto) {
        let i = choose|i: int|
            0 <= i < upto && i < b.len() && #[trigger] loses_track(data, threshold, b[i]);
        assert(a[i] == b[i]);
        assert(loses_track(data, threshold, a[i]));
    }
}

/// The methods that a transaction for method `method` of contract
/// `contract` runs, and whether one of them makes a call that cannot be
/// followed before the transaction runs.
pub fn collect(data: &WordMap<ContractData>, threshold: usize, contract: Word, method: MethodType) -> (r:
    (Vec<Pair>, bool))
    requires
        data_wf(data),
        known(data, (contract, method)),
    ensures
        is_closure(data, threshold as nat, (contract, method), r.0@),
        r.1 == lost_upto(data, threshold as nat, r.0@, r.0@.len() as int),
{
    let ghost seed = (contract, method);
    let ghost th = threshold as nat;
    let ghost all = pairs_upto(data, data.keys().len());
    let mut list: Vec<Pair> = Vec::new();
    list.push((contract, method));
    let mut lost = false;
    let mut next: usize = 0;
    while next < list.len()
        invariant
            next <= list@.len(),
            data_wf(data),
            all == pairs_upto(data, data.keys().len()),
            th == threshold as nat,
            seed == (contract, method),
            growing(data, th, seed, list@),
            closed_upto(data, th, list@, next as int),
            lost == lost_upto(data, th, list@, next as int),
        decreases missing(all, list@) + list@.len() - next,
    {
        let ghost held = list@;
        let one = expand(data, threshold, &mut list, next, Ghost(seed));
        proof {
            assert(same_prefix(held, list@, next + 1));
            lemma_lost_prefix(data, th, held, list@, next as int);
            lemma_lost_step(data, th, list@, next as int);
        }
        lost = lost || one;
        next += 1;
    }
    (list, lost)
}

} // verus!
