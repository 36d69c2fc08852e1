//! The decisions of the execution driver.
//!
//! The driver runs transactions on a pool of workers.  What it decides is
//! which transactions may run: those that the builder listed as ready, and
//! after each run those that waited for that run alone.  The runs
//! themselves are not part of this library.

use vstd::prelude::*;
use crate::net::transaction::DependencyNet;
use crate::net::transaction::Transaction;
use crate::net::transaction::completed;
use crate::net::transaction::graph_ok;

verus! {

/// Records that the run of transaction `id` has ended and puts the
/// transactions that are ready now at the end of the queue.
pub fn enqueue_ready(net: &mut DependencyNet, queue: &mut Vec<usize>, id: usize)
    requires
        graph_ok(old(net).transactions@),
    ensures
        graph_ok(final(net).transactions@),
        final(net).contract_data == old(net).contract_data,
        final(net).contracts == old(net).contracts,
        final(queue)@.len() >= old(queue)@.len(),
        final(queue)@.subrange(0, old(queue)@.len() as int) == old(queue)@,
        final(queue)@.subrange(old(queue)@.len() as int, final(queue)@.len() as int).no_duplicates(),
        ({
            let before = old(net).model();
            let after = final(net).model();
            let added = final(queue)@.subrange(old(queue)@.len() as int, final(queue)@.len() as int);
            if id < before.len() && !before[id as int].finished {
                &&& after == completed(before, id as int)
                &&& forall|d: usize|
                    added.contains(d) <==> before[id as int].edges.contains_key(d) && after[d as int].count
                        == 0
            } else {
                after == before && added.len() == 0
            }
        }),
{
    let ready = Transaction::ended(net, id);
    let ghost waiting = queue@;
    let mut i: usize = 0;
    while i < ready.len()
        invariant
            i <= ready@.len(),
            queue@ == waiting + ready@.take(i as int),
        decreases ready@.len() - i,
    {
        queue.push(ready[i]);
        assert(ready@.take(i + 1) =~= ready@.take(i as int).push(ready@[i as int]));
        assert(queue@ =~= waiting + ready@.take(i + 1));
        i += 1;
    }
    proof {
        assert(ready@.take(ready@.len() as int) =~= ready@);
        assert(queue@.subrange(0, waiting.len() as int) =~= waiting);
        assert(queue@.subrange(waiting.len() as int, queue@.len() as int) =~= ready@);
    }
}

} // verus!
