//! The cycle guard: which edges a walk of the call graph may follow.

use vstd::prelude::*;
use crate::contract_utils::DataModel;
use crate::contract_utils::DataType;
use crate::contract_utils::classify;
use crate::contract_utils::top_level_data;
use crate::evm_function::FunctionRegistry;
use crate::evm_function::option_model;
use crate::evm_types::Expr;
use crate::evm_types::StackValue;

verus! {

/// How often `address` stands on the call stack.
pub open spec fn occurrences(stack: Seq<usize>, address: nat) -> nat
    decreases stack.len(),
{
    if stack.len() == 0 {
        0
    } else {
        occurrences(stack.drop_last(), address) + if stack.last() == address {
            1nat
        } else {
            0nat
        }
    }
}

/// Whether `i` and `j` are two occurrences of `address` on the stack with
/// none between them.
pub open spec fn consecutive(stack: Seq<usize>, address: usize, i: int, j: int) -> bool {
    &&& 0 <= i < j < stack.len()
    &&& stack[i] == address
    &&& stack[j] == address
    &&& forall|k: int| i < k < j ==> stack[k] != address
}

/// Whether the entry at `k` is equal to the one `shift` places behind it.
pub open spec fn same_shifted(stack: Seq<usize>, k: int, shift: int) -> bool {
    stack[k] == stack[k + shift]
}

/// Whether the entries from `from` up to `to` are equal, one by one from
/// the end, to the end of the stack.
pub open spec fn segment_is_suffix(stack: Seq<usize>, from: int, to: int) -> bool {
    forall|k: int| from <= k < to ==> #[trigger] same_shifted(stack, k, stack.len() - to)
}

/// Whether a jump to `address` would repeat a path taken before: the stack
/// is cut at each occurrence of `address`, and one of the segments between
/// two occurrences is equal, from the end, to the end of the stack.
pub open spec fn repeats_suffix(stack: Seq<usize>, address: usize) -> bool {
    exists|i: int, j: int|
        consecutive(stack, address, i, j) && #[trigger] segment_is_suffix(stack, i + 1, j)
}

/// A path that repeats passes through `address` already.
pub proof fn lemma_repeat_revisits(stack: Seq<usize>, address: usize)
    requires
        repeats_suffix(stack, address),
    ensures
        stack.contains(address),
{
    let (i, j) = choose|i: int, j: int|
        consecutive(stack, address, i, j) && #[trigger] segment_is_suffix(stack, i + 1, j);
    assert(stack[i] == address);
}

/// An address that is not on the stack occurs zero times, and the
/// other way round.
pub proof fn lemma_occurrences_contains(stack: Seq<usize>, address: usize)
    ensures
        stack.contains(address) <==> occurrences(stack, address as nat) > 0,
    decreases stack.len(),
{
    if stack.len() > 0 {
        let rest = stack.drop_last();
        lemma_occurrences_contains(rest, address);
        if stack.contains(address) {
            let i = choose|i: int| 0 <= i < stack.len() && stack[i] == address;
            if i < rest.len() {
                assert(rest[i] == address);
            }
        }
        if rest.contains(address) {
            let i = choose|i: int| 0 <= i < rest.len() && rest[i] == address;
            assert(stack[i] == address);
        }
        if stack.last() == address {
            assert(stack[stack.len() - 1] == address);
        }
    }
}

/// The policy of a walk of the call graph: how a storage location is
/// classified, and which edges are followed.
///
/// A walk ends because no policy lets an address stand on the call stack
/// more than `revisit_limit() + 1` times.
pub trait CycleSolver {
    /// How often an address may stand on the call stack already when an
    /// edge to it is followed.
    spec fn revisit_limit(&self) -> nat;

    /// Whether the edge from the block at `prev_address` to the block at
    /// `address` is followed, with `stack` the addresses of the blocks
    /// entered so far, oldest first.
    spec fn permits(
        &self,
        stack: Seq<usize>,
        address: usize,
        prev_address: usize,
        condition: Option<Expr>,
    ) -> bool;

    /// The classification of a resolved storage location.
    spec fn data_of(&self, location: Expr) -> DataModel;

    /// No edge is followed to an address that stands on the call stack more
    /// often than the limit.
    proof fn lemma_permits_bounded(
        &self,
        stack: Seq<usize>,
        address: usize,
        prev_address: usize,
        condition: Option<Expr>,
    )
        ensures
            self.permits(stack, address, prev_address, condition) ==> occurrences(
                stack,
                address as nat,
            ) <= self.revisit_limit(),
    ;

    fn get_data(&self, location: &StackValue) -> (r: DataType)
        ensures
            r@ == self.data_of(location@),
    ;

    fn should_go(
        &self,
        stack: &Vec<usize>,
        address: usize,
        prev_address: usize,
        registry: &FunctionRegistry,
        condition: &Option<StackValue>,
    ) -> (r: bool)
        ensures
            r == self.permits(stack@, address, prev_address, option_model(*condition)),
    ;
}

/// The policy that follows no edge to an address on the call stack.
pub struct NocycleSolver();

/// The policy that lets an address stand on the call stack a given number
/// of times before it follows no more edges to it.
pub struct MaxIterations(pub usize);

/// How often `address` stands on the call stack.
pub fn count_occurrences(stack: &Vec<usize>, address: usize) -> (r: usize)
    ensures
        r == occurrences(stack@, address as nat),
{
    let mut count: usize = 0;
    let mut i: usize = 0;
    assert(stack@.take(0).len() == 0);
    while i < stack.len()
        invariant
            i <= stack.len(),
            count <= i,
            count == occurrences(stack@.take(i as int), address as nat),
        decreases stack.len() - i,
    {
        assert(stack@.take(i + 1).drop_last() =~= stack@.take(i as int));
        if stack[i] == address {
            count += 1;
        }
        i += 1;
    }
    assert(stack@.take(stack.len() as int) =~= stack@);
    count
}

/// Whether the entries from `from` up to `to` are equal, one by one from
/// the end, to the end of the stack.
pub fn is_suffix(stack: &Vec<usize>, from: usize, to: usize) -> (r: bool)
    requires
        from <= to <= stack.len(),
    ensures
        r == segment_is_suffix(stack@, from as int, to as int),
{
    let n = stack.len();
    let mut t: usize = 0;
    while t < to - from
        invariant
            from <= to <= n,
            n == stack.len(),
            t <= to - from,
            forall|k: int| to - t <= k < to ==> #[trigger] same_shifted(stack@, k, n - to),
        decreases to - from - t,
    {
        if stack[to - 1 - t] != stack[n - 1 - t] {
            assert(!same_shifted(stack@, to - 1 - t, n - to));
            return false;
        }
        assert(same_shifted(stack@, to - 1 - t, n - to));
        t += 1;
    }
    true
}

/// Whether a jump to `address` would repeat a path taken before.
pub fn path_repeats(stack: &Vec<usize>, address: usize) -> (r: bool)
    ensures
        r == repeats_suffix(stack@, address),
{
    let mut last: Option<usize> = None;
    let mut k: usize = 0;
    while k < stack.len()
        invariant
            k <= stack.len(),
            last matches Some(i) ==> i < k && stack@[i as int] == address && forall|m: int|
                i < m < k ==> stack@[m] != address,
            last is None ==> forall|m: int| 0 <= m < k ==> stack@[m] != address,
            forall|i: int, j: int|
                j < k && consecutive(stack@, address, i, j) ==> !#[trigger] segment_is_suffix(
                    stack@,
                    i + 1,
                    j,
                ),
        decreases stack.len() - k,
    {
        if stack[k] == address {
            if let Some(i) = last {
                assert(consecutive(stack@, address, i as int, k as int));
                if is_suffix(stack, i + 1, k) {
                    return true;
                }
                assert forall|a: int, b: int|
                    b < k + 1 && consecutive(stack@, address, a, b) implies !#[trigger] segment_is_suffix(
                    stack@,
                    a + 1,
                    b,
                ) by {
                    if b == k {
                        assert(a == i);
                    }
                }
            } else {
                assert forall|a: int, b: int|
                    b < k + 1 && consecutive(stack@, address, a, b) implies !#[trigger] segment_is_suffix(
                    stack@,
                    a + 1,
                    b,
                ) by {
                    if b == k {
                        assert(stack@[a] == address);
                    }
                }
            }
            last = Some(k);
        }
        k += 1;
    }
    false
}

/// Whether `address` stands on the call stack.
pub fn on_stack(stack: &Vec<usize>, address: usize) -> (r: bool)
    ensures
        r == stack@.contains(address),
{
    let mut i: usize = 0;
    while i < stack.len()
        invariant
            i <= stack.len(),
            forall|j: int| 0 <= j < i ==> stack@[j] != address,
        decreases stack.len() - i,
    {
        if stack[i] == address {
            return true;
        }
        i += 1;
    }
    false
}

impl CycleSolver for MaxIterations {
    open spec fn revisit_limit(&self) -> nat {
        self.0 as nat
    }

    open spec fn permits(
        &self,
        stack: Seq<usize>,
        address: usize,
        prev_address: usize,
        condition: Option<Expr>,
    ) -> bool {
        occurrences(stack, address as nat) <= self.0
    }

    open spec fn data_of(&self, location: Expr) -> DataModel {
        classify(location)
    }

    proof fn lemma_permits_bounded(
        &self,
        stack: Seq<usize>,
        address: usize,
        prev_address: usize,
        condition: Option<Expr>,
    ) {
    }

    fn get_data(&self, location: &StackValue) -> (r: DataType) {
        top_level_data(location)
    }

    fn should_go(
        &self,
        stack: &Vec<usize>,
        address: usize,
        _prev_address: usize,
        _registry: &FunctionRegistry,
        _condition: &Option<StackValue>,
    ) -> (r: bool) {
        !(count_occurrences(stack, address) > self.0)
    }
}

impl CycleSolver for NocycleSolver {
    open spec fn revisit_limit(&self) -> nat {
        0
    }

    /// An edge is declined where following it would repeat a path taken
    /// before, and else where its address stands on the call stack at all.
    open spec fn permits(
        &self,
        stack: Seq<usize>,
        address: usize,
        prev_address: usize,
        condition: Option<Expr>,
    ) -> bool {
        !repeats_suffix(stack, address) && !stack.contains(address)
    }

    open spec fn data_of(&self, location: Expr) -> DataModel {
        classify(location)
    }

    proof fn lemma_permits_bounded(
        &self,
        stack: Seq<usize>,
        address: usize,
        prev_address: usize,
        condition: Option<Expr>,
    ) {
        lemma_occurrences_contains(stack, address);
    }

    fn get_data(&self, location: &StackValue) -> (r: DataType) {
        top_level_data(location)
    }

    fn should_go(
        &self,
        stack: &Vec<usize>,
        address: usize,
        _prev_address: usize,
        _registry: &FunctionRegistry,
        _condition: &Option<StackValue>,
    ) -> (r: bool) {
        if path_repeats(stack, address) {
            return false;
        }
        !on_stack(stack, address)
    }
}

/// With the policy that follows no edge to an address on the call stack,
/// an edge is followed exactly where its address is not on the stack.
pub proof fn lemma_nocycle_is_no_revisit(stack: Seq<usize>, address: usize, prev_address: usize, condition: Option<Expr>)
    ensures
        NocycleSolver().permits(stack, address, prev_address, condition) == !stack.contains(address),
{
    if repeats_suffix(stack, address) {
        lemma_repeat_revisits(stack, address);
    }
}

} // verus!
