//! Blocks of bytecode and the registry of the blocks of one code.

use vstd::prelude::*;
use crate::evm_memory::EvmMemory;
use crate::evm_memory::EvmStack;
use crate::evm_memory::MemoryModel;
use crate::evm_memory::StackModel;
use crate::evm_types::Expr;
use crate::evm_types::StackValue;
use crate::value_set::ValueSet;

verus! {

/// The model of an outgoing edge of a block: a jump that the block makes.
pub struct EdgeModel {
    /// The expression for the address jumped to.
    pub target: Expr,
    /// The stack at the jump.
    pub stack: StackModel,
    /// The memory at the jump.
    pub memory: MemoryModel,
    /// The condition of a conditional jump.
    pub condition: Option<Expr>,
}

/// The model of a block.
pub struct FunctionModel {
    pub position: nat,
    pub code: Seq<u8>,
    pub stack: StackModel,
    pub memory: MemoryModel,
    pub ended: bool,
    pub pc: nat,
    pub return_value: Option<(Expr, Expr)>,
    pub internal_calls: Seq<EdgeModel>,
    pub storage_access_read: Set<Expr>,
    pub storage_access_write: Set<Expr>,
    pub external_calls: Set<(Expr, Expr)>,
}

/// The model of an optional value.
pub open spec fn option_model(v: Option<StackValue>) -> Option<Expr> {
    match v {
        Some(x) => Some(x@),
        None => None,
    }
}

/// The model of one edge.
pub open spec fn edge_model(e: (StackValue, EvmStack, EvmMemory, Option<StackValue>)) -> EdgeModel {
    EdgeModel { target: e.0@, stack: e.1@, memory: e.2@, condition: option_model(e.3) }
}

/// The models of a list of edges.
pub open spec fn edges_model(v: Seq<(StackValue, EvmStack, EvmMemory, Option<StackValue>)>) -> Seq<
    EdgeModel,
> {
    Seq::new(v.len(), |i: int| edge_model(v[i]))
}

/// The model of a returned memory area.
pub open spec fn return_model(v: Option<(StackValue, StackValue)>) -> Option<(Expr, Expr)> {
    match v {
        Some(x) => Some((x.0@, x.1@)),
        None => None,
    }
}

/// A self-contained block of instructions in the bytecode.
///
/// The bytecode is a set of blocks, each of which starts at a `JUMPDEST` or
/// at the beginning of the code and ends with `RETURN`, `REVERT`, `STOP` or
/// an unconditional jump.  A block is a black box that tells which storage
/// locations it touches, which external calls it makes and where it jumps.
#[derive(Debug)]
pub struct EvmFunction<'a> {
    /// Where this block starts: a `JUMPDEST` or the beginning of the code.
    pub position: usize,
    /// The complete bytecode.
    pub code: &'a [u8],
    /// The partial stack of this block.
    pub stack: EvmStack,
    /// The partial memory of this block.
    pub memory: EvmMemory,
    /// Whether this block has ended.
    pub ended: bool,
    /// The program counter.
    pub pc: usize,
    /// The memory area returned by this block: (length, offset).
    pub return_value: Option<(StackValue, StackValue)>,
    /// The jumps that this block makes to other blocks of this contract:
    /// the address jumped to, the stack and the memory at the jump, and the
    /// condition of the jump (`None` for an unconditional jump).
    pub internal_calls: Vec<(StackValue, EvmStack, EvmMemory, Option<StackValue>)>,
    /// The storage locations that this block reads.
    pub storage_access_read: ValueSet<StackValue>,
    /// The storage locations that this block writes.
    pub storage_access_write: ValueSet<StackValue>,
    /// The calls that this block makes to other contracts: (target, call data).
    pub external_calls: ValueSet<(StackValue, StackValue)>,
}

impl<'a> View for EvmFunction<'a> {
    type V = FunctionModel;

    open spec fn view(&self) -> FunctionModel {
        FunctionModel {
            position: self.position as nat,
            code: self.code@,
            stack: self.stack@,
            memory: self.memory@,
            ended: self.ended,
            pc: self.pc as nat,
            return_value: return_model(self.return_value),
            internal_calls: edges_model(self.internal_calls@),
            storage_access_read: self.storage_access_read@,
            storage_access_write: self.storage_access_write@,
            external_calls: self.external_calls@,
        }
    }
}

impl FunctionModel {
    /// The block at `position` of `code` before any instruction has run.
    pub open spec fn start(position: nat, code: Seq<u8>) -> FunctionModel {
        FunctionModel {
            position,
            code,
            stack: StackModel { stack: Seq::empty(), deficit: 0, edits: Seq::empty() },
            memory: Seq::empty(),
            ended: false,
            pc: position,
            return_value: None,
            internal_calls: Seq::empty(),
            storage_access_read: Set::empty(),
            storage_access_write: Set::empty(),
            external_calls: Set::empty(),
        }
    }
}

impl<'a> EvmFunction<'a> {
    pub fn new(position: usize, code: &'a [u8]) -> (r: Self)
        ensures
            r@ == FunctionModel::start(position as nat, code@),
    {
        let r = EvmFunction {
            position,
            code,
            stack: EvmStack::new(),
            memory: EvmMemory::new(),
            ended: false,
            pc: position,
            return_value: None,
            internal_calls: Vec::new(),
            external_calls: ValueSet::new(),
            storage_access_read: ValueSet::new(),
            storage_access_write: ValueSet::new(),
        };
        assert(r@.internal_calls =~= Seq::<EdgeModel>::empty());
        r
    }
}

/// The positions of a list of blocks, in order.
pub open spec fn positions_of(v: Seq<EvmFunction>) -> Seq<usize> {
    Seq::new(v.len(), |i: int| v[i].position)
}

/// The analysed blocks of one code, in the order of their positions.
pub struct FunctionRegistry<'a> {
    pub analyzed: Vec<EvmFunction<'a>>,
    pub in_analysis: Vec<usize>,
}

impl<'a> FunctionRegistry<'a> {
    /// The positions of the blocks, in order.
    pub open spec fn positions(&self) -> Seq<usize> {
        positions_of(self.analyzed@)
    }

    /// The models of the blocks, in order.
    pub open spec fn model(&self) -> Seq<FunctionModel> {
        Seq::new(self.analyzed@.len(), |i: int| self.analyzed@[i]@)
    }

    /// The blocks stand in the order of their positions, one for each.
    pub open spec fn wf(&self) -> bool {
        forall|i: int, j: int|
            0 <= i < j < self.analyzed@.len() ==> self.analyzed@[i].position
                < self.analyzed@[j].position
    }

    /// Whether a block starts at `addr`.
    pub open spec fn contains(&self, addr: usize) -> bool {
        exists|i: int| 0 <= i < self.analyzed@.len() && self.analyzed@[i].position == addr
    }

    /// The index of the block that starts at `addr`.
    pub open spec fn index_of(&self, addr: usize) -> int {
        choose|i: int| 0 <= i < self.analyzed@.len() && self.analyzed@[i].position == addr
    }

    /// The block that starts at `addr`.
    pub open spec fn function_at(&self, addr: usize) -> EvmFunction<'a> {
        self.analyzed@[self.index_of(addr)]
    }

    pub fn new() -> (r: Self)
        ensures
            r.wf(),
            r.analyzed@.len() == 0,
            r.in_analysis@.len() == 0,
    {
        FunctionRegistry { analyzed: Vec::new(), in_analysis: Vec::new() }
    }

    /// The index of the block that starts at `addr`, if there is one.
    pub fn find(&self, addr: usize) -> (r: Option<usize>)
        ensures
            r is Some == self.contains(addr),
            r matches Some(i) ==> i < self.analyzed@.len() && self.analyzed@[i as int].position == addr,
            self.wf() && r is Some ==> r->0 == self.index_of(addr),
    {
        let mut i: usize = 0;
        while i < self.analyzed.len()
            invariant
                i <= self.analyzed.len(),
                forall|j: int| 0 <= j < i ==> self.analyzed@[j].position != addr,
            decreases self.analyzed.len() - i,
        {
            if self.analyzed[i].position == addr {
                return Some(i);
            }
            i += 1;
        }
        None
    }

    /// The block that starts at `addr`, if there is one.
    pub fn get_from_address(&self, addr: usize) -> (r: Option<&EvmFunction<'a>>)
        ensures
            r is Some == self.contains(addr),
            r matches Some(f) ==> f.position == addr && exists|i: int|
                0 <= i < self.analyzed@.len() && self.analyzed@[i] == *f,
            self.wf() && r is Some ==> *r->0 == self.function_at(addr),
    {
        match self.find(addr) {
            Some(i) => Some(&self.analyzed[i]),
            None => None,
        }
    }

    /// Puts `function` at its place in the order of positions, in place of
    /// a block with the same position if there is one.
    pub fn insert(&mut self, function: EvmFunction<'a>)
        requires
            old(self).wf(),
        ensures
            final(self).wf(),
            final(self).in_analysis == old(self).in_analysis,
            (forall|i: int|
                0 <= i < old(self).analyzed@.len() ==> old(self).analyzed@[i].position
                    < function.position) ==> final(self).analyzed@ == old(self).analyzed@.push(
                function,
            ),
            final(self).contains(function.position),
            final(self).function_at(function.position) == function,
            forall|addr: usize|
                addr != function.position ==> (final(self).contains(addr) == old(self).contains(addr)),
            forall|addr: usize|
                addr != function.position && old(self).contains(addr) ==> final(self).function_at(addr)
                    == old(self).function_at(addr),
    {
        let ghost before = self.analyzed@;
        let mut i: usize = 0;
        while i < self.analyzed.len() && self.analyzed[i].position < function.position
            invariant
                i <= self.analyzed.len(),
                self.analyzed@ == before,
                forall|j: int| 0 <= j < i ==> before[j].position < function.position,
            decreases self.analyzed.len() - i,
        {
            i += 1;
        }
        let ghost target = function.position;
        if i < self.analyzed.len() && self.analyzed[i].position == function.position {
            self.analyzed.set(i, function);
            proof {
                let after = self.analyzed@;
                assert(!(forall|k: int| 0 <= k < before.len() ==> before[k].position < target));
                assert forall|addr: usize| addr != target implies (self.contains(addr) == old(self).contains(
                    addr,
                )) by {
                    if old(self).contains(addr) {
                        let k = old(self).index_of(addr);
                        assert(after[k].position == addr);
                    }
                    if self.contains(addr) {
                        let k = self.index_of(addr);
                        assert(before[k].position == addr);
                    }
                }
                assert(after[i as int].position == target);
                assert forall|addr: usize| addr != target && old(self).contains(addr) implies self.function_at(
                    addr,
                ) == old(self).function_at(addr) by {
                    let k = old(self).index_of(addr);
                    assert(after[k].position == addr);
                }
            }
        } else {
            self.analyzed.insert(i, function);
            proof {
                let after = self.analyzed@;
                if forall|k: int| 0 <= k < before.len() ==> before[k].position < target {
                    assert(i == before.len());
                    assert(after =~= before.push(function));
                }
                assert(after[i as int].position == target);
                assert forall|a: int, b: int| 0 <= a < b < after.len() implies after[a].position
                    < after[b].position by {
                    let a0 = if a < i { a } else { a - 1 };
                    let b0 = if b < i { b } else { b - 1 };
                    if a != i && b != i {
                        assert(before[a0].position < before[b0].position);
                    }
                }
                assert forall|addr: usize| addr != target implies (self.contains(addr) == old(self).contains(
                    addr,
                )) by {
                    if old(self).contains(addr) {
                        let k = old(self).index_of(addr);
                        let k1 = if k < i { k } else { k + 1 };
                        assert(after[k1].position == addr);
                    }
                    if self.contains(addr) {
                        let k = self.index_of(addr);
                        let k0 = if k < i { k } else { k - 1 };
                        assert(before[k0].position == addr);
                    }
                }
                assert forall|addr: usize| addr != target && old(self).contains(addr) implies self.function_at(
                    addr,
                ) == old(self).function_at(addr) by {
                    let k = old(self).index_of(addr);
                    let k1 = if k < i { k } else { k + 1 };
                    assert(after[k1].position == addr);
                }
            }
        }
    }
}

} // verus!
