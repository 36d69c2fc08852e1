//! Whole-contract analysis: entry discovery, call-graph stitching and the
//! search for the runtime code that a constructor returns.

use vstd::prelude::*;
use crate::contract_data::ContractData;
use crate::contract_data::ContractMethod;
use crate::contract_data::ContractModel;
use crate::contract_data::MethodModel;
use crate::contract_data::methods_model;
use crate::contract_logger::ContractLogger;
use crate::contract_logger::NoLogger;
use crate::contract_utils::DataModel;
use crate::contract_utils::dispatched_selector;
use crate::contract_utils::get_pubblic_method;
use crate::cycle_resolution::CycleSolver;
use crate::cycle_resolution::NocycleSolver;
use crate::cycle_resolution::occurrences;
use crate::evm_function::EvmFunction;
use crate::evm_function::FunctionModel;
use crate::evm_function::FunctionRegistry;
use crate::evm_function::edge_model;
use crate::evm_function::option_model;
use crate::evm_memory::EvmMemory;
use crate::evm_memory::EvmStack;
use crate::evm_memory::MemoryModel;
use crate::evm_memory::StackModel;
use crate::evm_memory::memory_read;
use crate::evm_types::Expr;
use crate::evm_types::StackValue;
use crate::function_analyzer::analyzable;
use crate::function_analyzer::analyzed_blocks;
use crate::function_analyzer::is_analyzable;
use crate::function_analyzer::single_threded_function_analyzer;
use crate::word::Word;
use crate::word_map::WordMap;

verus! {

/// The opcode that marks a valid jump target.
pub const JUMPDEST: u8 = 0x5b;

/// The first of the 32 opcodes that carry immediate data.
pub const PUSH1: u8 = 0x60;

/// The last of the 32 opcodes that carry immediate data.
pub const PUSH32: u8 = 0x7f;

/// The number of bytes that the instruction with opcode `op` takes: a PUSH of
/// width `n` takes `n + 1`, every other instruction one.
pub open spec fn instruction_len(op: u8) -> nat {
    if PUSH1 <= op && op <= PUSH32 {
        (op - PUSH1 + 2) as nat
    } else {
        1
    }
}

/// Whether a scan that starts at `from` and steps from instruction to
/// instruction arrives at offset `at`.
pub open spec fn scan_reaches(code: Seq<u8>, from: nat, at: nat) -> bool
    decreases at - from,
{
    if from == at {
        true
    } else if from > at || from >= code.len() {
        false
    } else {
        let next = from + instruction_len(code[from as int]);
        next <= at && scan_reaches(code, next, at)
    }
}

/// Whether offset `at` holds an opcode, not the immediate data of a PUSH.
pub open spec fn is_instruction_start(code: Seq<u8>, at: nat) -> bool {
    at < code.len() && scan_reaches(code, 0, at)
}

/// Whether a block of instructions starts at offset `at`: at the beginning
/// of the code and at every JUMPDEST that is an opcode.
pub open spec fn is_entry(code: Seq<u8>, at: nat) -> bool {
    at == 0 || (is_instruction_start(code, at) && code[at as int] == JUMPDEST)
}

/// The JUMPDEST opcodes that a scan from `pc` on finds, but for offset 0.
pub open spec fn entries_from(code: Seq<u8>, pc: nat) -> Seq<usize>
    decreases code.len() - pc,
{
    if pc >= code.len() {
        Seq::empty()
    } else {
        let next = pc + instruction_len(code[pc as int]);
        let rest = if next >= code.len() {
            Seq::empty()
        } else {
            entries_from(code, next)
        };
        if code[pc as int] == JUMPDEST && pc != 0 {
            seq![pc as usize] + rest
        } else {
            rest
        }
    }
}

/// The entry offsets of a code in increasing order.
pub open spec fn entry_list(code: Seq<u8>) -> Seq<usize> {
    seq![0usize] + entries_from(code, 0)
}

/// Two offsets that one scan arrives at lie on one chain of instructions.
pub proof fn lemma_scan_chain(code: Seq<u8>, from: nat, p: nat, q: nat)
    requires
        scan_reaches(code, from, p),
        scan_reaches(code, from, q),
        p <= q,
    ensures
        scan_reaches(code, p, q),
    decreases p - from,
{
    if from != p {
        lemma_scan_chain(code, from + instruction_len(code[from as int]), p, q);
    }
}

/// No instruction starts inside the instruction at `p`.
pub proof fn lemma_no_start_inside(code: Seq<u8>, p: nat, q: nat)
    requires
        is_instruction_start(code, p),
        p < q < p + instruction_len(code[p as int]),
    ensures
        !scan_reaches(code, 0, q),
{
    if scan_reaches(code, 0, q) {
        lemma_scan_chain(code, 0, p, q);
    }
}

/// The scan goes on from an instruction to the one behind it.
pub proof fn lemma_scan_step(code: Seq<u8>, from: nat, p: nat)
    requires
        scan_reaches(code, from, p),
        p < code.len(),
    ensures
        scan_reaches(code, from, p + instruction_len(code[p as int])),
    decreases p - from,
{
    if from != p {
        lemma_scan_step(code, from + instruction_len(code[from as int]), p);
    } else {
        let next = p + instruction_len(code[p as int]);
        assert(scan_reaches(code, next, next));
    }
}

/// The entry offsets of `code`, in increasing order: offset 0 and every
/// JUMPDEST that is not inside the immediate data of a PUSH.
pub fn list_functions(code: &[u8]) -> (list: Vec<usize>)
    ensures
        list@.len() >= 1,
        list@[0] == 0,
        forall|i: int, j: int| 0 <= i < j < list@.len() ==> list@[i] < list@[j],
        forall|at: usize| list@.contains(at) <==> is_entry(code@, at as nat),
        list@ == entry_list(code@),
{
    let mut list: Vec<usize> = Vec::new();
    list.push(0);
    let mut pc: usize = 0;
    assert(list@[0] == 0);
    assert(list@ =~= seq![0usize]);
    while pc < code.len()
        invariant
            scan_reaches(code@, 0, pc as nat),
            list@.len() >= 1,
            list@[0] == 0,
            forall|i: int, j: int| 0 <= i < j < list@.len() ==> list@[i] < list@[j],
            forall|i: int| 0 <= i < list@.len() ==> list@[i] < pc || list@[i] == 0,
            forall|at: usize| list@.contains(at) ==> is_entry(code@, at as nat),
            forall|at: usize| at < pc && is_entry(code@, at as nat) ==> list@.contains(at),
            list@ + entries_from(code@, pc as nat) == entry_list(code@),
        decreases code.len() - pc,
    {
        let op = code[pc];
        let step: usize = if PUSH1 <= op && op <= PUSH32 {
            (op - PUSH1) as usize + 2
        } else {
            1
        };
        let ghost before = list@;
        let ghost rest = entries_from(code@, (pc + step) as nat);
        if op == JUMPDEST && pc != 0 {
            list.push(pc);
            assert(list@ + rest =~= before + (seq![pc] + rest));
            assert(list@[list@.len() - 1] == pc);
            assert(forall|i: int| 0 <= i < before.len() ==> list@[i] == before[i]);
            assert forall|at: usize| list@.contains(at) implies is_entry(code@, at as nat) by {
                let i = choose|i: int| 0 <= i < list@.len() && list@[i] == at;
                if i < before.len() {
                    assert(before.contains(at));
                }
            }
        }
        proof {
            lemma_scan_step(code@, 0, pc as nat);
            assert forall|at: usize|
                at < pc + step && is_entry(code@, at as nat) implies list@.contains(at) by {
                if at < pc {
                    assert(before.contains(at));
                    let i = choose|i: int| 0 <= i < before.len() && before[i] == at;
                    assert(list@[i] == at);
                } else if at == pc {
                    if pc == 0 {
                        assert(list@[0] == at);
                    } else {
                        assert(list@[list@.len() - 1] == at);
                    }
                } else {
                    lemma_no_start_inside(code@, pc as nat, at as nat);
                }
            }
        }
        if code.len() - pc <= step {
            assert(rest =~= Seq::<usize>::empty());
            assert(list@ + rest =~= list@);
            proof {
                assert forall|at: usize| is_entry(code@, at as nat) implies list@.contains(at) by {
                    assert(at < pc + step);
                }
            }
            return list;
        }
        pc += step;
    }
    assert(list@ + Seq::<usize>::empty() =~= list@);
    list
}

/// The states of the callers of a block: stack and memory at each jump
/// on the way to it, outermost caller first.
pub type ParentsModel = Seq<(StackModel, MemoryModel)>;

/// The models of a list of caller states.
pub open spec fn parents_model(v: Seq<(&EvmStack, &EvmMemory)>) -> ParentsModel {
    Seq::new(v.len(), |i: int| (v[i].0@, v[i].1@))
}

/// An expression with its placeholders replaced by what the callers hold:
/// first by the nearest caller, then by that caller's caller, and so on.
pub open spec fn through_parents(e: Expr, parents: ParentsModel) -> Expr
    decreases parents.len(),
{
    if parents.len() == 0 {
        e
    } else {
        through_parents(e.substitute(parents.last().0, parents.last().1), parents.drop_last())
    }
}

/// Whether one of the blocks starts at `addr`.
pub open spec fn has_block(blocks: Seq<FunctionModel>, addr: nat) -> bool {
    exists|i: int| 0 <= i < blocks.len() && #[trigger] blocks[i].position == addr
}

/// The block that starts at `addr`.
pub open spec fn block_at(blocks: Seq<FunctionModel>, addr: nat) -> FunctionModel {
    blocks[choose|i: int| 0 <= i < blocks.len() && #[trigger] blocks[i].position == addr]
}

/// Whether the blocks stand in the order of their positions, one for each.
pub open spec fn blocks_sorted(blocks: Seq<FunctionModel>) -> bool {
    forall|i: int, j: int|
        0 <= i < j < blocks.len() ==> (#[trigger] blocks[i]).position < (#[trigger] blocks[j]).position
}

/// How often a walk may still enter the block at `addr`.
pub open spec fn slack(stack: Seq<usize>, addr: nat, limit: nat) -> nat {
    if occurrences(stack, addr) <= limit {
        (limit + 1 - occurrences(stack, addr)) as nat
    } else {
        0
    }
}

/// How often a walk with the call stack `stack` may still enter a block:
/// the measure by which every walk ends.
pub open spec fn room(stack: Seq<usize>, blocks: Seq<FunctionModel>, limit: nat) -> nat
    decreases blocks.len(),
{
    if blocks.len() == 0 {
        0
    } else {
        room(stack, blocks.drop_last(), limit) + slack(stack, blocks.last().position, limit)
    }
}

/// Entering a block leaves no more room than there was.
pub proof fn lemma_room_monotone(stack: Seq<usize>, blocks: Seq<FunctionModel>, limit: nat, address: usize)
    ensures
        room(stack.push(address), blocks, limit) <= room(stack, blocks, limit),
    decreases blocks.len(),
{
    if blocks.len() > 0 {
        lemma_room_monotone(stack, blocks.drop_last(), limit, address);
        assert(stack.push(address).drop_last() =~= stack);
    }
}

/// Entering a block that may still be entered leaves less room.
pub proof fn lemma_room_push(stack: Seq<usize>, blocks: Seq<FunctionModel>, limit: nat, address: usize)
    requires
        has_block(blocks, address as nat),
        occurrences(stack, address as nat) <= limit,
    ensures
        room(stack.push(address), blocks, limit) < room(stack, blocks, limit),
    decreases blocks.len(),
{
    assert(stack.push(address).drop_last() =~= stack);
    let rest = blocks.drop_last();
    if blocks.last().position == address {
        lemma_room_monotone(stack, rest, limit, address);
    } else {
        let i = choose|i: int| 0 <= i < blocks.len() && #[trigger] blocks[i].position == address;
        assert(rest[i].position == address);
        lemma_room_push(stack, rest, limit, address);
    }
}

/// An edge that a walk had to abandon because its target is no block of
/// the code: the position of the block and the index of the edge in it.
#[derive(Clone, Copy, Debug, PartialEq, Eq, Structural)]
pub struct UnresolvedJump {
    pub position: usize,
    pub edge: usize,
}

/// What a walk of the call graph has gathered.
pub struct WalkState {
    /// The footprint of the method that the walk is in.
    pub method: MethodModel,
    /// The footprints of the methods that the walk has left, by selector.
    pub methods: Map<Word, MethodModel>,
    /// The edges that the walk abandoned, in the order of the walk.
    pub unresolved: Seq<UnresolvedJump>,
}

/// The block at which an edge arrives: its target with the placeholders
/// replaced, where that folds to the address of a block.
pub open spec fn jump_target(blocks: Seq<FunctionModel>, target: Expr, parents: ParentsModel) -> Option<
    usize,
> {
    match through_parents(target, parents).resolve() {
        Some(w) => if w.fits_usize() && has_block(blocks, w.value()) {
            Some(w.value() as usize)
        } else {
            None
        },
        None => None,
    }
}

/// The selector that an edge dispatches on, while the walk is in no
/// method yet: that of its condition with the placeholders replaced.
pub open spec fn dispatch_of(condition: Option<Expr>, parents: ParentsModel, found: bool) -> Option<Word> {
    if found {
        None
    } else {
        match condition {
            Some(c) => dispatched_selector(through_parents(c, parents)),
            None => None,
        }
    }
}

/// The footprint `method` with what block `node` reads, writes and calls,
/// each expression with its placeholders replaced.
pub open spec fn absorb<C: CycleSolver>(
    solver: &C,
    node: FunctionModel,
    parents: ParentsModel,
    method: MethodModel,
) -> MethodModel {
    MethodModel {
        storage_read: method.storage_read.union(
            node.storage_access_read.map(|e: Expr| solver.data_of(through_parents(e, parents))),
        ),
        storage_write: method.storage_write.union(
            node.storage_access_write.map(|e: Expr| solver.data_of(through_parents(e, parents))),
        ),
        method_call: method.method_call.union(
            node.external_calls.map(
                |c: (Expr, Expr)| (through_parents(c.0, parents), through_parents(c.1, parents)),
            ),
        ),
    }
}

/// What a walk gathers that enters block `node` with the call stack
/// `call_stack`: the block's own effects, then what the walks along its
/// edges gather, edge after edge.
pub open spec fn walk_node<C: CycleSolver>(
    solver: &C,
    blocks: Seq<FunctionModel>,
    node: FunctionModel,
    parents: ParentsModel,
    state: WalkState,
    found: bool,
    call_stack: Seq<usize>,
) -> WalkState
    decreases room(call_stack, blocks, solver.revisit_limit()), 1nat, 0nat,
{
    let own = WalkState { method: absorb(solver, node, parents, state.method), ..state };
    walk_edges(solver, blocks, node, parents, own, found, call_stack, 0)
}

/// What a walk gathers along the edges of `node` from edge `i` on.
///
/// An edge whose target is no block is abandoned and recorded.  An edge
/// that the policy declines is passed over.  An edge that dispatches on a
/// selector starts a method: the walk along it begins with a copy of
/// what was gathered so far, and what it gathers is filed under the
/// selector.  Along every other edge the walk goes on in the same method.
pub open spec fn walk_edges<C: CycleSolver>(
    solver: &C,
    blocks: Seq<FunctionModel>,
    node: FunctionModel,
    parents: ParentsModel,
    state: WalkState,
    found: bool,
    call_stack: Seq<usize>,
    i: nat,
) -> WalkState
    decreases room(call_stack, blocks, solver.revisit_limit()), 0nat, 2 * (node.internal_calls.len() - i) + 1,
{
    if i >= node.internal_calls.len() {
        state
    } else {
        let edge = node.internal_calls[i as int];
        let next = walk_edge(solver, blocks, node, parents, state, found, call_stack, i);
        walk_edges(solver, blocks, node, parents, next, found, call_stack, i + 1)
    }
}

/// What a walk gathers along edge `i` of `node`.
pub open spec fn walk_edge<C: CycleSolver>(
    solver: &C,
    blocks: Seq<FunctionModel>,
    node: FunctionModel,
    parents: ParentsModel,
    state: WalkState,
    found: bool,
    call_stack: Seq<usize>,
    i: nat,
) -> WalkState
    decreases room(call_stack, blocks, solver.revisit_limit()), 0nat, 2 * (node.internal_calls.len() - i),
{
    if i >= node.internal_calls.len() {
        state
    } else {
        let edge = node.internal_calls[i as int];
        match jump_target(blocks, edge.target, parents) {
            None => WalkState {
                unresolved: state.unresolved.push(
                    UnresolvedJump { position: node.position as usize, edge: i as usize },
                ),
                ..state
            },
            Some(address) => {
                if !solver.permits(call_stack, address, node.position as usize, edge.condition) {
                    state
                } else {
                    proof {
                        solver.lemma_permits_bounded(
                            call_stack,
                            address,
                            node.position as usize,
                            edge.condition,
                        );
                        lemma_room_push(call_stack, blocks, solver.revisit_limit(), address);
                    }
                    let target = block_at(blocks, address as nat);
                    let deeper = parents.push((edge.stack, edge.memory));
                    let entered = call_stack.push(address);
                    match dispatch_of(edge.condition, parents, found) {
                        Some(selector) => {
                            let inner = walk_node(solver, blocks, target, deeper, state, true, entered);
                            WalkState {
                                method: state.method,
                                methods: inner.methods.insert(selector, inner.method),
                                unresolved: inner.unresolved,
                            }
                        },
                        None => walk_node(solver, blocks, target, deeper, state, found, entered),
                    }
                }
            },
        }
    }
}

/// The registry holds a block at an address exactly where its model does,
/// and it is the same block.
pub proof fn lemma_registry_blocks(registry: &FunctionRegistry, addr: usize)
    requires
        registry.wf(),
    ensures
        registry.contains(addr) == has_block(registry.model(), addr as nat),
        registry.contains(addr) ==> registry.function_at(addr)@ == block_at(
            registry.model(),
            addr as nat,
        ),
{
    let blocks = registry.model();
    if registry.contains(addr) {
        let i = registry.index_of(addr);
        assert(blocks[i].position == addr as nat);
        let j = choose|j: int| 0 <= j < blocks.len() && #[trigger] blocks[j].position == addr as nat;
        assert(registry.analyzed@[j].position == addr);
        if i < j {
            assert(registry.analyzed@[i].position < registry.analyzed@[j].position);
        }
        if j < i {
            assert(registry.analyzed@[j].position < registry.analyzed@[i].position);
        }
    }
    if has_block(blocks, addr as nat) {
        let j = choose|j: int| 0 <= j < blocks.len() && #[trigger] blocks[j].position == addr as nat;
        assert(registry.analyzed@[j].position == addr);
    }
}

/// A copy of a list of caller states.
pub fn copy_parents<'b>(v: &Vec<(&'b EvmStack, &'b EvmMemory)>) -> (out: Vec<
    (&'b EvmStack, &'b EvmMemory),
>)
    ensures
        out@ == v@,
{
    let mut out: Vec<(&'b EvmStack, &'b EvmMemory)> = Vec::new();
    let mut i: usize = 0;
    while i < v.len()
        invariant
            i <= v.len(),
            out@ == v@.take(i as int),
        decreases v.len() - i,
    {
        let item = v[i];
        out.push((item.0, item.1));
        assert(out@ =~= v@.take(i + 1));
        i += 1;
    }
    assert(v@.take(v.len() as int) =~= v@);
    out
}

/// A copy of a call stack.
pub fn copy_stack(v: &Vec<usize>) -> (out: Vec<usize>)
    ensures
        out@ == v@,
{
    let mut out: Vec<usize> = Vec::new();
    let mut i: usize = 0;
    while i < v.len()
        invariant
            i <= v.len(),
            out@ == v@.take(i as int),
        decreases v.len() - i,
    {
        out.push(v[i]);
        assert(out@ =~= v@.take(i + 1));
        i += 1;
    }
    assert(v@.take(v.len() as int) =~= v@);
    out
}

/// The value with its placeholders replaced by what the callers hold,
/// nearest caller first.
pub fn resolve_in_parents(value: &StackValue, parent_data: &Vec<(&EvmStack, &EvmMemory)>) -> (r:
    StackValue)
    ensures
        r@ == through_parents(value@, parents_model(parent_data@)),
{
    let ghost parents = parents_model(parent_data@);
    let mut resolved = value.clone();
    let mut k: usize = parent_data.len();
    assert(parents.take(k as int) =~= parents);
    while k > 0
        invariant
            k <= parent_data.len(),
            parents == parents_model(parent_data@),
            through_parents(resolved@, parents.take(k as int)) == through_parents(value@, parents),
        decreases k,
    {
        k -= 1;
        let parent = &parent_data[k];
        proof {
            let upto = parents.take(k + 1);
            assert(upto.last() == (parent.0@, parent.1@));
            assert(upto.drop_last() =~= parents.take(k as int));
        }
        resolved = resolved.replace_parent_call(parent.0, parent.1);
    }
    assert(parents.take(0).len() == 0);
    resolved
}

/// The address of the block at which a resolved jump target arrives.
pub fn find_target(registry: &FunctionRegistry, resolved: &StackValue) -> (r: Option<usize>)
    requires
        registry.wf(),
    ensures
        r == (match resolved@.resolve() {
            Some(w) => if w.fits_usize() && has_block(registry.model(), w.value()) {
                Some(w.value() as usize)
            } else {
                None
            },
            None => None,
        }),
{
    match resolved.resolve() {
        Some(w) => match w.to_usize() {
            Some(address) => {
                proof {
                    lemma_registry_blocks(registry, address);
                }
                if registry.find(address).is_some() {
                    Some(address)
                } else {
                    None
                }
            },
            None => None,
        },
        None => None,
    }
}

/// Adds to `contract_method` what block `node` reads, writes and calls,
/// each expression with its placeholders replaced.
pub fn absorb_node<C: CycleSolver>(
    node: &EvmFunction,
    parent_data: &Vec<(&EvmStack, &EvmMemory)>,
    contract_method: &mut ContractMethod,
    cycle_solver: &C,
)
    ensures
        final(contract_method)@ == absorb(
            cycle_solver,
            node@,
            parents_model(parent_data@),
            old(contract_method)@,
        ),
{
    let ghost parents = parents_model(parent_data@);
    let ghost start = contract_method@;
    let ghost locate = |e: Expr| cycle_solver.data_of(through_parents(e, parents));
    let ghost reads = node.storage_access_read.order();
    let n = node.storage_access_read.len();
    let mut i: usize = 0;
    assert(reads.take(0).map_values(locate).to_set() =~= Set::<DataModel>::empty());
    assert(start.storage_read.union(Set::<DataModel>::empty()) =~= start.storage_read);
    while i < n
        invariant
            i <= n,
            n == reads.len(),
            reads == node.storage_access_read.order(),
            parents == parents_model(parent_data@),
            locate == |e: Expr| cycle_solver.data_of(through_parents(e, parents)),
            contract_method@ == (MethodModel {
                storage_read: start.storage_read.union(
                    reads.take(i as int).map_values(locate).to_set(),
                ),
                ..start
            }),
        decreases n - i,
    {
        let item = node.storage_access_read.get(i);
        let resolved = resolve_in_parents(item, parent_data);
        contract_method.push_read_location(cycle_solver.get_data(&resolved));
        proof {
            let done = reads.take(i as int).map_values(locate);
            assert(reads.take(i + 1).map_values(locate) =~= done.push(locate(reads[i as int])));
            done.lemma_push_to_set_commute(locate(reads[i as int]));
            assert(start.storage_read.union(done.to_set()).insert(locate(reads[i as int]))
                =~= start.storage_read.union(done.to_set().insert(locate(reads[i as int]))));
        }
        i += 1;
    }
    proof {
        assert(reads.take(n as int) =~= reads);
        reads.lemma_to_set_map_commutes(locate);
        assert(reads.to_set().map(locate) =~= node@.storage_access_read.map(
            |e: Expr| cycle_solver.data_of(through_parents(e, parents)),
        ));
    }
    let ghost middle = contract_method@;
    let ghost writes = node.storage_access_write.order();
    let n = node.storage_access_write.len();
    let mut i: usize = 0;
    assert(writes.take(0).map_values(locate).to_set() =~= Set::<DataModel>::empty());
    assert(middle.storage_write.union(Set::<DataModel>::empty()) =~= middle.storage_write);
    while i < n
        invariant
            i <= n,
            n == writes.len(),
            writes == node.storage_access_write.order(),
            parents == parents_model(parent_data@),
            locate == |e: Expr| cycle_solver.data_of(through_parents(e, parents)),
            contract_method@ == (MethodModel {
                storage_write: middle.storage_write.union(
                    writes.take(i as int).map_values(locate).to_set(),
                ),
                ..middle
            }),
        decreases n - i,
    {
        let item = node.storage_access_write.get(i);
        let resolved = resolve_in_parents(item, parent_data);
        contract_method.push_write_location(cycle_solver.get_data(&resolved));
        proof {
            let done = writes.take(i as int).map_values(locate);
            assert(writes.take(i + 1).map_values(locate) =~= done.push(locate(writes[i as int])));
            done.lemma_push_to_set_commute(locate(writes[i as int]));
            assert(middle.storage_write.union(done.to_set()).insert(locate(writes[i as int]))
                =~= middle.storage_write.union(done.to_set().insert(locate(writes[i as int]))));
        }
        i += 1;
    }
    proof {
        assert(writes.take(n as int) =~= writes);
        writes.lemma_to_set_map_commutes(locate);
        assert(writes.to_set().map(locate) =~= node@.storage_access_write.map(
            |e: Expr| cycle_solver.data_of(through_parents(e, parents)),
        ));
    }
    let ghost late = contract_method@;
    let ghost place = |c: (Expr, Expr)| (through_parents(c.0, parents), through_parents(c.1, parents));
    let ghost calls = node.external_calls.order();
    let n = node.external_calls.len();
    let mut i: usize = 0;
    assert(calls.take(0).map_values(place).to_set() =~= Set::<(Expr, Expr)>::empty());
    assert(late.method_call.union(Set::<(Expr, Expr)>::empty()) =~= late.method_call);
    while i < n
        invariant
            i <= n,
            n == calls.len(),
            calls == node.external_calls.order(),
            parents == parents_model(parent_data@),
            place == |c: (Expr, Expr)| (through_parents(c.0, parents), through_parents(c.1, parents)),
            contract_method@ == (MethodModel {
                method_call: late.method_call.union(calls.take(i as int).map_values(place).to_set()),
                ..late
            }),
        decreases n - i,
    {
        let item = node.external_calls.get(i);
        let resolved_address = resolve_in_parents(&item.0, parent_data);
        let resolved_method = resolve_in_parents(&item.1, parent_data);
        contract_method.push_external_call((resolved_address, resolved_method));
        proof {
            let done = calls.take(i as int).map_values(place);
            assert(calls.take(i + 1).map_values(place) =~= done.push(place(calls[i as int])));
            done.lemma_push_to_set_commute(place(calls[i as int]));
            assert(late.method_call.union(done.to_set()).insert(place(calls[i as int]))
                =~= late.method_call.union(done.to_set().insert(place(calls[i as int]))));
        }
        i += 1;
    }
    proof {
        assert(calls.take(n as int) =~= calls);
        calls.lemma_to_set_map_commutes(place);
        assert(calls.to_set().map(place) =~= node@.external_calls.map(
            |c: (Expr, Expr)| (through_parents(c.0, parents), through_parents(c.1, parents)),
        ));
    }
}

/// What has been gathered, as a state of the walk.
pub open spec fn gathered(
    contract_method: &ContractMethod,
    storage: &WordMap<ContractMethod>,
    unresolved: &Vec<UnresolvedJump>,
) -> WalkState {
    WalkState {
        method: contract_method@,
        methods: methods_model(storage@),
        unresolved: unresolved@,
    }
}

/// Walks the call graph from block `node` and gathers the footprint of
/// every method on the way.
///
/// `parent_data` holds stack and memory at each jump on the way to `node`,
/// outermost first; `call_stack` the addresses of the blocks entered,
/// oldest first.  What `node` and the blocks behind it read, write and call
/// goes to `contract_method`; where an edge dispatches on a selector, what
/// lies behind it goes to a method of its own, which is filed in `storage`
/// under the selector.  An edge whose target is no block is abandoned and
/// added to `unresolved`.  The walk ends because `cycle_solver` lets no
/// address stand on the call stack more often than its limit.
pub fn resolve_function_storage<C: CycleSolver>(
    node: &EvmFunction,
    registry: &FunctionRegistry,
    parent_data: Vec<(&EvmStack, &EvmMemory)>,
    contract_method: &mut ContractMethod,
    top_level_found: bool,
    cycle_solver: &C,
    storage: &mut WordMap<ContractMethod>,
    call_stack: Vec<usize>,
    unresolved: &mut Vec<UnresolvedJump>,
)
    requires
        registry.wf(),
        old(storage).wf(),
    ensures
        final(storage).wf(),
        gathered(final(contract_method), final(storage), final(unresolved)) == walk_node(
            cycle_solver,
            registry.model(),
            node@,
            parents_model(parent_data@),
            gathered(old(contract_method), old(storage), old(unresolved)),
            top_level_found,
            call_stack@,
        ),
        final(contract_method)@.storage_read.finite(),
        final(contract_method)@.storage_write.finite(),
        final(contract_method)@.method_call.finite(),
    decreases room(call_stack@, registry.model(), cycle_solver.revisit_limit()),
{
    let ghost blocks = registry.model();
    let ghost parents = parents_model(parent_data@);
    let ghost limit = cycle_solver.revisit_limit();
    absorb_node(node, &parent_data, contract_method, cycle_solver);
    let ghost own = gathered(contract_method, storage, unresolved);
    let ghost result = walk_edges(
        cycle_solver,
        blocks,
        node@,
        parents,
        own,
        top_level_found,
        call_stack@,
        0,
    );
    let edges = node.internal_calls.len();
    let mut i: usize = 0;
    while i < edges
        invariant
            i <= edges,
            edges == node.internal_calls@.len(),
            edges == node@.internal_calls.len(),
            registry.wf(),
            storage.wf(),
            blocks == registry.model(),
            parents == parents_model(parent_data@),
            limit == cycle_solver.revisit_limit(),
            walk_edges(
                cycle_solver,
                blocks,
                node@,
                parents,
                gathered(contract_method, storage, unresolved),
                top_level_found,
                call_stack@,
                i as nat,
            ) == result,
        decreases edges - i,
    {
        let ghost state = gathered(contract_method, storage, unresolved);
        let ghost next = walk_edge(
            cycle_solver,
            blocks,
            node@,
            parents,
            state,
            top_level_found,
            call_stack@,
            i as nat,
        );
        let call = &node.internal_calls[i];
        assert(node@.internal_calls[i as int] == edge_model(*call));
        let resolved = resolve_in_parents(&call.0, &parent_data);
        match find_target(registry, &resolved) {
            None => {
                unresolved.push(UnresolvedJump { position: node.position, edge: i });
            },
            Some(address) => {
                if cycle_solver.should_go(&call_stack, address, node.position, registry, &call.3) {
                    proof {
                        lemma_registry_blocks(registry, address);
                        cycle_solver.lemma_permits_bounded(
                            call_stack@,
                            address,
                            node.position,
                            option_model(call.3),
                        );
                        lemma_room_push(call_stack@, blocks, limit, address);
                    }
                    let new_node = registry.get_from_address(address).unwrap();
                    let mut new_vector = copy_parents(&parent_data);
                    new_vector.push((&call.1, &call.2));
                    assert(parents_model(new_vector@) =~= parents.push((call.1@, call.2@)));
                    let mut newstack = copy_stack(&call_stack);
                    newstack.push(address);
                    let selector = if top_level_found {
                        None
                    } else {
                        match &call.3 {
                            Some(c) => {
                                let guard = resolve_in_parents(c, &parent_data);
                                get_pubblic_method(&guard, &parent_data)
                            },
                            None => None,
                        }
                    };
                    assert(selector == dispatch_of(option_model(call.3), parents, top_level_found));
                    match selector {
                        Some(addr) => {
                            let mut method = contract_method.clone();
                            resolve_function_storage(
                                new_node,
                                registry,
                                new_vector,
                                &mut method,
                                true,
                                cycle_solver,
                                storage,
                                newstack,
                                unresolved,
                            );
                            let ghost filed = storage@;
                            storage.insert(addr, method);
                            assert(methods_model(storage@) =~= methods_model(filed).insert(
                                addr,
                                method@,
                            ));
                        },
                        None => {
                            resolve_function_storage(
                                new_node,
                                registry,
                                new_vector,
                                contract_method,
                                top_level_found,
                                cycle_solver,
                                storage,
                                newstack,
                                unresolved,
                            );
                        },
                    }
                }
            },
        }
        assert(gathered(contract_method, storage, unresolved) == next);
        i += 1;
    }
    proof {
        contract_method.storage_read.lemma_finite();
        contract_method.storage_write.lemma_finite();
        contract_method.method_call.lemma_finite();
    }
}

/// The code bytes that a read of a memory yields, if it yields any.
pub open spec fn code_in(memory: MemoryModel, start: Expr, size: Expr) -> Option<Expr> {
    match memory_read(memory, start, size) {
        Expr::Code(c) => Some(Expr::Code(c)),
        _ => None,
    }
}

/// The code bytes that the memory of one of the first `k` callers holds at
/// `start`, the nearest of them first.
pub open spec fn code_in_parents(parents: ParentsModel, start: Expr, size: Expr, k: nat) -> Option<Expr>
    decreases k,
{
    if k == 0 || k > parents.len() {
        None
    } else {
        match code_in(parents[k - 1].1, start, size) {
            Some(c) => Some(c),
            None => code_in_parents(parents, start, size, (k - 1) as nat),
        }
    }
}

/// The code bytes that block `node` returns: its returned memory area, with
/// the placeholders replaced, is looked up in its own memory and then in
/// that of each caller outward.
pub open spec fn returned_code(node: FunctionModel, parents: ParentsModel) -> Option<Expr> {
    match node.return_value {
        None => None,
        Some((length, offset)) => {
            let start = through_parents(offset, parents);
            let size = through_parents(length, parents);
            match code_in(node.memory, start, size) {
                Some(c) => Some(c),
                None => code_in_parents(parents, start, size, parents.len()),
            }
        },
    }
}

/// The code bytes that a walk from block `node` finds returned: those of
/// `node` itself, or else the first that a walk along one of its edges
/// finds, edge after edge.
pub open spec fn find_return<C: CycleSolver>(
    solver: &C,
    blocks: Seq<FunctionModel>,
    node: FunctionModel,
    parents: ParentsModel,
    call_stack: Seq<usize>,
) -> Option<Expr>
    decreases room(call_stack, blocks, solver.revisit_limit()), 1nat, 0nat,
{
    match returned_code(node, parents) {
        Some(c) => Some(c),
        None => find_return_edges(solver, blocks, node, parents, call_stack, 0),
    }
}

/// The first code bytes that a walk along the edges of `node` from edge
/// `i` on finds returned.  An edge whose target is no block and an edge
/// that the policy declines lead nowhere.
pub open spec fn find_return_edges<C: CycleSolver>(
    solver: &C,
    blocks: Seq<FunctionModel>,
    node: FunctionModel,
    parents: ParentsModel,
    call_stack: Seq<usize>,
    i: nat,
) -> Option<Expr>
    decreases room(call_stack, blocks, solver.revisit_limit()), 0nat, node.internal_calls.len() - i,
{
    if i >= node.internal_calls.len() {
        None
    } else {
        let edge = node.internal_calls[i as int];
        let here = match jump_target(blocks, edge.target, parents) {
            None => None,
            Some(address) => {
                if !solver.permits(call_stack, address, node.position as usize, edge.condition) {
                    None
                } else {
                    proof {
                        solver.lemma_permits_bounded(
                            call_stack,
                            address,
                            node.position as usize,
                            edge.condition,
                        );
                        lemma_room_push(call_stack, blocks, solver.revisit_limit(), address);
                    }
                    find_return(
                        solver,
                        blocks,
                        block_at(blocks, address as nat),
                        parents.push((edge.stack, edge.memory)),
                        call_stack.push(address),
                    )
                }
            },
        };
        match here {
            Some(c) => Some(c),
            None => find_return_edges(solver, blocks, node, parents, call_stack, i + 1),
        }
    }
}

/// The code bytes that a memory holds at `start`, if it holds any there.
pub fn code_at(memory: &EvmMemory, start: &StackValue, size: &StackValue) -> (r: Option<StackValue>)
    ensures
        option_model(r) == code_in(memory@, start@, size@),
{
    match memory.retrive(start.clone(), size.clone()) {
        Some(StackValue::CodeSection(c)) => Some(StackValue::CodeSection(c)),
        _ => None,
    }
}

/// The code bytes that block `node` returns, if it returns any.
pub fn returned_section(node: &EvmFunction, parent_data: &Vec<(&EvmStack, &EvmMemory)>) -> (r: Option<
    StackValue,
>)
    ensures
        option_model(r) == returned_code(node@, parents_model(parent_data@)),
{
    let ghost parents = parents_model(parent_data@);
    match &node.return_value {
        None => None,
        Some(area) => {
            let replaced_start = resolve_in_parents(&area.1, parent_data);
            let replaced_length = resolve_in_parents(&area.0, parent_data);
            if let Some(x) = code_at(&node.memory, &replaced_start, &replaced_length) {
                return Some(x);
            }
            let mut k: usize = parent_data.len();
            while k > 0
                invariant
                    k <= parent_data.len(),
                    parents == parents_model(parent_data@),
                    returned_code(node@, parents) == code_in_parents(
                        parents,
                        replaced_start@,
                        replaced_length@,
                        parents.len(),
                    ),
                    code_in_parents(parents, replaced_start@, replaced_length@, parents.len())
                        == code_in_parents(parents, replaced_start@, replaced_length@, k as nat),
                decreases k,
            {
                k -= 1;
                let parent = &parent_data[k];
                assert(parents[k as int].1 == parent.1@);
                if let Some(x) = code_at(parent.1, &replaced_start, &replaced_length) {
                    return Some(x);
                }
            }
            None
        },
    }
}

/// Looks for the code bytes that a walk of the call graph from block `node`
/// finds returned: the runtime code, where `node` starts a constructor.
/// The walk follows the edges that `cycle_solver` lets it follow, and the
/// first code bytes found are the answer.
pub fn resolve_return_node<C: CycleSolver>(
    node: &EvmFunction,
    registry: &FunctionRegistry,
    parent_data: Vec<(&EvmStack, &EvmMemory)>,
    cycle_solver: &C,
    call_stack: Vec<usize>,
) -> (r: Option<StackValue>)
    requires
        registry.wf(),
    ensures
        option_model(r) == find_return(
            cycle_solver,
            registry.model(),
            node@,
            parents_model(parent_data@),
            call_stack@,
        ),
    decreases room(call_stack@, registry.model(), cycle_solver.revisit_limit()),
{
    let ghost blocks = registry.model();
    let ghost parents = parents_model(parent_data@);
    let ghost limit = cycle_solver.revisit_limit();
    if let Some(x) = returned_section(node, &parent_data) {
        return Some(x);
    }
    let edges = node.internal_calls.len();
    let mut i: usize = 0;
    while i < edges
        invariant
            i <= edges,
            edges == node.internal_calls@.len(),
            edges == node@.internal_calls.len(),
            registry.wf(),
            blocks == registry.model(),
            parents == parents_model(parent_data@),
            limit == cycle_solver.revisit_limit(),
            returned_code(node@, parents) is None,
            find_return_edges(cycle_solver, blocks, node@, parents, call_stack@, i as nat)
                == find_return_edges(cycle_solver, blocks, node@, parents, call_stack@, 0),
        decreases edges - i,
    {
        let call = &node.internal_calls[i];
        assert(node@.internal_calls[i as int] == edge_model(*call));
        let resolved = resolve_in_parents(&call.0, &parent_data);
        if let Some(address) = find_target(registry, &resolved) {
            if cycle_solver.should_go(&call_stack, address, node.position, registry, &call.3) {
                proof {
                    lemma_registry_blocks(registry, address);
                    cycle_solver.lemma_permits_bounded(
                        call_stack@,
                        address,
                        node.position,
                        option_model(call.3),
                    );
                    lemma_room_push(call_stack@, blocks, limit, address);
                }
                let new_node = registry.get_from_address(address).unwrap();
                let mut new_vector = copy_parents(&parent_data);
                new_vector.push((&call.1, &call.2));
                assert(parents_model(new_vector@) =~= parents.push((call.1@, call.2@)));
                let mut newstack = copy_stack(&call_stack);
                newstack.push(address);
                let returned = resolve_return_node(
                    new_node,
                    registry,
                    new_vector,
                    cycle_solver,
                    newstack,
                );
                if let Some(x) = returned {
                    return Some(x);
                }
            }
        }
        i += 1;
    }
    None
}

/// The state of a walk that has gathered nothing.
pub open spec fn nothing_gathered() -> WalkState {
    WalkState { method: MethodModel::empty(), methods: Map::empty(), unresolved: Seq::empty() }
}

/// What the walk of the blocks of a constructor gathers, from the block
/// at offset 0.
pub open spec fn constructor_walk<C: CycleSolver>(solver: &C, blocks: Seq<FunctionModel>) -> WalkState {
    walk_node(solver, blocks, blocks[0], Seq::empty(), nothing_gathered(), false, seq![0usize])
}

/// The runtime code that a constructor returns.
pub open spec fn runtime_code<C: CycleSolver>(solver: &C, blocks: Seq<FunctionModel>) -> Option<Seq<u8>> {
    match find_return(solver, blocks, blocks[0], Seq::empty(), seq![0usize]) {
        Some(Expr::Code(c)) => Some(c),
        _ => None,
    }
}

/// What the walk of the blocks of a runtime code adds to what the walk of
/// the constructor gathered: its methods and its abandoned edges.
pub open spec fn runtime_walk<C: CycleSolver>(
    solver: &C,
    blocks: Seq<FunctionModel>,
    before: WalkState,
) -> WalkState {
    walk_node(
        solver,
        blocks,
        blocks[0],
        Seq::empty(),
        WalkState { method: MethodModel::empty(), ..before },
        false,
        seq![0usize],
    )
}

/// The footprint of the contract that `code` constructs, and the edges
/// that the analysis abandoned.
///
/// The blocks of `code` are interpreted and walked from offset 0: that
/// gives the footprint of the constructor.  The code bytes that the
/// constructor returns are the runtime code; its blocks are interpreted and
/// walked in the same way, which gives the methods.  There is no footprint
/// where the constructor returns no code bytes, or where a code is too long
/// for this machine.
pub open spec fn analysis<C: CycleSolver>(solver: &C, code: Seq<u8>) -> (
    Option<ContractModel>,
    Seq<UnresolvedJump>,
) {
    if !analyzable(code) {
        (None, Seq::empty())
    } else {
        let blocks = analyzed_blocks(code, entry_list(code));
        let first = constructor_walk(solver, blocks);
        match runtime_code(solver, blocks) {
            Some(runtime) => if !analyzable(runtime) {
                (None, first.unresolved)
            } else {
                let second = runtime_walk(solver, analyzed_blocks(runtime, entry_list(runtime)), first);
                (
                    Some(ContractModel { constructor: first.method, methods: second.methods }),
                    second.unresolved,
                )
            },
            None => (None, first.unresolved),
        }
    }
}

/// The model of an optional footprint.
pub open spec fn contract_model(data: Option<ContractData>) -> Option<ContractModel> {
    match data {
        Some(d) => Some(d@),
        None => None,
    }
}

/// Walks the blocks of a constructor from offset 0: gathers its footprint
/// and looks for the runtime code that it returns.
pub fn analyze_constructor<C: CycleSolver>(
    registry: &FunctionRegistry,
    cycle_solver: &C,
    constructor: &mut ContractMethod,
    storage: &mut WordMap<ContractMethod>,
    unresolved: &mut Vec<UnresolvedJump>,
) -> (runtime: Option<Vec<u8>>)
    requires
        registry.wf(),
        registry.analyzed@.len() > 0,
        old(storage).wf(),
        gathered(old(constructor), old(storage), old(unresolved)) == nothing_gathered(),
    ensures
        final(storage).wf(),
        gathered(final(constructor), final(storage), final(unresolved)) == constructor_walk(
            cycle_solver,
            registry.model(),
        ),
        match runtime {
            Some(c) => runtime_code(cycle_solver, registry.model()) == Some(c@),
            None => runtime_code(cycle_solver, registry.model()) is None,
        },
{
    let start = &registry.analyzed[0];
    let mut call_stack: Vec<usize> = Vec::new();
    call_stack.push(0);
    assert(call_stack@ =~= seq![0usize]);
    let parents: Vec<(&EvmStack, &EvmMemory)> = Vec::new();
    assert(parents_model(parents@) =~= Seq::empty());
    resolve_function_storage(
        start,
        registry,
        parents,
        constructor,
        false,
        cycle_solver,
        storage,
        call_stack,
        unresolved,
    );
    let mut call_stack: Vec<usize> = Vec::new();
    call_stack.push(0);
    assert(call_stack@ =~= seq![0usize]);
    let parents: Vec<(&EvmStack, &EvmMemory)> = Vec::new();
    assert(parents_model(parents@) =~= Seq::empty());
    match resolve_return_node(start, registry, parents, cycle_solver, call_stack) {
        Some(StackValue::CodeSection(v)) => Some(v),
        _ => None,
    }
}

/// Walks the blocks of a runtime code from offset 0 and files the
/// footprint of each of its methods in `storage`.
pub fn analyze_runtime<C: CycleSolver>(
    registry: &FunctionRegistry,
    cycle_solver: &C,
    storage: &mut WordMap<ContractMethod>,
    unresolved: &mut Vec<UnresolvedJump>,
)
    requires
        registry.wf(),
        registry.analyzed@.len() > 0,
        old(storage).wf(),
    ensures
        final(storage).wf(),
        ({
            let after = runtime_walk(
                cycle_solver,
                registry.model(),
                WalkState {
                    method: MethodModel::empty(),
                    methods: methods_model(old(storage)@),
                    unresolved: old(unresolved)@,
                },
            );
            &&& methods_model(final(storage)@) == after.methods
            &&& final(unresolved)@ == after.unresolved
        }),
{
    let start = &registry.analyzed[0];
    let mut temporary = ContractMethod::new();
    let mut call_stack: Vec<usize> = Vec::new();
    call_stack.push(0);
    assert(call_stack@ =~= seq![0usize]);
    let parents: Vec<(&EvmStack, &EvmMemory)> = Vec::new();
    assert(parents_model(parents@) =~= Seq::empty());
    resolve_function_storage(
        start,
        registry,
        parents,
        &mut temporary,
        false,
        cycle_solver,
        storage,
        call_stack,
        unresolved,
    );
}

/// Analyses the contract that `code` constructs: the footprint of its
/// constructor and of each of its methods, together with the edges that
/// had to be abandoned because their target is no block.
pub fn analyze_contract_report<C: CycleSolver>(
    code: &[u8],
    cycle_solver: &C,
    logger: &mut impl ContractLogger,
) -> (r: (Option<ContractData>, Vec<UnresolvedJump>))
    ensures
        contract_model(r.0) == analysis(cycle_solver, code@).0,
        r.1@ == analysis(cycle_solver, code@).1,
        r.0 matches Some(d) ==> d.wf(),
{
    let mut unresolved: Vec<UnresolvedJump> = Vec::new();
    if !is_analyzable(code) {
        return (None, unresolved);
    }
    let functions = list_functions(code);
    let registry = single_threded_function_analyzer(code, functions.as_slice(), logger);
    let mut constructor = ContractMethod::new();
    let mut storage: WordMap<ContractMethod> = WordMap::new();
    assert(methods_model(storage@) =~= Map::empty());
    let runtime = analyze_constructor(
        &registry,
        cycle_solver,
        &mut constructor,
        &mut storage,
        &mut unresolved,
    );
    match runtime {
        Some(v) => {
            let code = v.as_slice();
            if !is_analyzable(code) {
                return (None, unresolved);
            }
            let functions = list_functions(code);
            let registry = single_threded_function_analyzer(code, functions.as_slice(), logger);
            analyze_runtime(&registry, cycle_solver, &mut storage, &mut unresolved);
            (Some(ContractData::construct(constructor, storage)), unresolved)
        },
        None => (None, unresolved),
    }
}

/// Analyses the contract that `code` constructs; `None` where the
/// constructor returns no runtime code.
pub fn analyze_contract<C: CycleSolver>(
    code: &[u8],
    cycle_solver: &C,
    logger: &mut impl ContractLogger,
) -> (r: Option<ContractData>)
    ensures
        contract_model(r) == analysis(cycle_solver, code@).0,
        r matches Some(d) ==> d.wf(),
{
    analyze_contract_report(code, cycle_solver, logger).0
}

/// Analyses the contract that `code` constructs, with the policy that
/// follows no edge to a block on the call stack and without a logger.
pub fn analyze_contract_single(code: &[u8]) -> (r: Option<ContractData>)
    ensures
        contract_model(r) == analysis(&NocycleSolver(), code@).0,
        r matches Some(d) ==> d.wf(),
{
    let solver = NocycleSolver();
    let mut logger = NoLogger();
    analyze_contract(code, &solver, &mut logger)
}

} // verus!
