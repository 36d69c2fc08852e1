//! The abstract stack and the abstract memory of one block.
//!
//! A block knows neither the stack nor the memory of its caller.  Where it
//! pops more than it pushed, the stack hands out placeholders for the
//! caller's slots and counts the deficit; where it pushes while a deficit
//! is open, the value is recorded as an edit of the caller's slot.

use vstd::prelude::*;
use crate::evm_types::Expr;
use crate::evm_types::Operator;
use crate::evm_types::StackValue;
use crate::evm_types::preimages_model;
use crate::word::Word;

verus! {

/// The model of a memory: the entries (offset, value, length), oldest first.
pub type MemoryModel = Seq<(Expr, Expr, Expr)>;

/// The model of a stack.
pub struct StackModel {
    /// The values pushed by the block itself, top last.
    pub stack: Seq<Expr>,
    /// How many slots of the caller the block has consumed.
    pub deficit: nat,
    /// The values written to slots of the caller: (depth, value), oldest first.
    pub edits: Seq<(nat, Expr)>,
}

/// The index of the last edit of the slot at `depth` among the first `end`
/// edits, or -1 where there is none.
pub open spec fn last_edit(edits: Seq<(nat, Expr)>, depth: nat, end: int) -> int
    decreases end,
{
    if end <= 0 {
        -1
    } else if edits[end - 1].0 == depth {
        end - 1
    } else {
        last_edit(edits, depth, end - 1)
    }
}

/// The index of the first entry at `offset` from index `start` on, or -1.
pub open spec fn first_entry(memory: MemoryModel, offset: Expr, start: int) -> int
    decreases memory.len() - start,
{
    if start < 0 || start >= memory.len() {
        -1
    } else if memory[start].0 == offset {
        start
    } else {
        first_entry(memory, offset, start + 1)
    }
}

/// The index of the last entry at `offset` among the first `end` entries, or -1.
pub open spec fn last_entry(memory: MemoryModel, offset: Expr, end: int) -> int
    decreases end,
{
    if end <= 0 {
        -1
    } else if memory[end - 1].0 == offset {
        end - 1
    } else {
        last_entry(memory, offset, end - 1)
    }
}

/// What a read of `length` bytes at `offset` yields: the value stored last
/// at an equal offset expression, or a placeholder for the caller to resolve.
pub open spec fn memory_read(memory: MemoryModel, offset: Expr, length: Expr) -> Expr {
    let i = last_entry(memory, offset, memory.len() as int);
    if i >= 0 {
        memory[i].1
    } else {
        Expr::Op2(Operator::MemoryPlaceHolder, Box::new(offset), Box::new(length))
    }
}

/// The memory after a store: the oldest entry at an equal offset expression
/// is dropped, the new entry comes last.
pub open spec fn memory_write(memory: MemoryModel, offset: Expr, value: Expr, length: Expr) -> MemoryModel {
    let i = first_entry(memory, offset, 0);
    let kept = if i >= 0 {
        memory.remove(i)
    } else {
        memory
    };
    kept.push((offset, value, length))
}

/// Whether an entry lies, with a concrete offset and length, inside the
/// window of `length` bytes at `offset`.
pub open spec fn in_window(entry: (Expr, Expr, Expr), offset: Word, length: Word) -> bool {
    &&& entry.0.resolve() matches Some(at)
    &&& entry.2.resolve() matches Some(size)
    &&& at.fits_usize()
    &&& offset.value() <= at.value()
    &&& at.value() + size.value() <= offset.value() + length.value()
}

/// The entries among the first `end` that lie inside a window, newest
/// first, each with its offset.
pub open spec fn memory_window(memory: MemoryModel, offset: Word, length: Word, end: int) -> Seq<(nat, Expr)>
    decreases end,
{
    if end <= 0 {
        Seq::empty()
    } else {
        let entry = memory[end - 1];
        let older = memory_window(memory, offset, length, end - 1);
        if in_window(entry, offset, length) {
            seq![(entry.0.resolve()->0.value(), entry.1)] + older
        } else {
            older
        }
    }
}

impl StackModel {
    /// The value of the caller's slot at `depth` as the block left it: the
    /// last edit, or a placeholder.
    pub open spec fn previous(self, depth: nat) -> Expr {
        let i = last_edit(self.edits, depth, self.edits.len() as int);
        if i >= 0 {
            self.edits[i].1
        } else {
            Expr::Slot(depth)
        }
    }

    /// The stack without the last edit of the caller's slot at `depth`.
    pub open spec fn without_edit(self, depth: nat) -> StackModel {
        let i = last_edit(self.edits, depth, self.edits.len() as int);
        if i >= 0 {
            StackModel { edits: self.edits.remove(i), ..self }
        } else {
            self
        }
    }

    /// The stack after a pop, and the value popped.  Below the block's own
    /// values the deficit grows by one and the caller's slot at that depth
    /// is taken.
    #[verifier::opaque]
    pub open spec fn pop(self) -> (StackModel, Expr) {
        if self.stack.len() > 0 {
            (StackModel { stack: self.stack.drop_last(), ..self }, self.stack.last())
        } else {
            let depth = self.deficit + 1;
            let taken = StackModel { deficit: depth, ..self };
            (taken.without_edit(depth), taken.previous(depth))
        }
    }

    /// The stack after `n` pops.
    pub open spec fn pop_n(self, n: nat) -> StackModel
        decreases n,
    {
        if n == 0 {
            self
        } else {
            self.pop().0.pop_n((n - 1) as nat)
        }
    }

    /// The stack after a push.  With a deficit open the value goes to the
    /// caller's slot at that depth, and the deficit shrinks by one.
    pub open spec fn push(self, value: Expr) -> StackModel {
        if self.deficit == 0 {
            StackModel { stack: self.stack.push(value), ..self }
        } else {
            StackModel {
                edits: self.edits.push((self.deficit, value)),
                deficit: (self.deficit - 1) as nat,
                ..self
            }
        }
    }

    /// The value at `position` from the top, 1 for the top itself.  Below
    /// the block's own values it is the caller's slot.  Position 0, and a
    /// depth that the machine cannot count, are answered by a placeholder
    /// for `position`.
    pub open spec fn peek(self, position: nat) -> Expr {
        if 1 <= position <= self.stack.len() {
            self.stack[self.stack.len() - position]
        } else if position == 0 || self.deficit + position - self.stack.len() > usize::MAX {
            Expr::Slot(position)
        } else {
            self.previous((self.deficit + position - self.stack.len()) as nat)
        }
    }

    /// The stack after the top is exchanged with the value `i` places
    /// below it.
    pub open spec fn swap(self, i: nat) -> StackModel {
        if i < self.stack.len() {
            let top = self.stack.len() - 1;
            StackModel {
                stack: self.stack.update(top, self.stack[top - i]).update(top - i, self.stack[top]),
                ..self
            }
        } else {
            let (popped, upper) = self.pop();
            let depth = (popped.deficit + i - popped.stack.len()) as nat;
            let lower = popped.previous(depth);
            let pushed = popped.without_edit(depth).push(lower);
            StackModel { edits: pushed.edits.push((depth, upper)), ..pushed }
        }
    }
}

/// A pop consumes at most one slot of the caller.
pub proof fn lemma_pop_deficit(s: StackModel)
    ensures
        s.pop().0.deficit <= s.deficit + 1,
{
    reveal(StackModel::pop);
}

/// A swap consumes at most one slot of the caller.
pub proof fn lemma_swap_deficit(s: StackModel, i: nat)
    ensures
        s.swap(i).deficit <= s.deficit + 1,
{
    reveal(StackModel::pop);
}

/// The abstract stack of one block.
#[derive(Debug)]
pub struct EvmStack {
    stack: Vec<StackValue>,
    deficit: usize,
    /// The values that this block wrote to slots of its caller.
    calee_edits: Vec<(usize, StackValue)>,
}

/// The abstract memory of one block.
#[derive(Debug)]
pub struct EvmMemory {
    actual_memory: Vec<(StackValue, StackValue, StackValue)>,
}

/// The models of a list of stack values.
pub open spec fn values_model(v: Seq<StackValue>) -> Seq<Expr> {
    Seq::new(v.len(), |i: int| v[i]@)
}

/// The models of a list of memory entries.
pub open spec fn entries_model(v: Seq<(StackValue, StackValue, StackValue)>) -> MemoryModel {
    Seq::new(v.len(), |i: int| (v[i].0@, v[i].1@, v[i].2@))
}

impl View for EvmStack {
    type V = StackModel;

    closed spec fn view(&self) -> StackModel {
        StackModel {
            stack: values_model(self.stack@),
            deficit: self.deficit as nat,
            edits: preimages_model(self.calee_edits@),
        }
    }
}

impl View for EvmMemory {
    type V = MemoryModel;

    closed spec fn view(&self) -> MemoryModel {
        entries_model(self.actual_memory@)
    }
}

impl Clone for EvmMemory {
    fn clone(&self) -> (r: Self)
        ensures
            r@ == self@,
    {
        let mut entries: Vec<(StackValue, StackValue, StackValue)> = Vec::new();
        let mut i: usize = 0;
        while i < self.actual_memory.len()
            invariant
                i <= self.actual_memory.len(),
                entries.len() == i,
                forall|j: int| 0 <= j < i ==> entries_model(entries@)[j] == entries_model(self.actual_memory@)[j],
            decreases self.actual_memory.len() - i,
        {
            let e = &self.actual_memory[i];
            let copy = (e.0.clone(), e.1.clone(), e.2.clone());
            let ghost before = entries@;
            entries.push(copy);
            assert forall|j: int| 0 <= j < i + 1 implies entries_model(entries@)[j] == entries_model(
                self.actual_memory@,
            )[j] by {
                if j < i {
                    assert(entries@[j] == before[j]);
                    assert(entries_model(before)[j] == entries_model(self.actual_memory@)[j]);
                }
            }
            i += 1;
        }
        assert(entries_model(entries@) =~= entries_model(self.actual_memory@));
        EvmMemory { actual_memory: entries }
    }
}

impl EvmMemory {
    pub fn new() -> (r: Self)
        ensures
            r@ == MemoryModel::empty(),
    {
        let r = EvmMemory { actual_memory: Vec::new() };
        assert(r@ =~= MemoryModel::empty());
        r
    }

    /// The number of entries.
    pub fn len(&self) -> (r: usize)
        ensures
            r == self@.len(),
    {
        self.actual_memory.len()
    }

    /// The entry at place `i`, the oldest first: offset, value and length.
    pub fn entry_at(&self, i: usize) -> (r: &(StackValue, StackValue, StackValue))
        requires
            i < self@.len(),
        ensures
            (r.0@, r.1@, r.2@) == self@[i as int],
    {
        &self.actual_memory[i]
    }

    /// Records that `value`, of `length` bytes, was written at `offset`.
    pub fn store(&mut self, offset: StackValue, value: StackValue, length: StackValue)
        ensures
            final(self)@ == memory_write(old(self)@, offset@, value@, length@),
    {
        let ghost before = self@;
        let mut i: usize = 0;
        let mut found: Option<usize> = None;
        while i < self.actual_memory.len()
            invariant_except_break
                found is None,
                first_entry(before, offset@, 0) == first_entry(before, offset@, i as int),
            invariant
                i <= self.actual_memory.len(),
                self@ == before,
            ensures
                self@ == before,
                found matches Some(k) ==> k < self.actual_memory.len() && first_entry(before, offset@, 0) == k,
                found is None ==> first_entry(before, offset@, 0) == -1,
            decreases self.actual_memory.len() - i,
        {
            if self.actual_memory[i].0.same(&offset) {
                found = Some(i);
                break;
            }
            i += 1;
        }
        if let Some(k) = found {
            self.actual_memory.remove(k);
            assert(self@ =~= before.remove(k as int));
        }
        let ghost kept = self@;
        self.actual_memory.push((offset, value, length));
        assert(self@ =~= kept.push((offset@, value@, length@)));
    }

    /// What a read of `l` bytes at `offset` yields: the value stored last at
    /// an equal offset expression, or else a placeholder.  It is never `None`.
    pub fn retrive(&self, offset: StackValue, l: StackValue) -> (r: Option<StackValue>)
        ensures
            r matches Some(v) && v@ == memory_read(self@, offset@, l@),
    {
        let mut i: usize = self.actual_memory.len();
        while i > 0
            invariant
                i <= self.actual_memory.len(),
                last_entry(self@, offset@, self@.len() as int) == last_entry(self@, offset@, i as int),
            decreases i,
        {
            i -= 1;
            if self.actual_memory[i].0.same(&offset) {
                return Some(self.actual_memory[i].1.clone());
            }
        }
        Some(StackValue::MemoryPlaceHolder(Box::new(offset), Box::new(l)))
    }

    /// The entries that lie, with a concrete offset and length, inside the
    /// window of `length` bytes at `offset`: newest first, each with its
    /// offset.
    pub fn retrive_array(&self, offset: Word, length: Word) -> (r: Vec<(usize, StackValue)>)
        ensures
            preimages_model(r@) == memory_window(self@, offset, length, self@.len() as int),
    {
        let mut out: Vec<(usize, StackValue)> = Vec::new();
        let mut i: usize = self.actual_memory.len();
        assert(preimages_model(out@) =~= Seq::<(nat, Expr)>::empty());
        while i > 0
            invariant
                i <= self.actual_memory.len(),
                memory_window(self@, offset, length, self@.len() as int) == preimages_model(out@)
                    + memory_window(self@, offset, length, i as int),
            decreases i,
        {
            i -= 1;
            let entry = &self.actual_memory[i];
            let ghost before = preimages_model(out@);
            let ghost older = memory_window(self@, offset, length, i as int);
            assert(self@[i as int] == (entry.0@, entry.1@, entry.2@));
            if let Some(at) = entry.0.resolve() {
                if let Some(size) = entry.2.resolve() {
                    if let Some(place) = at.to_usize() {
                        if offset.le(&at) && Word::sum_le(&at, &size, &offset, &length) {
                            let copy = entry.1.clone();
                            out.push((place, copy));
                            assert(preimages_model(out@) =~= before.push((place as nat, entry.1@)));
                            assert(before.push((place as nat, entry.1@)) + older =~= before + (seq![
                                (place as nat, entry.1@),
                            ] + older));
                        }
                    }
                }
            }
        }
        assert(preimages_model(out@) + Seq::<(nat, Expr)>::empty() =~= preimages_model(out@));
        out
    }
}

impl Clone for EvmStack {
    fn clone(&self) -> (r: Self)
        ensures
            r@ == self@,
    {
        let mut stack: Vec<StackValue> = Vec::new();
        let mut i: usize = 0;
        while i < self.stack.len()
            invariant
                i <= self.stack.len(),
                stack.len() == i,
                forall|j: int| 0 <= j < i ==> (#[trigger] stack[j])@ == self.stack[j]@,
            decreases self.stack.len() - i,
        {
            let copy = self.stack[i].clone();
            stack.push(copy);
            i += 1;
        }
        assert(values_model(stack@) =~= values_model(self.stack@));
        let edits = crate::evm_types::clone_preimages(&self.calee_edits);
        EvmStack { stack, deficit: self.deficit, calee_edits: edits }
    }
}

impl EvmStack {
    pub fn new() -> (r: Self)
        ensures
            r@ == (StackModel { stack: Seq::empty(), deficit: 0, edits: Seq::empty() }),
    {
        let r = EvmStack { stack: Vec::new(), deficit: 0, calee_edits: Vec::new() };
        assert(r@.stack =~= Seq::<Expr>::empty());
        assert(r@.edits =~= Seq::<(nat, Expr)>::empty());
        r
    }

    /// The index of the last edit of the caller's slot at `depth`.
    fn find_edit(&self, depth: usize) -> (r: Option<usize>)
        ensures
            r matches Some(k) ==> k < self@.edits.len() && last_edit(
                self@.edits,
                depth as nat,
                self@.edits.len() as int,
            ) == k,
            r is None ==> last_edit(self@.edits, depth as nat, self@.edits.len() as int) == -1,
    {
        let mut i: usize = self.calee_edits.len();
        while i > 0
            invariant
                i <= self.calee_edits.len(),
                last_edit(self@.edits, depth as nat, self@.edits.len() as int) == last_edit(
                    self@.edits,
                    depth as nat,
                    i as int,
                ),
            decreases i,
        {
            i -= 1;
            if self.calee_edits[i].0 == depth {
                return Some(i);
            }
        }
        None
    }

    /// Takes the caller's slot at `position`: the last edit of it, which is
    /// then forgotten, or a placeholder.
    fn previous_pop(&mut self, position: usize) -> (r: StackValue)
        ensures
            r@ == old(self)@.previous(position as nat),
            final(self)@ == old(self)@.without_edit(position as nat),
    {
        match self.find_edit(position) {
            Some(k) => {
                let ghost before = self@;
                let edit = self.calee_edits.remove(k);
                assert(self@.edits =~= before.edits.remove(k as int));
                assert(self@.stack == before.stack);
                edit.1
            },
            None => StackValue::StackPaceHolder(position),
        }
    }

    /// Reads the caller's slot at `position`: the last edit of it, or a
    /// placeholder.
    fn previous_clone(&self, position: usize) -> (r: StackValue)
        ensures
            r@ == self@.previous(position as nat),
    {
        match self.find_edit(position) {
            Some(k) => self.calee_edits[k].1.clone(),
            None => StackValue::StackPaceHolder(position),
        }
    }

    /// Takes the top of the stack.  Below the block's own values it takes a
    /// slot of the caller and counts it.
    pub fn pop(&mut self) -> (r: StackValue)
        requires
            old(self)@.deficit < usize::MAX,
        ensures
            final(self)@ == old(self)@.pop().0,
            r@ == old(self)@.pop().1,
            final(self)@.deficit <= old(self)@.deficit + 1,
    {
        reveal(StackModel::pop);
        let ghost before = self@;
        match self.stack.pop() {
            Some(v) => {
                assert(self@.stack =~= before.stack.drop_last());
                assert(v@ == before.stack.last());
                v
            },
            None => {
                assert(before.stack.len() == 0);
                self.deficit += 1;
                assert(self@ == (StackModel { deficit: before.deficit + 1, ..before }));
                self.previous_pop(self.deficit)
            },
        }
    }

    /// Puts `value` on the stack, or into the caller's slot while a deficit
    /// is open.
    pub fn push(&mut self, value: StackValue)
        ensures
            final(self)@ == old(self)@.push(value@),
            final(self)@.deficit <= old(self)@.deficit,
    {
        let ghost before = self@;
        if self.deficit == 0 {
            self.stack.push(value);
            assert(self@.stack =~= before.stack.push(value@));
        } else {
            self.calee_edits.push((self.deficit, value));
            assert(self@.edits =~= before.edits.push((before.deficit, value@)));
            self.deficit -= 1;
        }
    }

    /// A copy of the value at `position` from the top, 1 for the top.
    pub fn clone_pos(&self, position: usize) -> (r: StackValue)
        ensures
            r@ == self@.peek(position as nat),
    {
        let len = self.stack.len();
        if 1 <= position && position <= len {
            self.stack[len - position].clone()
        } else if position == 0 {
            StackValue::StackPaceHolder(position)
        } else {
            match self.deficit.checked_add(position - len) {
                Some(depth) => self.previous_clone(depth),
                None => StackValue::StackPaceHolder(position),
            }
        }
    }

    /// Exchanges the top with the value `i` places below it.
    pub fn swap(&mut self, i: usize)
        requires
            old(self)@.deficit + i + 1 <= usize::MAX,
        ensures
            final(self)@ == old(self)@.swap(i as nat),
            final(self)@.deficit <= old(self)@.deficit + 1,
    {
        reveal(StackModel::pop);
        let ghost before = self@;
        if i < self.stack.len() {
            let top = self.stack.len() - 1;
            let upper = self.stack[top].clone();
            let lower = self.stack[top - i].clone();
            self.stack.set(top, lower);
            self.stack.set(top - i, upper);
            assert(self@.stack =~= before.stack.update(top as int, before.stack[top - i]).update(
                top - i,
                before.stack[top as int],
            ));
        } else {
            let upper = self.pop();
            assert(self@.stack.len() == self.stack.len());
            assert(self@.stack.len() <= before.stack.len());
            assert(self@.deficit <= before.deficit + 1);
            let depth = self.deficit + (i - self.stack.len());
            let lower = self.previous_pop(depth);
            self.push(lower);
            let ghost pushed = self@;
            self.calee_edits.push((depth, upper));
            assert(self@.edits =~= pushed.edits.push((depth as nat, upper@)));
        }
    }

    /// How many slots of the caller the block has consumed.
    pub fn deficit(&self) -> (r: usize)
        ensures
            r == self@.deficit,
    {
        self.deficit
    }

    /// How many values of its own the block holds.
    pub fn len(&self) -> (r: usize)
        ensures
            r == self@.stack.len(),
    {
        self.stack.len()
    }

    /// The block's own value at place `i`, the top last.
    pub fn value_at(&self, i: usize) -> (r: &StackValue)
        requires
            i < self@.stack.len(),
        ensures
            r@ == self@.stack[i as int],
    {
        &self.stack[i]
    }
}

} // verus!
