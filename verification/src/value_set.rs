//! Finite sets of symbolic data, kept in the order of first insertion.

use vstd::prelude::*;
use crate::evm_types::StackValue;

verus! {

/// Data that has a mathematical model, can be compared by it and copied.
pub trait Symbolic: View + Sized {
    /// Whether the two have the same model.
    fn same_as(&self, other: &Self) -> (r: bool)
        ensures
            r == (self@ == other@),
    ;

    /// A copy with the same model.
    fn duplicate(&self) -> (r: Self)
        ensures
            r@ == self@,
    ;
}

impl Symbolic for StackValue {
    fn same_as(&self, other: &Self) -> (r: bool) {
        self.same(other)
    }

    fn duplicate(&self) -> (r: Self) {
        self.clone()
    }
}

impl Symbolic for (StackValue, StackValue) {
    fn same_as(&self, other: &Self) -> (r: bool) {
        self.0.same(&other.0) && self.1.same(&other.1)
    }

    fn duplicate(&self) -> (r: Self) {
        (self.0.clone(), self.1.clone())
    }
}

/// The models of a list of items, in order.
pub open spec fn models<T: View>(items: Seq<T>) -> Seq<T::V> {
    Seq::new(items.len(), |i: int| items[i]@)
}

/// A set of items, no two with the same model, in the order in which they
/// were first inserted.
#[derive(Debug)]
pub struct ValueSet<T: Symbolic> {
    items: Vec<T>,
}

impl<T: Symbolic> View for ValueSet<T> {
    type V = Set<T::V>;

    closed spec fn view(&self) -> Set<T::V> {
        models(self.items@).to_set()
    }
}

impl<T: Symbolic> ValueSet<T> {
    #[verifier::type_invariant]
    spec fn distinct(&self) -> bool {
        models(self.items@).no_duplicates()
    }

    /// The models of the members, in the order of first insertion.
    pub closed spec fn order(&self) -> Seq<T::V> {
        models(self.items@)
    }

    /// A set holds finitely many members.
    pub proof fn lemma_finite(&self)
        ensures
            self@.finite(),
    {
        vstd::seq_lib::seq_to_set_is_finite(models(self.items@));
    }

    pub fn new() -> (r: Self)
        ensures
            r@ == Set::<T::V>::empty(),
            r.order() == Seq::<T::V>::empty(),
    {
        let r = ValueSet { items: Vec::new() };
        assert(models(r.items@) =~= Seq::<T::V>::empty());
        assert(r@ =~= Set::<T::V>::empty());
        r
    }

    /// The number of members.
    pub fn len(&self) -> (r: usize)
        ensures
            r == self.order().len(),
            r == self@.len(),
            self@.finite(),
            self.order().no_duplicates(),
            self.order().to_set() == self@,
    {
        proof {
            use_type_invariant(self);
            self.order().unique_seq_to_set();
        }
        self.items.len()
    }

    /// The member at a place of the order.
    pub fn get(&self, i: usize) -> (r: &T)
        requires
            i < self.order().len(),
        ensures
            r@ == self.order()[i as int],
            self@.contains(r@),
    {
        assert(models(self.items@)[i as int] == self.items@[i as int]@);
        &self.items[i]
    }

    /// Whether an item with the model of `x` is a member.
    pub fn contains(&self, x: &T) -> (r: bool)
        ensures
            r == self@.contains(x@),
    {
        let mut i: usize = 0;
        while i < self.items.len()
            invariant
                i <= self.items.len(),
                forall|j: int| 0 <= j < i ==> models(self.items@)[j] != x@,
            decreases self.items.len() - i,
        {
            if self.items[i].same_as(x) {
                assert(models(self.items@)[i as int] == x@);
                return true;
            }
            i += 1;
        }
        false
    }

    /// Adds `x` unless an item with its model is a member already; says
    /// whether it was added.
    pub fn insert(&mut self, x: T) -> (added: bool)
        ensures
            final(self)@ == old(self)@.insert(x@),
            added == !old(self)@.contains(x@),
            final(self).order() == (if added {
                old(self).order().push(x@)
            } else {
                old(self).order()
            }),
    {
        proof {
            use_type_invariant(&*self);
        }
        if self.contains(&x) {
            assert(self@.insert(x@) =~= self@);
            false
        } else {
            let ghost before = models(self.items@);
            let mut taken = ValueSet { items: Vec::new() };
            assert(models(taken.items@) =~= Seq::<T::V>::empty());
            std::mem::swap(self, &mut taken);
            let ValueSet { items } = taken;
            let mut items = items;
            items.push(x);
            assert(models(items@) =~= before.push(x@));
            *self = ValueSet { items };
            proof {
                before.lemma_push_to_set_commute(x@);
            }
            true
        }
    }

    /// Adds every member of `other`.
    pub fn extend(&mut self, other: &ValueSet<T>)
        ensures
            final(self)@ == old(self)@.union(other@),
    {
        let mut i: usize = 0;
        let n = other.len();
        while i < n
            invariant
                i <= n,
                n == other.order().len(),
                self@ == old(self)@.union(other.order().take(i as int).to_set()),
            decreases n - i,
        {
            let item = other.get(i).duplicate();
            self.insert(item);
            proof {
                let s = other.order();
                assert(s.take(i + 1) =~= s.take(i as int).push(s[i as int]));
                s.take(i as int).lemma_push_to_set_commute(s[i as int]);
                assert(self@ =~= old(self)@.union(s.take(i + 1).to_set()));
            }
            i += 1;
        }
        proof {
            assert(other.order().take(n as int) =~= other.order());
        }
    }

    /// Removes every member.
    pub fn clear(&mut self)
        ensures
            final(self)@ == Set::<T::V>::empty(),
            final(self).order() == Seq::<T::V>::empty(),
    {
        let empty = ValueSet { items: Vec::new() };
        assert(models(empty.items@) =~= Seq::<T::V>::empty());
        *self = empty;
        assert(self@ =~= Set::<T::V>::empty());
    }

    /// A copy with the same members in the same order.
    pub fn duplicate(&self) -> (r: Self)
        ensures
            r@ == self@,
            r.order() == self.order(),
    {
        proof {
            use_type_invariant(self);
        }
        let mut items: Vec<T> = Vec::new();
        let mut i: usize = 0;
        while i < self.items.len()
            invariant
                i <= self.items.len(),
                models(items@) == models(self.items@).take(i as int),
            decreases self.items.len() - i,
        {
            let item = self.items[i].duplicate();
            let ghost before = models(items@);
            items.push(item);
            assert(models(items@) =~= before.push(item@));
            assert(models(self.items@).take(i + 1) =~= before.push(item@));
            i += 1;
        }
        assert(models(self.items@).take(self.items.len() as int) =~= models(self.items@));
        ValueSet { items }
    }
}

} // verus!
