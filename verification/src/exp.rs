//! Set expressions: leaves that hold items, combined by union and
//! intersection.
//!
//! A set is kept as a vector in which, once reduced, nothing occurs twice.
//! Two items are the same item when their values are equal.
use crate::domain::{ArtRef, Op};
use vstd::prelude::*;

verus! {

/// What a type needs to be an item of a set: a test for equal values and a
/// way to make a copy.
pub trait Element: View + Sized {
    fn same(&self, other: &Self) -> (r: bool)
        ensures
            r == (self@ == other@),
    ;

    fn duplicate(&self) -> (r: Self)
        ensures
            r@ == self@,
    ;
}

impl Element for String {
    fn same(&self, other: &Self) -> (r: bool) {
        *self == *other
    }

    fn duplicate(&self) -> (r: Self) {
        self.clone()
    }
}

impl Element for ArtRef {
    fn same(&self, other: &Self) -> (r: bool) {
        ArtRef::same(self, other)
    }

    fn duplicate(&self) -> (r: Self) {
        ArtRef::duplicate(self)
    }
}

/// The set of the values that occur in `items`.
pub open spec fn members<A: View>(items: Seq<A>) -> Set<A::V> {
    Set::new(|v: A::V| exists|i: int| 0 <= i < items.len() && items[i]@ == v)
}

/// Whether no value occurs twice in `items`.
pub open spec fn distinct<A: View>(items: Seq<A>) -> bool {
    forall|i: int, j: int| 0 <= i < j < items.len() ==> items[i]@ != items[j]@
}

/// Pushing an item adds its value to the members.
pub proof fn lemma_members_push<A: View>(items: Seq<A>, x: A)
    ensures
        members(items.push(x)) == members(items).insert(x@),
{
    let more = items.push(x);
    assert forall|v: A::V| members(more).contains(v) <==> members(items).insert(x@).contains(
        v,
    ) by {
        if members(more).contains(v) {
            let k = choose|k: int| 0 <= k < more.len() && more[k]@ == v;
            if k < items.len() {
                assert(items[k]@ == v);
            }
        }
        if members(items).contains(v) {
            let k = choose|k: int| 0 <= k < items.len() && items[k]@ == v;
            assert(more[k]@ == v);
        }
        if v == x@ {
            assert(more[items.len() as int]@ == v);
        }
    }
    assert(members(more) =~= members(items).insert(x@));
}

/// One more item of a prefix adds that item's value to the prefix's members.
pub proof fn lemma_members_take<A: View>(items: Seq<A>, i: int)
    requires
        0 <= i < items.len(),
    ensures
        members(items.take(i + 1)) == members(items.take(i)).insert(items[i]@),
{
    assert(items.take(i + 1) =~= items.take(i).push(items[i]));
    lemma_members_push(items.take(i), items[i]);
}

/// Whether `items` holds an item with the value of `x`.
pub fn holds<A: Element>(items: &Vec<A>, x: &A) -> (r: bool)
    ensures
        r == members(items@).contains(x@),
{
    let mut i: usize = 0;
    while i < items.len()
        invariant
            i <= items.len(),
            forall|j: int| 0 <= j < i ==> items@[j]@ != x@,
        decreases items.len() - i,
    {
        if items[i].same(x) {
            return true;
        }
        i += 1;
    }
    false
}

/// Appends to `out` a copy of each item of `items` that `out` does not hold
/// yet.
fn add_new<A: Element>(out: &mut Vec<A>, items: &Vec<A>)
    requires
        distinct(old(out)@),
    ensures
        distinct(final(out)@),
        members(final(out)@) == members(old(out)@).union(members(items@)),
{
    let mut i: usize = 0;
    assert(members(items@.take(0)) =~= Set::<A::V>::empty());
    assert(members(out@) =~= members(old(out)@).union(members(items@.take(0))));
    while i < items.len()
        invariant
            i <= items.len(),
            distinct(out@),
            members(out@) == members(old(out)@).union(members(items@.take(i as int))),
        decreases items.len() - i,
    {
        let ghost before = out@;
        proof {
            lemma_members_take(items@, i as int);
        }
        if !holds(out, &items[i]) {
            let item = items[i].duplicate();
            out.push(item);
            proof {
                lemma_members_push(before, item);
            }
        }
        assert(members(out@) =~= members(old(out)@).union(members(items@.take(i + 1))));
        i += 1;
    }
    assert(items@.take(items@.len() as int) =~= items@);
}

/// The items of `x` that `y` holds too, once each.
fn common<A: Element>(x: &Vec<A>, y: &Vec<A>) -> (r: Vec<A>)
    ensures
        distinct(r@),
        members(r@) == members(x@).intersect(members(y@)),
{
    let mut out: Vec<A> = Vec::new();
    let mut i: usize = 0;
    assert(members(x@.take(0)) =~= Set::<A::V>::empty());
    assert(members(out@) =~= members(x@.take(0)).intersect(members(y@)));
    while i < x.len()
        invariant
            i <= x.len(),
            distinct(out@),
            members(out@) == members(x@.take(i as int)).intersect(members(y@)),
        decreases x.len() - i,
    {
        let ghost before = out@;
        proof {
            lemma_members_take(x@, i as int);
        }
        if holds(y, &x[i]) && !holds(&out, &x[i]) {
            let item = x[i].duplicate();
            out.push(item);
            proof {
                lemma_members_push(before, item);
            }
        }
        assert(members(out@) =~= members(x@.take(i + 1)).intersect(members(y@)));
        i += 1;
    }
    assert(x@.take(x@.len() as int) =~= x@);
    out
}

/// Whether every item of `x` has its value in `y`.
fn within<A: Element>(x: &Vec<A>, y: &Vec<A>) -> (r: bool)
    ensures
        r == members(x@).subset_of(members(y@)),
{
    let mut i: usize = 0;
    while i < x.len()
        invariant
            i <= x.len(),
            forall|j: int| 0 <= j < i ==> members(y@).contains(x@[j]@),
        decreases x.len() - i,
    {
        if !holds(y, &x[i]) {
            assert(members(x@).contains(x@[i as int]@));
            return false;
        }
        i += 1;
    }
    true
}

/// A set expression over items of type `A`.
#[derive(Debug)]
pub enum Exp<A: Element> {
    /// The set of the items listed; one listed twice counts once.
    Sing(Vec<A>),
    /// The union (`Or`) or the intersection (`And`) of two sets.
    Comb(Op, Box<Exp<A>>, Box<Exp<A>>),
}

impl<A: Element> Exp<A> {
    /// The set that the expression denotes.
    pub open spec fn value(&self) -> Set<A::V>
        decreases self,
    {
        match self {
            Exp::Sing(items) => members(items@),
            Exp::Comb(Op::Or, a, b) => a.value().union(b.value()),
            Exp::Comb(Op::And, a, b) => a.value().intersect(b.value()),
        }
    }

    /// The members of the set that the expression denotes, once each.
    pub fn reduce(&self) -> (r: Vec<A>)
        ensures
            distinct(r@),
            members(r@) == self.value(),
        decreases self,
    {
        match self {
            Exp::Sing(items) => {
                let mut out: Vec<A> = Vec::new();
                assert(members(out@) =~= Set::<A::V>::empty());
                add_new(&mut out, items);
                assert(members(out@) =~= members(items@));
                out
            },
            Exp::Comb(op, a, b) => {
                let x = a.reduce();
                let y = b.reduce();
                match op {
                    Op::Or => {
                        let mut out = x;
                        add_new(&mut out, &y);
                        out
                    },
                    Op::And => common(&x, &y),
                }
            },
        }
    }

    /// The members that the sets of `self` and `b` share, once each.
    pub fn inter(&self, b: &Exp<A>) -> (r: Vec<A>)
        ensures
            distinct(r@),
            members(r@) == self.value().intersect(b.value()),
    {
        let x = self.reduce();
        let y = b.reduce();
        common(&x, &y)
    }

    /// The members of the sets of `self` and `b` together, once each.
    pub fn union(&self, b: &Exp<A>) -> (r: Vec<A>)
        ensures
            distinct(r@),
            members(r@) == self.value().union(b.value()),
    {
        let mut out = self.reduce();
        let y = b.reduce();
        add_new(&mut out, &y);
        out
    }

    /// Whether two expressions denote the same set, whatever their shape.
    pub fn equivalent(&self, other: &Exp<A>) -> (r: bool)
        ensures
            r == (self.value() == other.value()),
    {
        let x = self.reduce();
        let y = other.reduce();
        let r = within(&x, &y) && within(&y, &x);
        assert(r ==> self.value() =~= other.value());
        r
    }
}

} // verus!
