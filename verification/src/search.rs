//! Boolean tag queries against the store.
use crate::domain::{refs, ArtRef, ArtRefView, Op};
use crate::exp::{distinct, members, Exp};
use crate::model::{bucket_of, IndexView};
use crate::storage::Store;
use vstd::prelude::*;

verus! {

/// A tag expression: one tag, or two expressions combined.
#[derive(Debug)]
pub enum Query {
    Sing(String),
    Comb(Op, Box<Query>, Box<Query>),
}

impl Query {
    /// The references that match the query in `index`: those in the bucket
    /// of a single tag (none where the tag has no bucket), the union for
    /// `Or`, the intersection for `And`.
    pub open spec fn result(&self, index: IndexView) -> Set<ArtRefView>
        decreases self,
    {
        match self {
            Query::Sing(tag) => bucket_of(index.by_tag, tag@).to_set(),
            Query::Comb(Op::Or, a, b) => a.result(index).union(b.result(index)),
            Query::Comb(Op::And, a, b) => a.result(index).intersect(b.result(index)),
        }
    }
}

/// The values of a vector of references, as a set.
pub proof fn lemma_members_of_refs(arts: Seq<ArtRef>)
    ensures
        members(arts) == refs(arts).to_set(),
{
    assert forall|v: ArtRefView| members(arts).contains(v) <==> refs(arts).to_set().contains(
        v,
    ) by {
        if members(arts).contains(v) {
            let k = choose|k: int| 0 <= k < arts.len() && arts[k]@ == v;
            assert(refs(arts)[k] == v);
        }
        if refs(arts).contains(v) {
            let k = choose|k: int| 0 <= k < refs(arts).len() && refs(arts)[k] == v;
            assert(arts[k]@ == v);
        }
    }
    assert(members(arts) =~= refs(arts).to_set());
}

/// The set expression that `q` stands for over the current buckets of `s`.
fn new_exp(s: &Store, q: &Query) -> (e: Exp<ArtRef>)
    ensures
        e.value() == q.result(s@),
    decreases q,
{
    match q {
        Query::Sing(tag) => {
            let found = match s.get_by_tag(tag) {
                Some(bucket) => bucket,
                None => Vec::new(),
            };
            proof {
                lemma_members_of_refs(found@);
                assert(refs(found@) =~= bucket_of(s@.by_tag, tag@));
            }
            Exp::Sing(found)
        },
        Query::Comb(op, q1, q2) => Exp::Comb(
            *op,
            Box::new(new_exp(s, q1)),
            Box::new(new_exp(s, q2)),
        ),
    }
}

/// The references that match `q` in `s`, once each, in no particular order.
pub fn search_by_tag(q: &Query, s: &Store) -> (r: Vec<ArtRef>)
    ensures
        distinct(r@),
        members(r@) == q.result(s@),
{
    new_exp(s, q).reduce()
}

/// A query `a Or b` matches what `a` matches together with what `b` matches.
pub proof fn lemma_or_is_union(a: Query, b: Query, index: IndexView)
    ensures
        Query::Comb(Op::Or, Box::new(a), Box::new(b)).result(index) == a.result(index).union(
            b.result(index),
        ),
{
}

/// A query `a And b` matches what both `a` and `b` match.
pub proof fn lemma_and_is_intersection(a: Query, b: Query, index: IndexView)
    ensures
        Query::Comb(Op::And, Box::new(a), Box::new(b)).result(index) == a.result(
            index,
        ).intersect(b.result(index)),
{
}

/// The two sides of a combination can change places: the result is the same.
pub proof fn lemma_comb_commutes(op: Op, a: Query, b: Query, index: IndexView)
    ensures
        Query::Comb(op, Box::new(a), Box::new(b)).result(index) == Query::Comb(
            op,
            Box::new(b),
            Box::new(a),
        ).result(index),
{
    let ab = Query::Comb(op, Box::new(a), Box::new(b)).result(index);
    let ba = Query::Comb(op, Box::new(b), Box::new(a)).result(index);
    assert(ab =~= ba);
}

/// Combinations by one operator can be nested either way: the result is the
/// same.
pub proof fn lemma_comb_associates(op: Op, a: Query, b: Query, c: Query, index: IndexView)
    ensures
        Query::Comb(
            op,
            Box::new(Query::Comb(op, Box::new(a), Box::new(b))),
            Box::new(c),
        ).result(index) == Query::Comb(
            op,
            Box::new(a),
            Box::new(Query::Comb(op, Box::new(b), Box::new(c))),
        ).result(index),
{
    let ab = Query::Comb(op, Box::new(a), Box::new(b));
    let bc = Query::Comb(op, Box::new(b), Box::new(c));
    let left = Query::Comb(op, Box::new(ab), Box::new(c)).result(index);
    let right = Query::Comb(op, Box::new(a), Box::new(bc)).result(index);
    match op {
        Op::Or => {
            assert(ab.result(index) == a.result(index).union(b.result(index)));
            assert(bc.result(index) == b.result(index).union(c.result(index)));
        },
        Op::And => {
            assert(ab.result(index) == a.result(index).intersect(b.result(index)));
            assert(bc.result(index) == b.result(index).intersect(c.result(index)));
        },
    }
    assert(left =~= right);
}

} // verus!
