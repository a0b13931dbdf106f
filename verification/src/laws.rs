//! What holds of the index whatever is done to it.
//!
//! The first part is about single buckets and about one edit carried out on
//! the buckets of several tags. The second part states the invariant of the
//! index and proves that every mutation keeps it. The third part holds the
//! laws of the single mutations, of sequences of them, and of queries.
use crate::domain::{ArtRefView, MetadataEventView, TaggedArticleView};
use crate::model::{
    bucket_of, edit, edit_bucket, edit_each, has_path, holds_once, no_path, one_per_path, pruned,
    retitled, selected, settled, tags_of, without, IndexView, TagEdit,
};
use crate::pipeline::{article_of, processed};
use vstd::prelude::*;

verus! {

/// Taking a path out of an empty bucket leaves it empty.
pub proof fn lemma_without_empty(path: Seq<char>)
    ensures
        without(Seq::empty(), path) == Seq::<ArtRefView>::empty(),
{
    reveal(Seq::filter);
}

/// Taking a path out of a bucket with one more reference.
pub proof fn lemma_without_push(bucket: Seq<ArtRefView>, art: ArtRefView, path: Seq<char>)
    ensures
        without(bucket.push(art), path) == if art.path == path {
            without(bucket, path)
        } else {
            without(bucket, path).push(art)
        },
{
    reveal(Seq::filter);
    assert(bucket.push(art).drop_last() =~= bucket);
}

/// What is left without a path is what was there with another path.
pub proof fn lemma_without_members(bucket: Seq<ArtRefView>, path: Seq<char>)
    ensures
        no_path(without(bucket, path), path),
        forall|i: int|
            0 <= i < without(bucket, path).len() ==> bucket.contains(
                #[trigger] without(bucket, path)[i],
            ),
        forall|i: int|
            0 <= i < bucket.len() && bucket[i].path != path ==> without(bucket, path).contains(
                #[trigger] bucket[i],
            ),
        without(bucket, path).len() <= bucket.len(),
    decreases bucket.len(),
{
    if bucket.len() == 0 {
        lemma_without_empty(path);
        assert(bucket =~= Seq::empty());
    } else {
        let init = bucket.drop_last();
        let last = bucket.last();
        lemma_without_members(init, path);
        lemma_without_push(init, last, path);
        assert(bucket =~= init.push(last));
        let out = without(bucket, path);
        let sub = without(init, path);
        assert forall|i: int| 0 <= i < out.len() implies bucket.contains(#[trigger] out[i]) by {
            if i < sub.len() {
                assert(out[i] == sub[i]);
                assert(init.contains(sub[i]));
                let j = choose|j: int| 0 <= j < init.len() && init[j] == sub[i];
                assert(bucket[j] == out[i]);
            } else {
                assert(bucket[bucket.len() - 1] == out[i]);
            }
        }
        assert forall|i: int| 0 <= i < bucket.len() && bucket[i].path != path implies out.contains(
            #[trigger] bucket[i],
        ) by {
            if i < init.len() {
                assert(init[i] == bucket[i]);
                assert(sub.contains(init[i]));
                let k = choose|k: int| 0 <= k < sub.len() && sub[k] == init[i];
                assert(out[k] == bucket[i]);
            } else {
                assert(out[out.len() - 1] == bucket[i]);
            }
        }
    }
}

/// Taking a path out keeps the paths that remain apart.
pub proof fn lemma_without_one_per_path(bucket: Seq<ArtRefView>, path: Seq<char>)
    requires
        one_per_path(bucket),
    ensures
        one_per_path(without(bucket, path)),
    decreases bucket.len(),
{
    if bucket.len() == 0 {
        lemma_without_empty(path);
        assert(bucket =~= Seq::empty());
    } else {
        let init = bucket.drop_last();
        let last = bucket.last();
        assert forall|i: int, j: int| 0 <= i < j < init.len() implies init[i].path
            != init[j].path by {
            assert(bucket[i].path != bucket[j].path);
        }
        lemma_without_one_per_path(init, path);
        lemma_without_push(init, last, path);
        lemma_without_members(init, path);
        assert(bucket =~= init.push(last));
        let rest = without(init, path);
        if last.path != path {
            assert forall|i: int| 0 <= i < rest.len() implies rest[i].path != last.path by {
                assert(init.contains(rest[i]));
                let j = choose|j: int| 0 <= j < init.len() && init[j] == rest[i];
                assert(bucket[j] == rest[i]);
                assert(bucket[j].path != bucket[bucket.len() - 1].path);
            }
        }
    }
}

/// One edit changes the bucket of its tag as `edit_bucket` says and no other
/// bucket, and leaves no bucket empty.
pub proof fn lemma_edit(
    by_tag: Map<Seq<char>, Seq<ArtRefView>>,
    tag: Seq<char>,
    e: TagEdit,
    other: Seq<char>,
)
    requires
        pruned(by_tag),
    ensures
        pruned(edit(by_tag, tag, e)),
        bucket_of(edit(by_tag, tag, e), other) == if other == tag {
            edit_bucket(bucket_of(by_tag, tag), e)
        } else {
            bucket_of(by_tag, other)
        },
{
    match e {
        TagEdit::Append(art) => {},
        TagEdit::Drop(path) => {
            lemma_without_empty(path);
            if by_tag.contains_key(tag) && without(by_tag[tag], path).len() == 0 {
                assert(without(by_tag[tag], path) =~= Seq::empty());
            }
        },
        TagEdit::Front(path, art) => {},
        TagEdit::Retitle(art) => {
            assert(retitled(Seq::empty(), art) =~= Seq::<ArtRefView>::empty());
        },
    }
}

/// An edit of several tags leaves no bucket empty, and leaves the bucket of
/// any other tag as it was.
pub proof fn lemma_edit_each_frame(
    by_tag: Map<Seq<char>, Seq<ArtRefView>>,
    tags: Seq<Seq<char>>,
    e: TagEdit,
    other: Seq<char>,
)
    requires
        pruned(by_tag),
    ensures
        pruned(edit_each(by_tag, tags, e)),
        !tags.contains(other) ==> bucket_of(edit_each(by_tag, tags, e), other) == bucket_of(
            by_tag,
            other,
        ),
    decreases tags.len(),
{
    if tags.len() > 0 {
        lemma_edit_each_frame(by_tag, tags.drop_last(), e, other);
        lemma_edit(edit_each(by_tag, tags.drop_last(), e), tags.last(), e, other);
        if !tags.contains(other) {
            assert(tags[tags.len() - 1] != other);
            assert forall|i: int| 0 <= i < tags.drop_last().len() implies tags.drop_last()[i]
                != other by {
                assert(tags[i] != other);
            }
        }
    }
}

/// What every edit keeps of a bucket, an edit of several tags keeps of every
/// bucket.
pub proof fn lemma_edit_each_keeps(
    by_tag: Map<Seq<char>, Seq<ArtRefView>>,
    tags: Seq<Seq<char>>,
    e: TagEdit,
    kept: spec_fn(Seq<ArtRefView>) -> bool,
    tag: Seq<char>,
)
    requires
        pruned(by_tag),
        kept(bucket_of(by_tag, tag)),
        forall|b: Seq<ArtRefView>| #[trigger] kept(b) ==> kept(edit_bucket(b, e)),
    ensures
        kept(bucket_of(edit_each(by_tag, tags, e), tag)),
    decreases tags.len(),
{
    if tags.len() > 0 {
        lemma_edit_each_keeps(by_tag, tags.drop_last(), e, kept, tag);
        lemma_edit_each_frame(by_tag, tags.drop_last(), e, tag);
        lemma_edit(edit_each(by_tag, tags.drop_last(), e), tags.last(), e, tag);
    }
}

/// What every edit makes of a bucket, an edit of several tags makes of the
/// bucket of each of them.
pub proof fn lemma_edit_each_makes(
    by_tag: Map<Seq<char>, Seq<ArtRefView>>,
    tags: Seq<Seq<char>>,
    e: TagEdit,
    made: spec_fn(Seq<ArtRefView>) -> bool,
    tag: Seq<char>,
)
    requires
        pruned(by_tag),
        tags.contains(tag),
        forall|b: Seq<ArtRefView>| #[trigger] made(edit_bucket(b, e)),
    ensures
        made(bucket_of(edit_each(by_tag, tags, e), tag)),
    decreases tags.len(),
{
    let init = tags.drop_last();
    lemma_edit_each_frame(by_tag, init, e, tag);
    lemma_edit(edit_each(by_tag, init, e), tags.last(), e, tag);
    if tags.last() != tag {
        let k = choose|k: int| 0 <= k < tags.len() && tags[k] == tag;
        assert(init[k] == tag);
        lemma_edit_each_makes(by_tag, init, e, made, tag);
    }
}

/// An edit of several tags, none of them listed twice, edits the bucket of
/// each of them once.
pub proof fn lemma_edit_each_once(
    by_tag: Map<Seq<char>, Seq<ArtRefView>>,
    tags: Seq<Seq<char>>,
    e: TagEdit,
    tag: Seq<char>,
)
    requires
        pruned(by_tag),
        tags.no_duplicates(),
        tags.contains(tag),
    ensures
        bucket_of(edit_each(by_tag, tags, e), tag) == edit_bucket(bucket_of(by_tag, tag), e),
    decreases tags.len(),
{
    let init = tags.drop_last();
    lemma_edit_each_frame(by_tag, init, e, tag);
    lemma_edit(edit_each(by_tag, init, e), tags.last(), e, tag);
    if tags.last() != tag {
        let k = choose|k: int| 0 <= k < tags.len() && tags[k] == tag;
        assert(init[k] == tag);
        lemma_edit_each_once(by_tag, init, e, tag);
    } else {
        assert forall|i: int| 0 <= i < init.len() implies init[i] != tag by {
            assert(tags[i] != tags[tags.len() - 1]);
        }
    }
}

/// An edit of several tags, none of them listed twice, edits the bucket of
/// each of them once and no other bucket, and leaves no bucket empty.
pub proof fn lemma_edit_each_bulk(
    by_tag: Map<Seq<char>, Seq<ArtRefView>>,
    tags: Seq<Seq<char>>,
    e: TagEdit,
)
    requires
        pruned(by_tag),
        tags.no_duplicates(),
    ensures
        pruned(edit_each(by_tag, tags, e)),
        forall|u: Seq<char>| #[trigger]
            bucket_of(edit_each(by_tag, tags, e), u) == if tags.contains(u) {
                edit_bucket(bucket_of(by_tag, u), e)
            } else {
                bucket_of(by_tag, u)
            },
{
    lemma_edit_each_frame(by_tag, tags, e, Seq::empty());
    assert forall|u: Seq<char>| #[trigger]
        bucket_of(edit_each(by_tag, tags, e), u) == if tags.contains(u) {
            edit_bucket(bucket_of(by_tag, u), e)
        } else {
            bucket_of(by_tag, u)
        } by {
        lemma_edit_each_frame(by_tag, tags, e, u);
        if tags.contains(u) {
            lemma_edit_each_once(by_tag, tags, e, u);
        }
    }
}

/// The index that holds nothing is consistent.
pub proof fn lemma_empty_consistent()
    ensures
        IndexView::empty().consistent(),
{
}

/// In a consistent index, the bucket of each tag of an article holds the
/// article's reference, and no other reference with its path.
pub proof fn lemma_consistent_holds_once(s: IndexView, path: Seq<char>, tag: Seq<char>)
    requires
        s.consistent(),
        s.carries(path, tag),
    ensures
        s.by_tag.contains_key(tag),
        holds_once(s.by_tag[tag], s.by_path[path].art),
{
    let b = bucket_of(s.by_tag, tag);
    assert(has_path(b, path));
    let i = choose|i: int| 0 <= i < b.len() && b[i].path == path;
    assert(s.backs(tag, b[i]));
    assert(one_per_path(b));
    assert forall|j: int| 0 <= j < b.len() && j != i implies b[j].path != path by {
        if j < i {
            assert(b[j].path != b[i].path);
        } else {
            assert(b[i].path != b[j].path);
        }
    }
}

/// A consistent index stays consistent when an article is inserted whose
/// path is not indexed and which lists no tag twice.
pub proof fn lemma_insert_consistent(s: IndexView, a: TaggedArticleView)
    requires
        s.consistent(),
        !s.by_path.contains_key(a.art.path),
        a.tags.no_duplicates(),
    ensures
        s.insert(a).consistent(),
{
    let n = s.insert(a);
    let p = a.art.path;
    lemma_edit_each_bulk(s.by_tag, a.tags, TagEdit::Append(a.art));
    assert forall|t: Seq<char>, i: int| 0 <= i < bucket_of(n.by_tag, t).len() implies n.backs(
        t,
        #[trigger] bucket_of(n.by_tag, t)[i],
    ) by {
        let b = bucket_of(s.by_tag, t);
        if i < b.len() {
            assert(s.backs(t, b[i]));
        }
    }
    assert forall|q: Seq<char>, t: Seq<char>| #[trigger] n.carries(q, t) implies has_path(
        bucket_of(n.by_tag, t),
        q,
    ) by {
        let b = bucket_of(s.by_tag, t);
        let nb = bucket_of(n.by_tag, t);
        if q == p {
            assert(nb[nb.len() - 1].path == q);
        } else {
            assert(s.carries(q, t));
            let i = choose|i: int| 0 <= i < b.len() && b[i].path == q;
            assert(nb[i].path == q);
        }
    }
    assert forall|t: Seq<char>| one_per_path(#[trigger] bucket_of(n.by_tag, t)) by {
        let b = bucket_of(s.by_tag, t);
        let nb = bucket_of(n.by_tag, t);
        assert(one_per_path(b));
        assert forall|i: int, j: int| 0 <= i < j < nb.len() implies nb[i].path
            != nb[j].path by {
            assert(s.backs(t, b[i]));
            if j < b.len() {
                assert(b[i].path != b[j].path);
            }
        }
    }
}

/// A consistent index stays consistent when an article is removed.
pub proof fn lemma_remove_consistent(s: IndexView, path: Seq<char>)
    requires
        s.consistent(),
    ensures
        s.remove(path).consistent(),
{
    if s.by_path.contains_key(path) {
        let n = s.remove(path);
        let a = s.by_path[path];
        lemma_edit_each_bulk(s.by_tag, a.tags, TagEdit::Drop(path));
        assert forall|t: Seq<char>, i: int| 0 <= i < bucket_of(n.by_tag, t).len() implies n.backs(
            t,
            #[trigger] bucket_of(n.by_tag, t)[i],
        ) by {
            let b = bucket_of(s.by_tag, t);
            let nb = bucket_of(n.by_tag, t);
            lemma_without_members(b, path);
            assert(b.contains(nb[i]));
            let j = choose|j: int| 0 <= j < b.len() && b[j] == nb[i];
            assert(s.backs(t, b[j]));
        }
        assert forall|q: Seq<char>, t: Seq<char>| #[trigger] n.carries(q, t) implies has_path(
            bucket_of(n.by_tag, t),
            q,
        ) by {
            let b = bucket_of(s.by_tag, t);
            let nb = bucket_of(n.by_tag, t);
            assert(s.carries(q, t));
            let i = choose|i: int| 0 <= i < b.len() && b[i].path == q;
            lemma_without_members(b, path);
            assert(nb.contains(b[i]));
            let k = choose|k: int| 0 <= k < nb.len() && nb[k] == b[i];
            assert(nb[k].path == q);
        }
        assert forall|t: Seq<char>| one_per_path(#[trigger] bucket_of(n.by_tag, t)) by {
            let b = bucket_of(s.by_tag, t);
            assert(one_per_path(b));
            lemma_without_one_per_path(b, path);
        }
    }
}

/// A consistent index stays consistent when an article moves to a path that
/// is not indexed, or stays where it is.
pub proof fn lemma_update_path_consistent(s: IndexView, src: Seq<char>, dst: Seq<char>)
    requires
        s.consistent(),
        dst == src || !s.by_path.contains_key(dst),
    ensures
        s.update_path(src, dst).consistent(),
{
    if s.by_path.contains_key(src) {
        let n = s.update_path(src, dst);
        let a = s.by_path[src];
        let moved = s.relocated(src, dst);
        lemma_edit_each_bulk(s.by_tag, a.tags, TagEdit::Front(src, moved.art));
        assert forall|q: Seq<char>| n.by_path.contains_key(q) implies (#[trigger] n.by_path[q]).art.path
            == q && n.by_path[q].tags.no_duplicates() by {
            if q != dst {
                assert(s.by_path.contains_key(q));
            }
        }
        assert forall|t: Seq<char>, i: int| 0 <= i < bucket_of(n.by_tag, t).len() implies n.backs(
            t,
            #[trigger] bucket_of(n.by_tag, t)[i],
        ) by {
            let b = bucket_of(s.by_tag, t);
            let nb = bucket_of(n.by_tag, t);
            lemma_without_members(b, src);
            if a.tags.contains(t) && b.len() > 0 {
                if i > 0 {
                    assert(nb[i] == without(b, src)[i - 1]);
                    assert(b.contains(nb[i]));
                    let j = choose|j: int| 0 <= j < b.len() && b[j] == nb[i];
                    assert(s.backs(t, b[j]));
                }
            } else {
                assert(s.backs(t, b[i]));
            }
        }
        assert forall|q: Seq<char>, t: Seq<char>| #[trigger] n.carries(q, t) implies has_path(
            bucket_of(n.by_tag, t),
            q,
        ) by {
            let b = bucket_of(s.by_tag, t);
            let nb = bucket_of(n.by_tag, t);
            lemma_without_members(b, src);
            if q == dst {
                assert(s.carries(src, t));
                assert(has_path(b, src));
                assert(nb[0].path == q);
            } else {
                assert(s.carries(q, t));
                let i = choose|i: int| 0 <= i < b.len() && b[i].path == q;
                if a.tags.contains(t) {
                    assert(without(b, src).contains(b[i]));
                    let k = choose|k: int|
                        0 <= k < without(b, src).len() && without(b, src)[k] == b[i];
                    assert(nb[k + 1].path == q);
                } else {
                    assert(nb[i].path == q);
                }
            }
        }
        assert forall|t: Seq<char>| one_per_path(#[trigger] bucket_of(n.by_tag, t)) by {
            let b = bucket_of(s.by_tag, t);
            let nb = bucket_of(n.by_tag, t);
            assert(one_per_path(b));
            lemma_without_one_per_path(b, src);
            lemma_without_members(b, src);
            if a.tags.contains(t) && b.len() > 0 {
                let rest = without(b, src);
                assert forall|i: int, j: int| 0 <= i < j < nb.len() implies nb[i].path
                    != nb[j].path by {
                    assert(nb[j] == rest[j - 1]);
                    if i == 0 {
                        assert(b.contains(rest[j - 1]));
                        let k = choose|k: int| 0 <= k < b.len() && b[k] == rest[j - 1];
                        assert(s.backs(t, b[k]));
                    } else {
                        assert(nb[i] == rest[i - 1]);
                        assert(rest[i - 1].path != rest[j - 1].path);
                    }
                }
            }
        }
    }
}

/// Which tags a selection holds, and that it lists none twice if the list
/// it selects from lists none twice.
pub proof fn lemma_selected(tags: Seq<Seq<char>>, other: Seq<Seq<char>>, present: bool)
    ensures
        forall|t: Seq<char>|
            #[trigger] selected(tags, other, present).contains(t) <==> tags.contains(t) && (
            other.contains(t) == present),
        tags.no_duplicates() ==> selected(tags, other, present).no_duplicates(),
    decreases tags.len(),
{
    reveal(Seq::filter);
    let out = selected(tags, other, present);
    if tags.len() == 0 {
        assert(out =~= Seq::empty());
    } else {
        let init = tags.drop_last();
        let last = tags.last();
        let sub = selected(init, other, present);
        lemma_selected(init, other, present);
        assert forall|t: Seq<char>| #[trigger] out.contains(t) <==> tags.contains(t) && (
        other.contains(t) == present) by {
            if out.contains(t) {
                let k = choose|k: int| 0 <= k < out.len() && out[k] == t;
                if k < sub.len() {
                    assert(sub[k] == t);
                    assert(sub.contains(t));
                    let j = choose|j: int| 0 <= j < init.len() && init[j] == t;
                    assert(tags[j] == t);
                } else {
                    assert(tags[tags.len() - 1] == t);
                }
            }
            if tags.contains(t) && other.contains(t) == present {
                let j = choose|j: int| 0 <= j < tags.len() && tags[j] == t;
                if j < init.len() {
                    assert(init[j] == t);
                    assert(init.contains(t));
                    assert(sub.contains(t));
                    let k = choose|k: int| 0 <= k < sub.len() && sub[k] == t;
                    assert(out[k] == t);
                } else {
                    assert(out[out.len() - 1] == t);
                }
            }
        }
        if tags.no_duplicates() {
            assert(init.no_duplicates());
            if other.contains(last) == present {
                assert forall|i: int| 0 <= i < sub.len() implies sub[i] != last by {
                    assert(sub.contains(sub[i]));
                    let j = choose|j: int| 0 <= j < init.len() && init[j] == sub[i];
                    assert(tags[j] != tags[tags.len() - 1]);
                }
            }
        }
    }
}

/// What a change of an indexed article makes of each bucket: the reference is
/// refreshed under a tag that the article keeps, appended under one that it
/// gains, taken out under one that it loses.
pub proof fn lemma_update_meta_buckets(s: IndexView, a: TaggedArticleView)
    requires
        s.consistent(),
        s.by_path.contains_key(a.art.path),
        a.tags.no_duplicates(),
    ensures
        pruned(s.update_meta(a).by_tag),
        forall|u: Seq<char>| #[trigger]
            bucket_of(s.update_meta(a).by_tag, u) == if a.tags.contains(u) {
                if s.by_path[a.art.path].tags.contains(u) {
                    retitled(bucket_of(s.by_tag, u), a.art)
                } else {
                    bucket_of(s.by_tag, u).push(a.art)
                }
            } else if s.by_path[a.art.path].tags.contains(u) {
                without(bucket_of(s.by_tag, u), a.art.path)
            } else {
                bucket_of(s.by_tag, u)
            },
{
    let was = s.by_path[a.art.path];
    let common = selected(a.tags, was.tags, true);
    let lost = selected(was.tags, a.tags, false);
    let gained = selected(a.tags, was.tags, false);
    lemma_selected(a.tags, was.tags, true);
    lemma_selected(was.tags, a.tags, false);
    lemma_selected(a.tags, was.tags, false);
    let kept = edit_each(s.by_tag, common, TagEdit::Retitle(a.art));
    lemma_edit_each_bulk(s.by_tag, common, TagEdit::Retitle(a.art));
    let dropped = edit_each(kept, lost, TagEdit::Drop(a.art.path));
    lemma_edit_each_bulk(kept, lost, TagEdit::Drop(a.art.path));
    lemma_edit_each_bulk(dropped, gained, TagEdit::Append(a.art));
    assert forall|u: Seq<char>| #[trigger]
        bucket_of(s.update_meta(a).by_tag, u) == if a.tags.contains(u) {
            if was.tags.contains(u) {
                retitled(bucket_of(s.by_tag, u), a.art)
            } else {
                bucket_of(s.by_tag, u).push(a.art)
            }
        } else if was.tags.contains(u) {
            without(bucket_of(s.by_tag, u), a.art.path)
        } else {
            bucket_of(s.by_tag, u)
        } by {
        assert(common.contains(u) <==> a.tags.contains(u) && was.tags.contains(u));
        assert(lost.contains(u) <==> was.tags.contains(u) && !a.tags.contains(u));
        assert(gained.contains(u) <==> a.tags.contains(u) && !was.tags.contains(u));
        assert(bucket_of(kept, u) == if common.contains(u) {
            retitled(bucket_of(s.by_tag, u), a.art)
        } else {
            bucket_of(s.by_tag, u)
        });
        assert(bucket_of(dropped, u) == if lost.contains(u) {
            without(bucket_of(kept, u), a.art.path)
        } else {
            bucket_of(kept, u)
        });
    }
}

/// A consistent index stays consistent when an article changes to a title
/// and to tags of which none is listed twice.
pub proof fn lemma_update_meta_consistent(s: IndexView, a: TaggedArticleView)
    requires
        s.consistent(),
        a.tags.no_duplicates(),
    ensures
        s.update_meta(a).consistent(),
{
    let p = a.art.path;
    if s.by_path.contains_key(p) {
        let n = s.update_meta(a);
        let was = s.by_path[p];
        lemma_update_meta_buckets(s, a);
        assert forall|q: Seq<char>| n.by_path.contains_key(q) implies (#[trigger] n.by_path[q]).art.path
            == q && n.by_path[q].tags.no_duplicates() by {
            if q != p {
                assert(s.by_path.contains_key(q));
            }
        }
        assert forall|t: Seq<char>, i: int| 0 <= i < bucket_of(n.by_tag, t).len() implies n.backs(
            t,
            #[trigger] bucket_of(n.by_tag, t)[i],
        ) by {
            let b = bucket_of(s.by_tag, t);
            let nb = bucket_of(n.by_tag, t);
            lemma_without_members(b, p);
            if a.tags.contains(t) {
                if was.tags.contains(t) {
                    assert(s.backs(t, b[i]));
                } else if i < b.len() {
                    assert(s.backs(t, b[i]));
                }
            } else if was.tags.contains(t) {
                assert(b.contains(nb[i]));
                let j = choose|j: int| 0 <= j < b.len() && b[j] == nb[i];
                assert(s.backs(t, b[j]));
            } else {
                assert(s.backs(t, b[i]));
            }
        }
        assert forall|q: Seq<char>, t: Seq<char>| #[trigger] n.carries(q, t) implies has_path(
            bucket_of(n.by_tag, t),
            q,
        ) by {
            let b = bucket_of(s.by_tag, t);
            let nb = bucket_of(n.by_tag, t);
            lemma_without_members(b, p);
            if q == p {
                if was.tags.contains(t) {
                    assert(s.carries(p, t));
                    let i = choose|i: int| 0 <= i < b.len() && b[i].path == p;
                    assert(nb[i].path == p);
                } else {
                    assert(nb[nb.len() - 1].path == p);
                }
            } else {
                assert(s.carries(q, t));
                let i = choose|i: int| 0 <= i < b.len() && b[i].path == q;
                if a.tags.contains(t) {
                    assert(nb[i].path == q);
                } else if was.tags.contains(t) {
                    assert(nb.contains(b[i]));
                    let k = choose|k: int| 0 <= k < nb.len() && nb[k] == b[i];
                    assert(nb[k].path == q);
                } else {
                    assert(nb[i].path == q);
                }
            }
        }
        assert forall|t: Seq<char>| one_per_path(#[trigger] bucket_of(n.by_tag, t)) by {
            let b = bucket_of(s.by_tag, t);
            let nb = bucket_of(n.by_tag, t);
            assert(one_per_path(b));
            lemma_without_one_per_path(b, p);
            if a.tags.contains(t) {
                assert forall|i: int, j: int| 0 <= i < j < nb.len() implies nb[i].path
                    != nb[j].path by {
                    if was.tags.contains(t) {
                        assert(b[i].path != b[j].path);
                    } else {
                        assert(s.backs(t, b[i]));
                        if j < b.len() {
                            assert(b[i].path != b[j].path);
                        }
                    }
                }
            }
        }
    }
}

/// Every event that the index admits leaves a consistent index consistent.
pub proof fn lemma_apply_consistent(s: IndexView, ev: MetadataEventView)
    requires
        s.consistent(),
        s.admits(ev),
    ensures
        s.apply(ev).consistent(),
{
    match ev {
        MetadataEventView::Create(a) => lemma_insert_consistent(s, a),
        MetadataEventView::Move(src, dst) => lemma_update_path_consistent(s, src, dst),
        MetadataEventView::Remove(path) => lemma_remove_consistent(s, path),
        MetadataEventView::Changed(a) => lemma_update_meta_consistent(s, a),
    }
}

/// An index that started empty and has since met only events that it
/// admitted is consistent.
pub proof fn lemma_run_consistent(events: Seq<MetadataEventView>)
    requires
        forall|i: int|
            0 <= i < events.len() ==> IndexView::empty().run(events.take(i)).admits(
                #[trigger] events[i],
            ),
    ensures
        IndexView::empty().run(events).consistent(),
    decreases events.len(),
{
    if events.len() > 0 {
        let init = events.drop_last();
        assert forall|i: int| 0 <= i < init.len() implies IndexView::empty().run(
            init.take(i),
        ).admits(#[trigger] init[i]) by {
            assert(init.take(i) =~= events.take(i));
            assert(init[i] == events[i]);
        }
        lemma_run_consistent(init);
        assert(events.take(events.len() - 1) =~= init);
        assert(IndexView::empty().run(init).admits(events[events.len() - 1]));
        lemma_apply_consistent(IndexView::empty().run(init), events.last());
    }
}

/// A tag without a bucket gets one only by an edit that appends under it.
pub proof fn lemma_edit_each_absent(
    by_tag: Map<Seq<char>, Seq<ArtRefView>>,
    tags: Seq<Seq<char>>,
    e: TagEdit,
    tag: Seq<char>,
)
    requires
        !by_tag.contains_key(tag),
        e is Append ==> !tags.contains(tag),
    ensures
        !edit_each(by_tag, tags, e).contains_key(tag),
    decreases tags.len(),
{
    if tags.len() > 0 {
        let init = tags.drop_last();
        if e is Append {
            assert(tags[tags.len() - 1] != tag);
            assert forall|i: int| 0 <= i < init.len() implies init[i] != tag by {
                assert(tags[i] != tag);
            }
        }
        lemma_edit_each_absent(by_tag, init, e, tag);
    }
}

/// An event that does not bring a tag with it gives the tag no bucket.
pub proof fn lemma_apply_keeps_absent(s: IndexView, ev: MetadataEventView, tag: Seq<char>)
    requires
        !s.by_tag.contains_key(tag),
        !tags_of(ev).contains(tag),
    ensures
        !s.apply(ev).by_tag.contains_key(tag),
{
    match ev {
        MetadataEventView::Create(a) => {
            lemma_edit_each_absent(s.by_tag, a.tags, TagEdit::Append(a.art), tag);
        },
        MetadataEventView::Move(src, dst) => {
            if s.by_path.contains_key(src) {
                let a = s.by_path[src];
                lemma_edit_each_absent(
                    s.by_tag,
                    a.tags,
                    TagEdit::Front(a.art.path, s.relocated(src, dst).art),
                    tag,
                );
            }
        },
        MetadataEventView::Remove(path) => {
            if s.by_path.contains_key(path) {
                let a = s.by_path[path];
                lemma_edit_each_absent(s.by_tag, a.tags, TagEdit::Drop(a.art.path), tag);
            }
        },
        MetadataEventView::Changed(a) => {
            if s.by_path.contains_key(a.art.path) {
                let was = s.by_path[a.art.path];
                let common = selected(a.tags, was.tags, true);
                let lost = selected(was.tags, a.tags, false);
                let gained = selected(a.tags, was.tags, false);
                lemma_selected(a.tags, was.tags, false);
                let kept = edit_each(s.by_tag, common, TagEdit::Retitle(a.art));
                lemma_edit_each_absent(s.by_tag, common, TagEdit::Retitle(a.art), tag);
                let dropped = edit_each(kept, lost, TagEdit::Drop(a.art.path));
                lemma_edit_each_absent(kept, lost, TagEdit::Drop(a.art.path), tag);
                lemma_edit_each_absent(dropped, gained, TagEdit::Append(a.art), tag);
            }
        },
    }
}

/// A tag that no event has brought has no bucket: whatever sequence of events
/// an empty index has gone through, a lookup of such a tag finds nothing.
pub proof fn lemma_unused_tag_absent(events: Seq<MetadataEventView>, tag: Seq<char>)
    requires
        forall|i: int| 0 <= i < events.len() ==> !tags_of(#[trigger] events[i]).contains(tag),
    ensures
        !IndexView::empty().run(events).by_tag.contains_key(tag),
    decreases events.len(),
{
    if events.len() > 0 {
        let init = events.drop_last();
        assert forall|i: int| 0 <= i < init.len() implies !tags_of(#[trigger] init[i]).contains(
            tag,
        ) by {
            assert(init[i] == events[i]);
        }
        lemma_unused_tag_absent(init, tag);
        lemma_apply_keeps_absent(IndexView::empty().run(init), events.last(), tag);
    }
}

/// After the insertion of an article whose path was not indexed, a lookup of
/// its path finds the article, and the bucket of each of its tags holds its
/// reference once.
pub proof fn lemma_insert(s: IndexView, a: TaggedArticleView, tag: Seq<char>)
    requires
        s.consistent(),
        !s.by_path.contains_key(a.art.path),
        a.tags.no_duplicates(),
        a.tags.contains(tag),
    ensures
        s.insert(a).by_path.contains_key(a.art.path),
        s.insert(a).by_path[a.art.path] == a,
        s.insert(a).by_tag.contains_key(tag),
        holds_once(s.insert(a).by_tag[tag], a.art),
{
    lemma_insert_consistent(s, a);
    lemma_consistent_holds_once(s.insert(a), a.art.path, tag);
}

/// After the removal of an indexed article, a lookup of its path finds
/// nothing, no bucket holds a reference with its path, and no tag is left
/// with an empty bucket.
pub proof fn lemma_remove(s: IndexView, path: Seq<char>, tag: Seq<char>)
    requires
        s.consistent(),
        s.by_path.contains_key(path),
    ensures
        !s.remove(path).by_path.contains_key(path),
        no_path(bucket_of(s.remove(path).by_tag, tag), path),
        pruned(s.remove(path).by_tag),
{
    let n = s.remove(path);
    lemma_remove_consistent(s, path);
    let b = bucket_of(n.by_tag, tag);
    assert forall|i: int| 0 <= i < b.len() implies b[i].path != path by {
        assert(n.backs(tag, b[i]));
    }
}

/// After a change of an indexed article, a lookup of its path finds the new
/// article; the bucket of a tag that it has now holds its new reference once;
/// the bucket of any other tag, if the tag still has one, holds no reference
/// with its path.
pub proof fn lemma_update_meta(s: IndexView, a: TaggedArticleView, tag: Seq<char>)
    requires
        s.consistent(),
        s.by_path.contains_key(a.art.path),
        a.tags.no_duplicates(),
    ensures
        s.update_meta(a).by_path.contains_key(a.art.path),
        s.update_meta(a).by_path[a.art.path] == a,
        a.tags.contains(tag) ==> s.update_meta(a).by_tag.contains_key(tag) && holds_once(
            s.update_meta(a).by_tag[tag],
            a.art,
        ),
        !a.tags.contains(tag) ==> no_path(bucket_of(s.update_meta(a).by_tag, tag), a.art.path),
        pruned(s.update_meta(a).by_tag),
{
    let n = s.update_meta(a);
    lemma_update_meta_consistent(s, a);
    if a.tags.contains(tag) {
        lemma_consistent_holds_once(n, a.art.path, tag);
    } else {
        let b = bucket_of(n.by_tag, tag);
        assert forall|i: int| 0 <= i < b.len() implies b[i].path != a.art.path by {
            assert(n.backs(tag, b[i]));
        }
    }
}

/// After the move of an indexed article to another path, a lookup of the old
/// path finds nothing and a lookup of the new path finds the article with its
/// title and its tags; the bucket of each of its tags starts with its new
/// reference, and no bucket holds a reference with the old path.
pub proof fn lemma_update_path(s: IndexView, src: Seq<char>, dst: Seq<char>, tag: Seq<char>)
    requires
        s.consistent(),
        s.by_path.contains_key(src),
        src != dst,
    ensures
        !s.update_path(src, dst).by_path.contains_key(src),
        s.update_path(src, dst).by_path.contains_key(dst),
        s.update_path(src, dst).by_path[dst].art.path == dst,
        s.update_path(src, dst).by_path[dst].art.title == s.by_path[src].art.title,
        s.update_path(src, dst).by_path[dst].tags == s.by_path[src].tags,
        s.by_path[src].tags.contains(tag) ==> s.update_path(src, dst).by_tag.contains_key(tag)
            && s.update_path(src, dst).by_tag[tag][0] == s.update_path(src, dst).by_path[dst].art,
        no_path(bucket_of(s.update_path(src, dst).by_tag, tag), src),
{
    let n = s.update_path(src, dst);
    let a = s.by_path[src];
    let moved = s.relocated(src, dst);
    lemma_edit_each_bulk(s.by_tag, a.tags, TagEdit::Front(src, moved.art));
    let b = bucket_of(s.by_tag, tag);
    let nb = bucket_of(n.by_tag, tag);
    lemma_without_members(b, src);
    if a.tags.contains(tag) {
        assert(s.carries(src, tag));
        assert(has_path(b, src));
        assert(nb =~= seq![moved.art] + without(b, src));
        assert forall|i: int| 0 <= i < nb.len() implies nb[i].path != src by {
            if i > 0 {
                assert(nb[i] == without(b, src)[i - 1]);
            }
        }
    } else {
        assert forall|i: int| 0 <= i < nb.len() implies nb[i].path != src by {
            assert(s.backs(tag, b[i]));
        }
    }
}

/// A selection that every tag passes is the whole list.
pub proof fn lemma_selected_all(tags: Seq<Seq<char>>, other: Seq<Seq<char>>, present: bool)
    requires
        forall|i: int| 0 <= i < tags.len() ==> other.contains(#[trigger] tags[i]) == present,
    ensures
        selected(tags, other, present) == tags,
    decreases tags.len(),
{
    reveal(Seq::filter);
    if tags.len() > 0 {
        let init = tags.drop_last();
        assert forall|i: int| 0 <= i < init.len() implies other.contains(#[trigger] init[i])
            == present by {
            assert(init[i] == tags[i]);
        }
        lemma_selected_all(init, other, present);
        assert(other.contains(tags[tags.len() - 1]) == present);
        assert(tags =~= init.push(tags.last()));
    } else {
        assert(tags =~= Seq::empty());
    }
}

/// A selection that no tag passes is empty.
pub proof fn lemma_selected_none(tags: Seq<Seq<char>>, other: Seq<Seq<char>>, present: bool)
    requires
        forall|i: int| 0 <= i < tags.len() ==> other.contains(#[trigger] tags[i]) != present,
    ensures
        selected(tags, other, present) == Seq::<Seq<char>>::empty(),
    decreases tags.len(),
{
    reveal(Seq::filter);
    if tags.len() > 0 {
        let init = tags.drop_last();
        assert forall|i: int| 0 <= i < init.len() implies other.contains(#[trigger] init[i])
            != present by {
            assert(init[i] == tags[i]);
        }
        lemma_selected_none(init, other, present);
        assert(other.contains(tags[tags.len() - 1]) != present);
    } else {
        assert(tags =~= Seq::empty());
    }
}

/// Where every bucket holds a reference in its latest form already, to
/// refresh it changes nothing.
pub proof fn lemma_refresh_settled(
    by_tag: Map<Seq<char>, Seq<ArtRefView>>,
    tags: Seq<Seq<char>>,
    art: ArtRefView,
)
    requires
        forall|u: Seq<char>| settled(#[trigger] bucket_of(by_tag, u), art),
    ensures
        edit_each(by_tag, tags, TagEdit::Retitle(art)) == by_tag,
    decreases tags.len(),
{
    if tags.len() > 0 {
        lemma_refresh_settled(by_tag, tags.drop_last(), art);
        let t = tags.last();
        if by_tag.contains_key(t) {
            assert(settled(bucket_of(by_tag, t), art));
            assert(retitled(by_tag[t], art) =~= by_tag[t]);
            assert(by_tag.insert(t, by_tag[t]) =~= by_tag);
        }
    }
}

/// Once a consistent index has taken an article in, every bucket holds the
/// article's reference in its latest form wherever it holds a reference with
/// the article's path.
pub proof fn lemma_absorb_settles(s: IndexView, a: TaggedArticleView, tag: Seq<char>)
    requires
        s.consistent(),
    ensures
        settled(bucket_of(s.absorb(a).by_tag, tag), a.art),
        pruned(s.absorb(a).by_tag),
{
    let p = a.art.path;
    let b = bucket_of(s.by_tag, tag);
    let keeps = |x: Seq<ArtRefView>| settled(x, a.art);
    assert forall|x: Seq<ArtRefView>| #[trigger] keeps(x) implies keeps(
        edit_bucket(x, TagEdit::Append(a.art)),
    ) by {}
    assert forall|x: Seq<ArtRefView>| #[trigger] keeps(x) implies keeps(
        edit_bucket(x, TagEdit::Retitle(a.art)),
    ) by {}
    assert forall|x: Seq<ArtRefView>| #[trigger]
        keeps(edit_bucket(x, TagEdit::Retitle(a.art))) by {}
    assert forall|x: Seq<ArtRefView>| #[trigger] keeps(edit_bucket(x, TagEdit::Drop(p))) by {
        lemma_without_members(x, p);
    }
    if s.by_path.contains_key(p) {
        let was = s.by_path[p];
        let common = selected(a.tags, was.tags, true);
        let lost = selected(was.tags, a.tags, false);
        let gained = selected(a.tags, was.tags, false);
        lemma_selected(a.tags, was.tags, true);
        lemma_selected(was.tags, a.tags, false);
        let kept = edit_each(s.by_tag, common, TagEdit::Retitle(a.art));
        let dropped = edit_each(kept, lost, TagEdit::Drop(p));
        lemma_edit_each_frame(s.by_tag, common, TagEdit::Retitle(a.art), tag);
        lemma_edit_each_frame(kept, lost, TagEdit::Drop(p), tag);
        lemma_edit_each_frame(dropped, gained, TagEdit::Append(a.art), tag);
        if common.contains(tag) {
            lemma_edit_each_makes(s.by_tag, common, TagEdit::Retitle(a.art), keeps, tag);
            lemma_edit_each_keeps(kept, lost, TagEdit::Drop(p), keeps, tag);
        } else if was.tags.contains(tag) {
            assert(lost.contains(tag));
            lemma_edit_each_makes(kept, lost, TagEdit::Drop(p), keeps, tag);
        } else {
            assert forall|i: int| 0 <= i < b.len() implies b[i].path != p by {
                assert(s.backs(tag, b[i]));
            }
            assert(keeps(bucket_of(kept, tag)));
            lemma_edit_each_keeps(kept, lost, TagEdit::Drop(p), keeps, tag);
        }
        lemma_edit_each_keeps(dropped, gained, TagEdit::Append(a.art), keeps, tag);
    } else {
        assert forall|i: int| 0 <= i < b.len() implies b[i].path != p by {
            assert(s.backs(tag, b[i]));
        }
        lemma_edit_each_frame(s.by_tag, a.tags, TagEdit::Append(a.art), tag);
        lemma_edit_each_keeps(s.by_tag, a.tags, TagEdit::Append(a.art), keeps, tag);
    }
}

/// To take the same article in a second time changes nothing: a consistent
/// index that has absorbed an article is the same after it absorbs the
/// article again.
pub proof fn lemma_absorb_twice(s: IndexView, a: TaggedArticleView)
    requires
        s.consistent(),
    ensures
        s.absorb(a).absorb(a) == s.absorb(a),
{
    let once = s.absorb(a);
    let p = a.art.path;
    assert(once.by_path.contains_key(p) && once.by_path[p] == a);
    assert forall|u: Seq<char>| settled(#[trigger] bucket_of(once.by_tag, u), a.art) by {
        lemma_absorb_settles(s, a, u);
    }
    lemma_selected_all(a.tags, a.tags, true);
    lemma_selected_none(a.tags, a.tags, false);
    lemma_refresh_settled(once.by_tag, a.tags, a.art);
    let twice = once.update_meta(a);
    assert(twice.by_tag == once.by_tag);
    assert(twice.by_path =~= once.by_path);
}

/// A document that goes through the pipeline a second time, unchanged,
/// leaves the index as the first time left it.
pub proof fn lemma_processed_twice(s: IndexView, path: Seq<char>, content: Seq<char>)
    requires
        s.consistent(),
    ensures
        processed(processed(s, path, content), path, content) == processed(s, path, content),
{
    match article_of(path, content) {
        Ok(a) => {
            assert(a.art.path == path);
            lemma_absorb_twice(s, a);
            assert(processed(s, path, content) == s.absorb(a));
            assert(s.absorb(a).by_path.contains_key(path));
        },
        Err(e) => {},
    }
}

} // verus!
