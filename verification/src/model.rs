//! The index as a mathematical value, and what each mutation does to it.
//!
//! The store's contracts are stated over these functions. They are defined
//! for every index and every argument, also for those that a careful caller
//! never produces: an article with a tag listed twice, a second insert under
//! one path, a move onto a path that is taken.
use crate::domain::{ArtRefView, MetadataEventView, TaggedArticleView};
use vstd::prelude::*;

verus! {

/// One change to the bucket of one tag.
pub enum TagEdit {
    /// Put the reference at the end of the bucket; create the bucket if the
    /// tag has none.
    Append(ArtRefView),
    /// Take every reference with this path out of the bucket, and the bucket
    /// out of the map if nothing is left in it.
    Drop(Seq<char>),
    /// Take every reference with this path out of the bucket and put the
    /// given reference at the front. A tag without a bucket gets none.
    Front(Seq<char>, ArtRefView),
    /// Replace, in place, every reference that has the given reference's
    /// path. A tag without a bucket gets none.
    Retitle(ArtRefView),
}

/// The bucket of `tag`; empty where the tag has none.
pub open spec fn bucket_of(by_tag: Map<Seq<char>, Seq<ArtRefView>>, tag: Seq<char>) -> Seq<
    ArtRefView,
> {
    if by_tag.contains_key(tag) {
        by_tag[tag]
    } else {
        Seq::empty()
    }
}

/// The references of `bucket` whose path is not `path`, in their order.
pub open spec fn without(bucket: Seq<ArtRefView>, path: Seq<char>) -> Seq<ArtRefView> {
    bucket.filter(|r: ArtRefView| r.path != path)
}

/// `bucket` with `art` in the place of every reference that has its path.
pub open spec fn retitled(bucket: Seq<ArtRefView>, art: ArtRefView) -> Seq<ArtRefView> {
    bucket.map_values(
        |r: ArtRefView|
            if r.path == art.path {
                art
            } else {
                r
            },
    )
}

/// The tags of `tags`, in order, for which membership in `other` is `present`.
pub open spec fn selected(tags: Seq<Seq<char>>, other: Seq<Seq<char>>, present: bool) -> Seq<
    Seq<char>,
> {
    tags.filter(|t: Seq<char>| other.contains(t) == present)
}

/// What one edit makes of a bucket, where the empty sequence stands for the
/// bucket that a tag does not have.
pub open spec fn edit_bucket(bucket: Seq<ArtRefView>, e: TagEdit) -> Seq<ArtRefView> {
    match e {
        TagEdit::Append(art) => bucket.push(art),
        TagEdit::Drop(path) => without(bucket, path),
        TagEdit::Front(path, art) => if bucket.len() > 0 {
            seq![art] + without(bucket, path)
        } else {
            bucket
        },
        TagEdit::Retitle(art) => retitled(bucket, art),
    }
}

/// Whether no tag has an empty bucket.
pub open spec fn pruned(by_tag: Map<Seq<char>, Seq<ArtRefView>>) -> bool {
    forall|tag: Seq<char>| by_tag.contains_key(tag) ==> by_tag[tag].len() > 0
}

/// Whether no reference of the bucket has the path `path`.
pub open spec fn no_path(bucket: Seq<ArtRefView>, path: Seq<char>) -> bool {
    forall|i: int| 0 <= i < bucket.len() ==> bucket[i].path != path
}

/// Whether no two references of the bucket have the same path.
pub open spec fn one_per_path(bucket: Seq<ArtRefView>) -> bool {
    forall|i: int, j: int| 0 <= i < j < bucket.len() ==> bucket[i].path != bucket[j].path
}

/// Whether every reference of the bucket that has `art`'s path is `art`.
pub open spec fn settled(bucket: Seq<ArtRefView>, art: ArtRefView) -> bool {
    forall|i: int| 0 <= i < bucket.len() && bucket[i].path == art.path ==> bucket[i] == art
}

/// Whether some reference of the bucket has the path `path`.
pub open spec fn has_path(bucket: Seq<ArtRefView>, path: Seq<char>) -> bool {
    exists|i: int| 0 <= i < bucket.len() && bucket[i].path == path
}

/// Whether the bucket holds `art`, and no other reference with its path.
pub open spec fn holds_once(bucket: Seq<ArtRefView>, art: ArtRefView) -> bool {
    exists|i: int|
        0 <= i < bucket.len() && bucket[i] == art && forall|j: int|
            0 <= j < bucket.len() && j != i ==> bucket[j].path != art.path
}

/// The by-tag map after one edit to the bucket of `tag`.
pub open spec fn edit(by_tag: Map<Seq<char>, Seq<ArtRefView>>, tag: Seq<char>, e: TagEdit) -> Map<
    Seq<char>,
    Seq<ArtRefView>,
> {
    match e {
        TagEdit::Append(art) => by_tag.insert(tag, bucket_of(by_tag, tag).push(art)),
        TagEdit::Drop(path) => if !by_tag.contains_key(tag) {
            by_tag
        } else if without(by_tag[tag], path).len() == 0 {
            by_tag.remove(tag)
        } else {
            by_tag.insert(tag, without(by_tag[tag], path))
        },
        TagEdit::Front(path, art) => if by_tag.contains_key(tag) {
            by_tag.insert(tag, seq![art] + without(by_tag[tag], path))
        } else {
            by_tag
        },
        TagEdit::Retitle(art) => if by_tag.contains_key(tag) {
            by_tag.insert(tag, retitled(by_tag[tag], art))
        } else {
            by_tag
        },
    }
}

/// The by-tag map after the same edit to the bucket of each tag of `tags`,
/// first to last. A tag that occurs twice is edited twice.
pub open spec fn edit_each(
    by_tag: Map<Seq<char>, Seq<ArtRefView>>,
    tags: Seq<Seq<char>>,
    e: TagEdit,
) -> Map<Seq<char>, Seq<ArtRefView>>
    decreases tags.len(),
{
    if tags.len() == 0 {
        by_tag
    } else {
        edit(edit_each(by_tag, tags.drop_last(), e), tags.last(), e)
    }
}

/// The index: every article under its path, and for every tag in use the
/// references of the articles that carry it.
pub struct IndexView {
    pub by_path: Map<Seq<char>, TaggedArticleView>,
    pub by_tag: Map<Seq<char>, Seq<ArtRefView>>,
}

impl IndexView {
    /// The index that holds nothing.
    pub open spec fn empty() -> IndexView {
        IndexView { by_path: Map::empty(), by_tag: Map::empty() }
    }

    /// Whether every article is stored under its own path, and no tag has an
    /// empty bucket.
    pub open spec fn wf(self) -> bool {
        &&& forall|p: Seq<char>|
            self.by_path.contains_key(p) ==> (#[trigger] self.by_path[p]).art.path == p
        &&& pruned(self.by_tag)
    }

    /// Whether the article under `path` carries `tag`.
    pub open spec fn carries(self, path: Seq<char>, tag: Seq<char>) -> bool {
        self.by_path.contains_key(path) && self.by_path[path].tags.contains(tag)
    }

    /// Whether `art`, met in the bucket of `tag`, is the reference of an
    /// indexed article that carries `tag`.
    pub open spec fn backs(self, tag: Seq<char>, art: ArtRefView) -> bool {
        self.carries(art.path, tag) && self.by_path[art.path].art == art
    }

    /// The invariant of the index. The two maps agree: the bucket of a tag
    /// holds the reference of each article that carries the tag, once, and
    /// nothing else. No article lists a tag twice, and no bucket is empty.
    pub open spec fn consistent(self) -> bool {
        &&& self.wf()
        &&& forall|p: Seq<char>|
            self.by_path.contains_key(p) ==> (#[trigger] self.by_path[p]).tags.no_duplicates()
        &&& forall|t: Seq<char>, i: int|
            0 <= i < bucket_of(self.by_tag, t).len() ==> self.backs(
                t,
                #[trigger] bucket_of(self.by_tag, t)[i],
            )
        &&& forall|p: Seq<char>, t: Seq<char>| #[trigger]
            self.carries(p, t) ==> has_path(bucket_of(self.by_tag, t), p)
        &&& forall|t: Seq<char>| one_per_path(#[trigger] bucket_of(self.by_tag, t))
    }

    /// `a` stored under its path, and its reference appended to the bucket of
    /// each of its tags.
    pub open spec fn insert(self, a: TaggedArticleView) -> IndexView {
        IndexView {
            by_path: self.by_path.insert(a.art.path, a),
            by_tag: edit_each(self.by_tag, a.tags, TagEdit::Append(a.art)),
        }
    }

    /// The article under `path` taken out, together with its references in
    /// the buckets of its tags. An unknown path changes nothing.
    pub open spec fn remove(self, path: Seq<char>) -> IndexView {
        if self.by_path.contains_key(path) {
            let a = self.by_path[path];
            IndexView {
                by_path: self.by_path.remove(path),
                by_tag: edit_each(self.by_tag, a.tags, TagEdit::Drop(a.art.path)),
            }
        } else {
            self
        }
    }

    /// The article that `src` names, as it reads once it lives at `dst`.
    pub open spec fn relocated(self, src: Seq<char>, dst: Seq<char>) -> TaggedArticleView {
        let a = self.by_path[src];
        TaggedArticleView { art: ArtRefView { path: dst, title: a.art.title }, tags: a.tags }
    }

    /// The article under `src` re-keyed to `dst`, and its reference moved to
    /// the front of the bucket of each of its tags. An unknown `src` changes
    /// nothing.
    pub open spec fn update_path(self, src: Seq<char>, dst: Seq<char>) -> IndexView {
        if self.by_path.contains_key(src) {
            let a = self.by_path[src];
            let b = self.relocated(src, dst);
            IndexView {
                by_path: self.by_path.remove(src).insert(dst, b),
                by_tag: edit_each(self.by_tag, a.tags, TagEdit::Front(a.art.path, b.art)),
            }
        } else {
            self
        }
    }

    /// The article under `a`'s path replaced by `a`: its reference refreshed
    /// in the buckets of the tags it keeps, taken out of those it loses,
    /// appended to those it gains. An unknown path changes nothing.
    pub open spec fn update_meta(self, a: TaggedArticleView) -> IndexView {
        if self.by_path.contains_key(a.art.path) {
            let was = self.by_path[a.art.path];
            let kept = edit_each(
                self.by_tag,
                selected(a.tags, was.tags, true),
                TagEdit::Retitle(a.art),
            );
            let lost = edit_each(kept, selected(was.tags, a.tags, false), TagEdit::Drop(a.art.path));
            let gained = edit_each(
                lost,
                selected(a.tags, was.tags, false),
                TagEdit::Append(a.art),
            );
            IndexView { by_path: self.by_path.insert(a.art.path, a), by_tag: gained }
        } else {
            self
        }
    }

    /// The index after one mutation event.
    pub open spec fn apply(self, ev: MetadataEventView) -> IndexView {
        match ev {
            MetadataEventView::Create(a) => self.insert(a),
            MetadataEventView::Move(src, dst) => self.update_path(src, dst),
            MetadataEventView::Remove(path) => self.remove(path),
            MetadataEventView::Changed(a) => self.update_meta(a),
        }
    }

    /// The index after it has taken in the article `a`, as read from a
    /// document: a change where `a`'s path is indexed, a creation where it is
    /// not.
    pub open spec fn absorb(self, a: TaggedArticleView) -> IndexView {
        if self.by_path.contains_key(a.art.path) {
            self.update_meta(a)
        } else {
            self.insert(a)
        }
    }

    /// The index after a sequence of mutation events, first to last.
    pub open spec fn run(self, events: Seq<MetadataEventView>) -> IndexView
        decreases events.len(),
    {
        if events.len() == 0 {
            self
        } else {
            self.run(events.drop_last()).apply(events.last())
        }
    }

    /// Whether the event is one that a careful caller sends to this index: a
    /// creation under a path that is not indexed, a move to a path that is
    /// not indexed, and in a creation or a change no tag listed twice.
    pub open spec fn admits(self, ev: MetadataEventView) -> bool {
        match ev {
            MetadataEventView::Create(a) => !self.by_path.contains_key(a.art.path)
                && a.tags.no_duplicates(),
            MetadataEventView::Move(src, dst) => dst == src || !self.by_path.contains_key(dst),
            MetadataEventView::Remove(path) => true,
            MetadataEventView::Changed(a) => a.tags.no_duplicates(),
        }
    }

    /// Whether the event names an article that the index knows: a `Create`
    /// always does.
    pub open spec fn knows(self, ev: MetadataEventView) -> bool {
        match ev {
            MetadataEventView::Create(a) => true,
            MetadataEventView::Move(src, dst) => self.by_path.contains_key(src),
            MetadataEventView::Remove(path) => self.by_path.contains_key(path),
            MetadataEventView::Changed(a) => self.by_path.contains_key(a.art.path),
        }
    }
}

/// The tags that an event brings with it.
pub open spec fn tags_of(ev: MetadataEventView) -> Seq<Seq<char>> {
    match ev {
        MetadataEventView::Create(a) => a.tags,
        MetadataEventView::Changed(a) => a.tags,
        MetadataEventView::Move(src, dst) => Seq::empty(),
        MetadataEventView::Remove(path) => Seq::empty(),
    }
}

} // verus!
