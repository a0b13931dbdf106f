//! The store: every indexed article under its path, and under each of its
//! tags a reference to it.
//!
//! A mutation needs the store exclusively. That puts both maps behind one
//! boundary: nobody can see the by-path map updated and the by-tag map not
//! yet. Whoever shares a store between a writer and readers puts it behind a
//! lock of their own.
use crate::domain::{refs, texts, ArtRef, ArtRefView, TaggedArticle, TaggedArticleView};
use crate::maps::{
    article_entries, article_get, article_put, article_remove, articles, bucket_get, bucket_put,
    bucket_remove, bucket_tags, buckets, new_articles, new_buckets,
};
use crate::model::{bucket_of, edit, edit_each, retitled, selected, without, IndexView, TagEdit};
use dashmap::DashMap;
use vstd::prelude::*;

verus! {

/// The references of `bucket` whose path is not `path`, in their order.
pub fn bucket_without(bucket: &Vec<ArtRef>, path: &String) -> (r: Vec<ArtRef>)
    ensures
        refs(r@) == without(refs(bucket@), path@),
{
    let mut out: Vec<ArtRef> = Vec::new();
    let mut i: usize = 0;
    proof {
        reveal(Seq::filter);
        assert(refs(bucket@).take(0) =~= Seq::<ArtRefView>::empty());
    }
    while i < bucket.len()
        invariant
            i <= bucket.len(),
            refs(out@) == without(refs(bucket@).take(i as int), path@),
        decreases bucket.len() - i,
    {
        proof {
            reveal(Seq::filter);
            let next = refs(bucket@).take(i + 1);
            assert(next.drop_last() =~= refs(bucket@).take(i as int));
            assert(next.last() == bucket@[i as int]@);
        }
        let ghost before = refs(out@);
        if bucket[i].path != *path {
            out.push(bucket[i].duplicate());
            assert(refs(out@) =~= before.push(bucket@[i as int]@));
        }
        i += 1;
    }
    assert(refs(bucket@).take(bucket@.len() as int) =~= refs(bucket@));
    out
}

/// `bucket` with a copy of `art` in the place of every reference that has its
/// path.
pub fn bucket_retitled(bucket: &Vec<ArtRef>, art: &ArtRef) -> (r: Vec<ArtRef>)
    ensures
        refs(r@) == retitled(refs(bucket@), art@),
{
    let mut out: Vec<ArtRef> = Vec::new();
    let mut i: usize = 0;
    while i < bucket.len()
        invariant
            i <= bucket.len(),
            out@.len() == i,
            forall|j: int| 0 <= j < i ==> out@[j]@ == retitled(refs(bucket@), art@)[j],
        decreases bucket.len() - i,
    {
        if bucket[i].path == art.path {
            out.push(art.duplicate());
        } else {
            out.push(bucket[i].duplicate());
        }
        i += 1;
    }
    assert(refs(out@) =~= retitled(refs(bucket@), art@));
    out
}

/// Whether `tags` holds `tag`.
pub fn has_tag(tags: &Vec<String>, tag: &String) -> (r: bool)
    ensures
        r == texts(tags@).contains(tag@),
{
    let mut i: usize = 0;
    while i < tags.len()
        invariant
            i <= tags.len(),
            forall|j: int| 0 <= j < i ==> texts(tags@)[j] != tag@,
        decreases tags.len() - i,
    {
        if tags[i] == *tag {
            assert(texts(tags@)[i as int] == tag@);
            return true;
        }
        i += 1;
    }
    false
}

/// The tags of `tags`, in order, for which membership in `other` is `present`.
pub fn select_tags(tags: &Vec<String>, other: &Vec<String>, present: bool) -> (r: Vec<String>)
    ensures
        texts(r@) == selected(texts(tags@), texts(other@), present),
{
    let mut out: Vec<String> = Vec::new();
    let mut i: usize = 0;
    proof {
        reveal(Seq::filter);
        assert(texts(tags@).take(0) =~= Seq::<Seq<char>>::empty());
    }
    while i < tags.len()
        invariant
            i <= tags.len(),
            texts(out@) == selected(texts(tags@).take(i as int), texts(other@), present),
        decreases tags.len() - i,
    {
        proof {
            reveal(Seq::filter);
            let next = texts(tags@).take(i + 1);
            assert(next.drop_last() =~= texts(tags@).take(i as int));
            assert(next.last() == tags@[i as int]@);
        }
        let ghost before = texts(out@);
        if has_tag(other, &tags[i]) == present {
            out.push(tags[i].clone());
            assert(texts(out@) =~= before.push(tags@[i as int]@));
        }
        i += 1;
    }
    assert(texts(tags@).take(tags@.len() as int) =~= texts(tags@));
    out
}

/// Why a mutation did not take place.
#[derive(Debug, Clone, Copy, PartialEq, Eq)]
pub enum IndexError {
    /// The store holds no article under the path that the call names.
    NotFound,
}

/// What a mutation that names a path returns: `Ok` where the path is known,
/// else the error `NotFound`.
pub open spec fn outcome(known: bool) -> Result<(), IndexError> {
    if known {
        Ok(())
    } else {
        Err(IndexError::NotFound)
    }
}

/// One change to the bucket of one tag, as the store carries it out.
pub enum BucketEdit {
    Append(ArtRef),
    Drop(String),
    Front(String, ArtRef),
    Retitle(ArtRef),
}

impl View for BucketEdit {
    type V = TagEdit;

    open spec fn view(&self) -> TagEdit {
        match self {
            BucketEdit::Append(art) => TagEdit::Append(art@),
            BucketEdit::Drop(path) => TagEdit::Drop(path@),
            BucketEdit::Front(path, art) => TagEdit::Front(path@, art@),
            BucketEdit::Retitle(art) => TagEdit::Retitle(art@),
        }
    }
}

/// Whether `arts` holds the article of each path of `paths`, position by
/// position, and `paths` names every path of the map once.
pub open spec fn lists(
    by_path: Map<Seq<char>, TaggedArticleView>,
    paths: Seq<Seq<char>>,
    arts: Seq<TaggedArticle>,
) -> bool {
    &&& paths.no_duplicates()
    &&& paths.len() == arts.len()
    &&& forall|p: Seq<char>| by_path.contains_key(p) <==> paths.contains(p)
    &&& forall|i: int|
        0 <= i < paths.len() ==> by_path.contains_key(#[trigger] paths[i]) && arts[i]@
            == by_path[paths[i]]
}

/// The dual-keyed index.
pub struct Store {
    by_tag: DashMap<String, Vec<ArtRef>>,
    by_path: DashMap<String, TaggedArticle>,
}

impl View for Store {
    type V = IndexView;

    closed spec fn view(&self) -> IndexView {
        IndexView { by_path: articles(self.by_path), by_tag: buckets(self.by_tag) }
    }
}

impl Store {
    /// A store that holds nothing.
    pub fn new() -> (s: Store)
        ensures
            s@ == IndexView::empty(),
    {
        let s = Store { by_tag: new_buckets(), by_path: new_articles() };
        assert(s@.by_path =~= IndexView::empty().by_path);
        assert(s@.by_tag =~= IndexView::empty().by_tag);
        s
    }

    /// Stores `m` under its path and appends its reference to the bucket of
    /// each of its tags. A second insert under one path appends again: route
    /// a change to an indexed article through [`Store::update_meta`].
    pub fn insert(&mut self, m: &TaggedArticle)
        ensures
            final(self)@ == old(self)@.insert(m@),
    {
        article_put(&mut self.by_path, m.art.path.clone(), m.duplicate());
        self.edit_tags(&m.tags, &BucketEdit::Append(m.art.duplicate()));
    }

    /// Takes the article under `p` out of the store, with its reference in
    /// the bucket of each of its tags; a bucket left empty goes too. An
    /// unknown path is an error and changes nothing.
    pub fn remove(&mut self, p: &String) -> (r: Result<(), IndexError>)
        ensures
            final(self)@ == old(self)@.remove(p@),
            r == outcome(old(self)@.by_path.contains_key(p@)),
    {
        match article_remove(&mut self.by_path, p) {
            Some(removed) => {
                self.edit_tags(&removed.tags, &BucketEdit::Drop(removed.art.path.clone()));
                Ok(())
            },
            None => {
                assert(self@.by_path =~= old(self)@.by_path);
                Err(IndexError::NotFound)
            },
        }
    }

    /// Re-keys the article under `s` to `d` and moves its reference to the
    /// front of the bucket of each of its tags. An unknown `s` is an error
    /// and changes nothing.
    pub fn update_path(&mut self, s: String, d: String) -> (r: Result<(), IndexError>)
        ensures
            final(self)@ == old(self)@.update_path(s@, d@),
            r == outcome(old(self)@.by_path.contains_key(s@)),
    {
        match article_remove(&mut self.by_path, &s) {
            Some(found) => {
                let new_meta = TaggedArticle::new(d.clone(), found.art.title.as_str(), found.tags.as_slice());
                let new_art = new_meta.art.duplicate();
                article_put(&mut self.by_path, d, new_meta);
                self.update_path_for_tags(&found.tags, &found.art.path, &new_art);
                Ok(())
            },
            None => {
                assert(self@.by_path =~= old(self)@.by_path);
                Err(IndexError::NotFound)
            },
        }
    }

    /// Replaces the article under `m`'s path by `m`. In the buckets of the
    /// tags that it keeps its reference is refreshed in place; it leaves the
    /// buckets of the tags that it loses and joins, at the end, those of the
    /// tags that it gains. An unknown path is an error and changes nothing.
    pub fn update_meta(&mut self, m: &TaggedArticle) -> (r: Result<(), IndexError>)
        ensures
            final(self)@ == old(self)@.update_meta(m@),
            r == outcome(old(self)@.by_path.contains_key(m@.art.path)),
    {
        match article_get(&self.by_path, &m.art.path) {
            Some(found) => {
                let tags_in_common = select_tags(&m.tags, &found.tags, true);
                let tags_to_remove = select_tags(&found.tags, &m.tags, false);
                let tags_to_insert = select_tags(&m.tags, &found.tags, false);
                self.edit_tags(&tags_in_common, &BucketEdit::Retitle(m.art.duplicate()));
                self.edit_tags(&tags_to_remove, &BucketEdit::Drop(m.art.path.clone()));
                self.edit_tags(&tags_to_insert, &BucketEdit::Append(m.art.duplicate()));
                article_put(&mut self.by_path, m.art.path.clone(), m.duplicate());
                Ok(())
            },
            None => Err(IndexError::NotFound),
        }
    }

    /// The article stored under `path`, if there is one.
    pub fn get_by_path(&self, path: &String) -> (r: Option<TaggedArticle>)
        ensures
            r is Some <==> self@.by_path.contains_key(path@),
            r is Some ==> r->0@ == self@.by_path[path@],
    {
        article_get(&self.by_path, path)
    }

    /// The bucket of `tag`, in the order in which it was filled, or `None`
    /// where no indexed article carries the tag.
    pub fn get_by_tag(&self, tag: &String) -> (r: Option<Vec<ArtRef>>)
        ensures
            r is Some <==> self@.by_tag.contains_key(tag@),
            r is Some ==> refs(r->0@) == self@.by_tag[tag@],
    {
        bucket_get(&self.by_tag, tag)
    }

    /// Every tag that has a bucket, once each, in no particular order.
    pub fn get_all_tags(&self) -> (r: Vec<String>)
        ensures
            texts(r@).no_duplicates(),
            texts(r@).to_set() == self@.by_tag.dom(),
    {
        bucket_tags(&self.by_tag)
    }

    /// Every indexed article, once each, in no particular order.
    pub fn get_all_articles(&self) -> (r: Vec<TaggedArticle>)
        ensures
            exists|paths: Seq<Seq<char>>| lists(self@.by_path, paths, r@),
    {
        let entries = article_entries(&self.by_path);
        let mut out: Vec<TaggedArticle> = Vec::new();
        let mut i: usize = 0;
        let ghost paths = Seq::new(entries@.len(), |j: int| entries@[j].0@);
        while i < entries.len()
            invariant
                i <= entries.len(),
                out@.len() == i,
                forall|j: int| 0 <= j < i ==> out@[j]@ == entries@[j].1@,
            decreases entries.len() - i,
        {
            out.push(entries[i].1.duplicate());
            i += 1;
        }
        proof {
            assert forall|p: Seq<char>| self@.by_path.contains_key(p) implies paths.contains(
                p,
            ) by {
                let k = choose|k: int| 0 <= k < entries@.len() && entries@[k].0@ == p;
                assert(paths[k] == p);
            }
            assert forall|j: int| 0 <= j < paths.len() implies self@.by_path.contains_key(
                #[trigger] paths[j],
            ) && out@[j]@ == self@.by_path[paths[j]] by {
                assert(self@.by_path.contains_key(entries@[j].0@));
            }
            assert(lists(self@.by_path, paths, out@));
        }
        out
    }

    /// Appends a copy of `art` to the bucket of `t`, which is created if the
    /// tag has none.
    fn add_to_tag(&mut self, t: &String, art: &ArtRef)
        ensures
            final(self)@.by_tag == edit(old(self)@.by_tag, t@, TagEdit::Append(art@)),
            final(self)@.by_path == old(self)@.by_path,
    {
        let mut bucket = match bucket_get(&self.by_tag, t) {
            Some(k) => k,
            None => Vec::new(),
        };
        let ghost before = refs(bucket@);
        assert(before =~= bucket_of(self@.by_tag, t@));
        bucket.push(art.duplicate());
        assert(refs(bucket@) =~= before.push(art@));
        bucket_put(&mut self.by_tag, t.clone(), bucket);
    }

    /// Takes every reference with the path `path` out of the bucket of `t`,
    /// and the bucket out of the map if that leaves it empty.
    fn remove_from_tag(&mut self, t: &String, path: &String)
        ensures
            final(self)@.by_tag == edit(old(self)@.by_tag, t@, TagEdit::Drop(path@)),
            final(self)@.by_path == old(self)@.by_path,
    {
        if let Some(bucket) = bucket_get(&self.by_tag, t) {
            let rest = bucket_without(&bucket, path);
            if rest.len() == 0 {
                bucket_remove(&mut self.by_tag, t);
            } else {
                bucket_put(&mut self.by_tag, t.clone(), rest);
            }
        }
    }

    /// Puts a copy of `art` at the front of the bucket of `t`, in the place
    /// of every reference with the path `old_path`. A tag without a bucket
    /// gets none.
    fn move_to_front(&mut self, t: &String, old_path: &String, art: &ArtRef)
        ensures
            final(self)@.by_tag == edit(old(self)@.by_tag, t@, TagEdit::Front(old_path@, art@)),
            final(self)@.by_path == old(self)@.by_path,
    {
        if let Some(bucket) = bucket_get(&self.by_tag, t) {
            let mut rest = bucket_without(&bucket, old_path);
            let ghost tail = refs(rest@);
            rest.insert(0, art.duplicate());
            assert(refs(rest@) =~= seq![art@] + tail);
            bucket_put(&mut self.by_tag, t.clone(), rest);
        }
    }

    /// Replaces, in the bucket of `t`, every reference that has `art`'s path
    /// by a copy of `art`. A tag without a bucket gets none.
    fn refresh_in_tag(&mut self, t: &String, art: &ArtRef)
        ensures
            final(self)@.by_tag == edit(old(self)@.by_tag, t@, TagEdit::Retitle(art@)),
            final(self)@.by_path == old(self)@.by_path,
    {
        if let Some(bucket) = bucket_get(&self.by_tag, t) {
            bucket_put(&mut self.by_tag, t.clone(), bucket_retitled(&bucket, art));
        }
    }

    /// One edit to the bucket of `t`.
    fn edit_tag(&mut self, t: &String, e: &BucketEdit)
        ensures
            final(self)@.by_tag == edit(old(self)@.by_tag, t@, e@),
            final(self)@.by_path == old(self)@.by_path,
    {
        match e {
            BucketEdit::Append(art) => self.add_to_tag(t, art),
            BucketEdit::Drop(path) => self.remove_from_tag(t, path),
            BucketEdit::Front(path, art) => self.move_to_front(t, path, art),
            BucketEdit::Retitle(art) => self.refresh_in_tag(t, art),
        }
    }

    /// The same edit to the bucket of each tag of `tags`, first to last.
    fn edit_tags(&mut self, tags: &Vec<String>, e: &BucketEdit)
        ensures
            final(self)@.by_tag == edit_each(old(self)@.by_tag, texts(tags@), e@),
            final(self)@.by_path == old(self)@.by_path,
    {
        let mut i: usize = 0;
        assert(texts(tags@).take(0) =~= Seq::<Seq<char>>::empty());
        while i < tags.len()
            invariant
                i <= tags.len(),
                self@.by_tag == edit_each(old(self)@.by_tag, texts(tags@).take(i as int), e@),
                self@.by_path == old(self)@.by_path,
            decreases tags.len() - i,
        {
            proof {
                let next = texts(tags@).take(i + 1);
                assert(next.drop_last() =~= texts(tags@).take(i as int));
                assert(next.last() == tags@[i as int]@);
            }
            self.edit_tag(&tags[i], e);
            i += 1;
        }
        assert(texts(tags@).take(tags@.len() as int) =~= texts(tags@));
    }

    /// Moves the reference of the article that lived at `old_path` to the
    /// front of the bucket of each tag of `tags_to_update`, as `new_art`.
    fn update_path_for_tags(
        &mut self,
        tags_to_update: &Vec<String>,
        old_path: &String,
        new_art: &ArtRef,
    )
        ensures
            final(self)@.by_tag == edit_each(
                old(self)@.by_tag,
                texts(tags_to_update@),
                TagEdit::Front(old_path@, new_art@),
            ),
            final(self)@.by_path == old(self)@.by_path,
    {
        self.edit_tags(tags_to_update, &BucketEdit::Front(old_path.clone(), new_art.duplicate()));
    }
}

} // verus!
