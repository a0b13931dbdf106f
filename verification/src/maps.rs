//! The two concurrent maps that back the store, and what this library
//! relies on from them.
//!
//! Nothing in this file is proved: every contract here restates what the
//! `dashmap` crate documents for the method that the function calls. Each
//! function borrows the map exclusively or reads it while no writer exists,
//! so the contents that the contracts speak of cannot change underneath a
//! call.
use crate::domain::{refs, texts, ArtRef, ArtRefView, TaggedArticle, TaggedArticleView};
use dashmap::DashMap;
use vstd::prelude::*;

verus! {

/// `dashmap::DashMap`, taken as it is: what a map holds is known only
/// through the functions below.
#[verifier::external_type_specification]
#[verifier::external_body]
#[verifier::reject_recursive_types(K)]
#[verifier::reject_recursive_types(V)]
#[verifier::reject_recursive_types(S)]
pub struct ExDashMap<K, V, S>(DashMap<K, V, S>);

/// The entries of a by-tag map: for each tag that has an entry, its bucket.
pub uninterp spec fn buckets(m: DashMap<String, Vec<ArtRef>>) -> Map<Seq<char>, Seq<ArtRefView>>;

/// The entries of a by-path map: for each path that has an entry, its article.
pub uninterp spec fn articles(m: DashMap<String, TaggedArticle>) -> Map<
    Seq<char>,
    TaggedArticleView,
>;

/// `DashMap::new`: the map it returns has no entry.
#[verifier::external_body]
pub(crate) fn new_buckets() -> (m: DashMap<String, Vec<ArtRef>>)
    ensures
        forall|tag: Seq<char>| !buckets(m).contains_key(tag),
{
    DashMap::new()
}

/// `DashMap::get`: a copy of the bucket stored under `tag`, or `None` where
/// the map has no entry for `tag`.
#[verifier::external_body]
pub(crate) fn bucket_get(m: &DashMap<String, Vec<ArtRef>>, tag: &String) -> (r: Option<
    Vec<ArtRef>,
>)
    ensures
        r is Some <==> buckets(*m).contains_key(tag@),
        r is Some ==> refs(r->0@) == buckets(*m)[tag@],
{
    m.get(tag).map(|entry| entry.value().clone())
}

/// `DashMap::insert`: afterwards `tag` maps to `bucket`, whether or not it had
/// an entry before; every other entry is as it was.
#[verifier::external_body]
pub(crate) fn bucket_put(m: &mut DashMap<String, Vec<ArtRef>>, tag: String, bucket: Vec<ArtRef>)
    ensures
        buckets(*final(m)) == buckets(*old(m)).insert(tag@, refs(bucket@)),
{
    m.insert(tag, bucket);
}

/// `DashMap::remove`: afterwards `tag` has no entry; every other entry is as
/// it was.
#[verifier::external_body]
pub(crate) fn bucket_remove(m: &mut DashMap<String, Vec<ArtRef>>, tag: &String)
    ensures
        buckets(*final(m)) == buckets(*old(m)).remove(tag@),
{
    m.remove(tag);
}

/// `DashMap::iter`: it visits every entry once, in no particular order. The
/// result holds a copy of each key.
#[verifier::external_body]
pub(crate) fn bucket_tags(m: &DashMap<String, Vec<ArtRef>>) -> (r: Vec<String>)
    ensures
        texts(r@).no_duplicates(),
        texts(r@).to_set() == buckets(*m).dom(),
{
    m.iter().map(|entry| entry.key().clone()).collect()
}

/// `DashMap::new`: the map it returns has no entry.
#[verifier::external_body]
pub(crate) fn new_articles() -> (m: DashMap<String, TaggedArticle>)
    ensures
        forall|path: Seq<char>| !articles(m).contains_key(path),
{
    DashMap::new()
}

/// `DashMap::get`: a copy of the article stored under `path`, or `None` where
/// the map has no entry for `path`.
#[verifier::external_body]
pub(crate) fn article_get(m: &DashMap<String, TaggedArticle>, path: &String) -> (r: Option<
    TaggedArticle,
>)
    ensures
        r is Some <==> articles(*m).contains_key(path@),
        r is Some ==> r->0@ == articles(*m)[path@],
{
    m.get(path).map(|entry| entry.value().clone())
}

/// `DashMap::insert`: afterwards `path` maps to `article`, whether or not it
/// had an entry before; every other entry is as it was.
#[verifier::external_body]
pub(crate) fn article_put(m: &mut DashMap<String, TaggedArticle>, path: String, article: TaggedArticle)
    ensures
        articles(*final(m)) == articles(*old(m)).insert(path@, article@),
{
    m.insert(path, article);
}

/// `DashMap::remove`: it hands out the article that was stored under `path`,
/// or `None` where there was none. Afterwards `path` has no entry; every
/// other entry is as it was.
#[verifier::external_body]
pub(crate) fn article_remove(m: &mut DashMap<String, TaggedArticle>, path: &String) -> (r: Option<
    TaggedArticle,
>)
    ensures
        articles(*final(m)) == articles(*old(m)).remove(path@),
        r is Some <==> articles(*old(m)).contains_key(path@),
        r is Some ==> r->0@ == articles(*old(m))[path@],
{
    m.remove(path).map(|entry| entry.1)
}

/// `DashMap::iter`: it visits every entry once, in no particular order. The
/// result holds a copy of each entry's key and value.
#[verifier::external_body]
pub(crate) fn article_entries(m: &DashMap<String, TaggedArticle>) -> (r: Vec<
    (String, TaggedArticle),
>)
    ensures
        forall|i: int, j: int| 0 <= i < j < r@.len() ==> r@[i].0@ != r@[j].0@,
        forall|i: int|
            0 <= i < r@.len() ==> articles(*m).contains_key(#[trigger] r@[i].0@) && articles(
                *m,
            )[r@[i].0@] == r@[i].1@,
        forall|p: Seq<char>|
            articles(*m).contains_key(p) ==> exists|i: int| 0 <= i < r@.len() && r@[i].0@ == p,
{
    m.iter().map(|entry| (entry.key().clone(), entry.value().clone())).collect()
}

} // verus!
