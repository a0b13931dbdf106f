//! The values that flow through the index: article references, tagged
//! articles, raw file events and the index mutations derived from them.
use vstd::prelude::*;

verus! {

/// The mathematical value of an [`ArtRef`].
pub struct ArtRefView {
    pub path: Seq<char>,
    pub title: Seq<char>,
}

/// The mathematical value of a [`TaggedArticle`].
pub struct TaggedArticleView {
    pub art: ArtRefView,
    pub tags: Seq<Seq<char>>,
}

/// The texts of a sequence of strings, in order.
pub open spec fn texts(strings: Seq<String>) -> Seq<Seq<char>> {
    Seq::new(strings.len(), |i: int| strings[i]@)
}

/// The values of a sequence of article references, in order.
pub open spec fn refs(arts: Seq<ArtRef>) -> Seq<ArtRefView> {
    Seq::new(arts.len(), |i: int| arts[i]@)
}

/// A document's identity: its path, together with its title.
#[derive(Debug, Clone, PartialEq, Eq, Hash, PartialOrd, Ord)]
pub struct ArtRef {
    pub path: String,
    pub title: String,
}

impl View for ArtRef {
    type V = ArtRefView;

    open spec fn view(&self) -> ArtRefView {
        ArtRefView { path: self.path@, title: self.title@ }
    }
}

impl ArtRef {
    pub fn new(path: String, title: &str) -> (r: Self)
        ensures
            r@ == (ArtRefView { path: path@, title: title@ }),
    {
        ArtRef { path, title: title.to_owned() }
    }

    /// A fresh reference with the same path and title.
    pub fn duplicate(&self) -> (r: Self)
        ensures
            r@ == self@,
    {
        ArtRef { path: self.path.clone(), title: self.title.clone() }
    }

    /// Whether two references have the same path and the same title.
    pub fn same(&self, other: &ArtRef) -> (r: bool)
        ensures
            r == (self@ == other@),
    {
        self.path == other.path && self.title == other.title
    }
}

/// A document's full indexed state: its reference and its tags, in the order
/// in which the header lists them.
#[derive(Debug, Clone, PartialEq, Eq, Hash, PartialOrd, Ord)]
pub struct TaggedArticle {
    pub art: ArtRef,
    pub tags: Vec<String>,
}

impl View for TaggedArticle {
    type V = TaggedArticleView;

    open spec fn view(&self) -> TaggedArticleView {
        TaggedArticleView { art: self.art@, tags: texts(self.tags@) }
    }
}

/// A fresh vector holding the same strings in the same order.
pub fn copy_tags(tags: &[String]) -> (r: Vec<String>)
    ensures
        texts(r@) == texts(tags@),
{
    let mut out: Vec<String> = Vec::new();
    let mut i: usize = 0;
    while i < tags.len()
        invariant
            i <= tags.len(),
            out@.len() == i,
            forall|j: int| 0 <= j < i ==> out@[j]@ == tags@[j]@,
        decreases tags.len() - i,
    {
        out.push(tags[i].clone());
        i += 1;
    }
    assert(texts(out@) =~= texts(tags@));
    out
}

impl TaggedArticle {
    pub fn new(path: String, title: &str, tags: &[String]) -> (r: Self)
        ensures
            r@ == (TaggedArticleView {
                art: ArtRefView { path: path@, title: title@ },
                tags: texts(tags@),
            }),
    {
        TaggedArticle { art: ArtRef::new(path, title), tags: copy_tags(tags) }
    }

    pub fn new_from_art(art: &ArtRef, tags: &[String]) -> (r: Self)
        ensures
            r@ == (TaggedArticleView { art: art@, tags: texts(tags@) }),
    {
        TaggedArticle { art: art.duplicate(), tags: copy_tags(tags) }
    }

    /// A fresh article with the same reference and the same tags.
    pub fn duplicate(&self) -> (r: Self)
        ensures
            r@ == self@,
    {
        TaggedArticle { art: self.art.duplicate(), tags: copy_tags(self.tags.as_slice()) }
    }
}

/// An index mutation, derived from a file event and the file's content.
#[derive(Debug)]
pub enum MetadataEvent {
    Create(TaggedArticle),
    Move(String, String),
    Remove(String),
    Changed(TaggedArticle),
}

/// The mathematical value of a [`MetadataEvent`].
pub enum MetadataEventView {
    Create(TaggedArticleView),
    Move(Seq<char>, Seq<char>),
    Remove(Seq<char>),
    Changed(TaggedArticleView),
}

impl View for MetadataEvent {
    type V = MetadataEventView;

    open spec fn view(&self) -> MetadataEventView {
        match self {
            MetadataEvent::Create(a) => MetadataEventView::Create(a@),
            MetadataEvent::Move(src, dst) => MetadataEventView::Move(src@, dst@),
            MetadataEvent::Remove(p) => MetadataEventView::Remove(p@),
            MetadataEvent::Changed(a) => MetadataEventView::Changed(a@),
        }
    }
}

/// What happened to a file.
#[derive(Debug, PartialEq, Eq, Clone, Copy)]
pub enum FileOp {
    Create,
    Remove,
    Write,
    Move,
}

/// A raw change to one file. `dst` is set only for a move.
#[derive(Debug, PartialEq, Eq, Clone)]
pub struct FileEvent {
    pub op: FileOp,
    pub path: String,
    pub dst: Option<String>,
}

/// How a query combines two results.
#[derive(Debug, PartialEq, Eq, Clone, Copy)]
pub enum Op {
    And,
    Or,
}

} // verus!
