//! The stages between the disk and the store, as far as they decide
//! anything: what a directory listing leads to, which file event a change
//! notice stands for, what a file event asks for, which mutation a file's
//! content amounts to, and what a mutation does to the store.
//!
//! Reading directories and files, watching for changes and passing values
//! from stage to stage is left to the caller.
use crate::domain::{
    texts, ArtRefView, FileEvent, FileOp, MetadataEvent, MetadataEventView, TaggedArticle,
    TaggedArticleView,
};
use crate::header::{get_yaml_header, header_of, ParseError};
use crate::model::IndexView;
use crate::storage::{outcome, IndexError, Store};
use crate::yaml::{meta_of, yaml_fields, yaml_to_meta};
use vstd::prelude::*;

verus! {

/// One entry of a directory listing.
pub struct Entry {
    pub path: String,
    pub is_dir: bool,
}

/// The paths of the directories among the first `n` entries, in order.
pub open spec fn dirs_of(entries: Seq<Entry>, n: int) -> Seq<Seq<char>>
    decreases n,
{
    if n <= 0 {
        Seq::empty()
    } else if entries[n - 1].is_dir {
        dirs_of(entries, n - 1).push(entries[n - 1].path@)
    } else {
        dirs_of(entries, n - 1)
    }
}

/// The paths of the files among the first `n` entries, in order.
pub open spec fn files_of(entries: Seq<Entry>, n: int) -> Seq<Seq<char>>
    decreases n,
{
    if n <= 0 {
        Seq::empty()
    } else if entries[n - 1].is_dir {
        files_of(entries, n - 1)
    } else {
        files_of(entries, n - 1).push(entries[n - 1].path@)
    }
}

/// Whether `events` reports the discovery of each of `paths`, in order.
pub open spec fn discoveries(events: Seq<FileEvent>, paths: Seq<Seq<char>>) -> bool {
    &&& events.len() == paths.len()
    &&& forall|i: int|
        0 <= i < events.len() ==> (#[trigger] events[i]).op == FileOp::Create && events[i].path@
            == paths[i] && events[i].dst is None
}

/// What the listing of one directory leads to: the subdirectories to list
/// next, and a `Create` event for each file.
pub fn traverse_tree(entries: &Vec<Entry>) -> (r: (Vec<String>, Vec<FileEvent>))
    ensures
        texts(r.0@) == dirs_of(entries@, entries@.len() as int),
        discoveries(r.1@, files_of(entries@, entries@.len() as int)),
{
    let mut dirs: Vec<String> = Vec::new();
    let mut found: Vec<FileEvent> = Vec::new();
    let mut i: usize = 0;
    assert(texts(dirs@) =~= dirs_of(entries@, 0));
    while i < entries.len()
        invariant
            i <= entries.len(),
            texts(dirs@) == dirs_of(entries@, i as int),
            discoveries(found@, files_of(entries@, i as int)),
        decreases entries.len() - i,
    {
        let ghost before = texts(dirs@);
        if entries[i].is_dir {
            dirs.push(entries[i].path.clone());
            assert(texts(dirs@) =~= before.push(entries@[i as int].path@));
        } else {
            found.push(FileEvent { op: FileOp::Create, path: entries[i].path.clone(), dst: None });
        }
        i += 1;
    }
    (dirs, found)
}

/// A change that the file-system watcher reports, after debouncing.
pub enum Notice {
    Create(String),
    Write(String),
    Rename(String, String),
    Remove(String),
    /// Anything else: a change of permissions, a rescan, an error.
    Other,
}

/// The value of an optional path.
pub open spec fn path_view(p: Option<String>) -> Option<Seq<char>> {
    match p {
        Some(s) => Some(s@),
        None => None,
    }
}

/// The file event that a notice stands for; `None` for a notice that the
/// index has no use for.
pub fn file_event(notice: Notice) -> (r: Option<FileEvent>)
    ensures
        match notice {
            Notice::Create(p) => r is Some && r->0.op == FileOp::Create && r->0.path@ == p@
                && r->0.dst is None,
            Notice::Write(p) => r is Some && r->0.op == FileOp::Write && r->0.path@ == p@
                && r->0.dst is None,
            Notice::Rename(src, dst) => r is Some && r->0.op == FileOp::Move && r->0.path@
                == src@ && path_view(r->0.dst) == Some(dst@),
            Notice::Remove(p) => r is Some && r->0.op == FileOp::Remove && r->0.path@ == p@
                && r->0.dst is None,
            Notice::Other => r is None,
        },
{
    match notice {
        Notice::Create(p) => Some(FileEvent { op: FileOp::Create, path: p, dst: None }),
        Notice::Write(p) => Some(FileEvent { op: FileOp::Write, path: p, dst: None }),
        Notice::Rename(src, dst) => Some(FileEvent { op: FileOp::Move, path: src, dst: Some(dst) }),
        Notice::Remove(p) => Some(FileEvent { op: FileOp::Remove, path: p, dst: None }),
        Notice::Other => None,
    }
}

/// What a file event asks of the extractor.
pub enum Step {
    /// Read the file at this path and hand its content to [`describe`].
    Read(String),
    /// Pass this mutation on; no file is read.
    Emit(MetadataEvent),
    /// Do nothing.
    Skip,
}

/// The mathematical value of a [`Step`].
pub enum StepView {
    Read(Seq<char>),
    Emit(MetadataEventView),
    Skip,
}

impl View for Step {
    type V = StepView;

    open spec fn view(&self) -> StepView {
        match self {
            Step::Read(p) => StepView::Read(p@),
            Step::Emit(ev) => StepView::Emit(ev@),
            Step::Skip => StepView::Skip,
        }
    }
}

/// What an event with these parts asks for. A removal and a move are passed
/// on without a look at any file; a move without a destination is dropped; a
/// creation and a write need the file's content.
pub open spec fn planned(op: FileOp, path: Seq<char>, dst: Option<Seq<char>>) -> StepView {
    match op {
        FileOp::Remove => StepView::Emit(MetadataEventView::Remove(path)),
        FileOp::Move => match dst {
            Some(d) => StepView::Emit(MetadataEventView::Move(path, d)),
            None => StepView::Skip,
        },
        FileOp::Create => StepView::Read(path),
        FileOp::Write => StepView::Read(path),
    }
}

/// What `event` asks of the extractor.
pub fn plan(event: &FileEvent) -> (r: Step)
    ensures
        r@ == planned(event.op, event.path@, path_view(event.dst)),
{
    match event.op {
        FileOp::Remove => Step::Emit(MetadataEvent::Remove(event.path.clone())),
        FileOp::Move => match &event.dst {
            Some(dst) => Step::Emit(MetadataEvent::Move(event.path.clone(), dst.clone())),
            None => Step::Skip,
        },
        FileOp::Create => Step::Read(event.path.clone()),
        FileOp::Write => Step::Read(event.path.clone()),
    }
}

/// The article that a document at `path` with the text `content` describes,
/// or why it describes none.
pub open spec fn article_of(path: Seq<char>, content: Seq<char>) -> Result<
    TaggedArticleView,
    ParseError,
> {
    match header_of(content) {
        Err(e) => Err(e),
        Ok(header) => match meta_of(yaml_fields(header, "title"@, "tags"@)) {
            Err(e) => Err(e),
            Ok(meta) => Ok(
                TaggedArticleView {
                    art: ArtRefView { path: path, title: meta.0 },
                    tags: meta.1,
                },
            ),
        },
    }
}

/// The value of an article, or of the error in its place.
pub open spec fn article_view(r: Result<TaggedArticle, ParseError>) -> Result<
    TaggedArticleView,
    ParseError,
> {
    match r {
        Ok(a) => Ok(a@),
        Err(e) => Err(e),
    }
}

/// The article that the document at `path` with the text `content`
/// describes.
pub fn get_metadata(path: String, content: &str) -> (r: Result<TaggedArticle, ParseError>)
    ensures
        article_view(r) == article_of(path@, content@),
{
    let yaml = match get_yaml_header(content) {
        Ok(yaml) => yaml,
        Err(e) => {
            return Err(e);
        },
    };
    let (title, tags) = match yaml_to_meta(yaml.as_str()) {
        Ok(meta) => meta,
        Err(e) => {
            return Err(e);
        },
    };
    Ok(TaggedArticle::new(path, title.as_str(), tags.as_slice()))
}

/// The mutation that an article amounts to: a change where its path is
/// indexed already, a creation where it is not.
pub open spec fn mutation_of(a: TaggedArticleView, indexed: bool) -> MetadataEventView {
    if indexed {
        MetadataEventView::Changed(a)
    } else {
        MetadataEventView::Create(a)
    }
}

/// The index after the document at `path` with the text `content` has gone
/// through extraction and application: unchanged where the document yields
/// no article.
pub open spec fn processed(s: IndexView, path: Seq<char>, content: Seq<char>) -> IndexView {
    match article_of(path, content) {
        Ok(a) => s.apply(mutation_of(a, s.by_path.contains_key(path))),
        Err(e) => s,
    }
}

/// The value of a mutation, or of the error in its place.
pub open spec fn event_view(r: Result<MetadataEvent, ParseError>) -> Result<
    MetadataEventView,
    ParseError,
> {
    match r {
        Ok(ev) => Ok(ev@),
        Err(e) => Err(e),
    }
}

/// The mutation that the content of the file at `path` amounts to, given
/// whether the path is indexed already. A document without a proper header
/// amounts to none.
pub fn describe(path: String, content: &str, indexed: bool) -> (r: Result<
    MetadataEvent,
    ParseError,
>)
    ensures
        event_view(r) == match article_of(path@, content@) {
            Ok(a) => Ok::<MetadataEventView, ParseError>(mutation_of(a, indexed)),
            Err(e) => Err::<MetadataEventView, ParseError>(e),
        },
{
    match get_metadata(path, content) {
        Ok(m) => if indexed {
            Ok(MetadataEvent::Changed(m))
        } else {
            Ok(MetadataEvent::Create(m))
        },
        Err(e) => Err(e),
    }
}

/// Carries one mutation out on the store. A removal, a move or a change of
/// an article that the store does not hold is an error, and changes nothing.
pub fn apply(store: &mut Store, ev: MetadataEvent) -> (r: Result<(), IndexError>)
    ensures
        final(store)@ == old(store)@.apply(ev@),
        r == outcome(old(store)@.knows(ev@)),
{
    match ev {
        MetadataEvent::Create(m) => {
            store.insert(&m);
            Ok(())
        },
        MetadataEvent::Remove(p) => store.remove(&p),
        MetadataEvent::Move(src, dst) => store.update_path(src, dst),
        MetadataEvent::Changed(m) => store.update_meta(&m),
    }
}

} // verus!
