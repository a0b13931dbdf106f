use knowledge::domain::{ArtRef, FileEvent, FileOp, MetadataEvent, TaggedArticle};
use knowledge::header::ParseError;
use knowledge::pipeline::{
    apply, describe, file_event, get_metadata, plan, traverse_tree, Entry, Notice, Step,
};
use knowledge::storage::{IndexError, Store};
use std::collections::HashSet;

const DOC: &str = "---\ntitle: my cool title\ntags:\n    - rust\n    - programming languages\n---\n# body\n";

fn article() -> TaggedArticle {
    TaggedArticle {
        art: ArtRef {
            path: "/notes/a.md".to_string(),
            title: "my cool title".to_string(),
        },
        tags: vec!["rust".to_string(), "programming languages".to_string()],
    }
}

#[test]
fn metadata_of_a_document() {
    assert_eq!(
        Ok(article()),
        get_metadata("/notes/a.md".to_string(), DOC)
    );
}

#[test]
fn metadata_of_a_document_without_tags() {
    assert_eq!(
        Ok(TaggedArticle {
            art: ArtRef {
                path: "p".to_string(),
                title: "t".to_string()
            },
            tags: vec![]
        }),
        get_metadata("p".to_string(), "---\ntitle: t\n---\n")
    );
}

#[test]
fn documents_that_yield_no_article() {
    let path = || "p".to_string();
    assert_eq!(
        Err(ParseError::NoOpeningDelimiter),
        get_metadata(path(), "# just text\n")
    );
    assert_eq!(
        Err(ParseError::NoClosingDelimiter),
        get_metadata(path(), "---\ntitle: t\n")
    );
    assert_eq!(
        Err(ParseError::InvalidYaml),
        get_metadata(path(), "---\ntitle: [t\n---\n")
    );
    assert_eq!(Err(ParseError::NoDocument), get_metadata(path(), "---\n---\n"));
    assert_eq!(
        Err(ParseError::NoTitle),
        get_metadata(path(), "---\ntags: [a]\n---\n")
    );
}

fn same_event(a: &MetadataEvent, b: &MetadataEvent) -> bool {
    match (a, b) {
        (MetadataEvent::Create(x), MetadataEvent::Create(y)) => x == y,
        (MetadataEvent::Changed(x), MetadataEvent::Changed(y)) => x == y,
        (MetadataEvent::Remove(x), MetadataEvent::Remove(y)) => x == y,
        (MetadataEvent::Move(x, z), MetadataEvent::Move(y, w)) => x == y && z == w,
        _ => false,
    }
}

#[test]
fn a_document_amounts_to_a_creation_or_a_change() {
    let created = describe("/notes/a.md".to_string(), DOC, false).unwrap();
    assert!(same_event(&MetadataEvent::Create(article()), &created));
    let changed = describe("/notes/a.md".to_string(), DOC, true).unwrap();
    assert!(same_event(&MetadataEvent::Changed(article()), &changed));
    assert!(matches!(
        describe("p".to_string(), "no header", true),
        Err(ParseError::NoOpeningDelimiter)
    ));
    assert!(matches!(
        describe("p".to_string(), "---\nx: y\n---\n", false),
        Err(ParseError::NoTitle)
    ));
}

fn event(op: FileOp, path: &str, dst: Option<&str>) -> FileEvent {
    FileEvent {
        op,
        path: path.to_string(),
        dst: dst.map(|d| d.to_string()),
    }
}

#[test]
fn what_a_file_event_asks_for() {
    match plan(&event(FileOp::Create, "a", None)) {
        Step::Read(p) => assert_eq!("a", p),
        _ => panic!("a creation needs the file"),
    }
    match plan(&event(FileOp::Write, "a", None)) {
        Step::Read(p) => assert_eq!("a", p),
        _ => panic!("a write needs the file"),
    }
    match plan(&event(FileOp::Remove, "a", None)) {
        Step::Emit(ev) => assert!(same_event(&MetadataEvent::Remove("a".to_string()), &ev)),
        _ => panic!("a removal is passed on"),
    }
    match plan(&event(FileOp::Move, "a", Some("b"))) {
        Step::Emit(ev) => assert!(same_event(
            &MetadataEvent::Move("a".to_string(), "b".to_string()),
            &ev
        )),
        _ => panic!("a move is passed on"),
    }
    assert!(matches!(plan(&event(FileOp::Move, "a", None)), Step::Skip));
}

#[test]
fn notices_become_file_events() {
    assert_eq!(
        Some(event(FileOp::Create, "file1", None)),
        file_event(Notice::Create("file1".to_string()))
    );
    assert_eq!(
        Some(event(FileOp::Write, "file1", None)),
        file_event(Notice::Write("file1".to_string()))
    );
    assert_eq!(
        Some(event(FileOp::Move, "file1", Some("file2"))),
        file_event(Notice::Rename("file1".to_string(), "file2".to_string()))
    );
    assert_eq!(
        Some(event(FileOp::Remove, "file2", None)),
        file_event(Notice::Remove("file2".to_string()))
    );
    assert_eq!(None, file_event(Notice::Other));
}

#[test]
fn a_listing_leads_to_directories_and_discoveries() {
    let entry = |path: &str, is_dir: bool| Entry {
        path: path.to_string(),
        is_dir,
    };
    let (dirs, found) = traverse_tree(&vec![
        entry("root/a.md", false),
        entry("root/sub", true),
        entry("root/b.md", false),
        entry("root/other", true),
    ]);
    assert_eq!(vec!["root/sub".to_string(), "root/other".to_string()], dirs);
    assert_eq!(
        vec![
            event(FileOp::Create, "root/a.md", None),
            event(FileOp::Create, "root/b.md", None)
        ],
        found
    );
    let (dirs, found) = traverse_tree(&vec![]);
    assert!(dirs.is_empty());
    assert!(found.is_empty());
}

#[test]
fn events_are_applied_to_the_store() {
    let mut s = Store::new();
    let a = article();
    assert_eq!(Ok(()), apply(&mut s, MetadataEvent::Create(a.clone())));
    assert_eq!(Some(a.clone()), s.get_by_path(&a.art.path));

    let mut b = a.clone();
    b.art.title = "new title".to_string();
    b.tags = vec!["rust".to_string()];
    assert_eq!(Ok(()), apply(&mut s, MetadataEvent::Changed(b.clone())));
    assert_eq!(Some(b.clone()), s.get_by_path(&a.art.path));
    assert_eq!(vec!["rust".to_string()], s.get_all_tags());

    assert_eq!(
        Ok(()),
        apply(
            &mut s,
            MetadataEvent::Move(a.art.path.clone(), "/notes/b.md".to_string())
        )
    );
    assert!(s.get_by_path(&a.art.path).is_none());
    assert_eq!(
        Some(vec![ArtRef {
            path: "/notes/b.md".to_string(),
            title: "new title".to_string()
        }]),
        s.get_by_tag(&"rust".to_string())
    );

    assert_eq!(
        Err(IndexError::NotFound),
        apply(&mut s, MetadataEvent::Remove(a.art.path.clone()))
    );
    assert_eq!(
        Err(IndexError::NotFound),
        apply(
            &mut s,
            MetadataEvent::Move(a.art.path.clone(), "x".to_string())
        )
    );
    assert_eq!(
        Err(IndexError::NotFound),
        apply(&mut s, MetadataEvent::Changed(a.clone()))
    );
    assert_eq!(1, s.get_all_articles().len());

    assert_eq!(
        Ok(()),
        apply(&mut s, MetadataEvent::Remove("/notes/b.md".to_string()))
    );
    assert!(s.get_all_articles().is_empty());
    assert!(s.get_all_tags().is_empty());
}

fn snapshot(s: &Store) -> (HashSet<TaggedArticle>, Vec<(String, Vec<ArtRef>)>) {
    let articles: HashSet<TaggedArticle> = s.get_all_articles().into_iter().collect();
    let mut tags = s.get_all_tags();
    tags.sort();
    let buckets = tags
        .into_iter()
        .map(|t| {
            let bucket = s.get_by_tag(&t).unwrap();
            (t, bucket)
        })
        .collect();
    (articles, buckets)
}

fn process(s: &mut Store, path: &str, content: &str) {
    let indexed = s.get_by_path(&path.to_string()).is_some();
    if let Ok(ev) = describe(path.to_string(), content, indexed) {
        let _ = apply(s, ev);
    }
}

#[test]
fn an_unchanged_file_processed_again_changes_nothing() {
    let mut s = Store::new();
    process(&mut s, "/notes/other.md", "---\ntitle: other\ntags: [rust, go]\n---\n");
    process(&mut s, "/notes/a.md", DOC);
    let once = snapshot(&s);
    assert_eq!(2, once.0.len());
    assert_eq!(3, once.1.len());
    process(&mut s, "/notes/a.md", DOC);
    assert_eq!(once, snapshot(&s));
    process(&mut s, "/notes/a.md", DOC);
    process(&mut s, "/notes/other.md", "---\ntitle: other\ntags: [rust, go]\n---\n");
    assert_eq!(once, snapshot(&s));

    // a document whose header is gone leaves the index as it is
    process(&mut s, "/notes/a.md", "no header any more");
    assert_eq!(once, snapshot(&s));

    // a tag listed twice in the header does no harm either
    let twice = "---\ntitle: t\ntags: [x, x]\n---\n";
    process(&mut s, "/notes/twice.md", twice);
    let before = snapshot(&s);
    process(&mut s, "/notes/twice.md", twice);
    assert_eq!(before, snapshot(&s));
}

#[test]
fn an_edited_file_is_indexed_anew() {
    let mut s = Store::new();
    process(&mut s, "a", "---\ntitle: one\ntags: [x, y]\n---\n");
    process(&mut s, "a", "---\ntitle: two\ntags: [y, z]\n---\n");
    let two = ArtRef {
        path: "a".to_string(),
        title: "two".to_string(),
    };
    assert!(s.get_by_tag(&"x".to_string()).is_none());
    assert_eq!(Some(vec![two.clone()]), s.get_by_tag(&"y".to_string()));
    assert_eq!(Some(vec![two]), s.get_by_tag(&"z".to_string()));
}
