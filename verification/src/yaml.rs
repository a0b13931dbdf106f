//! The YAML of a header, read by the `yaml-rust` crate, and what the index
//! takes from it: a title and a list of tags.
use crate::domain::texts;
use crate::header::ParseError;
use vstd::prelude::*;
use yaml_rust::{ScanError, YamlLoader};

verus! {

/// `yaml_rust::ScanError`, the loader's report of text that is not YAML. The
/// library looks at nothing inside it.
#[verifier::external_type_specification]
#[verifier::external_body]
pub struct ExScanError(ScanError);

/// What one YAML document holds under two keys.
pub struct Fields {
    /// The string that the document maps the first key to, if the document
    /// is a mapping that has the key with a string for its value.
    pub text: Option<String>,
    /// The items of the sequence that the document maps the second key to, if
    /// the document is a mapping that has the key with a sequence for its
    /// value. An item that is a string is given by its text, any other item
    /// by `None`.
    pub list: Option<Vec<Option<String>>>,
}

/// The mathematical value of [`Fields`].
pub struct FieldsView {
    pub text: Option<Seq<char>>,
    pub list: Option<Seq<Option<Seq<char>>>>,
}

/// The value of one list item.
pub open spec fn item_view(item: Option<String>) -> Option<Seq<char>> {
    match item {
        Some(s) => Some(s@),
        None => None,
    }
}

impl View for Fields {
    type V = FieldsView;

    open spec fn view(&self) -> FieldsView {
        FieldsView {
            text: match self.text {
                Some(s) => Some(s@),
                None => None,
            },
            list: match self.list {
                Some(items) => Some(Seq::new(items@.len(), |i: int| item_view(items@[i]))),
                None => None,
            },
        }
    }
}

/// The values of a sequence of documents' fields, in order.
pub open spec fn fields_views(docs: Seq<Fields>) -> Seq<FieldsView> {
    Seq::new(docs.len(), |i: int| docs[i]@)
}

/// What `YamlLoader::load_from_str` makes of `source`, as far as the two keys
/// show it: `None` where the loader reports an error; else, for each document
/// of the stream, in order, what it holds under `text_key` and `list_key`.
pub uninterp spec fn yaml_fields(
    source: Seq<char>,
    text_key: Seq<char>,
    list_key: Seq<char>,
) -> Option<Seq<FieldsView>>;

/// `YamlLoader::load_from_str`, then `Yaml`'s index by a string key and its
/// `as_str` and `as_vec` on each document. The loader reads nothing but its
/// argument, so the same text and keys always give the same fields. The
/// contract also takes it that the loader returns for every text.
#[verifier::external_body]
pub(crate) fn load_fields(source: &str, text_key: &str, list_key: &str) -> (r: Result<
    Vec<Fields>,
    ScanError,
>)
    ensures
        r is Ok <==> yaml_fields(source@, text_key@, list_key@) is Some,
        r is Ok ==> yaml_fields(source@, text_key@, list_key@) == Some(fields_views(r->Ok_0@)),
{
    let docs = YamlLoader::load_from_str(source)?;
    Ok(docs.iter().map(|doc| Fields {
        text: doc[text_key].as_str().map(|s| s.to_string()),
        list: doc[list_key].as_vec().map(|items| {
            items.iter().map(|item| item.as_str().map(|s| s.to_string())).collect()
        }),
    }).collect())
}

/// The texts of the items that are strings, in order.
pub open spec fn present(items: Seq<Option<Seq<char>>>) -> Seq<Seq<char>> {
    items.filter_map(|item: Option<Seq<char>>| item)
}

/// The title and the tags that a header yields, given what its YAML holds
/// under `title` and `tags`. The first document counts. Its title must be a
/// string. Tags that are missing, or no sequence, are no tags; an item of the
/// sequence that is no string is passed over.
pub open spec fn meta_of(docs: Option<Seq<FieldsView>>) -> Result<
    (Seq<char>, Seq<Seq<char>>),
    ParseError,
> {
    match docs {
        None => Err(ParseError::InvalidYaml),
        Some(ds) => if ds.len() == 0 {
            Err(ParseError::NoDocument)
        } else {
            match ds[0].text {
                None => Err(ParseError::NoTitle),
                Some(title) => Ok(
                    (
                        title,
                        match ds[0].list {
                            Some(items) => present(items),
                            None => Seq::empty(),
                        },
                    ),
                ),
            }
        },
    }
}

/// The value of a title with its tags, or of the error in their place.
pub open spec fn meta_view(r: Result<(String, Vec<String>), ParseError>) -> Result<
    (Seq<char>, Seq<Seq<char>>),
    ParseError,
> {
    match r {
        Ok(meta) => Ok((meta.0@, texts(meta.1@))),
        Err(e) => Err(e),
    }
}

/// The title and the tags of the first of `docs`.
pub fn meta_from_fields(docs: &Vec<Fields>) -> (r: Result<(String, Vec<String>), ParseError>)
    ensures
        meta_view(r) == meta_of(Some(fields_views(docs@))),
{
    if docs.len() == 0 {
        return Err(ParseError::NoDocument);
    }
    let doc = &docs[0];
    assert(fields_views(docs@)[0] == doc@);
    let title = match &doc.text {
        Some(title) => title.clone(),
        None => {
            return Err(ParseError::NoTitle);
        },
    };
    let mut tags: Vec<String> = Vec::new();
    match &doc.list {
        Some(tt) => {
            let ghost items = doc@.list->0;
            let mut i: usize = 0;
            assert(items.take(0) =~= Seq::<Option<Seq<char>>>::empty());
            while i < tt.len()
                invariant
                    i <= tt.len(),
                    items.len() == tt@.len(),
                    forall|j: int| 0 <= j < tt@.len() ==> items[j] == item_view(tt@[j]),
                    texts(tags@) == present(items.take(i as int)),
                decreases tt.len() - i,
            {
                let ghost before = texts(tags@);
                proof {
                    let next = items.take(i + 1);
                    assert(next.drop_last() =~= items.take(i as int));
                    assert(next.last() == item_view(tt@[i as int]));
                }
                match &tt[i] {
                    Some(tag) => {
                        tags.push(tag.clone());
                        assert(texts(tags@) =~= before + seq![tag@]);
                    },
                    None => {},
                }
                i += 1;
            }
            assert(items.take(items.len() as int) =~= items);
        },
        None => {
            assert(texts(tags@) =~= Seq::<Seq<char>>::empty());
        },
    }
    Ok((title, tags))
}

/// The title and the tags that the YAML text `s` gives.
pub fn yaml_to_meta(s: &str) -> (r: Result<(String, Vec<String>), ParseError>)
    ensures
        meta_view(r) == meta_of(yaml_fields(s@, "title"@, "tags"@)),
{
    match load_fields(s, "title", "tags") {
        Ok(docs) => meta_from_fields(&docs),
        Err(_) => Err(ParseError::InvalidYaml),
    }
}

} // verus!
