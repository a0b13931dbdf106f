use knowledge::domain::{ArtRef, Op, TaggedArticle};
use knowledge::exp::Exp;
use knowledge::search::{search_by_tag, Query};
use knowledge::storage::Store;
use std::collections::HashSet;

// helpers
fn new_comb(op: Op, q1: Query, q2: Query) -> Query {
    Query::Comb(op, Box::new(q1), Box::new(q2))
}

fn title(i: u8) -> String {
    format!("title_{}", i)
}

fn tag(i: u8) -> String {
    format!("tag_{}", i)
}

fn sing(t: &str) -> Query {
    Query::Sing(t.to_string())
}

/// The references as a set, after a check that none occurs twice.
fn as_set(items: Vec<ArtRef>) -> HashSet<ArtRef> {
    let n = items.len();
    let set: HashSet<ArtRef> = items.into_iter().collect();
    assert_eq!(n, set.len());
    set
}

fn set_of(items: &[&ArtRef]) -> HashSet<ArtRef> {
    items.iter().map(|a| (*a).clone()).collect()
}

#[test]
fn search_sing() {
    let mut s = Store::new();
    let art0 = ArtRef::new(String::new(), &title(0));
    let art1 = ArtRef::new(String::new(), &title(1));
    let m0 = &TaggedArticle::new_from_art(&art0, &vec![tag(0)]);
    let m1 = &TaggedArticle::new_from_art(&art1, &vec![tag(1)]);
    s.insert(m0);
    s.insert(m1);

    let nothing: Vec<ArtRef> = vec![];
    assert_eq!(nothing, search_by_tag(&Query::Sing("bla".to_string()), &s));
    assert_eq!(vec![art0], search_by_tag(&Query::Sing(tag(0)), &s));
    assert_eq!(vec![art1], search_by_tag(&Query::Sing(tag(1)), &s));
}

#[test]
fn search_comb() {
    let mut s = Store::new();
    let m0 = TaggedArticle::new(String::new(), &title(0), &vec![tag(0)]);
    let m1 = TaggedArticle::new(String::new(), &title(1), &vec![tag(1)]);

    let art2 = ArtRef::new(String::new(), &title(2));
    let m2 = TaggedArticle::new_from_art(&art2, &vec![tag(0), tag(1)]);
    s.insert(&m0);
    s.insert(&m1);
    s.insert(&m2);

    assert_eq!(
        vec![m0.clone(), m1.clone(), m2.clone()].sort(),
        search_by_tag(
            &new_comb(Op::Or, Query::Sing(tag(0)), Query::Sing(tag(1))),
            &s
        )
        .sort()
    );
    assert_eq!(
        set_of(&[&m0.art, &m1.art, &m2.art]),
        as_set(search_by_tag(
            &new_comb(Op::Or, Query::Sing(tag(0)), Query::Sing(tag(1))),
            &s
        ))
    );

    assert_eq!(
        vec![art2],
        search_by_tag(
            &new_comb(Op::And, Query::Sing(tag(0)), Query::Sing(tag(1))),
            &s
        )
    );
}

fn doc(path: &str, tags: &[&str]) -> TaggedArticle {
    let tags: Vec<String> = tags.iter().map(|t| t.to_string()).collect();
    TaggedArticle::new(path.to_string(), path, &tags)
}

#[test]
fn round_trip_of_two_documents() {
    let doc1 = doc("doc1", &["x", "y"]);
    let doc2 = doc("doc2", &["y", "z"]);
    let mut s = Store::new();
    s.insert(&doc1);
    s.insert(&doc2);

    let all: HashSet<String> = s.get_all_tags().into_iter().collect();
    let xyz: HashSet<String> = ["x", "y", "z"].iter().map(|t| t.to_string()).collect();
    assert_eq!(xyz, all);
    assert_eq!(3, s.get_all_tags().len());

    assert_eq!(
        set_of(&[&doc1.art, &doc2.art]),
        as_set(s.get_by_tag(&"y".to_string()).unwrap())
    );
    assert_eq!(
        HashSet::new(),
        as_set(search_by_tag(&new_comb(Op::And, sing("x"), sing("z")), &s))
    );
    assert_eq!(
        set_of(&[&doc1.art, &doc2.art]),
        as_set(search_by_tag(&new_comb(Op::Or, sing("x"), sing("z")), &s))
    );
}

#[test]
fn or_is_union_and_and_is_intersection() {
    let mut s = Store::new();
    s.insert(&doc("1", &["a"]));
    s.insert(&doc("2", &["a", "b"]));
    s.insert(&doc("3", &["b", "c"]));
    s.insert(&doc("4", &["c"]));

    let a = as_set(search_by_tag(&sing("a"), &s));
    let b = as_set(search_by_tag(&sing("b"), &s));
    let c = as_set(search_by_tag(&sing("c"), &s));
    assert_eq!(2, a.len());

    let a_or_b = as_set(search_by_tag(&new_comb(Op::Or, sing("a"), sing("b")), &s));
    assert_eq!(a.union(&b).cloned().collect::<HashSet<ArtRef>>(), a_or_b);
    assert_eq!(3, a_or_b.len());

    let a_and_b = as_set(search_by_tag(&new_comb(Op::And, sing("a"), sing("b")), &s));
    assert_eq!(a.intersection(&b).cloned().collect::<HashSet<ArtRef>>(), a_and_b);
    assert_eq!(1, a_and_b.len());

    // nested, and nested the other way
    let left = new_comb(Op::Or, new_comb(Op::Or, sing("a"), sing("b")), sing("c"));
    let right = new_comb(Op::Or, sing("a"), new_comb(Op::Or, sing("b"), sing("c")));
    assert_eq!(as_set(search_by_tag(&left, &s)), as_set(search_by_tag(&right, &s)));
    assert_eq!(4, search_by_tag(&left, &s).len());

    let mixed = new_comb(Op::And, new_comb(Op::Or, sing("a"), sing("c")), sing("b"));
    let expected: HashSet<ArtRef> = a
        .union(&c)
        .cloned()
        .collect::<HashSet<ArtRef>>()
        .intersection(&b)
        .cloned()
        .collect();
    assert_eq!(expected, as_set(search_by_tag(&mixed, &s)));
    assert_eq!(2, expected.len());

    // the two sides change places
    assert_eq!(
        as_set(search_by_tag(&new_comb(Op::And, sing("b"), sing("a")), &s)),
        a_and_b
    );
}

#[test]
fn a_query_for_an_unknown_tag_matches_nothing() {
    let mut s = Store::new();
    s.insert(&doc("1", &["a"]));
    assert!(search_by_tag(&sing("nope"), &s).is_empty());
    assert!(search_by_tag(&new_comb(Op::And, sing("a"), sing("nope")), &s).is_empty());
    assert_eq!(
        1,
        search_by_tag(&new_comb(Op::Or, sing("a"), sing("nope")), &s).len()
    );
}

#[test]
fn expressions_of_different_shape_can_be_equivalent() {
    let items = |v: &[&str]| -> Vec<String> { v.iter().map(|s| s.to_string()).collect() };
    let flat: Exp<String> = Exp::Sing(items(&["1", "2", "3"]));
    let nested = Exp::Comb(
        Op::Or,
        Box::new(Exp::Sing(items(&["3", "1"]))),
        Box::new(Exp::Comb(
            Op::And,
            Box::new(Exp::Sing(items(&["3", "1", "2"]))),
            Box::new(Exp::Sing(items(&["3", "2", "4"]))),
        )),
    );
    assert!(flat.equivalent(&nested));
    assert!(nested.equivalent(&flat));
    assert!(!flat.equivalent(&Exp::Sing(items(&["1", "2"]))));
    assert!(!Exp::Sing(items(&["1", "2"])).equivalent(&flat));

    // an item listed twice counts once
    let twice: Exp<String> = Exp::Sing(items(&["1", "1", "2"]));
    assert_eq!(items(&["1", "2"]), twice.reduce());
    assert_eq!(items(&["1"]), twice.inter(&Exp::Sing(items(&["3", "1"]))));
    assert_eq!(
        items(&["1", "2", "3"]),
        twice.union(&Exp::Sing(items(&["3", "1"])))
    );
}
