use knowledge::domain::Op;
use knowledge::exp::Exp;
use std::collections::HashSet;

fn to_items(v: Vec<u8>) -> Vec<String> {
    v.into_iter().map(|i| format!("{}", i)).collect()
}

fn to_exp(v: Vec<u8>) -> Exp<String> {
    Exp::Sing(to_items(v))
}

fn to_hash(v: Vec<u8>) -> HashSet<String> {
    v.into_iter().map(|i| format!("{}", i)).collect()
}

/// The items as a set, after a check that none occurs twice.
fn as_set(items: Vec<String>) -> HashSet<String> {
    let n = items.len();
    let set: HashSet<String> = items.into_iter().collect();
    assert_eq!(n, set.len());
    set
}

#[test]
fn eq_to_self() {
    let a = to_hash(vec![1, 2, 3]);
    assert_eq!(a.clone(), as_set(Exp::Sing(to_items(vec![1, 2, 3])).reduce()));
}

#[test]
fn eq_to_union() {
    assert_eq!(
        to_hash(vec![1, 2, 3]),
        as_set(
            Exp::Comb(
                Op::Or,
                Box::new(to_exp(vec![1, 3])),
                Box::new(to_exp(vec![3, 2]))
            )
            .reduce()
        )
    );
}

#[test]
fn eq_to_inter() {
    assert_eq!(
        to_hash(vec![3]),
        as_set(
            Exp::Comb(
                Op::And,
                Box::new(to_exp(vec![1, 3])),
                Box::new(to_exp(vec![3, 2]))
            )
            .reduce()
        )
    );
}

#[test]
fn eq_to_union_inter_reduce() {
    let a = Exp::Comb(
        Op::Or,
        Box::new(to_exp(vec![1, 3])),
        Box::new(Exp::Comb(
            Op::And,
            Box::new(to_exp(vec![3, 1, 2])),
            Box::new(to_exp(vec![3, 2, 4])),
        )),
    );

    assert_eq!(to_hash(vec![1, 2, 3]), as_set(a.reduce()));
}
