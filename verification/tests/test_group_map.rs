use seqpipe::group_map::{into_group_map, into_group_map_by};
use seqpipe::iter::pulls;
use seqpipe::sources::{count_from, from_vec};
use seqpipe::zip::izip2;

#[test]
fn group_map_keeps_value_order_per_key() {
    let pairs = vec![(0, 10), (2, 12), (4, 14), (0, 20), (2, 22), (0, 30)];
    let lookup = into_group_map(pairs.into_iter());
    assert_eq!(lookup.len(), 3);
    assert_eq!(lookup[&0], vec![10, 20, 30]);
    assert_eq!(lookup[&2], vec![12, 22]);
    assert_eq!(lookup[&4], vec![14]);
    assert!(!lookup.contains_key(&1));
}

#[test]
fn group_map_of_nothing_is_empty() {
    let lookup = into_group_map(Vec::<(u8, u8)>::new().into_iter());
    assert!(lookup.is_empty());
    let lookup = into_group_map_by(Vec::<u8>::new().into_iter(), |x: &u8| *x);
    assert!(lookup.is_empty());
}

#[test]
fn group_map_by_uses_the_key_function() {
    let lookup = into_group_map_by(1u32..8, |x: &u32| *x % 3);
    assert_eq!(lookup.len(), 3);
    assert_eq!(lookup[&0], vec![3, 6]);
    assert_eq!(lookup[&1], vec![1, 4, 7]);
    assert_eq!(lookup[&2], vec![2, 5]);
}

#[test]
fn group_map_with_one_key() {
    let lookup = into_group_map(vec![("k", 3), ("k", 1), ("k", 2)].into_iter());
    assert_eq!(lookup.len(), 1);
    assert_eq!(lookup["k"], vec![3, 1, 2]);
    let by = into_group_map_by(vec![3, 1, 2].into_iter(), |_: &i32| ());
    assert_eq!(by[&()], vec![3, 1, 2]);
}

#[test]
fn group_map_by_with_a_counting_key_function() {
    let mut calls = 0;
    let lookup = into_group_map_by("abcab".chars(), |c: &char| {
        calls += 1;
        *c
    });
    assert_eq!(calls, 5);
    assert_eq!(lookup[&'a'], vec!['a', 'a']);
    assert_eq!(lookup[&'b'], vec!['b', 'b']);
    assert_eq!(lookup[&'c'], vec!['c']);
}

#[test]
fn group_map_of_a_producer() {
    let keys = from_vec(vec!['x', 'y', 'x', 'z']);
    let values = count_from(1);
    let lookup = into_group_map(pulls(izip2(keys, values)));
    assert_eq!(lookup.len(), 3);
    assert_eq!(lookup[&'x'], vec![1, 3]);
    assert_eq!(lookup[&'y'], vec![2]);
    assert_eq!(lookup[&'z'], vec![4]);
}

#[test]
fn pulls_is_an_iterator_over_the_pending_elements() {
    let mut p = from_vec(vec![1, 2, 3, 4]);
    assert_eq!(seqpipe::producer::Producer::next(&mut p), Some(1));
    let mut it = pulls(p);
    assert_eq!(it.next(), Some(2));
    let mut rest = Vec::new();
    for x in it {
        rest.push(x);
    }
    assert_eq!(rest, vec![3, 4]);
    let mut none = pulls(from_vec(Vec::<u8>::new()));
    assert_eq!(none.next(), None);
    assert_eq!(none.next(), None);
    let doubled: Vec<i32> = pulls(from_vec(vec![1, 2])).map(|x| 2 * x).collect();
    assert_eq!(doubled, vec![2, 4]);
}
