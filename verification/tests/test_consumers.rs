use core::cell::Cell;
use seqpipe::arrays::{collect_array, next_array};
use seqpipe::fold::{product1, sum1};
use seqpipe::one::{at_most_one, exactly_one};
use seqpipe::partition::partition;
use seqpipe::consume::{collect, set_from};
use seqpipe::producer::Producer;
use seqpipe::sources::{copied, from_slice, from_vec};
use seqpipe::repeat_n::repeat_n;
use seqpipe::tree_reduce::tree_reduce;

struct Counted {
    clones: Cell<usize>,
}

impl Clone for Counted {
    fn clone(&self) -> Self {
        self.clones.set(self.clones.get() + 1);
        Counted { clones: Cell::new(0) }
    }
}

#[test]
fn repeat_n_clones_one_time_less_than_it_yields() {
    for n in 0..8usize {
        let mut r = repeat_n(Counted { clones: Cell::new(0) }, n);
        let out = r.emit_all();
        assert_eq!(out.len(), n);
        match out.last() {
            // the last copy is the value that was handed in, which counted the clones
            Some(original) => assert_eq!(original.clones.get(), n - 1),
            None => assert_eq!(n, 0),
        }
        for copy in out.iter().rev().skip(1) {
            assert_eq!(copy.clones.get(), 0);
        }
    }
}

#[test]
fn exactly_one_of_one() {
    assert_eq!(exactly_one(from_vec(vec![5])).ok(), Some(5));
}

#[test]
fn exactly_one_hands_everything_back_on_failure() {
    let none = exactly_one(from_vec(Vec::<i32>::new())).err().unwrap();
    assert_eq!(collect(none), Vec::<i32>::new());
    let two = exactly_one(from_vec(vec![2, 3])).err().unwrap();
    assert_eq!(collect(two), vec![2, 3]);
    let mut many = exactly_one(from_vec(vec![2, 3, 4, 5, 6])).err().unwrap();
    assert_eq!(many.next(), Some(2));
    assert_eq!(many.next(), Some(3));
    assert_eq!(many.next(), Some(4));
    assert_eq!(collect(many), vec![5, 6]);
}

#[test]
fn at_most_one_tells_none_from_one_from_many() {
    assert_eq!(at_most_one(from_vec(Vec::<i32>::new())).ok(), Some(None));
    assert_eq!(at_most_one(from_vec(vec![5])).ok(), Some(Some(5)));
    let many = at_most_one(from_vec(vec![2, 3, 4])).err().unwrap();
    assert_eq!(collect(many), vec![2, 3, 4]);
}

#[test]
fn sum_and_product_of_other_number_types() {
    assert_eq!(sum1(from_vec(vec![1u64 << 40, 1u64 << 40])), Some(1u64 << 41));
    assert_eq!(sum1(from_vec(vec![-3i64, 3])), Some(0));
    assert_eq!(sum1(from_vec(vec![7u32])), Some(7));
    assert_eq!(sum1(from_vec(Vec::<u32>::new())), None);
    assert_eq!(product1(from_vec(vec![3u32, 5, 7])), Some(105));
    assert_eq!(product1(from_vec(vec![-2i64, 3, -5])), Some(30));
    assert_eq!(product1(from_vec(vec![1i32])), Some(1));
    assert_eq!(product1(from_vec(Vec::<u64>::new())), None);
    assert_eq!(sum1(from_vec(vec![i32::MAX, -1, 1])), Some(i32::MAX));
}

#[test]
fn tree_reduce_of_nothing_and_of_one() {
    assert_eq!(tree_reduce(from_vec(Vec::<i32>::new()), |x, y| x + y), None);
    assert_eq!(tree_reduce(from_vec(vec![42]), |x, y| x + y), Some(42));
}

#[test]
fn tree_reduce_combines_along_a_balanced_tree() {
    let shape = |n: usize| {
        let leaves: Vec<String> = (0..n).map(|i| format!("{}", i % 10)).collect();
        tree_reduce(from_vec(leaves), |x: String, y: String| format!("({}{})", x, y)).unwrap()
    };
    assert_eq!(shape(1), "0");
    assert_eq!(shape(2), "(01)");
    assert_eq!(shape(3), "((01)2)");
    assert_eq!(shape(4), "((01)(23))");
    assert_eq!(shape(5), "(((01)(23))4)");
    assert_eq!(shape(6), "(((01)(23))(45))");
    assert_eq!(shape(7), "(((01)(23))((45)6))");
    assert_eq!(shape(8), "(((01)(23))((45)(67)))");
    assert_eq!(shape(9), "((((01)(23))((45)(67)))8)");
    assert_eq!(shape(11), "((((01)(23))((45)(67)))((89)0))");
}

#[test]
fn tree_reduce_with_an_operator_that_is_not_commutative() {
    let text = tree_reduce(
        from_vec(vec!["a", "b", "c", "d", "e"].into_iter().map(String::from).collect()),
        |x: String, y: String| x + &y,
    );
    assert_eq!(text.unwrap(), "abcde");
}

#[test]
fn partition_puts_the_matching_elements_first() {
    let mut data = [7, 1, 1, 9, 1, 1, 3];
    let before = data;
    let split = partition(&mut data, |x| *x >= 3);
    assert_eq!(split, before.iter().filter(|x| **x >= 3).count());
    assert!(data[..split].iter().all(|x| *x >= 3));
    assert!(data[split..].iter().all(|x| *x < 3));
    let mut sorted_before = before;
    let mut sorted_after = data;
    sorted_before.sort();
    sorted_after.sort();
    assert_eq!(sorted_before, sorted_after);
}

#[test]
fn partition_asks_about_each_element_once() {
    let mut data = [7, 1, 1, 9, 1, 1, 3, 8, 2];
    let mut asked = 0;
    let split = partition(&mut data, |x| {
        asked += 1;
        *x >= 3
    });
    assert_eq!(split, 4);
    assert_eq!(asked, data.len());
}

#[test]
fn partition_of_edge_cases() {
    let mut none: [i32; 0] = [];
    assert_eq!(partition(&mut none, |_| true), 0);
    let mut all = [1, 2, 3];
    assert_eq!(partition(&mut all, |_| true), 3);
    assert_eq!(all, [1, 2, 3]);
    let mut no = [1, 2, 3];
    assert_eq!(partition(&mut no, |_| false), 0);
    assert_eq!(no, [1, 2, 3]);
    let mut one = [5];
    assert_eq!(partition(&mut one, |x| *x == 5), 1);
    assert_eq!(partition(&mut one, |x| *x != 5), 0);
    let mut threshold = [3, 3, 2, 3, 4, 3];
    let split = partition(&mut threshold, |x| *x > 3);
    assert_eq!(split, 1);
    assert_eq!(threshold[0], 4);
}

#[test]
fn next_array_consumes_what_it_returns() {
    let mut p = from_vec(vec![1, 2, 3, 4, 5]);
    assert_eq!(next_array::<_, 2>(&mut p), Some([1, 2]));
    assert_eq!(next_array::<_, 0>(&mut p), Some([]));
    assert_eq!(next_array::<_, 1>(&mut p), Some([3]));
    assert_eq!(collect(p), vec![4, 5]);
}

#[test]
fn next_array_short_of_elements_consumes_all_of_them() {
    let mut p = from_vec(vec![1, 2, 3]);
    assert_eq!(next_array::<_, 4>(&mut p), None);
    assert_eq!(p.next(), None);
    assert_eq!(next_array::<_, 1>(&mut p), None);
    assert_eq!(next_array::<_, 0>(&mut p), Some([]));
}

#[test]
fn collect_array_needs_the_exact_number() {
    assert_eq!(collect_array::<_, 3>(from_vec(vec!['a', 'b', 'c'])), Some(['a', 'b', 'c']));
    assert_eq!(collect_array::<_, 0>(from_vec(Vec::<i32>::new())), Some([]));
    assert_eq!(collect_array::<_, 0>(from_vec(vec![1])), None);
    assert_eq!(collect_array::<_, 2>(from_vec(vec![1])), None);
    assert_eq!(collect_array::<_, 2>(from_vec(vec![1, 2, 3])), None);
    let xs = [String::from("p"), String::from("q")];
    assert_eq!(collect_array::<_, 2>(from_slice(&xs)), Some([&xs[0], &xs[1]]));
}

#[test]
fn set_from_stops_with_the_shorter_side() {
    let mut dest = [0; 3];
    assert_eq!(set_from(&mut dest, from_vec(Vec::<i32>::new())), 0);
    assert_eq!(dest, [0, 0, 0]);
    assert_eq!(set_from(&mut dest, from_vec(vec![1, 2, 3])), 3);
    assert_eq!(dest, [1, 2, 3]);
    let mut none: [i32; 0] = [];
    assert_eq!(set_from(&mut none, copied(&dest)), 0);
}
