use core::cell::Cell;
use seqpipe::arrays;
use seqpipe::batching::{batching as batch, InPairs};
use seqpipe::chain;
use seqpipe::fold;
use seqpipe::interleave::interleave;
use seqpipe::intersperse::{intersperse, intersperse_with};
use seqpipe::merge as merging;
use seqpipe::one;
use seqpipe::partition::partition;
use seqpipe::consume::{collect, dropping as dropped, set_from};
use seqpipe::producer::{BackProducer, Producer, SizedProducer};
use seqpipe::iter::from_iter;
use seqpipe::sources::{copied, count_from, from_slice, from_vec};
use seqpipe::product;
use seqpipe::put_back::put_back;
use seqpipe::range::{get, Bounds, End};
use seqpipe::repeat_n::repeat_n;
use seqpipe::tree_reduce as tree;
use seqpipe::zip;

#[derive(PartialEq, Debug)]
struct Foo {
    n: Cell<usize>,
}

impl Clone for Foo {
    fn clone(&self) -> Self {
        let n = self.n.get();
        self.n.set(n + 1);
        Self {
            n: Cell::new(n + 1),
        }
    }
}

#[test]
fn get_1_max() {
    let bounds = Bounds { start: Some(1), end: End::Through(usize::MAX) };
    let mut it = get(from_iter(0..5), bounds).unwrap();
    assert_eq!(it.next(), Some(1));
    assert_eq!(it.next_back(), Some(4));
}

#[test]
#[should_panic]
fn get_full_range_inclusive() {
    let bounds = Bounds { start: Some(0), end: End::Through(usize::MAX) };
    let _it = get(from_iter(0..5), bounds).unwrap();
}

#[test]
fn product0() {
    let mut prod = product::iproduct0();
    assert_eq!(prod.next(), Some(()));
    assert!(prod.next().is_none());
}

#[test]
fn iproduct1() {
    let s = "αβ";

    let mut prod = product::iproduct1(from_iter(s.chars()));
    assert_eq!(prod.next(), Some(('α',)));
    assert_eq!(prod.next(), Some(('β',)));
    assert!(prod.next().is_none());
}

#[test]
fn product2() {
    let s = "αβ";
    let range: Vec<i32> = (0..2).collect();

    let mut prod = product::iproduct2(from_iter(s.chars()), copied(&range));
    assert!(prod.next() == Some(('α', 0)));
    assert!(prod.next() == Some(('α', 1)));
    assert!(prod.next() == Some(('β', 0)));
    assert!(prod.next() == Some(('β', 1)));
    assert!(prod.next().is_none());
}

#[test]
fn product_temporary() {
    let mut prod = product::iproduct3(copied(&[0, 1, 2]), copied(&[0, 1, 2]), copied(&[0, 1, 2]));
    let mut count = 0;
    while let Some((_x, _y, _z)) = prod.next() {
        count += 1;
    }
    assert_eq!(count, 27);
}

#[test]
fn izip_macro() {
    let mut zip = zip::izip1(from_iter(2..3));
    assert!(zip.next() == Some(2));
    assert!(zip.next().is_none());

    let mut zip = zip::izip3(
        from_iter(0..3),
        from_iter(0..2),
        from_iter(0..2i8),
    );
    for i in 0..2 {
        assert!((i as usize, i, i as i8) == zip.next().unwrap());
    }
    assert!(zip.next().is_none());

    let xs: [isize; 0] = [];
    let mut zip = zip::izip4(
        from_iter(0..3),
        from_iter(0..2),
        from_iter(0..2i8),
        from_slice(&xs),
    );
    assert!(zip.next().is_none());
}

#[test]
fn izip2() {
    let _zip1: zip::Zip2<_, _> = zip::izip2(count_from(1), count_from(2));
    let _zip2: zip::Zip2<_, _> = zip::izip2(count_from(1), count_from(2));
}

#[test]
fn izip3() {
    let mut zip: zip::Zip3<_, _, _> = zip::izip3(
        from_iter(0..3),
        from_iter(0..2),
        from_iter(0..2i8),
    );
    for i in 0..2 {
        assert!((i as usize, i, i as i8) == zip.next().unwrap());
    }
    assert!(zip.next().is_none());
}

#[test]
fn multizip3() {
    let mut zip = zip::izip3(
        from_iter(0..3),
        from_iter(0..2),
        from_iter(0..2i8),
    );
    for i in 0..2 {
        assert!((i as usize, i, i as i8) == zip.next().unwrap());
    }
    assert!(zip.next().is_none());

    let xs: [isize; 0] = [];
    let mut zip = zip::izip4(
        from_iter(0..3),
        from_iter(0..2),
        from_iter(0..2i8),
        from_slice(&xs),
    );
    assert!(zip.next().is_none());

    let mut zip = zip::izip5(
        from_iter(0..3),
        from_iter(0..2),
        from_slice(&xs),
        from_slice(&xs),
        from_vec(xs.to_vec()),
    );
    while let Some((_, _, _, _, _)) = zip.next() {
        /* test compiles */
    }
}

#[test]
fn chain_macro() {
    let mut chain = chain::chain1(from_iter(2..3));
    assert!(chain.next() == Some(2));
    assert!(chain.next().is_none());

    let mut chain = chain::chain3(
        from_iter(0..2),
        from_iter(2..3),
        from_iter(3..5i8),
    );
    for i in 0..5i8 {
        assert_eq!(Some(i), chain.next());
    }
    assert!(chain.next().is_none());

    let mut chain = chain::chain0();
    assert_eq!(chain.next(), Option::<()>::None);
}

#[test]
fn chain2() {
    let _ = chain::chain2(count_from(1), count_from(2));
    let _ = chain::chain2(count_from(1), count_from(2));
}

#[test]
fn write_to() {
    let xs = [7, 9, 8];
    let mut ys = [0; 5];
    let cnt = set_from(&mut ys, copied(&xs));
    assert!(cnt == xs.len());
    assert!(ys == [7, 9, 8, 0, 0]);

    let cnt = set_from(&mut ys, from_iter(0..10));
    assert!(cnt == ys.len());
    assert!(ys == [0, 1, 2, 3, 4]);
}

#[test]
fn tree_reduce() {
    for i in 0..100 {
        assert_eq!(
            tree::tree_reduce(from_iter(0..i), |x, y| x + y),
            (0..i).reduce(|x, y| x + y)
        );
    }
}

#[test]
fn exactly_one() {
    let matching = |keep: fn(&i32) -> bool| from_iter((0..10).filter(keep));
    assert_eq!(one::exactly_one(matching(|&x| x == 2)).ok().unwrap(), 2);
    assert!(
        collect(one::exactly_one(matching(|&x| x > 1 && x < 4)).err().unwrap())
            == (2..4).collect::<Vec<i32>>()
    );
    assert!(
        collect(one::exactly_one(matching(|&x| x > 1 && x < 5)).err().unwrap())
            == (2..5).collect::<Vec<i32>>()
    );
    assert!(
        collect(one::exactly_one(matching(|&_| false)).err().unwrap())
            == (0..0).collect::<Vec<i32>>()
    );
}

#[test]
fn at_most_one() {
    let matching = |keep: fn(&i32) -> bool| from_iter((0..10).filter(keep));
    assert_eq!(one::at_most_one(matching(|&x| x == 2)).ok().unwrap(), Some(2));
    assert!(
        collect(one::at_most_one(matching(|&x| x > 1 && x < 4)).err().unwrap())
            == (2..4).collect::<Vec<i32>>()
    );
    assert!(
        collect(one::at_most_one(matching(|&x| x > 1 && x < 5)).err().unwrap())
            == (2..5).collect::<Vec<i32>>()
    );
    assert_eq!(one::at_most_one(matching(|&_| false)).ok().unwrap(), None);
}

#[test]
fn sum1() {
    let v: &[i32] = &[0, 1, 2, 3, 4, 5, 6, 7, 8, 9, 10];
    assert_eq!(fold::sum1::<_, i32>(copied(&v[..0])), None);
    assert_eq!(fold::sum1::<_, i32>(copied(&v[1..2])), Some(1));
    assert_eq!(fold::sum1::<_, i32>(copied(&v[1..3])), Some(3));
    assert_eq!(fold::sum1::<_, i32>(copied(v)), Some(55));
}

#[test]
fn product1() {
    let v: &[i32] = &[0, 1, 2, 3, 4, 5, 6, 7, 8, 9, 10];
    assert_eq!(fold::product1::<_, i32>(copied(&v[..0])), None);
    assert_eq!(fold::product1::<_, i32>(copied(&v[..1])), Some(0));
    assert_eq!(fold::product1::<_, i32>(copied(&v[1..3])), Some(2));
    assert_eq!(fold::product1::<_, i32>(copied(&v[1..5])), Some(24));
}

#[test]
fn next_array() {
    let v = [1, 2, 3, 4, 5];
    let mut iter = from_slice(&v);
    assert_eq!(arrays::next_array(&mut iter), Some([]));
    assert_eq!(arrays::next_array(&mut iter).map(|[&x, &y]| [x, y]), Some([1, 2]));
    assert_eq!(arrays::next_array(&mut iter).map(|[&x, &y]| [x, y]), Some([3, 4]));
    assert_eq!(arrays::next_array::<_, 2>(&mut iter), None);
}

#[test]
fn collect_array() {
    let v = [1, 2];
    let iter = copied(&v);
    assert_eq!(arrays::collect_array(iter), Some([1, 2]));

    let v = [1];
    let iter = copied(&v);
    assert_eq!(arrays::collect_array::<_, 2>(iter), None);

    let v = [1, 2, 3];
    let iter = copied(&v);
    assert_eq!(arrays::collect_array::<_, 2>(iter), None);
}

#[test]
fn test_interleave() {
    let xs: [u8; 0] = [];
    let ys = [7u8, 9, 8, 10];
    let zs = [2u8, 77];
    let it = interleave(from_slice(&xs), from_slice(&ys));
    assert_eq!(collect(it), ys.iter().collect::<Vec<&u8>>());

    let rs = [7u8, 2, 9, 77, 8, 10];
    let it = interleave(from_slice(&ys), from_slice(&zs));
    assert_eq!(collect(it), rs.iter().collect::<Vec<&u8>>());
}

#[test]
fn test_intersperse() {
    let xs = [1u8, 2, 3];
    let ys = [1u8, 0, 2, 0, 3];
    let it = intersperse(from_slice(&xs), &0);
    assert_eq!(collect(it), ys.iter().collect::<Vec<&u8>>());
}

#[test]
fn test_intersperse_with() {
    let xs = [1u8, 2, 3];
    let ys = [1u8, 10, 2, 10, 3];
    let i = 10;
    let it = intersperse_with(from_slice(&xs), || &i);
    assert_eq!(collect(it), ys.iter().collect::<Vec<&u8>>());
}

#[test]
fn dropping() {
    let xs = [1, 2, 3];
    let mut it = dropped(from_slice(&xs), 2);
    assert_eq!(it.next(), Some(&3));
    assert!(it.next().is_none());
    let mut it = dropped(from_slice(&xs), 5);
    assert!(it.next().is_none());
}

#[test]
fn batching() {
    let xs = [0, 1, 2, 1, 3];
    let ys = [(0, 1), (2, 1)];

    // A producer that gathers elements up in pairs
    let pit = batch(copied(&xs), InPairs);
    assert_eq!(collect(pit), ys.to_vec());
}

#[test]
fn test_put_back() {
    let xs = [0, 1, 1, 1, 2, 1, 3, 3];
    let mut pb = put_back(copied(&xs));
    pb.next();
    pb.put_back(1);
    pb.put_back(0);
    assert_eq!(collect(pb), vec![0, 1, 1, 1, 1, 2, 1, 3, 3]);
}

#[test]
fn merge() {
    assert_eq!(
        collect(merging::merge(from_iter((0..10).step_by(2)), from_iter((1..10).step_by(2)))),
        (0..10).collect::<Vec<i32>>()
    );
}

#[test]
fn repeatn() {
    let s = "α";
    let mut it = repeat_n(s, 3);
    assert_eq!(it.len(), 3);
    assert_eq!(it.next(), Some(s));
    assert_eq!(it.next(), Some(s));
    assert_eq!(it.next(), Some(s));
    assert_eq!(it.next(), None);
    assert_eq!(it.next(), None);
}

#[test]
fn count_clones() {
    // Check that RepeatN only clones N - 1 times.

    for n in 0..10 {
        let f = Foo { n: Cell::new(0) };
        let mut it = repeat_n(f, n);
        // drain it
        let mut last = None;
        while let Some(x) = it.emit() {
            last = Some(x);
        }
        if n == 0 {
            assert_eq!(last, None);
        } else {
            assert_eq!(
                last,
                Some(Foo {
                    n: Cell::new(n - 1)
                })
            );
        }
    }
}

#[test]
fn part() {
    let mut data = [7, 1, 1, 9, 1, 1, 3];
    let i = partition(&mut data, |elt| *elt >= 3);
    assert_eq!(i, 3);
    assert_eq!(data, [7, 3, 9, 1, 1, 1, 1]);

    let i = partition(&mut data, |elt| *elt == 1);
    assert_eq!(i, 4);
    assert_eq!(data, [1, 1, 1, 1, 9, 3, 7]);

    let mut data = [1, 2, 3, 4, 5, 6, 7, 8, 9];
    let i = partition(&mut data, |elt| *elt % 3 == 0);
    assert_eq!(i, 3);
    assert_eq!(data, [9, 6, 3, 4, 5, 2, 7, 8, 1]);
}
