use streaming_iterator::convert;
use streaming_iterator::Flicker;
use streaming_iterator::StreamingIterator;

fn drain<I>(mut it: I) -> Vec<I::Item>
where
    I: StreamingIterator,
    I::Item: Clone,
{
    let mut out = Vec::new();
    while let Some(v) = it.next() {
        out.push(v.clone());
    }
    out
}

#[test]
fn peek_twice_agrees() {
    let mut it = convert(vec![4, 5, 6]).filter(|&x| x > 4);
    it.advance();
    let first = it.get().copied();
    let second = it.get().copied();
    assert_eq!(first, second);
    assert_eq!(first, Some(5));
}

#[test]
fn fuse_is_total() {
    let mut it = convert(vec![7, 8]).fuse();
    assert_eq!(it.get(), None);
    it.advance();
    assert_eq!(it.get(), Some(&7));
    it.advance();
    assert_eq!(it.get(), Some(&8));
    it.advance();
    assert_eq!(it.get(), None);
    it.advance();
    it.advance();
    assert_eq!(it.get(), None);
}

#[test]
fn fuse_traps_flickering_cursor() {
    let mut it = Flicker(0).fuse();
    for _ in 0..4 {
        it.advance();
    }
    assert_eq!(it.get(), None);
    it.advance();
    assert_eq!(it.get(), None);
    it.advance();
    assert_eq!(it.get(), None);
}

#[test]
fn filter_keeps_matching_subsequence() {
    let source = vec![3, 1, 4, 1, 5, 9, 2, 6];
    let yielded = drain(convert(source.clone()).filter(|&x| x % 2 == 1));
    assert!(yielded.iter().all(|&x| x % 2 == 1));
    let mut positions = Vec::new();
    let mut from = 0;
    for y in &yielded {
        let at = source[from..].iter().position(|v| v == y).unwrap() + from;
        positions.push(at);
        from = at + 1;
    }
    assert_eq!(yielded, vec![3, 1, 1, 5, 9]);
    assert_eq!(positions, vec![0, 1, 3, 4, 5]);
}

#[test]
fn map_applies_pointwise() {
    let yielded = drain(convert(vec![1, 2, 3]).map(|&x| x * x));
    assert_eq!(yielded, vec![1, 4, 9]);
}

#[test]
fn filter_map_keeps_even() {
    let it = convert(vec![0, 1, 2, 3]).filter_map(
        |&x| {
            if x % 2 == 0 {
                Some(x)
            } else {
                None
            }
        },
    );
    assert_eq!(drain(it), vec![0, 2]);
}

#[test]
fn take_then_skip_reproduces_source() {
    let source = vec![0, 1, 2, 3];
    for k in 0..=source.len() {
        let head = drain(convert(source.clone()).take(k));
        let tail = drain(convert(source.clone()).skip(k));
        let mut whole = head;
        whole.extend(tail);
        assert_eq!(whole, source);
    }
}

#[test]
fn count_within_size_hint() {
    let source = vec![0, 1, 2, 3];
    let hint = convert(source.clone()).size_hint();
    let n = convert(source.clone()).count();
    assert!(hint.0 <= n && n <= hint.1.unwrap());

    let hint = convert(source.clone()).filter(|&x| x > 1).size_hint();
    let n = convert(source.clone()).filter(|&x| x > 1).count();
    assert!(hint.0 <= n && n <= hint.1.unwrap());

    let hint = convert(source.clone()).map(|&x| x + 1).size_hint();
    let n = convert(source.clone()).map(|&x| x + 1).count();
    assert!(hint.0 <= n && n <= hint.1.unwrap());

    let hint = convert(source.clone()).skip(2).size_hint();
    let n = convert(source.clone()).skip(2).count();
    assert!(hint.0 <= n && n <= hint.1.unwrap());

    let hint = convert(source.clone()).take(2).size_hint();
    let n = convert(source.clone()).take(2).count();
    assert!(hint.0 <= n && n <= hint.1.unwrap());

    let hint = convert(source.clone()).fuse().size_hint();
    let n = convert(source.clone()).fuse().count();
    assert!(hint.0 <= n && n <= hint.1.unwrap());
}

#[test]
fn size_hint_values() {
    let source = vec![0, 1, 2, 3];
    assert_eq!(convert(source.clone()).size_hint(), (4, Some(4)));
    assert_eq!(convert(source.clone()).filter(|&x| x > 1).size_hint(), (0, Some(4)));
    assert_eq!(convert(source.clone()).map(|&x| x + 1).size_hint(), (4, Some(4)));
    assert_eq!(
        convert(source.clone()).filter_map(|&x| if x > 1 { Some(x) } else { None }).size_hint(),
        (0, Some(4)),
    );
    assert_eq!(convert(source.clone()).skip(1).size_hint(), (3, Some(3)));
    assert_eq!(convert(source.clone()).skip(9).size_hint(), (0, Some(0)));
    assert_eq!(convert(source.clone()).skip_while(|&x| x < 2).size_hint(), (0, Some(4)));
    assert_eq!(convert(source.clone()).take(2).size_hint(), (2, Some(2)));
    assert_eq!(convert(source.clone()).take(9).size_hint(), (4, Some(9)));
    assert_eq!(convert(source.clone()).fuse().size_hint(), (4, Some(4)));
    assert_eq!(convert(source.clone()).cloned().size_hint(), (4, Some(4)));
    assert_eq!(convert(source).owned().size_hint(), (4, Some(4)));
}

#[test]
fn convert_empty_source() {
    let mut it = convert(Vec::<i32>::new());
    assert_eq!(it.size_hint(), (0, Some(0)));
    assert_eq!(it.get(), None);
    it.advance();
    assert_eq!(it.get(), None);
    assert_eq!(convert(Vec::<i32>::new()).count(), 0);
}

#[test]
fn convert_count_after_partial_traversal() {
    let mut it = convert(vec![0, 1, 2, 3]);
    it.advance();
    it.advance();
    assert_eq!(it.size_hint(), (2, Some(2)));
    assert_eq!(it.count(), 2);
}

#[test]
fn by_ref_shares_the_cursor() {
    let mut it = convert(vec![0, 1]);
    let handle = it.by_ref();
    handle.advance();
    assert_eq!(handle.get(), Some(&0));
    assert_eq!(it.get(), Some(&0));
    it.advance();
    assert_eq!(it.get(), Some(&1));
}

#[test]
fn find_positions_cursor_on_match() {
    let mut it = convert(vec![1, 2, 3, 4]);
    assert_eq!(it.find(|&x| x % 2 == 0), Some(&2));
    assert_eq!(it.get(), Some(&2));
    it.advance();
    assert_eq!(it.get(), Some(&3));
}

#[test]
fn nth_at_the_boundary() {
    let it = convert(vec![0, 1, 2]);
    assert_eq!(it.clone().nth(2), Some(&2));
    assert_eq!(it.clone().nth(3), None);
}

#[test]
fn cloned_yields_values() {
    let mut it = convert(vec![10, 20]).cloned();
    assert_eq!(it.next(), Some(10));
    assert_eq!(it.next(), Some(20));
    assert_eq!(it.next(), None);
    assert_eq!(it.next(), None);
}
