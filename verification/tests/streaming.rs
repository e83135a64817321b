use streaming_iterator::convert;
use streaming_iterator::Flicker;
use streaming_iterator::StreamingIterator;

fn test<I>(mut it: I, expected: &[I::Item])
where
    I: StreamingIterator,
    I::Item: Sized + PartialEq + std::fmt::Debug,
{
    for item in expected {
        it.advance();
        assert_eq!(it.get(), Some(item));
        assert_eq!(it.get(), Some(item));
    }
    it.advance();
    assert_eq!(it.get(), None);
    assert_eq!(it.get(), None);
}

#[test]
fn all() {
    let items = [0, 1, 2];
    let it = convert(items.to_vec());
    assert!(it.clone().all(|&i| i < 3));
    assert!(!it.clone().all(|&i| i % 2 == 0));
}

#[test]
fn any() {
    let items = [0, 1, 2];
    let it = convert(items.to_vec());
    assert!(it.clone().any(|&i| i > 1));
    assert!(!it.clone().any(|&i| i > 2));
}

#[test]
fn cloned() {
    let items = [0, 1];
    let mut it = convert(items.to_vec()).cloned();
    assert_eq!(it.next(), Some(0));
    assert_eq!(it.next(), Some(1));
    assert_eq!(it.next(), None);
}

#[test]
fn test_convert() {
    let items = [0, 1];
    let it = convert(items.to_vec());
    test(it, &items);
}

#[test]
fn count() {
    let items = [0, 1, 2, 3];
    let it = convert(items.iter().collect::<Vec<_>>());
    assert_eq!(it.count(), 4);
}

#[test]
fn filter() {
    let items = [0, 1, 2, 3];
    let it = convert(items.to_vec()).filter(|x| x % 2 == 0);
    test(it, &[0, 2]);
}

#[test]
fn fuse() {
    let mut it = Flicker(0).fuse();
    assert_eq!(it.get(), None);
    it.advance();
    assert_eq!(it.get(), Some(&1));
    assert_eq!(it.get(), Some(&1));
    it.advance();
    assert_eq!(it.get(), Some(&2));
    assert_eq!(it.get(), Some(&2));
    it.advance();
    assert_eq!(it.get(), None);
    assert_eq!(it.get(), None);
    it.advance();
    assert_eq!(it.get(), None);
    assert_eq!(it.get(), None);
}

#[test]
fn map() {
    let items = [0, 1];
    let vals = items.iter().map(|&i| i as usize).collect::<Vec<_>>();
    let it = convert(vals).map(|&i| i as i32);
    test(it, &items);
}

#[test]
fn nth() {
    let items = [0, 1];
    let it = convert(items.to_vec());
    assert_eq!(it.clone().nth(0), Some(&0));
    assert_eq!(it.clone().nth(1), Some(&1));
    assert_eq!(it.clone().nth(2), None);
}

#[test]
fn filter_map() {
    let items = [0u8, 1, 1, 2, 4];
    let it = convert(items.iter().collect::<Vec<_>>()).filter_map(
        |&&i| {
            if i % 2 == 0 {
                Some(i)
            } else {
                None
            }
        },
    );
    test(it, &[0, 2, 4])
}

#[test]
fn find() {
    let items = [0, 1];
    let it = convert(items.to_vec());
    assert_eq!(it.clone().find(|&x| x % 2 == 1), Some(&1));
    assert_eq!(it.clone().find(|&x| x % 3 == 2), None);
}

#[test]
fn owned() {
    let items = [0, 1];
    let mut it = convert(items.to_vec()).owned();
    let mut got = Vec::new();
    while let Some(v) = it.next() {
        got.push(v);
    }
    assert_eq!(got, items);
}

#[test]
fn position() {
    let items = [0, 1];
    let it = convert(items.to_vec());
    assert_eq!(it.clone().position(|&x| x % 2 == 1), Some(1));
    assert_eq!(it.clone().position(|&x| x % 3 == 2), None);
}

#[test]
fn skip() {
    let items = [0, 1, 2, 3];
    let it = convert(items.to_vec());
    test(it.clone().skip(0), &[0, 1, 2, 3]);
    test(it.clone().skip(2), &[2, 3]);
    test(it.clone().skip(5), &[]);
}

#[test]
fn skip_while() {
    let items = [0, 1, 2, 3];
    let it = convert(items.to_vec());
    test(it.clone().skip_while(|&i| i < 0), &[0, 1, 2, 3]);
    test(it.clone().skip_while(|&i| i < 2), &[2, 3]);
    test(it.clone().skip_while(|&i| i < 5), &[]);
}

#[test]
fn take() {
    let items = [0, 1, 2, 3];
    let it = convert(items.to_vec());
    test(it.clone().take(0), &[]);
    test(it.clone().take(2), &[0, 1]);
    test(it.clone().take(5), &[0, 1, 2, 3]);
}
