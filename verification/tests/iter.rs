use bitvek::BitVec;

#[test]
fn test_iter() {
    let vec = BitVec::from_bools(&[true, true, false, false]);
    let unchanged = vec.clone();

    let mut iter = vec.iter();
    assert_eq!(iter.len(), 4);
    assert_eq!(iter.next(), Some(true));
    assert_eq!(iter.next_back(), Some(false));
    assert_eq!(iter.next(), Some(true));
    assert_eq!(iter.next_back(), Some(false));
    assert_eq!(iter.next(), None);
    assert_eq!(iter.next_back(), None);

    let mut vec = unchanged;
    vec.push_unused_word();

    let mut iter = vec.iter();
    assert_eq!(iter.len(), 4);
    assert_eq!(iter.next(), Some(true));
    assert_eq!(iter.next_back(), Some(false));
    assert_eq!(iter.next(), Some(true));
    assert_eq!(iter.next_back(), Some(false));
    assert_eq!(iter.next(), None);
    assert_eq!(iter.next_back(), None);
}

#[test]
fn test_into_iter() {
    let vec = BitVec::from_bools(&[true, true, false, false]);
    let unchanged = vec.clone();

    let mut iter = vec.into_iter();
    assert_eq!(iter.len(), 4);
    assert_eq!(iter.next(), Some(true));
    assert_eq!(iter.next_back(), Some(false));
    assert_eq!(iter.next(), Some(true));
    assert_eq!(iter.next_back(), Some(false));
    assert_eq!(iter.next(), None);
    assert_eq!(iter.next_back(), None);

    let mut vec = unchanged;
    vec.push_unused_word();

    let mut iter = vec.into_iter();
    assert_eq!(iter.len(), 4);
    assert_eq!(iter.next(), Some(true));
    assert_eq!(iter.next_back(), Some(false));
    assert_eq!(iter.next(), Some(true));
    assert_eq!(iter.next_back(), Some(false));
    assert_eq!(iter.next(), None);
    assert_eq!(iter.next_back(), None);
}

#[test]
fn test_size_hint() {
    let vec = BitVec::from_bools(&[true, false, true]);
    let mut iter = vec.iter();
    assert_eq!(iter.size_hint(), (3, Some(3)));
    iter.next();
    assert_eq!(iter.size_hint(), (2, Some(2)));
    iter.next_back();
    assert_eq!(iter.size_hint(), (1, Some(1)));
    iter.next();
    assert_eq!(iter.size_hint(), (0, Some(0)));
    iter.next();
    assert_eq!(iter.size_hint(), (0, Some(0)));
}
