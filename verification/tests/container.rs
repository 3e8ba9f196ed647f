use bitvek::BitVec;
use bitvek::WORD_BITS;

fn bits(values: &[bool]) -> BitVec {
    BitVec::from_bools(values)
}

#[test]
fn test_capacity() {
    let vec = BitVec::with_capacity(0);
    assert_eq!(vec.capacity(), 0);

    let vec = BitVec::with_capacity(10);
    assert!(vec.capacity() >= WORD_BITS);

    let vec = BitVec::with_capacity(WORD_BITS + 1);
    assert!(vec.capacity() >= WORD_BITS * 2);
}

#[test]
fn test_len() {
    let vec = BitVec::new();
    assert_eq!(vec.len(), 0);

    let vec = bits(&[true, true, false, false]);
    assert_eq!(vec.len(), 4);
}

#[test]
fn test_is_empty() {
    let vec = BitVec::new();
    assert!(vec.is_empty());

    let vec = bits(&[true, true, false, false]);
    assert!(!vec.is_empty());
}

#[test]
fn test_new() {
    let vec = BitVec::new();
    assert_eq!(vec.len(), 0);
    assert_eq!(vec.buf_len(), 0);
}

#[test]
fn test_with_capacity() {
    let vec = BitVec::with_capacity(0);
    assert_eq!(vec.len(), 0);
    assert_eq!(vec.capacity(), 0);

    let vec = BitVec::with_capacity(10);
    assert_eq!(vec.len(), 0);
    assert!(vec.capacity() >= WORD_BITS);

    let vec = BitVec::with_capacity(WORD_BITS + 1);
    assert_eq!(vec.len(), 0);
    assert!(vec.capacity() >= WORD_BITS * 2);
}

#[test]
fn test_reserve() {
    let mut vec = bits(&[true, true, false, false]);

    vec.reserve(6);
    assert!(vec.capacity() >= WORD_BITS);

    let more = WORD_BITS - vec.len();
    vec.reserve(more);
    assert!(vec.capacity() >= WORD_BITS);

    vec.reserve(WORD_BITS);
    assert!(vec.capacity() >= WORD_BITS * 2);
}

#[test]
fn test_shrink_to_fit() {
    let mut vec = bits(&[true, true, false, false]);
    let unchanged = vec.clone();

    vec.reserve(WORD_BITS);
    assert!(vec.capacity() >= WORD_BITS * 2);

    vec.shrink_to_fit();
    assert!(vec.capacity() >= WORD_BITS);
    assert_eq!(vec, unchanged);

    assert_eq!(vec.buf_len(), 1);
    vec.push_unused_word();
    assert_eq!(vec.buf_len(), 2);

    vec.reserve(WORD_BITS);
    assert!(vec.capacity() >= WORD_BITS * 2);

    vec.shrink_to_fit();
    assert!(vec.capacity() >= WORD_BITS);
    assert_eq!(vec, unchanged);
    assert_eq!(vec.buf_len(), 1);
}

#[test]
fn test_shrink_to() {
    let mut vec = bits(&[true, true, false, false]);
    let unchanged = vec.clone();

    vec.reserve(WORD_BITS * 2);
    assert!(vec.capacity() >= WORD_BITS * 3);

    let capacity_unchanged = vec.capacity();
    vec.shrink_to(capacity_unchanged + 1);
    assert_eq!(vec.capacity(), capacity_unchanged);
    assert_eq!(vec, unchanged);

    vec.shrink_to(WORD_BITS * 2);
    assert!(vec.capacity() >= WORD_BITS * 2);
    assert_eq!(vec, unchanged);

    vec.shrink_to(0);
    assert!(vec.capacity() >= WORD_BITS);
    assert_eq!(vec, unchanged);

    assert_eq!(vec.buf_len(), 1);
    vec.push_unused_word();
    assert_eq!(vec.buf_len(), 2);

    vec.reserve(WORD_BITS * 2);
    assert!(vec.capacity() >= WORD_BITS * 3);

    let capacity_unchanged = vec.capacity();
    vec.shrink_to(capacity_unchanged + 1);
    assert_eq!(vec.capacity(), capacity_unchanged);
    assert_eq!(vec, unchanged);
    assert_eq!(vec.buf_len(), 2);

    vec.shrink_to(WORD_BITS * 2);
    assert!(vec.capacity() >= WORD_BITS * 2);
    assert_eq!(vec, unchanged);
    assert_eq!(vec.buf_len(), 2);

    vec.shrink_to(0);
    assert!(vec.capacity() >= WORD_BITS);
    assert_eq!(vec, unchanged);
    assert_eq!(vec.buf_len(), 1);
}

#[test]
fn test_get() {
    {
        let mut vec = bits(&[true, true, false, false]);

        assert_eq!(vec.get(0), Some(true));
        assert_eq!(vec.get(1), Some(true));
        assert_eq!(vec.get(2), Some(false));
        assert_eq!(vec.get(3), Some(false));
        assert_eq!(vec.get(4), None);

        vec.push_unused_word();

        assert_eq!(vec.get(0), Some(true));
        assert_eq!(vec.get(1), Some(true));
        assert_eq!(vec.get(2), Some(false));
        assert_eq!(vec.get(3), Some(false));
        assert_eq!(vec.get(4), None);
    }

    {
        let mut vec = bits(&vec![true; WORD_BITS]);

        assert_eq!(vec.get(WORD_BITS - 1), Some(true));
        assert_eq!(vec.get(WORD_BITS), None);

        vec.push_unused_word();

        assert_eq!(vec.get(WORD_BITS - 1), Some(true));
        assert_eq!(vec.get(WORD_BITS), None);
    }

    {
        let mut vec = bits(&vec![true; WORD_BITS + 1]);

        assert_eq!(vec.get(WORD_BITS), Some(true));
        assert_eq!(vec.get(WORD_BITS + 1), None);

        vec.push_unused_word();

        assert_eq!(vec.get(WORD_BITS), Some(true));
        assert_eq!(vec.get(WORD_BITS + 1), None);
    }
}

#[test]
fn test_get_unchecked() {
    let mut vec = bits(&[true, true, false, false]);

    assert!(vec.get_unchecked(0));
    assert!(vec.get_unchecked(1));
    assert!(!vec.get_unchecked(2));
    assert!(!vec.get_unchecked(3));

    vec.push_unused_word();

    assert!(vec.get_unchecked(0));
    assert!(vec.get_unchecked(1));
    assert!(!vec.get_unchecked(2));
    assert!(!vec.get_unchecked(3));
}

#[test]
fn test_set() {
    {
        let mut vec = bits(&[true, true, false, false]);
        let unchanged = vec.clone();

        assert!(vec.set(0, true).is_some());
        assert!(vec.set(1, false).is_some());
        assert!(vec.set(2, true).is_some());
        assert!(vec.set(3, false).is_some());
        assert!(vec.set(4, true).is_none());
        assert_eq!(vec, bits(&[true, false, true, false]));

        let mut vec = unchanged;
        vec.push_unused_word();

        assert!(vec.set(0, true).is_some());
        assert!(vec.set(1, false).is_some());
        assert!(vec.set(2, true).is_some());
        assert!(vec.set(3, false).is_some());
        assert!(vec.set(4, true).is_none());
        assert_eq!(vec, bits(&[true, false, true, false]));
    }

    {
        let mut vec = bits(&vec![true; WORD_BITS]);
        let unchanged = vec.clone();

        assert!(vec.set(WORD_BITS - 1, false).is_some());
        assert_eq!(vec.get(WORD_BITS - 1), Some(false));
        assert!(vec.set(WORD_BITS, false).is_none());

        let mut vec = unchanged;
        vec.push_unused_word();

        assert!(vec.set(WORD_BITS - 1, false).is_some());
        assert_eq!(vec.get(WORD_BITS - 1), Some(false));
        assert!(vec.set(WORD_BITS, false).is_none());
    }

    {
        let mut vec = bits(&vec![true; WORD_BITS + 1]);
        let unchanged = vec.clone();

        assert!(vec.set(WORD_BITS, false).is_some());
        assert_eq!(vec.get(WORD_BITS), Some(false));
        assert!(vec.set(WORD_BITS + 1, false).is_none());

        let mut vec = unchanged;
        vec.push_unused_word();

        assert!(vec.set(WORD_BITS, false).is_some());
        assert_eq!(vec.get(WORD_BITS), Some(false));
        assert!(vec.set(WORD_BITS + 1, false).is_none());
    }
}

#[test]
fn test_set_unchecked() {
    let mut vec = bits(&[true, true, false, false]);
    let unchanged = vec.clone();

    vec.set_unchecked(2, true);
    vec.set_unchecked(3, true);
    assert_eq!(vec, bits(&[true; 4]));

    let mut vec = unchanged;
    vec.push_unused_word();

    vec.set_unchecked(2, true);
    vec.set_unchecked(3, true);
    assert_eq!(vec, bits(&[true; 4]));
}

#[test]
fn test_push() {
    {
        let mut vec = bits(&[true, true, false, false]);
        let unchanged = vec.clone();

        vec.push(true);
        assert_eq!(vec, bits(&[true, true, false, false, true]));
        vec.push(false);
        assert_eq!(vec, bits(&[true, true, false, false, true, false]));

        let mut vec = unchanged;
        vec.push_unused_word();

        vec.push(true);
        assert_eq!(vec, bits(&[true, true, false, false, true]));
        vec.push(false);
        assert_eq!(vec, bits(&[true, true, false, false, true, false]));
    }

    {
        let mut vec = bits(&vec![true; WORD_BITS]);
        let unchanged = vec.clone();

        assert_eq!(vec.buf_len(), 1);
        vec.push(true);
        assert_eq!(vec.len(), WORD_BITS + 1);
        assert_eq!(vec.get(vec.len() - 1), Some(true));
        assert_eq!(vec.buf_len(), 2);
        vec.push(false);
        assert_eq!(vec.len(), WORD_BITS + 2);
        assert_eq!(vec.get(vec.len() - 1), Some(false));
        assert_eq!(vec.buf_len(), 2);

        let mut vec = unchanged;
        vec.push_unused_word();

        assert_eq!(vec.buf_len(), 2);
        vec.push(true);
        assert_eq!(vec.len(), WORD_BITS + 1);
        assert_eq!(vec.get(vec.len() - 1), Some(true));
        assert_eq!(vec.buf_len(), 2);
        vec.push(false);
        assert_eq!(vec.len(), WORD_BITS + 2);
        assert_eq!(vec.get(vec.len() - 1), Some(false));
        assert_eq!(vec.buf_len(), 2);
    }
}

#[test]
fn test_pop() {
    {
        let mut vec = bits(&[true, true, false, false]);
        let unchanged = vec.clone();

        assert_eq!(vec.pop(), Some(false));
        assert_eq!(vec, bits(&[true, true, false]));
        assert_eq!(vec.pop(), Some(false));
        assert_eq!(vec, bits(&[true, true]));
        assert_eq!(vec.pop(), Some(true));
        assert_eq!(vec, bits(&[true]));
        assert_eq!(vec.pop(), Some(true));
        assert_eq!(vec, BitVec::new());
        assert_eq!(vec.pop(), None);
        assert_eq!(vec, BitVec::new());

        let mut vec = unchanged;
        vec.push_unused_word();

        assert_eq!(vec.pop(), Some(false));
        assert_eq!(vec, bits(&[true, true, false]));
        assert_eq!(vec.pop(), Some(false));
        assert_eq!(vec, bits(&[true, true]));
        assert_eq!(vec.pop(), Some(true));
        assert_eq!(vec, bits(&[true]));
        assert_eq!(vec.pop(), Some(true));
        assert_eq!(vec, BitVec::new());
        assert_eq!(vec.pop(), None);
        assert_eq!(vec, BitVec::new());
    }

    {
        let mut vec = bits(&vec![true; WORD_BITS + 1]);
        let unchanged = vec.clone();

        assert_eq!(vec.buf_len(), 2);
        while vec.pop().is_some() {}
        assert_eq!(vec.len(), 0);
        assert_eq!(vec.buf_len(), 2);

        let mut vec = unchanged;
        vec.push_unused_word();

        assert_eq!(vec.buf_len(), 3);
        while vec.pop().is_some() {}
        assert_eq!(vec.len(), 0);
        assert_eq!(vec.buf_len(), 3);
    }
}

#[test]
fn test_index() {
    let mut vec = bits(&[true, true, false, false]);

    assert!(vec.index(0));
    assert!(vec.index(1));
    assert!(!vec.index(2));
    assert!(!vec.index(3));

    vec.push_unused_word();

    assert!(vec.index(0));
    assert!(vec.index(1));
    assert!(!vec.index(2));
    assert!(!vec.index(3));
}

#[test]
fn test_clone() {
    let mut vec = bits(&[true, true, false, false]);

    let cloned = vec.clone();
    assert_eq!(vec, cloned);

    vec.push_unused_word();

    let cloned = vec.clone();
    assert_eq!(vec, cloned);
    assert_eq!(vec.buf_len(), 2);
    assert_eq!(cloned.buf_len(), 1);
}

#[test]
fn lib_test_extend() {
    let mut vec = bits(&[true, true, false, false]);
    let unchanged = vec.clone();

    vec.extend(&vec![true; WORD_BITS]);
    assert_eq!(vec.len(), WORD_BITS + 4);
    assert_eq!(vec.get(0), Some(true));
    assert_eq!(vec.get(1), Some(true));
    assert_eq!(vec.get(2), Some(false));
    assert_eq!(vec.get(3), Some(false));
    for index in 4..vec.len() {
        assert_eq!(vec.get(index), Some(true));
    }

    let mut vec = unchanged;
    vec.push_unused_word();

    vec.extend(&vec![true; WORD_BITS]);
    assert_eq!(vec.len(), WORD_BITS + 4);
    assert_eq!(vec.get(0), Some(true));
    assert_eq!(vec.get(1), Some(true));
    assert_eq!(vec.get(2), Some(false));
    assert_eq!(vec.get(3), Some(false));
    for index in 4..vec.len() {
        assert_eq!(vec.get(index), Some(true));
    }
}

#[test]
fn extend_test_extend() {
    let mut vec = bits(&[true, false]);
    vec.extend(&[true, false]);
    assert_eq!(vec, bits(&[true, false, true, false]));
}
