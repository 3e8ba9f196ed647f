use std::hash::DefaultHasher;
use std::hash::Hash;
use std::hash::Hasher;

use bitvek::BitVec;
use bitvek::WORD_BITS;

fn bits(values: &[bool]) -> BitVec {
    BitVec::from_bools(values)
}

fn hash(vec: &BitVec) -> u64 {
    let mut hasher = DefaultHasher::new();
    if !vec.is_empty() {
        vec.len().hash(&mut hasher);
        vec.hash_words().hash(&mut hasher);
    }
    hasher.finish()
}

#[test]
fn lib_test_eq() {
    {
        let lhs = bits(&[true, true, false, false]);
        let rhs = bits(&[true; 4]);
        let unchanged = rhs.clone();

        assert_ne!(lhs, rhs);

        let mut rhs = unchanged;
        rhs.push_unused_word();

        assert_ne!(lhs, rhs);
    }

    {
        let lhs = bits(&[true, true, false, false]);
        let mut rhs = bits(&[true, true, false, false, true]);
        let unchanged = rhs.clone();

        assert_ne!(lhs, rhs);
        rhs.pop();
        assert_eq!(lhs, rhs);

        let mut rhs = unchanged;
        rhs.push_unused_word();

        assert_ne!(lhs, rhs);
        rhs.pop();
        assert_eq!(lhs, rhs);
    }

    {
        let lhs = bits(&vec![true; WORD_BITS + 1]);
        let mut rhs = lhs.clone();

        assert_eq!(lhs, rhs);
        rhs.push(true);
        rhs.pop();
        assert_eq!(lhs, rhs);

        let mut rhs = lhs.clone();
        rhs.push_unused_word();

        assert_eq!(lhs, rhs);
        rhs.push(true);
        rhs.pop();
        assert_eq!(lhs, rhs);
    }
}

#[test]
fn eq_test_eq() {
    let lhs = bits(&[true, false, true, false]);

    let rhs = bits(&[true, false, true, false]);
    assert_eq!(lhs, rhs);

    let rhs = bits(&[true, true, false, false]);
    assert_ne!(lhs, rhs);

    let mut rhs = bits(&[true, false, true, false, true]);
    assert_ne!(lhs, rhs);
    rhs.pop();
    assert_ne!(lhs.word_at(0), rhs.word_at(0));
    assert_eq!(lhs, rhs);

    let lhs = bits(&vec![true; WORD_BITS + 1]);

    let rhs = bits(&vec![true; WORD_BITS + 1]);
    assert_eq!(lhs, rhs);

    let rhs = bits(&vec![false; WORD_BITS + 1]);
    assert_ne!(lhs, rhs);

    let mut rhs = bits(&vec![true; WORD_BITS + 2]);
    assert_ne!(lhs, rhs);
    rhs.pop();
    assert_ne!(lhs.word_at(1), rhs.word_at(1));
    assert_eq!(lhs, rhs);
}

#[test]
fn lib_test_hash() {
    {
        let lhs = bits(&[true, true, false, false]);
        let rhs = bits(&[true; 4]);
        let unchanged = rhs.clone();

        let lhs_hash = hash(&lhs);
        let rhs_hash = hash(&rhs);
        assert_ne!(lhs_hash, rhs_hash);

        let mut rhs = unchanged;
        rhs.push_unused_word();

        let lhs_hash = hash(&lhs);
        let rhs_hash = hash(&rhs);
        assert_ne!(lhs_hash, rhs_hash);
    }

    {
        let lhs = bits(&[true, true, false, false]);
        let mut rhs = bits(&[true, true, false, false, true]);
        let unchanged = rhs.clone();

        let lhs_hash = hash(&lhs);
        let rhs_hash = hash(&rhs);
        assert_ne!(lhs_hash, rhs_hash);
        rhs.pop();
        let rhs_hash = hash(&rhs);
        assert_eq!(lhs_hash, rhs_hash);

        let mut rhs = unchanged;
        rhs.push_unused_word();

        let lhs_hash = hash(&lhs);
        let rhs_hash = hash(&rhs);
        assert_ne!(lhs_hash, rhs_hash);
        rhs.pop();
        let rhs_hash = hash(&rhs);
        assert_eq!(lhs_hash, rhs_hash);
    }

    {
        let lhs = bits(&vec![true; WORD_BITS + 1]);
        let mut rhs = lhs.clone();

        let lhs_hash = hash(&lhs);
        let rhs_hash = hash(&rhs);
        assert_eq!(lhs_hash, rhs_hash);
        rhs.push(true);
        rhs.pop();
        let rhs_hash = hash(&rhs);
        assert_eq!(lhs_hash, rhs_hash);

        let mut rhs = lhs.clone();
        rhs.push_unused_word();

        let lhs_hash = hash(&lhs);
        let rhs_hash = hash(&rhs);
        assert_eq!(lhs_hash, rhs_hash);
        rhs.push(true);
        rhs.pop();
        let rhs_hash = hash(&rhs);
        assert_eq!(lhs_hash, rhs_hash);
    }
}

#[test]
fn hash_test_hash() {
    {
        let lhs = bits(&[true, true, false, false]);
        let lhs_hash = hash(&lhs);

        let rhs = bits(&[true, true, false, false]);
        let rhs_hash = hash(&rhs);
        assert_eq!(lhs_hash, rhs_hash);

        let rhs = bits(&[true, false, true, false]);
        let rhs_hash = hash(&rhs);
        assert_ne!(lhs_hash, rhs_hash);

        let mut rhs = bits(&[true, true, false, false, true]);
        let rhs_hash = hash(&rhs);
        assert_ne!(lhs_hash, rhs_hash);
        rhs.pop();
        let rhs_hash = hash(&rhs);
        assert_eq!(lhs_hash, rhs_hash);
    }

    {
        let lhs = bits(&vec![true; WORD_BITS + 1]);
        let lhs_hash = hash(&lhs);

        let rhs = bits(&vec![true; WORD_BITS + 1]);
        let rhs_hash = hash(&rhs);
        assert_eq!(lhs_hash, rhs_hash);

        let rhs = bits(&vec![false; WORD_BITS + 1]);
        let rhs_hash = hash(&rhs);
        assert_ne!(lhs_hash, rhs_hash);

        let mut rhs = bits(&vec![true; WORD_BITS + 2]);
        let rhs_hash = hash(&rhs);
        assert_ne!(lhs_hash, rhs_hash);
        rhs.pop();
        let rhs_hash = hash(&rhs);
        assert_eq!(lhs_hash, rhs_hash);
    }
}

#[test]
fn test_eq_ignores_slack() {
    let plain = bits(&[true, false, false, true, true]);

    let mut padded = plain.clone();
    padded.push_unused_word();
    padded.push_unused_word();
    assert_eq!(plain, padded);
    assert_eq!(hash(&plain), hash(&padded));

    let mut popped = bits(&[true, false, false, true, true, true, true]);
    popped.pop();
    popped.pop();
    assert_ne!(plain.word_at(0), popped.word_at(0));
    assert_eq!(plain, popped);
    assert_eq!(hash(&plain), hash(&popped));
}
