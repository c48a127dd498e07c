use allox::collatz::chain_length;
use allox::collatz::longest_chain;

#[test]
fn chains_of_small_numbers() {
    let want = [0u64, 1, 7, 2, 5, 8, 16, 3, 19, 6];
    for (i, k) in want.iter().enumerate() {
        assert_eq!(chain_length(i as u64 + 1, 1000), Some(*k));
    }
    assert_eq!(chain_length(27, 1000), Some(111));
    assert_eq!(chain_length(97, 1000), Some(118));
}

#[test]
fn chain_that_does_not_end_within_the_limit() {
    assert_eq!(chain_length(27, 110), None);
    assert_eq!(chain_length(27, 111), Some(111));
    assert_eq!(chain_length(2, 0), None);
    assert_eq!(chain_length(1, 0), Some(0));
    // 0 stays 0.
    assert_eq!(chain_length(0, 10_000), None);
}

#[test]
fn chain_that_leaves_64_bits() {
    assert_eq!(chain_length(u64::MAX, 1000), None);
    // The first odd number whose triple and one does not fit.
    assert_eq!(chain_length((u64::MAX - 1) / 3 + 1, 1000), None);
    assert_eq!(chain_length((u64::MAX - 1) / 3 + 1, 0), None);
    // A power of two only halves.
    assert_eq!(chain_length(1 << 63, 1000), Some(63));
}

#[test]
fn longest_chain_below_a_bound() {
    assert_eq!(longest_chain(1, 100), Some((0, 1)));
    assert_eq!(longest_chain(2, 100), Some((1, 2)));
    assert_eq!(longest_chain(10, 100), Some((19, 9)));
    assert_eq!(longest_chain(100, 1000), Some((118, 97)));
    assert_eq!(longest_chain(1000, 1000), Some((178, 871)));
    assert_eq!(longest_chain(10_000, 1000), Some((261, 6171)));
}

#[test]
fn longest_chain_is_the_first_of_its_length() {
    // 54 and 55 have chains of 112 steps as well; 27 has 111.
    let (max, at) = longest_chain(60, 1000).unwrap();
    assert_eq!((max, at), (112, 54));
    assert_eq!(chain_length(55, 1000), Some(112));
}

#[test]
fn longest_chain_with_a_short_limit() {
    // 27 needs 96 steps to fall below itself.
    assert_eq!(longest_chain(27, 95), None);
    assert_eq!(longest_chain(27, 96), Some((111, 27)));
    // Below 27, 7 takes longest to fall below itself: 11 steps.
    assert_eq!(longest_chain(26, 10), None);
    assert_eq!(longest_chain(26, 11), Some((23, 25)));
    assert_eq!(longest_chain(2, 0), None);
}

#[test]
fn both_walks_agree() {
    let n = 3000usize;
    let (max, at) = longest_chain(n, 10_000).unwrap();
    let mut best = (0u64, 1usize);
    for i in 1..=n {
        let k = chain_length(i as u64, 10_000).unwrap();
        if k > best.0 {
            best = (k, i);
        }
    }
    assert_eq!((max, at), best);
}
