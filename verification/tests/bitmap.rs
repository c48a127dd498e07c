use allox::bitmap::chunk_address;
use allox::bitmap::chunk_index;
use allox::bitmap::chunks_for;
use allox::bitmap::claim_run;
use allox::bitmap::first_fit_from;
use allox::bitmap::is_usable_base;
use allox::bitmap::release_run;
use allox::bitmap::run_is_free;
use allox::bitmap::run_mask;
use allox::bitmap::CHUNK_SIZE;
use allox::bitmap::SECTOR_SIZE;
use allox::bitmap::WIDTH;

#[test]
fn sizes_round_up_to_chunks() {
    assert_eq!(SECTOR_SIZE, WIDTH * CHUNK_SIZE);
    assert_eq!(chunks_for(0), 0);
    assert_eq!(chunks_for(1), 1);
    assert_eq!(chunks_for(64), 1);
    assert_eq!(chunks_for(65), 2);
    assert_eq!(chunks_for(4095), 64);
    assert_eq!(chunks_for(4096), 64);
    assert_eq!(chunks_for(4097), 65);
    assert_eq!(chunks_for(usize::MAX), usize::MAX / 64 + 1);
}

#[test]
fn masks_of_runs() {
    assert_eq!(run_mask(0, 5), 0);
    assert_eq!(run_mask(1, 0), 1);
    assert_eq!(run_mask(3, 4), 0b111_0000);
    assert_eq!(run_mask(64, 0), u64::MAX);
    assert_eq!(run_mask(1, 63), 1 << 63);
    // A run that reaches past the last chunk is cut off there.
    assert_eq!(run_mask(4, 62), 0b11 << 62);
    assert_eq!(run_mask(64, 63), 1 << 63);
}

#[test]
fn free_runs() {
    let map = 0b0110_0001u64;
    assert!(run_is_free(map, 4, 1));
    assert!(!run_is_free(map, 5, 1));
    assert!(!run_is_free(map, 1, 0));
    assert!(run_is_free(map, 57, 7));
    assert!(!run_is_free(map, 58, 7));
    assert!(run_is_free(map, 0, 64));
    assert!(!run_is_free(map, 0, 65));
    assert!(!run_is_free(map, 65, 0));
    assert!(run_is_free(0, 64, 0));
    assert!(!run_is_free(1 << 63, 64, 0));
    assert!(!run_is_free(0, usize::MAX, usize::MAX));
}

#[test]
fn first_fit_is_the_lowest_free_offset() {
    let map = 0b0110_0001u64;
    assert_eq!(first_fit_from(map, 1, 0), Some(1));
    assert_eq!(first_fit_from(map, 4, 0), Some(1));
    assert_eq!(first_fit_from(map, 5, 0), Some(7));
    assert_eq!(first_fit_from(map, 4, 2), Some(7));
    assert_eq!(first_fit_from(map, 57, 0), Some(7));
    assert_eq!(first_fit_from(map, 58, 0), None);
    assert_eq!(first_fit_from(map, 1, 63), Some(63));
    assert_eq!(first_fit_from(map, 1, 64), None);
    assert_eq!(first_fit_from(u64::MAX, 1, 0), None);
    assert_eq!(first_fit_from(0, 64, 0), Some(0));
    assert_eq!(first_fit_from(0, 64, 1), None);
    assert_eq!(first_fit_from(0, 65, 0), None);
    assert_eq!(first_fit_from(u64::MAX >> 1, 1, 0), Some(63));
}

#[test]
fn claim_sets_and_release_clears() {
    let map = 0b1000_0001u64;
    let claimed = claim_run(map, 3, 2);
    assert_eq!(claimed, 0b1001_1101);
    assert_eq!(release_run(claimed, 3, 2), map);
    assert_eq!(release_run(claimed, 1, 0), 0b1001_1100);
    // Clearing what is clear changes nothing.
    assert_eq!(release_run(map, 3, 2), map);
    assert_eq!(claim_run(0, 64, 0), u64::MAX);
    assert_eq!(release_run(u64::MAX, 64, 0), 0);
    assert_eq!(release_run(u64::MAX, 8, 60), u64::MAX >> 4);
}

#[test]
fn bases_that_a_sector_can_have() {
    assert!(!is_usable_base(0));
    assert!(is_usable_base(64));
    assert!(is_usable_base(0x7f00_0000_1000));
    assert!(!is_usable_base(0x1001));
    assert!(!is_usable_base(0x1020));
    assert!(is_usable_base((usize::MAX - SECTOR_SIZE) & !63));
    assert!(!is_usable_base(((usize::MAX - SECTOR_SIZE) & !63) + 64));
}

#[test]
fn addresses_and_chunks() {
    let base = 0x20_0000;
    assert_eq!(chunk_address(base, 0), base);
    assert_eq!(chunk_address(base, 1), base + 64);
    assert_eq!(chunk_address(base, 63), base + 4032);
    assert_eq!(chunk_index(base, base), Some(0));
    assert_eq!(chunk_index(base, base + 63), Some(0));
    assert_eq!(chunk_index(base, base + 64), Some(1));
    assert_eq!(chunk_index(base, base + 4095), Some(63));
    assert_eq!(chunk_index(base, base + 4096), None);
    assert_eq!(chunk_index(base, base - 1), None);
    assert_eq!(chunk_index(base, 0), None);
    assert_eq!(chunk_index(usize::MAX - 10, usize::MAX), Some(0));
    for off in 0..WIDTH {
        assert_eq!(chunk_index(base, chunk_address(base, off)), Some(off));
    }
}
