use partial_crc32::partial_hasher::PartialHasher;
use rand_xoshiro::rand_core::Rng;
use rand_xoshiro::rand_core::SeedableRng;
use rand_xoshiro::Xoshiro256StarStar;

fn true_initial_truncate_crc(target: &[u8], first_non_truncated_byte: usize) -> u32 {
    let mut expected_crc_hasher = crc32fast::Hasher::new();
    expected_crc_hasher.update(&vec![0; first_non_truncated_byte]);
    expected_crc_hasher.update(&target[first_non_truncated_byte..]);

    expected_crc_hasher.finalize()
}

#[test]
fn test_truncate() {
    // removing bytes from the start
}

#[test]
fn test_init_truncate() {
    // removing bytes from the end
}

#[test]
fn test_init_truncate_small() {
    let mut rand = Xoshiro256StarStar::seed_from_u64(1);
    for i in 0..258 {
        let mut target = vec![0; i];
        rand.fill_bytes(target.as_mut_slice());

        let target = target.as_slice();
        let mut rolling = PartialHasher::new_fill_from_end(target);

        for first_non_truncated_byte in (0..=target.len()).rev() {
            let expected_crc = true_initial_truncate_crc(target, first_non_truncated_byte);
            let actual_crc = rolling.next().unwrap();
            assert_eq!(
                expected_crc, actual_crc,
                "expected_crc {expected_crc:#010x} != actual_crc {actual_crc:#010x} (byte {first_non_truncated_byte})"
            );
        }

        assert!(rolling.next().is_none());
    }
}

fn true_truncate_crc(target: &[u8], first_truncated_byte: usize) -> u32 {
    assert!(first_truncated_byte <= target.len());
    let mut expected_crc_hasher = crc32fast::Hasher::new();
    expected_crc_hasher.update(&target[..first_truncated_byte]);
    expected_crc_hasher.update(&vec![0; target.len() - first_truncated_byte]);

    expected_crc_hasher.finalize()
}

#[test]
fn test_truncate_small() {
    let mut rand = Xoshiro256StarStar::seed_from_u64(3);
    for i in 0..258 {
        let mut target = vec![0; i];
        rand.fill_bytes(target.as_mut_slice());

        let target = target.as_slice();
        let mut rolling = PartialHasher::new_zero_from_end(target);

        for first_truncated_byte in (0..=target.len()).rev() {
            let expected_crc = true_truncate_crc(target, first_truncated_byte);
            let actual_crc = rolling.next().unwrap();
            assert_eq!(
                expected_crc, actual_crc,
                "expected_crc {expected_crc:#010x} != actual_crc {actual_crc:#010x} (byte {first_truncated_byte})"
            );
        }

        assert!(rolling.next().is_none());
    }
}

#[test]
fn test_truncate_large_spot_check() {
    // One large pseudorandom buffer; walk each mode once and compare the
    // emitted value against the naive oracle at a few chosen split indices.
    let size = 1 << 20;
    let mut rand = Xoshiro256StarStar::seed_from_u64(2);
    let mut target = vec![0u8; size];
    rand.fill_bytes(target.as_mut_slice());
    let target = target.as_slice();

    let mut picks = vec![0usize, size];
    for _ in 0..23 {
        picks.push(usize::try_from(rand.next_u64()).unwrap() % (size + 1));
    }

    let mut rolling = PartialHasher::new_fill_from_end(target);
    for k in (0..=size).rev() {
        let actual_crc = rolling.next().unwrap();
        if picks.contains(&k) {
            let expected_crc = true_initial_truncate_crc(target, k);
            assert_eq!(
                expected_crc, actual_crc,
                "expected_crc {expected_crc:#010x} != actual_crc {actual_crc:#010x} (byte {k})"
            );
        }
    }
    assert!(rolling.next().is_none());

    let mut rolling = PartialHasher::new_zero_from_end(target);
    for k in (0..=size).rev() {
        let actual_crc = rolling.next().unwrap();
        if picks.contains(&k) {
            let expected_crc = true_truncate_crc(target, k);
            assert_eq!(
                expected_crc, actual_crc,
                "expected_crc {expected_crc:#010x} != actual_crc {actual_crc:#010x} (byte {k})"
            );
        }
    }
    assert!(rolling.next().is_none());
}
