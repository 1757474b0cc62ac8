use partial_crc32::partial_hasher::PartialHasher;
use partial_crc32::primitives::{update_0, update_one_bit, zeroes_crc32};

#[test]
fn empty_buffer_both_modes() {
    let buf: Vec<u8> = Vec::new();

    let mut h = PartialHasher::new_zero_from_end(buf.as_slice());
    assert_eq!(h.next(), Some(0x00000000));
    assert_eq!(h.next(), None);
    assert_eq!(h.next(), None);

    let mut h = PartialHasher::new_fill_from_end(buf.as_slice());
    assert_eq!(h.next(), Some(0x00000000));
    assert_eq!(h.next(), None);
    assert_eq!(h.next(), None);
}

#[test]
fn single_byte_both_modes() {
    let buf = [0x61u8];

    let mut h = PartialHasher::new_zero_from_end(&buf[..]);
    assert_eq!(h.next(), Some(0xE8B7BE43));
    assert_eq!(h.next(), Some(0xD202EF8D));
    assert_eq!(h.next(), None);

    let mut h = PartialHasher::new_fill_from_end(&buf[..]);
    assert_eq!(h.next(), Some(0xD202EF8D));
    assert_eq!(h.next(), Some(0xE8B7BE43));
    assert_eq!(h.next(), None);
}

#[test]
fn four_zero_bytes_both_modes() {
    let buf = [0u8; 4];

    let mut h = PartialHasher::new_zero_from_end(&buf[..]);
    for _ in 0..5 {
        assert_eq!(h.next(), Some(0x2144DF1C));
    }
    assert_eq!(h.next(), None);

    let mut h = PartialHasher::new_fill_from_end(&buf[..]);
    for _ in 0..5 {
        assert_eq!(h.next(), Some(0x2144DF1C));
    }
    assert_eq!(h.next(), None);
}

#[test]
fn ascii_abcd_zero_from_end() {
    let buf = b"abcd";
    let expected = [
        crc32fast::hash(b"abcd"),
        crc32fast::hash(b"abc\x00"),
        crc32fast::hash(b"ab\x00\x00"),
        crc32fast::hash(b"a\x00\x00\x00"),
        crc32fast::hash(b"\x00\x00\x00\x00"),
    ];

    let mut h = PartialHasher::new_zero_from_end(&buf[..]);
    for e in expected {
        assert_eq!(h.next(), Some(e));
    }
    assert_eq!(h.next(), None);
}

#[test]
fn deterministic_over_equal_inputs() {
    let buf = b"determinism check";
    let mut a = PartialHasher::new_fill_from_end(&buf[..]);
    let mut b = PartialHasher::new_fill_from_end(&buf[..]);
    for _ in 0..=buf.len() {
        assert_eq!(a.next(), b.next());
    }
    assert_eq!(a.next(), None);
    assert_eq!(b.next(), None);

    let mut a = PartialHasher::new_zero_from_end(&buf[..]);
    let mut b = PartialHasher::new_zero_from_end(&buf[..]);
    for _ in 0..=buf.len() {
        assert_eq!(a.next(), b.next());
    }
}

#[test]
fn mode_boundary_matches_zeroes_crc32() {
    let buf = b"hello world";
    let z = zeroes_crc32(buf.len() as u64);
    assert_eq!(z, crc32fast::hash(&[0u8; 11]));

    let mut h = PartialHasher::new_zero_from_end(&buf[..]);
    let mut last = h.next().unwrap();
    while let Some(v) = h.next() {
        last = v;
    }
    assert_eq!(last, z);

    let mut h = PartialHasher::new_fill_from_end(&buf[..]);
    assert_eq!(h.next(), Some(z));
}

#[test]
fn zeroes_crc32_exact_values() {
    assert_eq!(zeroes_crc32(0), 0x00000000);
    assert_eq!(zeroes_crc32(1), 0xD202EF8D);
    assert_eq!(zeroes_crc32(4), 0x2144DF1C);
    assert_eq!(zeroes_crc32(1000), crc32fast::hash(&[0u8; 1000]));
}

#[test]
fn primitive_updates_match_reference() {
    // Advancing the initial raw state by one zero byte and finalizing is the
    // checksum of a single zero byte.
    assert_eq!(update_0(0xFFFFFFFF) ^ 0xFFFFFFFF, crc32fast::hash(&[0u8]));

    // A byte fed bit-by-bit (lsb first) is a byte fed whole.
    let mut c = 0xFFFFFFFFu32;
    for i in 0..8 {
        c = update_one_bit(c, 0x61 & (1 << i) != 0);
    }
    assert_eq!(c ^ 0xFFFFFFFF, crc32fast::hash(b"a"));
}
