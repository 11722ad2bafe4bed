use fast_h2m::scan::{
    contains_any2, contains_ascii_whitespace_or_non_ascii, contains_byte, count_binary_markers,
};

fn cases() -> Vec<Vec<u8>> {
    vec![
        Vec::new(),
        b"short < slice".to_vec(),
        b"abcdefghijklmnopqrstuvwxyzABCDEF".to_vec(),
        b"abcdefghijklmnopqrstuvwxyzABCDE<".to_vec(),
        b"abcdefghijklmnopqrstuvwxyzABCDEFGHIJKLMNOPQRSTUVWXYZ0123456789<>".to_vec(),
        b"abcdefghijklmnopqrstuvwxyzABCDEFGHIJKLMNOPQRSTUVWXYZ0123456789".to_vec(),
        b"\0\0\0abc\x01\x02\x1F".to_vec(),
        "hello\u{a0}world".as_bytes().to_vec(),
    ]
}

#[test]
fn count_binary_markers_matches_scalar() {
    for bytes in cases() {
        let control = bytes
            .iter()
            .filter(|&&byte| (byte < 0x09) || (0x0E..0x20).contains(&byte))
            .count();
        let nul = bytes.iter().filter(|&&byte| byte == 0).count();
        assert_eq!(count_binary_markers(&bytes), (control, nul));
    }
}

#[test]
fn contains_byte_matches_scalar() {
    for bytes in cases() {
        for needle in [0, b'<', b'>', b'z'] {
            assert_eq!(
                contains_byte(&bytes, needle),
                bytes.contains(&needle),
                "bytes={bytes:?} needle={needle}"
            );
        }
    }
}

#[test]
fn contains_any2_matches_scalar() {
    for bytes in cases() {
        assert_eq!(
            contains_any2(&bytes, b'<', b'>'),
            bytes.iter().any(|byte| matches!(*byte, b'<' | b'>'))
        );
    }
}

#[test]
fn contains_ascii_whitespace_or_non_ascii_matches_scalar() {
    for bytes in cases() {
        assert_eq!(
            contains_ascii_whitespace_or_non_ascii(&bytes),
            bytes.iter().any(|byte| *byte <= b' ' || *byte >= 0x80)
        );
    }
}

#[test]
fn count_binary_markers_counts_exactly() {
    assert_eq!(count_binary_markers(b"\0\0\0abc\x01\x02\x1F"), (6, 3));
    assert_eq!(count_binary_markers(b"\t\n\r plain"), (0, 0));
    assert_eq!(count_binary_markers(b"\x0E\x08"), (2, 0));
}
