use spotify_id::FileId;

#[test]
fn hex_of_zero_bytes() {
    let fid = FileId([0u8; 20]);
    assert_eq!(fid.to_base16(), "0".repeat(40));
}

#[test]
fn hex_of_counting_bytes() {
    let mut bytes = [0u8; 20];
    for (i, b) in bytes.iter_mut().enumerate() {
        *b = i as u8;
    }
    assert_eq!(
        FileId(bytes).to_base16(),
        "000102030405060708090a0b0c0d0e0f10111213"
    );
}

#[test]
fn hex_of_high_bytes() {
    let fid = FileId([0xffu8; 20]);
    assert_eq!(fid.to_base16(), "f".repeat(40));
    let mut bytes = [0u8; 20];
    bytes[0] = 0xab;
    bytes[19] = 0x0a;
    let text = FileId(bytes).to_base16();
    assert!(text.starts_with("ab"));
    assert!(text.ends_with("0a"));
    assert_eq!(text.len(), 40);
}

#[test]
fn equality_is_byte_wise() {
    let a = FileId([7u8; 20]);
    let b = FileId([7u8; 20]);
    let mut other = [7u8; 20];
    other[19] = 8;
    let c = FileId(other);
    assert_eq!(a, b);
    assert_ne!(a, c);
}

#[test]
fn ordering_matches_byte_order() {
    let pairs: [([u8; 20], [u8; 20]); 3] = [
        ([0u8; 20], [1u8; 20]),
        {
            let mut lo = [5u8; 20];
            let mut hi = [5u8; 20];
            lo[19] = 1;
            hi[19] = 2;
            (lo, hi)
        },
        {
            let mut lo = [9u8; 20];
            let mut hi = [9u8; 20];
            lo[0] = 8;
            hi[10] = 0;
            (lo, hi)
        },
    ];
    for (lo, hi) in pairs {
        assert_eq!(FileId(lo) < FileId(hi), lo < hi);
        assert_eq!(FileId(lo) > FileId(hi), lo > hi);
        assert_eq!(
            FileId(lo).partial_cmp(&FileId(hi)),
            lo.partial_cmp(&hi)
        );
    }
    let same = FileId([3u8; 20]);
    assert_eq!(same.partial_cmp(&same), Some(std::cmp::Ordering::Equal));
    assert!(same <= same && same >= same);
}
