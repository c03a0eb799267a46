use ktx2_cubemap::create_rgb9e5_dfd;

#[test]
fn dfd_length_and_prefix() {
    let dfd = create_rgb9e5_dfd();
    // 4-byte size prefix + 24-byte basic block header + 6 samples of 16 bytes.
    assert_eq!(dfd.len(), 124);
    let prefix = u32::from_le_bytes([dfd[0], dfd[1], dfd[2], dfd[3]]);
    assert_eq!(prefix as usize, dfd.len());
}

#[test]
fn dfd_basic_block_header() {
    let dfd = create_rgb9e5_dfd();
    let word = |i: usize| u32::from_le_bytes([dfd[4 * i], dfd[4 * i + 1], dfd[4 * i + 2], dfd[4 * i + 3]]);
    // Vendor 0, descriptor type 0.
    assert_eq!(word(1), 0);
    // Block size 24 + 16 * 6 = 120 in the high half, version 2 in the low.
    assert_eq!(word(2), (120 << 16) | 2);
    // Color model RGBSDA (1), primaries BT709 (1), transfer linear (1), flags 0.
    assert_eq!(word(3), 1 | (1 << 8) | (1 << 16));
    // 1x1x1 texel blocks.
    assert_eq!(word(4), 0);
    // bytesPlane0 = 4, all others 0.
    assert_eq!(word(5), 4);
    assert_eq!(word(6), 0);
}

#[test]
fn dfd_sample_table() {
    let dfd = create_rgb9e5_dfd();
    let sample_word = |s: usize, i: usize| {
        let base = 28 + 16 * s + 4 * i;
        u32::from_le_bytes([dfd[base], dfd[base + 1], dfd[base + 2], dfd[base + 3]])
    };
    // Mantissa samples: bit offsets 0, 9, 18, length 9, channels R, G, B,
    // no qualifiers, range 0..=8448.
    for (s, (off, ch)) in [(0u32, 0u32), (9, 1), (18, 2)].iter().enumerate() {
        let s = s * 2;
        assert_eq!(sample_word(s, 0), off | (8 << 16) | (ch << 24));
        assert_eq!(sample_word(s, 1), 0);
        assert_eq!(sample_word(s, 2), 0);
        assert_eq!(sample_word(s, 3), 8448);
    }
    // Exponent samples: bit offset 27, length 5, shared-exponent channel
    // type 3, exponent qualifier, range 15..=31.
    for s in [1usize, 3, 5] {
        assert_eq!(sample_word(s, 0), 27 | (4 << 16) | (3 << 24) | (2 << 28));
        assert_eq!(sample_word(s, 1), 0);
        assert_eq!(sample_word(s, 2), 15);
        assert_eq!(sample_word(s, 3), 31);
    }
}

#[test]
fn dfd_exponent_samples_alias_one_field() {
    let dfd = create_rgb9e5_dfd();
    // The three exponent samples describe one shared bit field (bits
    // 27..=31) and are byte-identical.
    let sample = |s: usize| &dfd[28 + 16 * s..28 + 16 * (s + 1)];
    assert_eq!(sample(1), sample(3));
    assert_eq!(sample(1), sample(5));
}
