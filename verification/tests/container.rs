use ktx2_cubemap::image::SourceImage;
use ktx2_cubemap::rgb9e5::float3_to_rgb9e5;
use ktx2_cubemap::{Ktx2Error, write_ktx2};

fn bits(v: f32) -> u16 {
    half::f16::from_f32(v).to_bits()
}

fn texel_bytes(r: f32, g: f32, b: f32, a: f32) -> [u8; 8] {
    let mut out = [0u8; 8];
    for (i, v) in [r, g, b, a].iter().enumerate() {
        let w = bits(*v).to_le_bytes();
        out[2 * i] = w[0];
        out[2 * i + 1] = w[1];
    }
    out
}

/// A 1x1 single-level cubemap, all 6 faces the same solid color.
fn solid_image(r: f32, g: f32, b: f32) -> SourceImage {
    let mut data = Vec::new();
    for _ in 0..6 {
        data.extend_from_slice(&texel_bytes(r, g, b, 1.0));
    }
    SourceImage { width: 1, height: 1, mip_level_count: 1, compressed: false, data }
}

/// A 2x2 two-level cubemap with a deterministic texel pattern.
fn patterned_image() -> SourceImage {
    // One face's chain: 2x2 (32 bytes) + 1x1 (8 bytes) = 40 bytes.
    let mut data = Vec::new();
    for face in 0..6 {
        for texel in 0..5 {
            let v = (face * 5 + texel) as f32 * 0.125;
            data.extend_from_slice(&texel_bytes(v, v * 0.5, v * 0.25, 1.0));
        }
    }
    SourceImage { width: 2, height: 2, mip_level_count: 2, compressed: false, data }
}

#[test]
fn single_level_container() {
    let image = solid_image(1.0, 0.5, 0.25);
    let file = write_ktx2(&image).unwrap();

    let reader = ktx2::Reader::new(&file).unwrap();
    let header = reader.header();
    assert_eq!(header.format, Some(ktx2::Format::E5B9G9R9_UFLOAT_PACK32));
    assert_eq!(header.type_size, 4);
    assert_eq!(header.pixel_width, 1);
    assert_eq!(header.pixel_height, 1);
    assert_eq!(header.pixel_depth, 0);
    assert_eq!(header.layer_count, 0);
    assert_eq!(header.face_count, 6);
    assert_eq!(header.level_count, 1);
    assert_eq!(header.supercompression_scheme, Some(ktx2::SupercompressionScheme::Zstandard));

    let levels: Vec<_> = reader.levels().collect();
    assert_eq!(levels.len(), 1);
    assert_eq!(levels[0].uncompressed_byte_length, 24);
    let payload = zstd::bulk::decompress(levels[0].data, 24).unwrap();
    assert_eq!(payload.len(), 24);

    // 6 identical packed words, one per face.
    let expected = float3_to_rgb9e5(bits(1.0), bits(0.5), bits(0.25));
    for face in 0..6 {
        let w = u32::from_le_bytes(payload[4 * face..4 * face + 4].try_into().unwrap());
        assert_eq!(w, expected);
    }
}

#[test]
fn two_level_container_payloads() {
    let image = patterned_image();
    let file = write_ktx2(&image).unwrap();

    let reader = ktx2::Reader::new(&file).unwrap();
    assert_eq!(reader.header().level_count, 2);
    // The descriptor block sits right after the 80-byte header and the two
    // 24-byte level index entries.
    assert_eq!(reader.header().index.dfd_byte_offset, 128);
    assert_eq!(reader.header().index.dfd_byte_length, 124);
    assert_eq!(reader.header().index.kvd_byte_length, 0);
    assert_eq!(reader.header().index.sgd_byte_length, 0);
    let levels: Vec<_> = reader.levels().collect();
    assert_eq!(levels.len(), 2);

    // Level 0: 6 faces of 2x2 texels, one word each.
    assert_eq!(levels[0].uncompressed_byte_length, 96);
    let level0 = zstd::bulk::decompress(levels[0].data, 96).unwrap();
    assert_eq!(level0.len(), 96);
    // Level 1: 6 faces of a single texel.
    assert_eq!(levels[1].uncompressed_byte_length, 24);
    let level1 = zstd::bulk::decompress(levels[1].data, 24).unwrap();
    assert_eq!(level1.len(), 24);

    // Check every word of both levels against the encoder, walking the
    // face-major chains of the source: face f's chain holds 4 base texels
    // then 1 texel of mip 1.
    for face in 0..6 {
        for texel in 0..4 {
            let v = (face * 5 + texel) as f32 * 0.125;
            let expected = float3_to_rgb9e5(bits(v), bits(v * 0.5), bits(v * 0.25));
            let idx = 4 * (face * 4 + texel);
            let w = u32::from_le_bytes(level0[idx..idx + 4].try_into().unwrap());
            assert_eq!(w, expected);
        }
        let v = (face * 5 + 4) as f32 * 0.125;
        let expected = float3_to_rgb9e5(bits(v), bits(v * 0.5), bits(v * 0.25));
        let w = u32::from_le_bytes(level1[4 * face..4 * face + 4].try_into().unwrap());
        assert_eq!(w, expected);
    }
}

#[test]
fn container_is_deterministic() {
    let image = patterned_image();
    let first = write_ktx2(&image).unwrap();
    let second = write_ktx2(&image).unwrap();
    assert_eq!(first, second);
}

#[test]
fn compressed_source_is_rejected() {
    let image = SourceImage {
        width: 4,
        height: 4,
        mip_level_count: 1,
        compressed: true,
        data: Vec::new(),
    };
    assert!(matches!(write_ktx2(&image), Err(Ktx2Error::CompressedFormat)));
}

#[test]
fn word_and_half_buffer_helpers() {
    let bytes = ktx2_cubemap::u32_to_bytes(&[0x0403_0201, 0xa1b2_c3d4]);
    assert_eq!(bytes, vec![0x01, 0x02, 0x03, 0x04, 0xd4, 0xc3, 0xb2, 0xa1]);
    let halves = ktx2_cubemap::to_vec_f16_from_byte_slice(&[0x01, 0x02, 0x03, 0x04, 0x05]);
    assert_eq!(halves, vec![0x0201, 0x0403]);
}
