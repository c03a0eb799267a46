use ktx2_cubemap::Ktx2Error;
use ktx2_cubemap::extract_mip_level;
use ktx2_cubemap::image::{SourceImage, check_source_layout, mip_region};

/// A 4x4 cubemap with 3 mip levels (4x4, 2x2, 1x1): one face's chain is
/// 128 + 32 + 8 = 168 bytes, the whole buffer 6 * 168 = 1008 bytes.
fn sample_image() -> SourceImage {
    let data: Vec<u8> = (0..1008u32).map(|i| (i % 251) as u8).collect();
    SourceImage { width: 4, height: 4, mip_level_count: 3, compressed: false, data }
}

#[test]
fn region_offsets_face_zero() {
    assert_eq!(mip_region(4, 4, 8, 3, 0, 0), Ok((0, 128)));
    assert_eq!(mip_region(4, 4, 8, 3, 1, 0), Ok((128, 32)));
    assert_eq!(mip_region(4, 4, 8, 3, 2, 0), Ok((160, 8)));
}

#[test]
fn region_offsets_face_one() {
    // Face 1's regions start after face 0's full chain of 168 bytes.
    assert_eq!(mip_region(4, 4, 8, 3, 0, 1), Ok((168, 128)));
    assert_eq!(mip_region(4, 4, 8, 3, 1, 1), Ok((296, 32)));
    assert_eq!(mip_region(4, 4, 8, 3, 2, 1), Ok((328, 8)));
}

#[test]
fn mip_level_out_of_range_fails() {
    assert_eq!(mip_region(4, 4, 8, 3, 3, 0), Err(Ktx2Error::MipLevelOutOfRange));
    let image = sample_image();
    let r = extract_mip_level(&image, 3, 0);
    assert!(matches!(r, Err(Ktx2Error::MipLevelOutOfRange)));
}

#[test]
fn extract_slices_the_right_region() {
    let image = sample_image();
    let mip = extract_mip_level(&image, 1, 1).unwrap();
    assert_eq!(mip.width, 2);
    assert_eq!(mip.height, 2);
    assert_eq!(mip.mip_level_count, 1);
    assert!(!mip.compressed);
    assert_eq!(mip.data.as_slice(), &image.data[296..296 + 32]);
}

#[test]
fn extract_base_level() {
    let image = sample_image();
    let mip = extract_mip_level(&image, 0, 0).unwrap();
    assert_eq!(mip.width, 4);
    assert_eq!(mip.height, 4);
    assert_eq!(mip.data.as_slice(), &image.data[0..128]);
}

#[test]
fn region_offsets_non_square() {
    // 8x4 base: levels are 8x4, 4x2, 2x1, so 256, 64, 16 bytes per face.
    assert_eq!(mip_region(8, 4, 8, 3, 0, 0), Ok((0, 256)));
    assert_eq!(mip_region(8, 4, 8, 3, 1, 0), Ok((256, 64)));
    assert_eq!(mip_region(8, 4, 8, 3, 2, 0), Ok((320, 16)));
    assert_eq!(mip_region(8, 4, 8, 3, 0, 2), Ok((672, 256)));
}

#[test]
fn source_layout_check() {
    let image = sample_image();
    assert!(check_source_layout(&image));
    let mut bad = sample_image();
    bad.data.push(0);
    assert!(!check_source_layout(&bad));
    let compressed = SourceImage {
        width: 4,
        height: 4,
        mip_level_count: 3,
        compressed: true,
        data: Vec::new(),
    };
    assert!(check_source_layout(&compressed));
}
