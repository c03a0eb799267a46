//! Encoder for HDR cubemap textures into KTX2 containers.
//!
//! The library takes an uncompressed cubemap whose texels are 16-bit float
//! RGBA quadruples, packs every texel into the 32-bit shared-exponent RGB9E5
//! format, compresses each mip level with zstd, and serializes a complete
//! KTX2 container (header, level index, data format descriptor, compressed
//! level payloads).

pub mod bytes;
pub mod compress;
pub mod image;
pub mod ktx2_writer;
pub mod rgb9e5;

use vstd::prelude::*;
use vstd::arithmetic::div_mod::lemma_div_multiples_vanish;
use vstd::slice::{slice_subrange, slice_to_vec};

verus! {

use crate::bytes::{le16, u32le, words_bytes, push_u32};
use crate::compress::{zstd_compressed, zstd_compress};
use crate::image::{
    SourceImage, mip_dim, mip_level_bytes, region_offset, mip_region, mip_extent,
};
use crate::ktx2_writer::{
    Header, WriterLevel, LevelView, KTX2Writer, ktx2_bytes, payload_len_upto, lemma_ktx2_bytes_len,
    FORMAT_E5B9G9R9_UFLOAT_PACK32, SUPERCOMPRESSION_ZSTANDARD,
};

/// Failure modes of the conversion.
#[derive(Clone, Copy, Debug, PartialEq, Eq, Structural)]
pub enum Ktx2Error {
    /// The source image reports a compressed texel format.
    CompressedFormat,
    /// A mip level at or beyond the source's mip level count was requested.
    MipLevelOutOfRange,
    /// The entropy coder refused a level's payload.
    Compression,
    /// The serialized container would not fit in memory or in the
    /// container's offset fields.
    TooLarge,
}

/// The 16-bit words stored little-endian in a byte buffer; trailing odd
/// byte, if any, is dropped.  The words are the raw bit patterns of the
/// buffer's half-precision floats.
pub fn to_vec_f16_from_byte_slice(vecs: &[u8]) -> (r: Vec<u16>)
    ensures
        r@.len() == vecs@.len() / 2,
        forall|i: int| 0 <= i < r@.len() ==> r@[i] == le16(vecs@, i),
{
    let len = vecs.len();
    let n = len / 2;
    let mut out: Vec<u16> = Vec::new();
    let mut i: usize = 0;
    while i < n
        invariant
            i <= n,
            n == vecs@.len() / 2,
            vecs@.len() <= usize::MAX,
            out@.len() == i,
            forall|k: int| 0 <= k < i ==> out@[k] == le16(vecs@, k),
        decreases n - i,
    {
        let lo = vecs[2 * i];
        let hi = vecs[2 * i + 1];
        proof {
            assert((lo as u16) | ((hi as u16) << 8) == (lo as u16) + (hi as u16)
                * 0x100) by (bit_vector);
        }
        let v = (lo as u16) | ((hi as u16) << 8);
        out.push(v);
        i = i + 1;
    }
    out
}

/// The 32-bit words of a buffer laid out as bytes, each little-endian.
pub fn u32_to_bytes(vecs: &[u32]) -> (r: Vec<u8>)
    ensures
        r@ == words_bytes(vecs@),
{
    let mut out: Vec<u8> = Vec::new();
    let n = vecs.len();
    let mut i: usize = 0;
    while i < n
        invariant
            i <= n,
            n == vecs@.len(),
            out@ == words_bytes(vecs@.take(i as int)),
        decreases n - i,
    {
        push_u32(&mut out, vecs[i]);
        i = i + 1;
        proof {
            assert(vecs@.take(i as int).drop_last() =~= vecs@.take(i as int - 1));
            assert(vecs@.take(i as int).last() == vecs@[i as int - 1]);
        }
    }
    proof {
        assert(vecs@.take(n as int) =~= vecs@);
    }
    out
}

/// First word of one 16-byte sample descriptor: bit offset in the low 16
/// bits, then (bit length - 1), channel type, and qualifier flags.
pub open spec fn dfd_sample_word(
    bit_offset: u32,
    bit_length: u32,
    channel: u32,
    qualifiers: u32,
) -> u32 {
    (bit_offset + (bit_length - 1) * 0x10000 + channel * 0x1000000 + qualifiers
        * 0x10000000) as u32
}

/// One 16-byte sample descriptor: packed geometry word, unused sample
/// position word, then the lower and upper value-range words.
pub open spec fn dfd_sample(
    bit_offset: u32,
    bit_length: u32,
    channel: u32,
    qualifiers: u32,
    lower: u32,
    upper: u32,
) -> Seq<u8> {
    u32le(dfd_sample_word(bit_offset, bit_length, channel, qualifiers)) + u32le(0) + u32le(lower)
        + u32le(upper)
}

/// The complete 124-byte data format descriptor for the RGB9E5 layout: the
/// 4-byte total-size prefix, one basic descriptor block (vendor 0, type 0,
/// version 2, block size 120), and six fixed sample descriptors.  The three
/// exponent samples deliberately alias the same bit range 27..=31: the one
/// shared exponent field is described once per color channel.
pub open spec fn rgb9e5_dfd_bytes() -> Seq<u8> {
    u32le(124)  // total descriptor size, little-endian
     + u32le(0)  // vendor id 0, descriptor type 0
     + u32le((120 * 0x10000 + 2) as u32)  // block size 24 + 16 * 6, version 2
     + u32le((1 + 0x100 + 0x10000) as u32)  // model RGBSDA, primaries BT709, transfer linear, flags 0
     + u32le(0)  // texel block dimensions: one texel
     + u32le(4)  // bytesPlane0: one 32-bit word per texel
     + u32le(0)  // bytesPlane4-7
     + dfd_sample(0, 9, 0, 0, 0, 8448)  // R mantissa
     + dfd_sample(27, 5, 3, 2, 15, 31)  // R shared exponent
     + dfd_sample(9, 9, 1, 0, 0, 8448)  // G mantissa
     + dfd_sample(27, 5, 3, 2, 15, 31)  // G shared exponent
     + dfd_sample(18, 9, 2, 0, 0, 8448)  // B mantissa
     + dfd_sample(27, 5, 3, 2, 15, 31)  // B shared exponent
}

/// Appends one 16-byte sample descriptor.
fn push_sample(
    out: &mut Vec<u8>,
    bit_offset: u32,
    bit_length: u32,
    channel: u32,
    qualifiers: u32,
    lower: u32,
    upper: u32,
)
    requires
        1 <= bit_length <= 0x100,
        bit_offset < 0x10000,
        channel < 0x10,
        qualifiers < 0x10,
    ensures
        final(out)@ == old(out)@ + dfd_sample(bit_offset, bit_length, channel, qualifiers, lower, upper),
{
    let word = bit_offset + (bit_length - 1) * 0x10000 + channel * 0x1000000 + qualifiers
        * 0x10000000;
    push_u32(out, word);
    push_u32(out, 0);
    push_u32(out, lower);
    push_u32(out, upper);
    proof {
        assert(out@ =~= old(out)@ + dfd_sample(bit_offset, bit_length, channel, qualifiers, lower, upper));
    }
}

/// Builds the KTX2 data format descriptor for the packed shared-exponent
/// format `E5B9G9R9_UFLOAT_PACK32`.
///
/// The descriptor has one basic block (vendor 0, type 0, version 2) with
/// six samples: for each of R, G, B, a 9-bit mantissa sample and a 5-bit
/// shared-exponent sample.  Every texel occupies a single 32-bit word, so
/// `bytesPlane0` is 4.  The block has a fixed shape, so its total size is
/// known up front and recorded in the 4-byte little-endian prefix; the
/// returned buffer's first four bytes always equal its own length.
pub fn create_rgb9e5_dfd() -> (dfd: Vec<u8>)
    ensures
        dfd@ == rgb9e5_dfd_bytes(),
        dfd@.len() == 124,
{
    let mut dfd: Vec<u8> = Vec::new();
    push_u32(&mut dfd, 124);
    push_u32(&mut dfd, 0);
    push_u32(&mut dfd, 120 * 0x10000 + 2);
    push_u32(&mut dfd, 1 + 0x100 + 0x10000);
    push_u32(&mut dfd, 0);
    push_u32(&mut dfd, 4);
    push_u32(&mut dfd, 0);
    push_sample(&mut dfd, 0, 9, 0, 0, 0, 8448);
    push_sample(&mut dfd, 27, 5, 3, 2, 15, 31);
    push_sample(&mut dfd, 9, 9, 1, 0, 0, 8448);
    push_sample(&mut dfd, 27, 5, 3, 2, 15, 31);
    push_sample(&mut dfd, 18, 9, 2, 0, 0, 8448);
    push_sample(&mut dfd, 27, 5, 3, 2, 15, 31);
    proof {
        assert(dfd@ =~= rgb9e5_dfd_bytes());
    }
    dfd
}

/// Extracts one (mip level, face) region as a single-level, single-face
/// image of its own.  Fails when the mip level is at or beyond the source's
/// mip level count.
pub fn extract_mip_level(image: &SourceImage, mip_level: u32, face: u32) -> (r: Result<
    SourceImage,
    Ktx2Error,
>)
    requires
        image.wf(),
        !image.compressed,
        face < 6,
    ensures
        (mip_level < image.mip_level_count) <==> r is Ok,
        r matches Err(e) ==> e == Ktx2Error::MipLevelOutOfRange,
        r matches Ok(mip) ==> ({
            let off = region_offset(
                image.width as nat,
                image.height as nat,
                8,
                image.mip_level_count as nat,
                mip_level as nat,
                face as nat,
            );
            let len = mip_level_bytes(image.width as nat, image.height as nat, 8, mip_level as nat);
            &&& mip.width as nat == mip_dim(image.width as nat, mip_level as nat)
            &&& mip.height as nat == mip_dim(image.height as nat, mip_level as nat)
            &&& mip.mip_level_count == 1
            &&& !mip.compressed
            &&& mip.data@ == image.data@.subrange(off as int, off as int + len as int)
        }),
{
    // The buffer's length, which the layout invariant equates to the whole
    // 6-face chain, bounds the region arithmetic below.
    let data_len = image.data.len();
    match mip_region(image.width, image.height, 8, image.mip_level_count, mip_level, face) {
        Err(e) => Err(e),
        Ok((off, len)) => {
            let slice = slice_subrange(image.data.as_slice(), off, off + len);
            let data = slice_to_vec(slice);
            let (wm, hm) = mip_extent(image.width, image.height, mip_level);
            Ok(
                SourceImage {
                    width: wm,
                    height: hm,
                    mip_level_count: 1,
                    compressed: false,
                    data,
                },
            )
        },
    }
}

/// The packed words of one region's texels: each 8-byte texel contributes
/// one RGB9E5 word from its first three half-precision channels; the alpha
/// channel is dropped.
pub open spec fn face_words(d: Seq<u8>) -> Seq<u32> {
    Seq::new(
        d.len() / 8,
        |t: int| crate::rgb9e5::rgb9e5_pack_spec(le16(d, 4 * t), le16(d, 4 * t + 1), le16(d, 4 * t + 2)),
    )
}

/// The bytes of the (mip level, face) region of the source buffer.
pub open spec fn region_data(image: SourceImage, m: int, f: int) -> Seq<u8> {
    let off = region_offset(
        image.width as nat,
        image.height as nat,
        8,
        image.mip_level_count as nat,
        m as nat,
        f as nat,
    );
    let len = mip_level_bytes(image.width as nat, image.height as nat, 8, m as nat);
    image.data@.subrange(off as int, off as int + len as int)
}

/// The packed words of mip level `m` over the first `f` faces, faces
/// concatenated in ascending order.
pub open spec fn level_words_upto(image: SourceImage, m: int, f: int) -> Seq<u32>
    decreases f,
{
    if f <= 0 {
        Seq::empty()
    } else {
        level_words_upto(image, m, f - 1) + face_words(region_data(image, m, f - 1))
    }
}

/// The packed words of mip level `m`: all 6 faces in ascending order.
pub open spec fn level_words(image: SourceImage, m: int) -> Seq<u32> {
    level_words_upto(image, m, 6)
}

/// Mip level `m`'s payload before compression: its packed words as
/// little-endian bytes.
pub open spec fn level_bytes(image: SourceImage, m: int) -> Seq<u8> {
    words_bytes(level_words(image, m))
}

/// The container header for a source image: the fixed packed format code,
/// type size 4, base dimensions, cubemap layout (depth 0, layers 0, 6
/// faces), Zstandard supercompression.
pub open spec fn image_header(image: SourceImage) -> Header {
    Header {
        format: FORMAT_E5B9G9R9_UFLOAT_PACK32,
        type_size: 4,
        pixel_width: image.width,
        pixel_height: image.height,
        pixel_depth: 0,
        layer_count: 0,
        face_count: 6,
        supercompression_scheme: SUPERCOMPRESSION_ZSTANDARD,
    }
}

/// The writer levels of a source image, largest mip first: each level's
/// pre-compression length and its zstd frame at the default level.
pub open spec fn spec_writer_levels(image: SourceImage) -> Seq<LevelView> {
    Seq::new(
        image.mip_level_count as nat,
        |m: int| LevelView {
            uncompressed_length: level_bytes(image, m).len(),
            bytes: zstd_compressed(level_bytes(image, m), 0),
        },
    )
}

/// The complete container file for a source image.
pub open spec fn ktx2_file_spec(image: SourceImage) -> Seq<u8> {
    ktx2_bytes(image_header(image), rgb9e5_dfd_bytes(), spec_writer_levels(image))
}

/// The container's sections fit its 32-bit offset fields and the file fits
/// in one memory buffer.
pub open spec fn file_representable(image: SourceImage) -> bool {
    &&& 80 + 24 * (image.mip_level_count as nat) + 124 <= u32::MAX
    &&& ktx2_file_spec(image).len() <= usize::MAX
}

/// Law: the serialized container is a function of the source image alone,
/// so two successful conversions of the same image produce byte-identical
/// output.
pub proof fn lemma_write_ktx2_deterministic(image: SourceImage, out1: Seq<u8>, out2: Seq<u8>)
    requires
        out1 == ktx2_file_spec(image),
        out2 == ktx2_file_spec(image),
    ensures
        out1 == out2,
{
}

/// Encodes and compresses every mip level of the source image, largest
/// first: per level, each face's region is read as half-precision floats,
/// packed into RGB9E5 words, the concatenated words are laid out as bytes
/// and handed to the entropy coder.
pub fn build_levels(image: &SourceImage) -> (r: Result<Vec<WriterLevel>, Ktx2Error>)
    requires
        image.wf(),
        !image.compressed,
    ensures
        r matches Ok(levels) ==> {
            &&& levels@.len() == image.mip_level_count
            &&& forall|m: int|
                0 <= m < levels@.len() ==> (#[trigger] levels@[m])@ == spec_writer_levels(*image)[m]
        },
        r matches Err(e) ==> e == Ktx2Error::Compression,
{
    let count = image.mip_level_count;
    let mut levels: Vec<WriterLevel> = Vec::new();
    let mut m: u32 = 0;
    while m < count
        invariant
            m <= count,
            count == image.mip_level_count,
            image.wf(),
            !image.compressed,
            levels@.len() == m,
            forall|k: int|
                0 <= k < m ==> (#[trigger] levels@[k])@ == spec_writer_levels(*image)[k],
        decreases count - m,
    {
        let mut words: Vec<u32> = Vec::new();
        let mut face: u32 = 0;
        while face < 6
            invariant
                face <= 6,
                m < count,
                count == image.mip_level_count,
                image.wf(),
                !image.compressed,
                words@ == level_words_upto(*image, m as int, face as int),
            decreases 6 - face,
        {
            let mip = match extract_mip_level(image, m, face) {
                Ok(x) => x,
                Err(_) => {
                    // Unreachable: the loop only requests levels below the
                    // mip level count.
                    proof {
                        assert(false);
                    }
                    return Err(Ktx2Error::Compression);
                },
            };
            let halves = to_vec_f16_from_byte_slice(mip.data.as_slice());
            let ghost rd = region_data(*image, m as int, face as int);
            let ghost tx = (mip_dim(image.width as nat, m as nat) * mip_dim(
                image.height as nat,
                m as nat,
            )) as int;
            proof {
                crate::image::lemma_region_in_buffer(
                    image.width as nat,
                    image.height as nat,
                    8,
                    image.mip_level_count as nat,
                    m as nat,
                    face as nat,
                );
                assert(mip.data@ == rd);
                assert(rd.len() == tx * 8);
                lemma_div_multiples_vanish(tx * 4, 2);
                assert(rd.len() as int / 2 == tx * 4);
                lemma_div_multiples_vanish(tx, 8);
                assert(rd.len() as int / 8 == tx);
            }
            let texel_count = halves.len() / 4;
            proof {
                lemma_div_multiples_vanish(tx, 4);
                assert(halves@.len() == tx * 4);
                assert(texel_count as int == tx);
            }
            let mut t: usize = 0;
            while t < texel_count
                invariant
                    t <= texel_count,
                    rd == region_data(*image, m as int, face as int),
                    halves@.len() == tx * 4,
                    halves@.len() <= usize::MAX,
                    texel_count as int == tx,
                    tx == rd.len() / 8,
                    forall|j: int| 0 <= j < halves@.len() ==> halves@[j] == le16(rd, j),
                    words@ == level_words_upto(*image, m as int, face as int) + face_words(
                        rd,
                    ).take(t as int),
                decreases texel_count - t,
            {
                let v0 = halves[4 * t];
                let v1 = halves[4 * t + 1];
                let v2 = halves[4 * t + 2];
                let wword = crate::rgb9e5::float3_to_rgb9e5(v0, v1, v2);
                words.push(wword);
                t = t + 1;
                proof {
                    assert(face_words(rd)[t - 1] == crate::rgb9e5::rgb9e5_pack_spec(
                        le16(rd, 4 * (t - 1)),
                        le16(rd, 4 * (t - 1) + 1),
                        le16(rd, 4 * (t - 1) + 2),
                    ));
                    assert(words@ =~= level_words_upto(*image, m as int, face as int) + face_words(
                        rd,
                    ).take(t as int));
                }
            }
            face = face + 1;
            proof {
                assert(face_words(rd).take(texel_count as int) =~= face_words(rd));
                assert(words@ =~= level_words_upto(*image, m as int, face as int));
            }
        }
        let wb = u32_to_bytes(words.as_slice());
        proof {
            assert(wb@ == level_bytes(*image, m as int));
        }
        let compressed = match zstd_compress(wb.as_slice(), 0) {
            Ok(c) => c,
            Err(e) => {
                return Err(e);
            },
        };
        let ulen = wb.len();
        levels.push(WriterLevel { uncompressed_length: ulen, bytes: compressed });
        m = m + 1;
        proof {
            assert((levels@[m - 1])@ == spec_writer_levels(*image)[m as int - 1]);
        }
    }
    Ok(levels)
}

/// Converts a source cubemap into a complete KTX2 container: encodes and
/// compresses all mip levels, builds the data format descriptor, and
/// serializes header, level index, descriptor and payloads.  A compressed
/// source format is a precondition violation and fails without producing
/// output; entropy-coder failures are propagated.
pub fn write_ktx2(image: &SourceImage) -> (r: Result<Vec<u8>, Ktx2Error>)
    requires
        image.wf(),
    ensures
        r matches Ok(out) ==> !image.compressed && file_representable(*image) && out@
            == ktx2_file_spec(*image),
        r matches Err(e) ==> (e == Ktx2Error::CompressedFormat <==> image.compressed),
        r matches Err(e) ==> e == Ktx2Error::CompressedFormat || e == Ktx2Error::Compression || e
            == Ktx2Error::TooLarge,
        r matches Err(e) ==> (e == Ktx2Error::TooLarge ==> !file_representable(*image)),
        !image.compressed && file_representable(*image) ==> (r is Ok || (r matches Err(e) && e
            == Ktx2Error::Compression)),
{
    if image.is_compressed() {
        return Err(Ktx2Error::CompressedFormat);
    }
    let levels = match build_levels(image) {
        Ok(l) => l,
        Err(e) => {
            return Err(e);
        },
    };
    let dfd = create_rgb9e5_dfd();
    let ghost sw = spec_writer_levels(*image);
    let n = levels.len();
    let mut payload: u128 = 0;
    let mut i: usize = 0;
    while i < n
        invariant
            i <= n,
            n == levels@.len(),
            n == image.mip_level_count,
            sw == spec_writer_levels(*image),
            forall|k: int| 0 <= k < n ==> (#[trigger] levels@[k])@ == sw[k],
            payload == payload_len_upto(sw, i as int),
            payload <= (i as u128) * 0x10000000000000000,
        decreases n - i,
    {
        payload = payload + (levels[i].bytes.len() as u128);
        i = i + 1;
    }
    proof {
        lemma_ktx2_bytes_len(image_header(*image), rgb9e5_dfd_bytes(), sw);
        assert(ktx2_file_spec(*image).len() == 80 + 24 * sw.len() + 124 + payload_len_upto(
            sw,
            sw.len() as int,
        ));
    }
    let header_and_index: u128 = 80 + 24 * (n as u128) + 124;
    if header_and_index > 0xffffffff {
        return Err(Ktx2Error::TooLarge);
    }
    let total = header_and_index + payload;
    if total > usize::MAX as u128 {
        return Err(Ktx2Error::TooLarge);
    }
    let writer = KTX2Writer {
        header: Header {
            format: FORMAT_E5B9G9R9_UFLOAT_PACK32,
            type_size: 4,
            pixel_width: image.width,
            pixel_height: image.height,
            pixel_depth: 0,
            layer_count: 0,
            face_count: 6,
            supercompression_scheme: SUPERCOMPRESSION_ZSTANDARD,
        },
        dfd_bytes: dfd,
        levels_descending: levels,
    };
    proof {
        assert(writer.levels_view() =~~= sw);
        assert(writer.serialized() == ktx2_file_spec(*image));
        lemma_ktx2_bytes_len(writer.header, writer.dfd_bytes@, writer.levels_view());
    }
    let out = writer.write();
    Ok(out)
}

} // verus!
