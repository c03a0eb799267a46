//! Serialization of the KTX2 container: the 80-byte header (12-byte magic,
//! nine 32-bit fields, section index), the per-level index, the data format
//! descriptor block, and the concatenated compressed level payloads.
use vstd::prelude::*;

verus! {

use crate::bytes::{u32le, u64le, push_u32, push_u64, extend_bytes};

/// VkFormat code of the packed shared-exponent format
/// `E5B9G9R9_UFLOAT_PACK32` stored in the container header.
pub const FORMAT_E5B9G9R9_UFLOAT_PACK32: u32 = 123;

/// Supercompression scheme code for Zstandard level payloads.
pub const SUPERCOMPRESSION_ZSTANDARD: u32 = 2;

/// Fixed header fields of the container.  The mip level count is not a
/// field: it is taken from the number of levels handed to the writer.
pub struct Header {
    pub format: u32,
    pub type_size: u32,
    pub pixel_width: u32,
    pub pixel_height: u32,
    pub pixel_depth: u32,
    pub layer_count: u32,
    pub face_count: u32,
    pub supercompression_scheme: u32,
}

/// One mip level's payload: its byte length before compression, and the
/// compressed bytes.
pub struct WriterLevel {
    pub uncompressed_length: usize,
    pub bytes: Vec<u8>,
}

/// Mathematical view of a `WriterLevel`.
pub struct LevelView {
    pub uncompressed_length: nat,
    pub bytes: Seq<u8>,
}

impl View for WriterLevel {
    type V = LevelView;

    open spec fn view(&self) -> LevelView {
        LevelView { uncompressed_length: self.uncompressed_length as nat, bytes: self.bytes@ }
    }
}

/// The fixed 12-byte file identifier.
pub open spec fn ktx2_magic() -> Seq<u8> {
    seq![0xabu8, 0x4bu8, 0x54u8, 0x58u8, 0x20u8, 0x32u8, 0x30u8, 0xbbu8, 0x0du8, 0x0au8, 0x1au8, 0x0au8]
}

/// Total compressed byte length of the first `i` levels.
pub open spec fn payload_len_upto(levels: Seq<LevelView>, i: int) -> nat
    decreases i,
{
    if i <= 0 {
        0
    } else {
        payload_len_upto(levels, i - 1) + levels[i - 1].bytes.len()
    }
}

/// The first `i` entries of the level index: byte offset from the start of
/// the file, compressed length, uncompressed length, each 64-bit.  Level
/// payloads are laid out back to back from `payload_base` in index order.
pub open spec fn level_index_bytes(levels: Seq<LevelView>, payload_base: nat, i: int) -> Seq<u8>
    decreases i,
{
    if i <= 0 {
        Seq::empty()
    } else {
        level_index_bytes(levels, payload_base, i - 1) + u64le(
            (payload_base + payload_len_upto(levels, i - 1)) as u64,
        ) + u64le(levels[i - 1].bytes.len() as u64) + u64le(levels[i - 1].uncompressed_length as u64)
    }
}

/// The first `i` level payloads, concatenated in index order.
pub open spec fn payload_bytes(levels: Seq<LevelView>, i: int) -> Seq<u8>
    decreases i,
{
    if i <= 0 {
        Seq::empty()
    } else {
        payload_bytes(levels, i - 1) + levels[i - 1].bytes
    }
}

/// The complete serialized container: magic, header fields, section index
/// (key-value data and supercompression global data are absent), level
/// index, descriptor block, level payloads.
pub open spec fn ktx2_bytes(h: Header, dfd: Seq<u8>, levels: Seq<LevelView>) -> Seq<u8> {
    let n = levels.len() as int;
    let dfd_off = 80 + 24 * levels.len();
    let payload_base = dfd_off + dfd.len();
    ktx2_magic() + u32le(h.format) + u32le(h.type_size) + u32le(h.pixel_width) + u32le(
        h.pixel_height,
    ) + u32le(h.pixel_depth) + u32le(h.layer_count) + u32le(h.face_count) + u32le(
        levels.len() as u32,
    ) + u32le(h.supercompression_scheme) + u32le(dfd_off as u32) + u32le(dfd.len() as u32) + u32le(0)
        + u32le(0) + u64le(0) + u64le(0) + level_index_bytes(levels, payload_base, n) + dfd
        + payload_bytes(levels, n)
}

pub proof fn lemma_payload_len_upto_mono(levels: Seq<LevelView>, i: int, j: int)
    requires
        i <= j,
    ensures
        payload_len_upto(levels, i) <= payload_len_upto(levels, j),
    decreases j - i,
{
    if i < j {
        lemma_payload_len_upto_mono(levels, i, j - 1);
    }
}

pub proof fn lemma_payload_bytes_len(levels: Seq<LevelView>, i: int)
    ensures
        payload_bytes(levels, i).len() == payload_len_upto(levels, i),
    decreases i,
{
    if i > 0 {
        lemma_payload_bytes_len(levels, i - 1);
    }
}

pub proof fn lemma_level_index_bytes_len(levels: Seq<LevelView>, payload_base: nat, i: int)
    requires
        i >= 0,
    ensures
        level_index_bytes(levels, payload_base, i).len() == 24 * i,
    decreases i,
{
    if i > 0 {
        lemma_level_index_bytes_len(levels, payload_base, i - 1);
    }
}

/// Length of the serialized container.
pub proof fn lemma_ktx2_bytes_len(h: Header, dfd: Seq<u8>, levels: Seq<LevelView>)
    ensures
        ktx2_bytes(h, dfd, levels).len() == 80 + 24 * levels.len() + dfd.len() + payload_len_upto(
            levels,
            levels.len() as int,
        ),
{
    lemma_level_index_bytes_len(levels, (80 + 24 * levels.len() + dfd.len()) as nat, levels.len() as int);
    lemma_payload_bytes_len(levels, levels.len() as int);
}

/// Assembles a container from its parts and serializes it in one pass.
pub struct KTX2Writer {
    pub header: Header,
    pub dfd_bytes: Vec<u8>,
    pub levels_descending: Vec<WriterLevel>,
}

impl KTX2Writer {
    /// The views of the writer's levels, in index order.
    pub open spec fn levels_view(self) -> Seq<LevelView> {
        self.levels_descending@.map_values(|l: WriterLevel| l@)
    }

    /// The byte sequence `write` produces.
    pub open spec fn serialized(self) -> Seq<u8> {
        ktx2_bytes(self.header, self.dfd_bytes@, self.levels_view())
    }

    /// The container's sections fit the index's offset fields and the
    /// whole file fits in one memory buffer.
    pub open spec fn representable(self) -> bool {
        &&& 80 + 24 * self.levels_descending@.len() + self.dfd_bytes@.len() <= u32::MAX
        &&& self.serialized().len() <= usize::MAX
    }

    /// Serializes the container.
    #[verifier::rlimit(60)]
    pub fn write(&self) -> (out: Vec<u8>)
        requires
            self.representable(),
        ensures
            out@ == self.serialized(),
    {
        proof {
            lemma_ktx2_bytes_len(self.header, self.dfd_bytes@, self.levels_view());
        }
        let n = self.levels_descending.len();
        let dfd_len = self.dfd_bytes.len();
        let dfd_off: usize = 80 + 24 * n;
        let payload_base: usize = dfd_off + dfd_len;
        let ghost lvls = self.levels_view();
        let mut out: Vec<u8> = Vec::new();
        out.push(0xab);
        out.push(0x4b);
        out.push(0x54);
        out.push(0x58);
        out.push(0x20);
        out.push(0x32);
        out.push(0x30);
        out.push(0xbb);
        out.push(0x0d);
        out.push(0x0a);
        out.push(0x1a);
        out.push(0x0a);
        proof {
            assert(out@ =~= ktx2_magic());
        }
        push_u32(&mut out, self.header.format);
        push_u32(&mut out, self.header.type_size);
        push_u32(&mut out, self.header.pixel_width);
        push_u32(&mut out, self.header.pixel_height);
        push_u32(&mut out, self.header.pixel_depth);
        push_u32(&mut out, self.header.layer_count);
        push_u32(&mut out, self.header.face_count);
        push_u32(&mut out, n as u32);
        push_u32(&mut out, self.header.supercompression_scheme);
        push_u32(&mut out, dfd_off as u32);
        push_u32(&mut out, dfd_len as u32);
        push_u32(&mut out, 0);
        push_u32(&mut out, 0);
        push_u64(&mut out, 0);
        push_u64(&mut out, 0);
        let ghost prefix = out@;
        let mut off: u64 = payload_base as u64;
        let mut i: usize = 0;
        while i < n
            invariant
                i <= n,
                n == self.levels_descending@.len(),
                lvls == self.levels_view(),
                payload_base == 80 + 24 * n + self.dfd_bytes@.len(),
                self.representable(),
                self.serialized().len() == 80 + 24 * n + self.dfd_bytes@.len()
                    + payload_len_upto(lvls, n as int),
                off == payload_base + payload_len_upto(lvls, i as int),
                out@ == prefix + level_index_bytes(lvls, payload_base as nat, i as int),
            decreases n - i,
        {
            proof {
                lemma_payload_len_upto_mono(lvls, i + 1, n as int);
            }
            let lvl = &self.levels_descending[i];
            push_u64(&mut out, off);
            push_u64(&mut out, lvl.bytes.len() as u64);
            push_u64(&mut out, lvl.uncompressed_length as u64);
            off = off + lvl.bytes.len() as u64;
            i = i + 1;
            proof {
                assert(out@ =~= prefix + level_index_bytes(lvls, payload_base as nat, i as int));
            }
        }
        extend_bytes(&mut out, self.dfd_bytes.as_slice());
        let ghost prefix2 = out@;
        let mut j: usize = 0;
        while j < n
            invariant
                j <= n,
                n == self.levels_descending@.len(),
                lvls == self.levels_view(),
                out@ == prefix2 + payload_bytes(lvls, j as int),
            decreases n - j,
        {
            extend_bytes(&mut out, self.levels_descending[j].bytes.as_slice());
            j = j + 1;
            proof {
                assert(out@ =~= prefix2 + payload_bytes(lvls, j as int));
            }
        }
        proof {
            assert(out@ =~= self.serialized());
        }
        out
    }
}

} // verus!
