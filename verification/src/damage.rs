//! What damage to an image file is found, and the laws of its checksum.
use crate::datapoint::le_bytes;
use crate::image::after_chunk;
use crate::image::be_at;
use crate::image::chunk_data;
use crate::image::chunk_fault;
use crate::image::crc_bit;
use crate::image::crc_bits;
use crate::image::crc_of;
use crate::image::crc_register;
use crate::image::header_data;
use crate::image::lemma_chunk_read;
use crate::image::lemma_file_parts;
use crate::image::lemma_header;
use crate::image::png_file;
use crate::image::png_verdict;
use crate::image::tag_round_trip;
use crate::image::take_chunk;
use crate::image::walk;
use crate::image::Layout;
use crate::image::IDAT;
use crate::image::IEND;
use crate::image::IHDR;
use crate::image::IMAGE_HEIGHT;
use crate::image::IMAGE_WIDTH;
use vstd::prelude::*;

verus! {

// ── Laws of the CRC ─────────────────────────────────────────────────────

proof fn lemma_crc_bits_xor(a: u32, b: u32, n: nat)
    ensures
        crc_bits(a ^ b, n) == crc_bits(a, n) ^ crc_bits(b, n),
    decreases n,
{
    if n > 0 {
        let m = (n - 1) as nat;
        lemma_crc_bits_xor(a, b, m);
        let x = crc_bits(a, m);
        let y = crc_bits(b, m);
        assert(crc_bit(x ^ y) == crc_bit(x) ^ crc_bit(y)) by (bit_vector);
    }
}

proof fn lemma_crc_bits_injective(a: u32, b: u32, n: nat)
    requires
        crc_bits(a, n) == crc_bits(b, n),
    ensures
        a == b,
    decreases n,
{
    if n > 0 {
        let m = (n - 1) as nat;
        let x = crc_bits(a, m);
        let y = crc_bits(b, m);
        assert(crc_bit(x) == crc_bit(y) ==> x == y) by (bit_vector);
        lemma_crc_bits_injective(a, b, m);
    }
}

/// The exclusive or of two sequences of one length, byte by byte.
pub open spec fn xor_bytes(a: Seq<u8>, b: Seq<u8>) -> Seq<u8> {
    Seq::new(a.len(), |i: int| a[i] ^ b[i])
}

proof fn lemma_register_is_affine(a: Seq<u8>, b: Seq<u8>, c: Seq<u8>)
    requires
        a.len() == b.len() == c.len(),
    ensures
        crc_register(xor_bytes(xor_bytes(a, b), c)) == crc_register(a) ^ crc_register(b)
            ^ crc_register(c),
    decreases a.len(),
{
    let all = xor_bytes(xor_bytes(a, b), c);
    if a.len() == 0 {
        assert(0xFFFF_FFFFu32 == 0xFFFF_FFFFu32 ^ 0xFFFF_FFFFu32 ^ 0xFFFF_FFFFu32) by (bit_vector);
    } else {
        let (a1, b1, c1) = (a.drop_last(), b.drop_last(), c.drop_last());
        lemma_register_is_affine(a1, b1, c1);
        assert(all.drop_last() =~= xor_bytes(xor_bytes(a1, b1), c1));
        let (x, y, z) = (crc_register(a1), crc_register(b1), crc_register(c1));
        let (p, q, s) = (a.last(), b.last(), c.last());
        assert(all.last() == p ^ q ^ s);
        assert((x ^ y ^ z) ^ ((p ^ q ^ s) as u32) == (x ^ (p as u32)) ^ (y ^ (q as u32)) ^ (z ^ (
        s as u32))) by (bit_vector);
        lemma_crc_bits_xor((x ^ (p as u32)) ^ (y ^ (q as u32)), z ^ (s as u32), 8);
        lemma_crc_bits_xor(x ^ (p as u32), y ^ (q as u32), 8);
    }
}

/// The CRC of the exclusive or of three sequences of one length is the
/// exclusive or of their CRCs.
pub proof fn crc_is_affine(a: Seq<u8>, b: Seq<u8>, c: Seq<u8>)
    requires
        a.len() == b.len() == c.len(),
    ensures
        crc_of(xor_bytes(xor_bytes(a, b), c)) == crc_of(a) ^ crc_of(b) ^ crc_of(c),
{
    lemma_register_is_affine(a, b, c);
    let (x, y, z) = (crc_register(a), crc_register(b), crc_register(c));
    assert((x ^ y ^ z) ^ 0xFFFF_FFFF == (x ^ 0xFFFF_FFFF) ^ (y ^ 0xFFFF_FFFF) ^ (z ^ 0xFFFF_FFFF))
        by (bit_vector);
}

/// A byte of zeros in the register is shifted out.
proof fn lemma_shifted_out(v: u32)
    requires
        v < 0x100_0000,
    ensures
        crc_bits(v << 8, 8) == v,
{
    reveal_with_fuel(crc_bits, 9);
    assert(crc_bit(v << 8) == v << 7 && crc_bit(v << 7) == v << 6 && crc_bit(v << 6) == v << 5
        && crc_bit(v << 5) == v << 4 && crc_bit(v << 4) == v << 3 && crc_bit(v << 3) == v << 2
        && crc_bit(v << 2) == v << 1 && crc_bit(v << 1) == v) by (bit_vector)
        requires
            v < 0x100_0000,
    ;
}

/// Taking in the lowest byte of what the register differs from `k` by.
proof fn lemma_residue_step(register: u32, k: u32, w: u32)
    requires
        register == k ^ w,
    ensures
        crc_bits(register ^ ((w % 256) as u8 as u32), 8) == crc_bits(k, 8) ^ (w / 256),
{
    let v = w / 256;
    assert((k ^ w) ^ (w % 256) == k ^ ((w / 256) << 8)) by (bit_vector);
    assert((w % 256) as u8 as u32 == w % 256);
    lemma_crc_bits_xor(k, v << 8, 8);
    lemma_shifted_out(v);
}

proof fn lemma_residue_register()
    ensures
        crc_bits(crc_bits(crc_bits(crc_bits(0xFFFF_FFFF, 8), 8), 8), 8) == 0xDEBB_20E3,
{
    assert(crc_bits(0xFFFF_FFFF, 8) == 0x2DFD_1072) by {
        reveal_with_fuel(crc_bits, 9);
        assert(crc_bit(0xFFFF_FFFFu32) == 0x9247_7CDFu32
            && crc_bit(0x9247_7CDFu32) == 0xA49B_3D4Fu32
            && crc_bit(0xA49B_3D4Fu32) == 0xBFF5_1D87u32
            && crc_bit(0xBFF5_1D87u32) == 0xB242_0DE3u32
            && crc_bit(0xB242_0DE3u32) == 0xB499_85D1u32
            && crc_bit(0xB499_85D1u32) == 0xB7F4_41C8u32
            && crc_bit(0xB7F4_41C8u32) == 0x5BFA_20E4u32
            && crc_bit(0x5BFA_20E4u32) == 0x2DFD_1072u32) by (bit_vector);
    }
    assert(crc_bits(0x2DFD_1072, 8) == 0xBE26_ED00) by {
        reveal_with_fuel(crc_bits, 9);
        assert(crc_bit(0x2DFD_1072u32) == 0x16FE_8839u32
            && crc_bit(0x16FE_8839u32) == 0xE6C7_C73Cu32
            && crc_bit(0xE6C7_C73Cu32) == 0x7363_E39Eu32
            && crc_bit(0x7363_E39Eu32) == 0x39B1_F1CFu32
            && crc_bit(0x39B1_F1CFu32) == 0xF160_7BC7u32
            && crc_bit(0xF160_7BC7u32) == 0x9508_BEC3u32
            && crc_bit(0x9508_BEC3u32) == 0xA73C_DC41u32
            && crc_bit(0xA73C_DC41u32) == 0xBE26_ED00u32) by (bit_vector);
    }
    assert(crc_bits(0xBE26_ED00, 8) == 0x00BE_26ED) by {
        reveal_with_fuel(crc_bits, 9);
        assert(crc_bit(0xBE26_ED00u32) == 0x5F13_7680u32
            && crc_bit(0x5F13_7680u32) == 0x2F89_BB40u32
            && crc_bit(0x2F89_BB40u32) == 0x17C4_DDA0u32
            && crc_bit(0x17C4_DDA0u32) == 0x0BE2_6ED0u32
            && crc_bit(0x0BE2_6ED0u32) == 0x05F1_3768u32
            && crc_bit(0x05F1_3768u32) == 0x02F8_9BB4u32
            && crc_bit(0x02F8_9BB4u32) == 0x017C_4DDAu32
            && crc_bit(0x017C_4DDAu32) == 0x00BE_26EDu32) by (bit_vector);
    }
    assert(crc_bits(0x00BE_26ED, 8) == 0xDEBB_20E3) by {
        reveal_with_fuel(crc_bits, 9);
        assert(crc_bit(0x00BE_26EDu32) == 0xEDE7_9056u32
            && crc_bit(0xEDE7_9056u32) == 0x76F3_C82Bu32
            && crc_bit(0x76F3_C82Bu32) == 0xD6C1_6735u32
            && crc_bit(0xD6C1_6735u32) == 0x86D8_30BAu32
            && crc_bit(0x86D8_30BAu32) == 0x436C_185Du32
            && crc_bit(0x436C_185Du32) == 0xCC0E_8F0Eu32
            && crc_bit(0xCC0E_8F0Eu32) == 0x6607_4787u32
            && crc_bit(0x6607_4787u32) == 0xDEBB_20E3u32) by (bit_vector);
    }
}

/// The CRC of any bytes followed by their own CRC, lowest byte first, is always
/// the same number.
pub proof fn crc_has_residue(data: Seq<u8>)
    ensures
        crc_of(data + le_bytes(crc_of(data) as nat, 4)) == 0x2144_DF1C,
{
    let r0 = crc_register(data);
    let w0 = crc_of(data);
    let w1 = w0 / 256;
    let w2 = w1 / 256;
    let w3 = w2 / 256;
    let k0 = 0xFFFF_FFFFu32;
    let k1 = crc_bits(k0, 8);
    let k2 = crc_bits(k1, 8);
    let k3 = crc_bits(k2, 8);
    let d1 = data.push((w0 % 256) as u8);
    let d2 = d1.push((w1 % 256) as u8);
    let d3 = d2.push((w2 % 256) as u8);
    let d4 = d3.push((w3 % 256) as u8);
    assert(r0 == k0 ^ w0) by {
        assert(r0 == 0xFFFF_FFFFu32 ^ (r0 ^ 0xFFFF_FFFFu32)) by (bit_vector);
    }
    assert(d1.drop_last() =~= data);
    lemma_residue_step(r0, k0, w0);
    assert(d2.drop_last() =~= d1);
    lemma_residue_step(crc_register(d1), k1, w1);
    assert(d3.drop_last() =~= d2);
    lemma_residue_step(crc_register(d2), k2, w2);
    assert(d4.drop_last() =~= d3);
    lemma_residue_step(crc_register(d3), k3, w3);
    lemma_residue_register();
    assert(w3 / 256 == 0);
    assert((0xDEBB_20E3u32 ^ 0u32) ^ 0xFFFF_FFFFu32 == 0x2144_DF1Cu32) by (bit_vector);
    assert(crc_of(d4) == 0x2144_DF1C);
    assert(data + le_bytes(w0 as nat, 4) =~= d4) by {
        reveal_with_fuel(le_bytes, 5);
        let n = w0 as nat;
        assert(le_bytes(n / 256 / 256 / 256 / 256, 0) =~= Seq::<u8>::empty());
    }
}

proof fn lemma_register_of_change(data: Seq<u8>, i: int, byte: u8)
    requires
        0 <= i < data.len(),
        byte != data[i],
    ensures
        crc_register(data.update(i, byte)) != crc_register(data),
    decreases data.len(),
{
    let other = data.update(i, byte);
    let x = crc_register(data.drop_last());
    let y = crc_register(other.drop_last());
    let p = data.last();
    let q = other.last();
    if i == data.len() - 1 {
        assert(other.drop_last() =~= data.drop_last());
        assert(p != q ==> x ^ (p as u32) != x ^ (q as u32)) by (bit_vector);
    } else {
        assert(other.drop_last() =~= data.drop_last().update(i, byte));
        lemma_register_of_change(data.drop_last(), i, byte);
        assert(x != y ==> x ^ (p as u32) != y ^ (p as u32)) by (bit_vector);
    }
    if crc_register(other) == crc_register(data) {
        lemma_crc_bits_injective(x ^ (p as u32), y ^ (q as u32), 8);
    }
}

/// Whatever single byte is changed, the CRC changes too.
pub proof fn crc_finds_changed_byte(data: Seq<u8>, i: int, byte: u8)
    requires
        0 <= i < data.len(),
        byte != data[i],
    ensures
        crc_of(data.update(i, byte)) != crc_of(data),
{
    lemma_register_of_change(data, i, byte);
    let x = crc_register(data);
    let y = crc_register(data.update(i, byte));
    assert(x != y ==> x ^ 0xFFFF_FFFF != y ^ 0xFFFF_FFFF) by (bit_vector);
}

// ── Files that are cut or extended ──────────────────────────────────────

/// The position after the first `IEND` chunk at or after the chunk at `pos`,
/// as long as the chunks are sound.
pub open spec fn image_end(data: Seq<u8>, pos: int) -> int
    decreases data.len() - pos,
{
    if chunk_fault(data, pos) is Some {
        pos
    } else if be_at(data, pos + 4) == IEND {
        after_chunk(data, pos)
    } else {
        image_end(data, after_chunk(data, pos))
    }
}

proof fn lemma_image_end(data: Seq<u8>, pos: int, first: bool, layout: Layout)
    requires
        walk(data, pos, first, layout) is Ok,
    ensures
        after_chunk(data, pos) <= image_end(data, pos) <= data.len(),
        be_at(data, pos + 4) != IEND ==> after_chunk(data, pos) < image_end(data, pos),
    decreases data.len() - pos,
{
    if be_at(data, pos + 4) != IEND {
        let next = take_chunk(layout, first, be_at(data, pos + 4), chunk_data(data, pos))->Ok_0;
        lemma_image_end(data, after_chunk(data, pos), false, next);
    }
}

proof fn lemma_same_chunk(a: Seq<u8>, b: Seq<u8>, pos: int)
    requires
        0 <= pos,
        chunk_fault(a, pos) is None,
        after_chunk(a, pos) <= b.len(),
        forall|i: int| pos <= i < after_chunk(a, pos) ==> a[i] == #[trigger] b[i],
    ensures
        be_at(b, pos + 4) == be_at(a, pos + 4),
        after_chunk(b, pos) == after_chunk(a, pos),
        chunk_data(b, pos) == chunk_data(a, pos),
        chunk_fault(b, pos) is None,
{
    let end = after_chunk(a, pos);
    assert(b[pos] == a[pos] && b[pos + 1] == a[pos + 1] && b[pos + 2] == a[pos + 2] && b[pos + 3]
        == a[pos + 3]);
    assert(b[pos + 4] == a[pos + 4] && b[pos + 5] == a[pos + 5] && b[pos + 6] == a[pos + 6] && b[pos
        + 7] == a[pos + 7]);
    assert(b[end - 4] == a[end - 4] && b[end - 3] == a[end - 3] && b[end - 2] == a[end - 2] && b[end
        - 1] == a[end - 1]);
    assert(chunk_data(b, pos) =~= chunk_data(a, pos));
    assert(b.subrange(pos + 4, end - 4) =~= a.subrange(pos + 4, end - 4));
}

proof fn lemma_same_walk(a: Seq<u8>, b: Seq<u8>, pos: int, first: bool, layout: Layout)
    requires
        0 <= pos,
        walk(a, pos, first, layout) is Ok,
        image_end(a, pos) <= b.len(),
        forall|i: int| pos <= i < image_end(a, pos) ==> a[i] == #[trigger] b[i],
    ensures
        walk(b, pos, first, layout) == walk(a, pos, first, layout),
    decreases a.len() - pos,
{
    lemma_image_end(a, pos, first, layout);
    lemma_same_chunk(a, b, pos);
    if be_at(a, pos + 4) != IEND {
        let next = take_chunk(layout, first, be_at(a, pos + 4), chunk_data(a, pos))->Ok_0;
        lemma_same_walk(a, b, after_chunk(a, pos), false, next);
    }
}

proof fn lemma_cut_walk(data: Seq<u8>, k: int, pos: int, first: bool, layout: Layout)
    requires
        0 <= pos,
        walk(data, pos, first, layout) is Ok,
        0 <= k < image_end(data, pos),
    ensures
        walk(data.take(k), pos, first, layout) is Err,
    decreases data.len() - pos,
{
    let cut = data.take(k);
    let end = after_chunk(data, pos);
    lemma_image_end(data, pos, first, layout);
    if k < pos + 8 {
        assert(chunk_fault(cut, pos) is Some);
    } else if k < end {
        assert(cut[pos] == data[pos] && cut[pos + 1] == data[pos + 1] && cut[pos + 2] == data[pos
            + 2] && cut[pos + 3] == data[pos + 3]);
        assert(chunk_fault(cut, pos) is Some);
    } else {
        lemma_same_chunk(data, cut, pos);
        let next = take_chunk(layout, first, be_at(data, pos + 4), chunk_data(data, pos))->Ok_0;
        lemma_cut_walk(data, k, end, false, next);
    }
}

/// A valid file that is cut is still valid if and only if it is cut behind its
/// `IEND` chunk.
pub proof fn cut_files_are_found(data: Seq<u8>, k: int)
    requires
        png_verdict(data) is Ok,
        0 <= k <= data.len(),
    ensures
        png_verdict(data.take(k)) is Ok <==> k >= image_end(data, 8),
{
    let start = Layout { size: None, idat: Seq::empty() };
    let cut = data.take(k);
    lemma_image_end(data, 8, true, start);
    if k >= 8 {
        assert(cut.take(8) =~= data.take(8));
        if k >= image_end(data, 8) {
            lemma_same_walk(data, cut, 8, true, start);
        } else {
            lemma_cut_walk(data, k, 8, true, start);
        }
    }
}

/// The file of a generated image ends with its `IEND` chunk, so that a valid one
/// cannot be cut anywhere.
pub proof fn generated_files_end_with_iend(compressed: Seq<u8>)
    requires
        compressed.len() <= u32::MAX,
    ensures
        image_end(png_file(compressed), 8) == png_file(compressed).len(),
{
    let data = png_file(compressed);
    let at = 45int + compressed.len();
    lemma_file_parts(compressed);
    lemma_header();
    lemma_chunk_read(data, 8, IHDR, header_data(IMAGE_WIDTH, IMAGE_HEIGHT));
    lemma_chunk_read(data, 33, IDAT, compressed);
    assert(data.subrange(at, at + 12) =~= data.subrange(at, 57int + compressed.len()));
    lemma_chunk_read(data, at, IEND, Seq::empty());
    assert(image_end(data, at) == at + 12);
    assert(image_end(data, 33) == image_end(data, at));
    assert(image_end(data, 8) == image_end(data, 33));
}

/// Whatever is appended to a valid file, it stays valid.
pub proof fn appended_bytes_are_ignored(data: Seq<u8>, tail: Seq<u8>)
    requires
        png_verdict(data) is Ok,
    ensures
        png_verdict(data + tail) is Ok,
{
    let start = Layout { size: None, idat: Seq::empty() };
    lemma_image_end(data, 8, true, start);
    assert((data + tail).take(8) =~= data.take(8));
    lemma_same_walk(data, data + tail, 8, true, start);
}

// ── Files that are changed ──────────────────────────────────────────────

/// Whether position `i` belongs to the type, the data or the CRC of a chunk, of
/// those from `pos` up to and including the first `IEND` chunk.
pub open spec fn is_checked(data: Seq<u8>, pos: int, i: int) -> bool
    decreases data.len() - pos,
{
    if chunk_fault(data, pos) is Some {
        false
    } else if i < after_chunk(data, pos) {
        pos + 4 <= i
    } else {
        be_at(data, pos + 4) != IEND && is_checked(data, after_chunk(data, pos), i)
    }
}

proof fn lemma_changed_chunk(data: Seq<u8>, i: int, byte: u8, pos: int)
    requires
        0 <= pos,
        chunk_fault(data, pos) is None,
        pos + 4 <= i < after_chunk(data, pos),
        byte != data[i],
    ensures
        chunk_fault(data.update(i, byte), pos) is Some,
{
    let other = data.update(i, byte);
    let end = after_chunk(data, pos);
    assert(other[pos] == data[pos] && other[pos + 1] == data[pos + 1] && other[pos + 2] == data[pos
        + 2] && other[pos + 3] == data[pos + 3]);
    assert(after_chunk(other, pos) == end);
    let covered = data.subrange(pos + 4, end - 4);
    if i < end - 4 {
        assert(other.subrange(pos + 4, end - 4) =~= covered.update(i - pos - 4, byte));
        crc_finds_changed_byte(covered, i - pos - 4, byte);
        assert(other[end - 4] == data[end - 4] && other[end - 3] == data[end - 3] && other[end - 2]
            == data[end - 2] && other[end - 1] == data[end - 1]);
    } else {
        assert(other.subrange(pos + 4, end - 4) =~= covered);
        let (a, b) = (data.subrange(end - 4, end), other.subrange(end - 4, end));
        tag_round_trip(a);
        tag_round_trip(b);
        assert(be_at(a, 0) == be_at(data, end - 4));
        assert(be_at(b, 0) == be_at(other, end - 4));
        assert(a[i - end + 4] != b[i - end + 4]);
    }
}

proof fn lemma_changed_walk(
    data: Seq<u8>,
    i: int,
    byte: u8,
    pos: int,
    first: bool,
    layout: Layout,
)
    requires
        0 <= pos,
        walk(data, pos, first, layout) is Ok,
        is_checked(data, pos, i),
        i < data.len(),
        byte != data[i],
    ensures
        walk(data.update(i, byte), pos, first, layout) is Err,
    decreases data.len() - pos,
{
    let other = data.update(i, byte);
    let end = after_chunk(data, pos);
    if i < end {
        lemma_changed_chunk(data, i, byte, pos);
    } else {
        lemma_same_chunk(data, other, pos);
        let next = take_chunk(layout, first, be_at(data, pos + 4), chunk_data(data, pos))->Ok_0;
        lemma_changed_walk(data, i, byte, end, false, next);
    }
}

/// A valid file with one byte changed is not valid, be the byte in the
/// signature or in the type, the data or the CRC of a chunk up to and including
/// the `IEND` chunk.
pub proof fn changed_bytes_are_found(data: Seq<u8>, i: int, byte: u8)
    requires
        png_verdict(data) is Ok,
        0 <= i < data.len(),
        i < 8 || is_checked(data, 8, i),
        byte != data[i],
    ensures
        png_verdict(data.update(i, byte)) is Err,
{
    let other = data.update(i, byte);
    if i < 8 {
        assert(other.take(8)[i] != data.take(8)[i]);
    } else {
        assert(other.take(8) =~= data.take(8));
        lemma_changed_walk(data, i, byte, 8, true, Layout { size: None, idat: Seq::empty() });
    }
}

/// A valid file with one bit flipped is not valid, in the same places.
pub proof fn flipped_bits_are_found(data: Seq<u8>, i: int, bit: u8)
    requires
        png_verdict(data) is Ok,
        0 <= i < data.len(),
        i < 8 || is_checked(data, 8, i),
        bit < 8,
    ensures
        png_verdict(data.update(i, data[i] ^ (1u8 << bit))) is Err,
{
    let byte = data[i];
    assert(byte ^ (1u8 << bit) != byte) by (bit_vector)
        requires
            bit < 8,
    ;
    changed_bytes_are_found(data, i, byte ^ (1u8 << bit));
}

} // verus!
