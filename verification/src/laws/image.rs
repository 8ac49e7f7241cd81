//! Images: what a file is made of, and which files are accepted.
use crate::image::after_chunk;
use crate::image::agrees;
use crate::image::all_drawn;
use crate::image::be_at;
use crate::image::be_bytes;
use crate::image::check_inflated;
use crate::image::chunk_bytes;
use crate::image::chunk_data;
use crate::image::chunk_fault;
use crate::image::crc32;
use crate::image::crc_bit;
use crate::image::crc_bits;
use crate::image::crc_of;
use crate::image::crc_register;
use crate::image::crc_text;
use crate::image::generate_png;
use crate::image::image_rows;
use crate::image::inflated_view;
use crate::image::is_drawn;
use crate::image::is_image_of;
use crate::image::layout_verdict;
use crate::image::lemma_chunk_read;
use crate::image::png_file;
use crate::image::png_from_pixels;
use crate::image::png_signature;
use crate::image::png_verdict;
use crate::image::tag_round_trip;
use crate::image::take_chunk;
use crate::image::upper_hex;
use crate::image::validate_png;
use crate::image::walk;
use crate::image::write_chunk;
use crate::image::zlib_inflated;
use crate::image::zlib_stream;
use crate::image::Layout;
use crate::image::PngError;
use crate::image::PngFault;
use crate::image::IDAT;
use crate::image::IEND;
use crate::image::IHDR;
use crate::number::decimal_chars;
use crate::number::decimal_text;
use crate::number::fixed_hex;
use crate::number::hex_char;
use crate::text::debug_form;
use crate::text::lossy_text;
use vstd::prelude::*;

verus! {

// ── Checksums ───────────────────────────────────────────────────────────

/// Division of a 32-bit remainder by the reflected generator polynomial, one bit
/// further.
pub open spec fn divided_once(x: u32) -> u32 {
    if x % 2 == 1 {
        (x / 2) ^ 0xEDB8_8320u32
    } else {
        x / 2
    }
}

/// Eight bits further.
pub open spec fn divided(x: u32) -> u32 {
    divided_once(
        divided_once(
            divided_once(
                divided_once(divided_once(divided_once(divided_once(divided_once(x))))),
            ),
        ),
    )
}

proof fn lemma_one_bit(x: u32)
    ensures
        crc_bit(x) == divided_once(x),
{
    assert(x >> 1 == x / 2) by (bit_vector);
    assert((x & 1 != 0) == (x % 2 == 1)) by (bit_vector);
}

proof fn lemma_eight_bits(x: u32)
    ensures
        crc_bits(x, 8) == divided(x),
{
    reveal_with_fuel(crc_bits, 9);
    lemma_one_bit(crc_bits(x, 0));
    lemma_one_bit(crc_bits(x, 1));
    lemma_one_bit(crc_bits(x, 2));
    lemma_one_bit(crc_bits(x, 3));
    lemma_one_bit(crc_bits(x, 4));
    lemma_one_bit(crc_bits(x, 5));
    lemma_one_bit(crc_bits(x, 6));
    lemma_one_bit(crc_bits(x, 7));
}

/// The checksum of nothing is 0. One more byte is added to the inverted
/// checksum, which is then divided by eight bits more and inverted again.
pub proof fn checksums_divide(data: &[u8], longer: &[u8], byte: u8, r: u32, s: u32)
    requires
        call_ensures(crc32, (data,), r),
        call_ensures(crc32, (longer,), s),
        longer@ == data@.push(byte),
    ensures
        data@.len() == 0 ==> r == 0,
        s == divided(r ^ 0xFFFF_FFFFu32 ^ (byte as u32)) ^ 0xFFFF_FFFFu32,
{
    let register = crc_register(data@);
    assert(register ^ 0xFFFF_FFFFu32 ^ 0xFFFF_FFFFu32 == register) by (bit_vector);
    assert(0xFFFF_FFFFu32 ^ 0xFFFF_FFFFu32 == 0) by (bit_vector);
    assert(longer@.drop_last() =~= data@);
    lemma_eight_bits(register ^ (byte as u32));
}

// ── Chunks ──────────────────────────────────────────────────────────────

/// A chunk: four bytes that name its kind, and its data.
pub struct Chunk {
    pub kind: Seq<u8>,
    pub body: Seq<u8>,
}

/// The four bytes of a number, most significant first.
pub open spec fn big_endian(n: int) -> Seq<u8> {
    seq![
        (n / 0x100_0000 % 0x100) as u8,
        (n / 0x1_0000 % 0x100) as u8,
        (n / 0x100 % 0x100) as u8,
        (n % 0x100) as u8,
    ]
}

/// The number that four bytes make, most significant first.
pub open spec fn four_at(s: Seq<u8>, at: int) -> int {
    s[at] * 0x100_0000 + s[at + 1] * 0x1_0000 + s[at + 2] * 0x100 + s[at + 3]
}

/// The name `IHDR`.
pub open spec fn ihdr() -> Seq<u8> {
    seq![73u8, 72u8, 68u8, 82u8]
}

/// The name `IDAT`.
pub open spec fn idat() -> Seq<u8> {
    seq![73u8, 68u8, 65u8, 84u8]
}

/// The name `IEND`.
pub open spec fn iend() -> Seq<u8> {
    seq![73u8, 69u8, 78u8, 68u8]
}

/// The eight bytes that open a file.
pub open spec fn opening() -> Seq<u8> {
    seq![137u8, 80u8, 78u8, 71u8, 13u8, 10u8, 26u8, 10u8]
}

impl Chunk {
    /// The name has four bytes and the length of the data fits its field.
    pub open spec fn valid(self) -> bool {
        self.kind.len() == 4 && self.body.len() <= 0xFFFF_FFFF
    }

    /// The chunk in a file: length, name, data, and the checksum of the last two.
    #[verifier::opaque]
    pub open spec fn bytes(self) -> Seq<u8> {
        big_endian(self.body.len() as int) + self.kind + self.body + big_endian(
            crc_of(self.kind + self.body) as int,
        )
    }
}

/// Chunks one behind the other.
pub open spec fn all_bytes(chunks: Seq<Chunk>) -> Seq<u8>
    decreases chunks.len(),
{
    if chunks.len() == 0 {
        Seq::empty()
    } else {
        chunks[0].bytes() + all_bytes(chunks.drop_first())
    }
}

/// The data of the `IDAT` chunks, joined.
pub open spec fn pixel_stream(chunks: Seq<Chunk>) -> Seq<u8>
    decreases chunks.len(),
{
    if chunks.len() == 0 {
        Seq::empty()
    } else if chunks[0].kind == idat() {
        chunks[0].body + pixel_stream(chunks.drop_first())
    } else {
        pixel_stream(chunks.drop_first())
    }
}

/// Whether the chunk at `i` may stand where it does: `IHDR` comes first and is
/// long enough, and `IDAT` comes after it.
pub open spec fn in_place(chunks: Seq<Chunk>, i: int) -> bool {
    &&& chunks[i].valid()
    &&& chunks[i].kind == ihdr() ==> i == 0 && chunks[i].body.len() >= 13
    &&& chunks[i].kind == idat() ==> chunks[0].kind == ihdr()
}

/// Whether every chunk may stand where it does, and none is the last one of a
/// file.
pub open spec fn opens_file(chunks: Seq<Chunk>) -> bool {
    forall|i: int|
        #![trigger chunks[i]]
        0 <= i < chunks.len() ==> in_place(chunks, i) && chunks[i].kind != iend()
}

proof fn lemma_big_endian(n: u32)
    ensures
        be_bytes(n) == big_endian(n as int),
{
    assert(be_bytes(n) =~= big_endian(n as int));
}

proof fn lemma_four_at(s: Seq<u8>, at: int)
    requires
        0 <= at,
        at + 4 <= s.len(),
    ensures
        be_at(s, at) == four_at(s, at),
{
}

proof fn lemma_kind(kind: Seq<u8>)
    requires
        kind.len() == 4,
    ensures
        be_bytes(be_at(kind, 0)) == kind,
        be_at(kind, 0) == IHDR <==> kind == ihdr(),
        be_at(kind, 0) == IDAT <==> kind == idat(),
        be_at(kind, 0) == IEND <==> kind == iend(),
{
    tag_round_trip(kind);
    assert(be_bytes(IHDR) =~= ihdr());
    assert(be_bytes(IDAT) =~= idat());
    assert(be_bytes(IEND) =~= iend());
    tag_round_trip(ihdr());
    tag_round_trip(idat());
    tag_round_trip(iend());
    assert(be_at(ihdr(), 0) == IHDR);
    assert(be_at(idat(), 0) == IDAT);
    assert(be_at(iend(), 0) == IEND);
}

proof fn lemma_chunk_bytes(c: Chunk)
    requires
        c.valid(),
    ensures
        c.bytes() == chunk_bytes(be_at(c.kind, 0), c.body),
        c.bytes().len() == 12 + c.body.len(),
{
    reveal(Chunk::bytes);
    lemma_kind(c.kind);
    lemma_big_endian(c.body.len() as u32);
    lemma_big_endian(crc_of(c.kind + c.body));
    assert(c.body.len() % 0x1_0000_0000 == c.body.len());
}

/// What has been learnt after some chunks from the beginning of a file.
spec fn learnt(chunks: Seq<Chunk>) -> Layout {
    Layout {
        size: if chunks.len() > 0 && chunks[0].kind == ihdr() {
            Some((be_at(chunks[0].body, 0), be_at(chunks[0].body, 4)))
        } else {
            None
        },
        idat: pixel_stream(chunks),
    }
}

/// What the chunks from `pos` on lead to.
#[verifier::opaque]
spec fn led_to(data: Seq<u8>, pos: int, first: bool, layout: Layout) -> Result<Layout, PngFault> {
    walk(data, pos, first, layout)
}

proof fn lemma_stream_push(chunks: Seq<Chunk>, c: Chunk)
    ensures
        pixel_stream(chunks.push(c)) == (if c.kind == idat() {
            pixel_stream(chunks) + c.body
        } else {
            pixel_stream(chunks)
        }),
    decreases chunks.len(),
{
    let all = chunks.push(c);
    if chunks.len() == 0 {
        assert(all.drop_first() =~= Seq::<Chunk>::empty());
        assert(pixel_stream(all.drop_first()) =~= Seq::<u8>::empty());
        assert(c.body + Seq::<u8>::empty() =~= c.body);
        assert(Seq::<u8>::empty() + c.body =~= c.body);
    } else {
        assert(all.drop_first() =~= chunks.drop_first().push(c));
        lemma_stream_push(chunks.drop_first(), c);
        assert(pixel_stream(all) =~= (if c.kind == idat() {
            pixel_stream(chunks) + c.body
        } else {
            pixel_stream(chunks)
        }));
    }
}

proof fn lemma_bytes_push(chunks: Seq<Chunk>, c: Chunk)
    ensures
        all_bytes(chunks.push(c)) == all_bytes(chunks) + c.bytes(),
    decreases chunks.len(),
{
    let all = chunks.push(c);
    if chunks.len() == 0 {
        assert(all.drop_first() =~= Seq::<Chunk>::empty());
        assert(all_bytes(all.drop_first()) =~= Seq::<u8>::empty());
        assert(all[0] == c);
        assert(all_bytes(all) =~= all_bytes(chunks) + c.bytes());
    } else {
        assert(all.drop_first() =~= chunks.drop_first().push(c));
        lemma_bytes_push(chunks.drop_first(), c);
        assert(all[0] == chunks[0]);
        assert(all_bytes(all) == chunks[0].bytes() + (all_bytes(chunks.drop_first()) + c.bytes()));
        assert(all_bytes(all) =~= all_bytes(chunks) + c.bytes());
    }
}

/// A chunk at its place in the file is read as what it is.
proof fn lemma_chunk_at(data: Seq<u8>, pos: int, c: Chunk)
    requires
        0 <= pos,
        c.valid(),
        pos + 12 + c.body.len() <= data.len(),
        data.subrange(pos, pos + 12 + c.body.len()) == c.bytes(),
    ensures
        be_at(data, pos + 4) == be_at(c.kind, 0),
        chunk_data(data, pos) == c.body,
        after_chunk(data, pos) == pos + 12 + c.body.len(),
        chunk_fault(data, pos) is None,
{
    lemma_chunk_bytes(c);
    lemma_chunk_read(data, pos, be_at(c.kind, 0), c.body);
}

proof fn lemma_learnt_push(chunks: Seq<Chunk>, c: Chunk)
    requires
        opens_file(chunks),
        in_place(chunks.push(c), chunks.len() as int),
    ensures
        take_chunk(learnt(chunks), chunks.len() == 0, be_at(c.kind, 0), c.body) == Ok::<
            Layout,
            PngFault,
        >(learnt(chunks.push(c))),
{
    let all = chunks.push(c);
    assert(all[chunks.len() as int] == c);
    lemma_kind(c.kind);
    lemma_stream_push(chunks, c);
    assert(ihdr()[1] != idat()[1]);
    if chunks.len() > 0 {
        assert(all[0] == chunks[0]);
        assert(in_place(chunks, 0));
    }
    if c.kind == ihdr() {
        assert(pixel_stream(chunks) =~= Seq::<u8>::empty());
    }
}

/// The third of four parts stands behind the first two.
proof fn lemma_third_part(data: Seq<u8>, a: Seq<u8>, b: Seq<u8>, c: Seq<u8>, d: Seq<u8>)
    requires
        data == a + b + c + d,
    ensures
        data == a + b + (c + d),
        data.len() == a.len() + b.len() + c.len() + d.len(),
        data.subrange(
            a.len() as int + b.len() as int,
            a.len() as int + b.len() as int + c.len() as int,
        ) == c,
        data.take(a.len() as int) == a,
{
    assert(data =~= a + b + (c + d));
    assert(data.subrange(
        a.len() as int + b.len() as int,
        a.len() as int + b.len() as int + c.len() as int,
    ) =~= c);
    assert(data.take(a.len() as int) =~= a);
}

proof fn lemma_regrouped(a: Seq<u8>, b: Seq<u8>, c: Seq<u8>, d: Seq<u8>)
    ensures
        a + (b + c) + d == a + b + c + d,
{
    assert(a + (b + c) + d =~= a + b + c + d);
}

proof fn lemma_shorter(chunks: Seq<Chunk>)
    requires
        opens_file(chunks),
        chunks.len() > 0,
    ensures
        opens_file(chunks.drop_last()),
        in_place(chunks, chunks.len() - 1),
        chunks.last().valid(),
        chunks.last().kind != iend(),
{
    let front = chunks.drop_last();
    assert forall|i: int|
        #![trigger front[i]]
        0 <= i < front.len() implies in_place(front, i) && front[i].kind != iend() by {
        assert(front[i] == chunks[i]);
        assert(front[0] == chunks[0]);
        assert(in_place(chunks, i));
    }
    assert(in_place(chunks, chunks.len() - 1) && chunks[chunks.len() - 1].kind != iend());
}

/// A chunk that may stand where it does hands on what it says.
proof fn lemma_chunk_step(data: Seq<u8>, chunks: Seq<Chunk>, c: Chunk, pos: int)
    requires
        opens_file(chunks),
        in_place(chunks.push(c), chunks.len() as int),
        0 <= pos,
        pos + 12 + c.body.len() <= data.len(),
        data.subrange(pos, pos + 12 + c.body.len()) == c.bytes(),
    ensures
        led_to(data, pos, chunks.len() == 0, learnt(chunks)) == (if c.kind == iend() {
            Ok::<Layout, PngFault>(learnt(chunks.push(c)))
        } else {
            led_to(data, pos + 12 + c.body.len(), false, learnt(chunks.push(c)))
        }),
{
    reveal(led_to);
    assert(chunks.push(c)[chunks.len() as int] == c);
    lemma_chunk_at(data, pos, c);
    lemma_learnt_push(chunks, c);
    lemma_kind(c.kind);
}

/// The chunks that open a file are passed over, and what they say is kept.
proof fn lemma_opening_walk(data: Seq<u8>, chunks: Seq<Chunk>, tail: Seq<u8>)
    requires
        opens_file(chunks),
        data == opening() + all_bytes(chunks) + tail,
    ensures
        led_to(data, 8, true, Layout { size: None, idat: Seq::empty() }) == led_to(
            data,
            8 + all_bytes(chunks).len() as int,
            chunks.len() == 0,
            learnt(chunks),
        ),
    decreases chunks.len(),
{
    if chunks.len() == 0 {
        assert(learnt(chunks) == Layout { size: None, idat: Seq::<u8>::empty() });
    } else {
        let front = chunks.drop_last();
        let c = chunks.last();
        let pos = 8 + all_bytes(front).len() as int;
        assert(front.push(c) =~= chunks);
        lemma_bytes_push(front, c);
        lemma_shorter(chunks);
        lemma_chunk_bytes(c);
        lemma_regrouped(opening(), all_bytes(front), c.bytes(), tail);
        lemma_third_part(data, opening(), all_bytes(front), c.bytes(), tail);
        lemma_opening_walk(data, front, c.bytes() + tail);
        lemma_chunk_step(data, front, c, pos);
    }
}

// ── Which files are accepted ────────────────────────────────────────────

/// The last chunk ends the walk and adds nothing.
proof fn lemma_last_chunk(data: Seq<u8>, chunks: Seq<Chunk>, c: Chunk, pos: int)
    requires
        opens_file(chunks),
        c.valid(),
        c.kind == iend(),
        0 <= pos,
        pos + 12 + c.body.len() <= data.len(),
        data.subrange(pos, pos + 12 + c.body.len()) == c.bytes(),
    ensures
        led_to(data, pos, chunks.len() == 0, learnt(chunks)) == Ok::<Layout, PngFault>(
            learnt(chunks),
        ),
{
    reveal(led_to);
    lemma_chunk_at(data, pos, c);
    lemma_kind(c.kind);
    assert(ihdr()[1] != iend()[1] && idat()[1] != iend()[1]);
}

/// A file of chunks that stand where they may, with `IHDR` first and `IEND` last,
/// is judged by its pixel data: by what comes out when the data of the `IDAT`
/// chunks is decompressed, held against the width and the height that stand at
/// the beginning of `IHDR`. What follows `IEND` does not count.
pub proof fn sound_files_are_judged_by_their_pixels(
    data: &[u8],
    chunks: Seq<Chunk>,
    last: Seq<u8>,
    tail: Seq<u8>,
    r: Result<(), PngError>,
    width: u32,
    height: u32,
    plain: Result<Vec<u8>, String>,
    judged: Result<(), PngError>,
)
    requires
        call_ensures(validate_png, (data,), r),
        opens_file(chunks),
        last.len() <= 0xFFFF_FFFF,
        data@ == opening() + all_bytes(chunks) + (Chunk { kind: iend(), body: last }).bytes()
            + tail,
        chunks.len() > 0 && chunks[0].kind == ihdr() ==> {
            &&& width == four_at(chunks[0].body, 0)
            &&& height == four_at(chunks[0].body, 4)
        },
        inflated_view(plain) == zlib_inflated(pixel_stream(chunks)),
        call_ensures(check_inflated, (width, height, plain), judged),
    ensures
        !(chunks.len() > 0 && chunks[0].kind == ihdr()) ==> r == Err::<(), PngError>(
            PngError::NoIhdr,
        ),
        chunks.len() > 0 && chunks[0].kind == ihdr() ==> if pixel_stream(chunks).len() == 0 {
            r == Err::<(), PngError>(PngError::NoIdat)
        } else {
            same_outcome(r, judged)
        },
{
    let end = Chunk { kind: iend(), body: last };
    let d = data@;
    let pos = 8 + all_bytes(chunks).len() as int;
    lemma_chunk_bytes(end);
    lemma_third_part(d, opening(), all_bytes(chunks), end.bytes(), tail);
    lemma_opening_walk(d, chunks, end.bytes() + tail);
    lemma_last_chunk(d, chunks, end, pos);
    lemma_outcome(d, r);
    if chunks.len() > 0 && chunks[0].kind == ihdr() {
        assert(in_place(chunks, 0));
        lemma_four_at(chunks[0].body, 0);
        lemma_four_at(chunks[0].body, 4);
    }
}

/// The outcome of a check is told by what the chunks lead to.
proof fn lemma_outcome(data: Seq<u8>, r: Result<(), PngError>)
    requires
        agrees(r, png_verdict(data)),
        data.len() >= 8,
        data.take(8) == opening(),
    ensures
        match led_to(data, 8, true, Layout { size: None, idat: Seq::empty() }) {
            Err(fault) => r matches Err(e) && e@ == fault,
            Ok(layout) => agrees(r, layout_verdict(layout)),
        },
{
    reveal(led_to);
    assert(png_signature() =~= opening());
}

/// Whether two outcomes are the same, as far as anyone can tell.
pub open spec fn same_outcome(a: Result<(), PngError>, b: Result<(), PngError>) -> bool {
    match (a, b) {
        (Ok(_), Ok(_)) => true,
        (Err(e), Err(f)) => e@ == f@,
        _ => false,
    }
}

/// Pixel data is right if it is as long as its rows are, each of which has a
/// filter byte and four bytes for each pixel.
pub proof fn pixels_fill_the_rows(
    width: u32,
    height: u32,
    plain: Result<Vec<u8>, String>,
    r: Result<(), PngError>,
)
    requires
        call_ensures(check_inflated, (width, height, plain), r),
    ensures
        match plain {
            Ok(bytes) => {
                &&& r is Ok <==> bytes@.len() == height * (1 + 4 * width)
                &&& r matches Err(e) ==> (e matches PngError::SizeMismatch { expected, actual }
                    && expected == height * (1 + 4 * width) && actual == bytes@.len())
            },
            Err(text) => r matches Err(PngError::Decompress { reason }) && reason@ == text@,
        },
{
    assert(1 + width * 4 == 1 + 4 * width);
}

/// A chunk that a walk accepts is laid out as one.
proof fn lemma_read_chunk(data: Seq<u8>, pos: int) -> (c: Chunk)
    requires
        0 <= pos,
        chunk_fault(data, pos) is None,
    ensures
        c.valid(),
        be_at(c.kind, 0) == be_at(data, pos + 4),
        c.body == chunk_data(data, pos),
        after_chunk(data, pos) == pos + 12 + c.body.len(),
        pos + 12 + c.body.len() <= data.len(),
        data.subrange(pos, pos + 12 + c.body.len()) == c.bytes(),
{
    let length = be_at(data, pos) as int;
    let kind = data.subrange(pos + 4, pos + 8);
    let body = chunk_data(data, pos);
    let here = Chunk { kind, body };
    let next = after_chunk(data, pos);
    assert(be_at(kind, 0) == be_at(data, pos + 4));
    assert(body.len() == length);
    assert(data.subrange(pos + 4, next - 4) =~= kind + body);
    let (a, b) = (data.subrange(pos, pos + 4), data.subrange(next - 4, next));
    tag_round_trip(a);
    tag_round_trip(b);
    assert(be_at(a, 0) == be_at(data, pos));
    assert(be_at(b, 0) == be_at(data, next - 4));
    lemma_big_endian(body.len() as u32);
    lemma_big_endian(crc_of(kind + body));
    assert(here.bytes() == a + kind + body + b) by {
        reveal(Chunk::bytes);
    }
    assert(data.subrange(pos, next) =~= a + kind + body + b);
    here
}

/// A chunk that a walk accepts stands where it may.
proof fn lemma_accepted_chunk(data: Seq<u8>, pos: int, passed: Seq<Chunk>) -> (c: Chunk)
    requires
        0 <= pos,
        opens_file(passed),
        led_to(data, pos, passed.len() == 0, learnt(passed)) is Ok,
    ensures
        c.valid(),
        in_place(passed.push(c), passed.len() as int),
        pos + 12 + c.body.len() <= data.len(),
        data.subrange(pos, pos + 12 + c.body.len()) == c.bytes(),
{
    reveal(led_to);
    let here = lemma_read_chunk(data, pos);
    let all = passed.push(here);
    lemma_kind(here.kind);
    assert(all[passed.len() as int] == here);
    assert(ihdr()[1] != idat()[1]);
    if here.kind == idat() {
        assert(learnt(passed).size is Some);
        assert(all[0] == passed[0]);
    }
    here
}

proof fn lemma_longer(chunks: Seq<Chunk>, c: Chunk)
    requires
        opens_file(chunks),
        in_place(chunks.push(c), chunks.len() as int),
        c.kind != iend(),
    ensures
        opens_file(chunks.push(c)),
{
    let all = chunks.push(c);
    assert forall|i: int|
        #![trigger all[i]]
        0 <= i < all.len() implies in_place(all, i) && all[i].kind != iend() by {
        if i < chunks.len() {
            assert(all[i] == chunks[i]);
            assert(all[0] == chunks[0]);
            assert(in_place(chunks, i));
        }
    }
}

proof fn lemma_one_further(data: Seq<u8>, pos: int, a: Seq<u8>, c: Seq<u8>)
    requires
        0 <= pos,
        pos + c.len() <= data.len(),
        data.take(pos) == a,
        data.subrange(pos, pos + c.len()) == c,
    ensures
        data.take(pos + c.len()) == a + c,
{
    assert(data.take(pos + c.len()) =~= data.take(pos) + data.subrange(pos, pos + c.len()));
}

/// The chunks that a walk through a file passes, and the last one.
proof fn lemma_walk_chunks(data: Seq<u8>, pos: int, passed: Seq<Chunk>) -> (r: (Seq<Chunk>, Chunk))
    requires
        0 <= pos <= data.len(),
        opens_file(passed),
        data.take(pos) == opening() + all_bytes(passed),
        led_to(data, pos, passed.len() == 0, learnt(passed)) is Ok,
    ensures
        opens_file(r.0),
        r.1.valid(),
        r.1.kind == iend(),
        led_to(data, pos, passed.len() == 0, learnt(passed)) == Ok::<Layout, PngFault>(
            learnt(r.0),
        ),
        8 + all_bytes(r.0).len() + r.1.bytes().len() <= data.len(),
        data.take(8 + all_bytes(r.0).len() as int + r.1.bytes().len() as int) == opening()
            + all_bytes(r.0) + r.1.bytes(),
    decreases data.len() - pos,
{
    let c = lemma_accepted_chunk(data, pos, passed);
    lemma_chunk_bytes(c);
    lemma_one_further(data, pos, opening() + all_bytes(passed), c.bytes());
    assert(data.take(pos).len() == pos);
    if c.kind == iend() {
        lemma_last_chunk(data, passed, c, pos);
        (passed, c)
    } else {
        lemma_chunk_step(data, passed, c, pos);
        lemma_longer(passed, c);
        lemma_bytes_push(passed, c);
        lemma_regrouped(opening(), all_bytes(passed), c.bytes(), Seq::empty());
        assert(opening() + all_bytes(passed.push(c)) =~= opening() + all_bytes(passed) + c.bytes());
        lemma_walk_chunks(data, pos + 12 + c.body.len(), passed.push(c))
    }
}

/// Whether a file opens with the given chunks and then `IEND`.
pub open spec fn is_made_of(data: Seq<u8>, chunks: Seq<Chunk>, last: Chunk, tail: Seq<u8>) -> bool {
    &&& opens_file(chunks)
    &&& last.valid() && last.kind == iend()
    &&& data == opening() + all_bytes(chunks) + last.bytes() + tail
}

/// Every file that is accepted has the opening bytes and is made of chunks with
/// sound checksums that stand where they may, with `IHDR` first and `IEND` last,
/// and its pixel data fills the image.
pub proof fn accepted_files_are_sound(data: &[u8], r: Result<(), PngError>)
    requires
        call_ensures(validate_png, (data,), r),
        r is Ok,
    ensures
        exists|chunks: Seq<Chunk>, last: Chunk, tail: Seq<u8>| #[trigger]
            is_made_of(data@, chunks, last, tail) && chunks.len() > 0 && chunks[0].kind == ihdr()
                && pixel_stream(chunks).len() > 0 && (zlib_inflated(pixel_stream(chunks)) matches Ok(
                plain,
            ) && plain.len() == four_at(chunks[0].body, 4) * (1 + 4 * four_at(chunks[0].body, 0))),
{
    let d = data@;
    let none = Seq::<Chunk>::empty();
    assert(d.take(8) =~= opening() + all_bytes(none));
    assert(learnt(none) == Layout { size: None, idat: Seq::<u8>::empty() });
    assert(png_signature() =~= opening());
    lemma_outcome(d, r);
    let (chunks, last) = lemma_walk_chunks(d, 8, none);
    let n = 8 + all_bytes(chunks).len() as int + last.bytes().len() as int;
    let tail = d.skip(n);
    assert(d =~= d.take(n) + tail);
    assert(is_made_of(d, chunks, last, tail));
    assert(in_place(chunks, 0));
    lemma_four_at(chunks[0].body, 0);
    lemma_four_at(chunks[0].body, 4);
    let (w, h) = (four_at(chunks[0].body, 0), four_at(chunks[0].body, 4));
    assert(h * (1 + w * 4) == h * (1 + 4 * w)) by (nonlinear_arith);
}

// ── What is wrong with the others ───────────────────────────────────────

/// A file without the opening bytes is refused.
pub proof fn files_have_their_opening(data: &[u8], r: Result<(), PngError>)
    requires
        call_ensures(validate_png, (data,), r),
    ensures
        r == Err::<(), PngError>(PngError::TooShort) <==> data@.len() < 8,
        r == Err::<(), PngError>(PngError::BadSignature) <==> data@.len() >= 8 && data@.take(8)
            != opening(),
{
    assert(png_signature() =~= opening());
    if data@.len() >= 8 {
        lemma_walk_faults(data@, 8, true, Layout { size: None, idat: Seq::empty() });
    }
}

proof fn lemma_walk_faults(data: Seq<u8>, pos: int, first: bool, layout: Layout)
    ensures
        walk(data, pos, first, layout) matches Err(fault) ==> fault !is TooShort
            && fault !is BadSignature,
    decreases data.len() - pos,
{
    if chunk_fault(data, pos) is None {
        let kind = be_at(data, pos + 4);
        if let Ok(next) = take_chunk(layout, first, kind, chunk_data(data, pos)) {
            if kind != IEND {
                lemma_walk_faults(data, after_chunk(data, pos), false, next);
            }
        }
    }
}

/// After sound chunks, what is left must be a chunk: its header of eight bytes,
/// its data and its checksum, which must be right. The error tells where and what
/// is missing or wrong.
pub proof fn broken_chunks_are_told(
    data: &[u8],
    chunks: Seq<Chunk>,
    tail: Seq<u8>,
    r: Result<(), PngError>,
)
    requires
        call_ensures(validate_png, (data,), r),
        opens_file(chunks),
        data@ == opening() + all_bytes(chunks) + tail,
    ensures
        tail.len() < 8 ==> (r matches Err(PngError::TruncatedHeader { offset }) && offset
            == data@.len() - tail.len()),
        tail.len() >= 8 && tail.len() < 12 + four_at(tail, 0) ==> (r matches Err(
            PngError::TruncatedChunk { kind, offset },
        ) && kind == four_at(tail, 4) && offset == data@.len() - tail.len() + 8),
        tail.len() >= 12 && tail.len() >= 12 + four_at(tail, 0) ==> ({
            let length = four_at(tail, 0);
            let right = crc_of(tail.subrange(4, 8 + length));
            four_at(tail, 8 + length) != right ==> (r matches Err(
                PngError::CrcMismatch { kind, stored, computed },
            ) && kind == four_at(tail, 4) && stored == four_at(tail, 8 + length) && computed
                == right)
        }),
{
    let d = data@;
    let pos = 8 + all_bytes(chunks).len() as int;
    lemma_opening_walk(d, chunks, tail);
    lemma_third_part(d + Seq::empty(), opening(), all_bytes(chunks), tail, Seq::empty());
    assert(d + Seq::<u8>::empty() =~= d);
    lemma_outcome(d, r);
    lemma_broken_chunk(d, pos, tail, chunks.len() == 0, learnt(chunks));
}

proof fn lemma_broken_chunk(data: Seq<u8>, pos: int, tail: Seq<u8>, first: bool, layout: Layout)
    requires
        0 <= pos,
        pos + tail.len() == data.len(),
        data.subrange(pos, data.len() as int) == tail,
    ensures
        ({
            let r = led_to(data, pos, first, layout);
            let length = four_at(tail, 0);
            let right = crc_of(tail.subrange(4, 8 + length));
            &&& tail.len() < 8 ==> r == Err::<Layout, PngFault>(
                PngFault::TruncatedHeader { offset: pos },
            )
            &&& tail.len() >= 8 && tail.len() < 12 + length ==> r == Err::<Layout, PngFault>(
                PngFault::TruncatedChunk { kind: four_at(tail, 4) as u32, offset: pos + 8 },
            )
            &&& tail.len() >= 12 && tail.len() >= 12 + length && four_at(tail, 8 + length) != right
                ==> r == Err::<Layout, PngFault>(
                PngFault::CrcMismatch {
                    kind: four_at(tail, 4) as u32,
                    stored: four_at(tail, 8 + length) as u32,
                    computed: right,
                },
            )
        }),
{
    reveal(led_to);
    assert(forall|i: int| 0 <= i < tail.len() ==> #[trigger] tail[i] == data[pos + i]);
    if tail.len() >= 8 {
        lemma_four_at(tail, 0);
        lemma_four_at(tail, 4);
        assert(be_at(data, pos) == be_at(tail, 0));
        assert(be_at(data, pos + 4) == be_at(tail, 4));
        let length = four_at(tail, 0);
        if tail.len() >= 12 + length {
            lemma_four_at(tail, 8 + length);
            assert(be_at(data, after_chunk(data, pos) - 4) == be_at(tail, 8 + length));
            assert(data.subrange(pos + 4, after_chunk(data, pos) - 4) =~= tail.subrange(
                4,
                8 + length,
            ));
        }
    }
}

proof fn lemma_refused_chunk(data: Seq<u8>, chunks: Seq<Chunk>, c: Chunk, pos: int)
    requires
        c.valid(),
        0 <= pos,
        pos + 12 + c.body.len() <= data.len(),
        data.subrange(pos, pos + 12 + c.body.len()) == c.bytes(),
    ensures
        ({
            let r = led_to(data, pos, chunks.len() == 0, learnt(chunks));
            &&& c.kind == ihdr() && chunks.len() > 0 ==> r == Err::<Layout, PngFault>(
                PngFault::IhdrNotFirst,
            )
            &&& c.kind == ihdr() && chunks.len() == 0 && c.body.len() < 13 ==> r == Err::<
                Layout,
                PngFault,
            >(PngFault::IhdrTooShort { length: c.body.len() as u32 })
            &&& c.kind == idat() && learnt(chunks).size is None ==> r == Err::<Layout, PngFault>(
                PngFault::IdatBeforeIhdr,
            )
        }),
{
    reveal(led_to);
    lemma_chunk_at(data, pos, c);
    lemma_kind(c.kind);
    assert(ihdr()[1] != idat()[1]);
}

/// After sound chunks, an `IHDR` chunk that is not the first one or too short and
/// an `IDAT` chunk without `IHDR` before it are refused.
pub proof fn misplaced_chunks_are_told(
    data: &[u8],
    chunks: Seq<Chunk>,
    c: Chunk,
    tail: Seq<u8>,
    r: Result<(), PngError>,
)
    requires
        call_ensures(validate_png, (data,), r),
        opens_file(chunks),
        c.valid(),
        data@ == opening() + all_bytes(chunks) + c.bytes() + tail,
    ensures
        c.kind == ihdr() && chunks.len() > 0 ==> r == Err::<(), PngError>(PngError::IhdrNotFirst),
        c.kind == ihdr() && chunks.len() == 0 && c.body.len() < 13 ==> (r matches Err(
            PngError::IhdrTooShort { length },
        ) && length == c.body.len()),
        c.kind == idat() && (chunks.len() == 0 || chunks[0].kind != ihdr()) ==> r == Err::<
            (),
            PngError,
        >(PngError::IdatBeforeIhdr),
{
    let d = data@;
    let pos = 8 + all_bytes(chunks).len() as int;
    lemma_chunk_bytes(c);
    lemma_third_part(d, opening(), all_bytes(chunks), c.bytes(), tail);
    lemma_opening_walk(d, chunks, c.bytes() + tail);
    lemma_outcome(d, r);
    lemma_refused_chunk(d, chunks, c, pos);
}

// ── Writing ─────────────────────────────────────────────────────────────

/// A chunk is appended to what is there.
pub proof fn chunks_are_appended(out: &mut Vec<u8>, kind: &[u8; 4], body: &[u8])
    requires
        body@.len() <= 0xFFFF_FFFF,
        call_ensures(write_chunk, (out, kind, body), ()),
    ensures
        final(out)@ == old(out)@ + (Chunk { kind: kind@, body: body@ }).bytes(),
{
    let c = Chunk { kind: kind@, body: body@ };
    lemma_chunk_bytes(c);
}

/// The header of a generated image: 128 pixels wide and high, eight bits for each
/// of four channels, not interlaced.
pub open spec fn image_header() -> Seq<u8> {
    seq![0u8, 0u8, 0u8, 128u8, 0u8, 0u8, 0u8, 128u8, 8u8, 6u8, 0u8, 0u8, 0u8]
}

/// Whether a file holds the pixels of an image: header, pixel data and end, where
/// the pixel data are rows of a filter byte 0 and the channel bytes of the row.
pub open spec fn holds_pixels(file: Seq<u8>, stream: Seq<u8>, rows: Seq<u8>, pixels: Seq<u8>) -> bool {
    &&& file == opening() + (Chunk { kind: ihdr(), body: image_header() }).bytes() + (Chunk {
        kind: idat(),
        body: stream,
    }).bytes() + (Chunk { kind: iend(), body: Seq::empty() }).bytes()
    &&& zlib_inflated(stream) == Ok::<Seq<u8>, Seq<char>>(rows)
    &&& pixels.len() == 128 * 512
    &&& rows.len() == 128 * 513
    &&& forall|row: int| 0 <= row < 128 ==> rows[#[trigger] (row * 513)] == 0
    &&& forall|row: int, column: int|
        0 <= row < 128 && 0 <= column < 512 ==> #[trigger] rows[row * 513 + 1 + column]
            == pixels[row * 512 + column]
}

proof fn lemma_rows(pixels: Seq<u8>, row: int, column: int)
    requires
        pixels.len() == 128 * 512,
        0 <= row < 128,
        0 <= column < 512,
    ensures
        image_rows(pixels).len() == 128 * 513,
        image_rows(pixels)[row * 513] == 0,
        image_rows(pixels)[row * 513 + 1 + column] == pixels[row * 512 + column],
{
    let i = row * 513 + 1 + column;
    assert(i / 513 == row && i % 513 == 1 + column);
    assert((row * 513) % 513 == 0);
}

proof fn lemma_file(stream: Seq<u8>, pixels: Seq<u8>)
    requires
        pixels.len() == 128 * 512,
        stream.len() <= 0xFFFF_FFFF,
        zlib_inflated(stream) == Ok::<Seq<u8>, Seq<char>>(image_rows(pixels)),
    ensures
        holds_pixels(png_file(stream), stream, image_rows(pixels), pixels),
{
    let a = Chunk { kind: ihdr(), body: image_header() };
    let b = Chunk { kind: idat(), body: stream };
    let c = Chunk { kind: iend(), body: Seq::<u8>::empty() };
    lemma_chunk_bytes(a);
    lemma_chunk_bytes(b);
    lemma_chunk_bytes(c);
    lemma_kind(ihdr());
    lemma_kind(idat());
    lemma_kind(iend());
    assert(crate::image::header_data(128, 128) =~= image_header());
    assert(png_signature() =~= opening());
    let rows = image_rows(pixels);
    assert forall|row: int| 0 <= row < 128 implies rows[#[trigger] (row * 513)] == 0 by {
        lemma_rows(pixels, row, 0);
    }
    assert forall|row: int, column: int| 0 <= row < 128 && 0 <= column < 512 implies #[trigger] rows[
    row * 513 + 1 + column] == pixels[row * 512 + column] by {
        lemma_rows(pixels, row, column);
    }
    lemma_rows(pixels, 0, 0);
}

/// The file of an image holds its pixels, and it is accepted.
pub proof fn files_hold_the_pixels(
    pixels: &Vec<u8>,
    r: Vec<u8>,
    data: &[u8],
    verdict: Result<(), PngError>,
)
    requires
        pixels@.len() == 128 * 512,
        call_ensures(png_from_pixels, (pixels,), r),
        data@ == r@,
        call_ensures(validate_png, (data,), verdict),
    ensures
        exists|stream: Seq<u8>, rows: Seq<u8>| holds_pixels(r@, stream, rows, pixels@),
        verdict is Ok,
{
    let stream = zlib_stream(image_rows(pixels@));
    assert(stream.len() <= 0xFFFF_FFFF) by {
        crate::image::lemma_file_parts(stream);
    }
    lemma_file(stream, pixels@);
    assert(holds_pixels(r@, stream, image_rows(pixels@), pixels@));
}

/// A random image is accepted, and its file holds the pixels of an image each
/// byte of which was drawn.
pub proof fn random_images_are_accepted(
    r: Vec<u8>,
    data: &[u8],
    verdict: Result<(), PngError>,
)
    requires
        call_ensures(generate_png, (), r),
        data@ == r@,
        call_ensures(validate_png, (data,), verdict),
    ensures
        verdict is Ok,
        exists|stream: Seq<u8>, rows: Seq<u8>, pixels: Seq<u8>| #[trigger]
            holds_pixels(r@, stream, rows, pixels) && forall|i: int|
                0 <= i < pixels.len() ==> is_drawn(#[trigger] pixels[i]),
{
    let pixels = choose|pixels: Seq<u8>| is_image_of(r@, pixels) && all_drawn(pixels);
    let stream = zlib_stream(image_rows(pixels));
    assert(stream.len() <= 0xFFFF_FFFF) by {
        crate::image::lemma_file_parts(stream);
    }
    lemma_file(stream, pixels);
    assert(holds_pixels(r@, stream, image_rows(pixels), pixels));
}

// ── Descriptions ────────────────────────────────────────────────────────

/// What is wrong with a file, in words.
pub proof fn image_errors_are_described(e: &PngError, r: String)
    requires
        call_ensures(PngError::message, (e,), r),
    ensures
        *e is TooShort ==> r@ == "data too short to contain PNG signature"@,
        *e is BadSignature ==> r@ == "invalid PNG signature"@,
        *e is IhdrNotFirst ==> r@ == "IHDR chunk is not the first chunk"@,
        *e is IdatBeforeIhdr ==> r@ == "IDAT chunk found before IHDR"@,
        *e is NoIhdr ==> r@ == "no IHDR chunk found"@,
        *e is NoIdat ==> r@ == "no IDAT data found"@,
        *e matches PngError::Decompress { reason } ==> r@ == "failed to decompress IDAT data: "@
            + reason@,
{
}

/// Numbers in the descriptions are in decimal, and names are quoted.
pub proof fn image_errors_tell_places(
    e: &PngError,
    r: String,
    a: u64,
    x: String,
    b: u128,
    y: Vec<char>,
)
    requires
        call_ensures(PngError::message, (e,), r),
        call_ensures(decimal_text, (a,), x),
        call_ensures(decimal_chars, (b,), y),
    ensures
        *e matches PngError::TruncatedHeader { offset } ==> (a == offset ==> r@
            == "unexpected end of data while reading chunk header at offset "@ + x@),
        *e matches PngError::TruncatedChunk { kind, offset } ==> (a == offset ==> r@
            == "unexpected end of data while reading chunk body/CRC for chunk "@ + debug_form(
            lossy_text(big_endian(kind as int)),
        ) + " at offset "@ + x@),
        *e matches PngError::IhdrTooShort { length } ==> (a == length ==> r@
            == "IHDR chunk data too short (expected 13 bytes, got "@ + x@ + ")"@),
        *e matches PngError::SizeMismatch { expected, actual } ==> (b == expected && a == actual
            ==> r@ == "decompressed IDAT size mismatch: expected "@ + y@ + ", got "@ + x@),
{
    if let PngError::TruncatedChunk { kind, offset } = *e {
        lemma_big_endian(kind);
    }
}

/// A wrong checksum is told together with the right one, each in eight
/// hexadecimal digits.
pub proof fn wrong_checksums_are_told(kind: u32, stored: u32, computed: u32, r: String)
    requires
        call_ensures(
            PngError::message,
            (&PngError::CrcMismatch { kind, stored, computed },),
            r,
        ),
    ensures
        r@ == "CRC mismatch for chunk "@ + debug_form(lossy_text(big_endian(kind as int)))
            + ": stored="@ + hex_number(stored) + ", computed="@ + hex_number(computed),
{
    lemma_big_endian(kind);
    lemma_hex_number(stored);
    lemma_hex_number(computed);
}

/// An upper-case hexadecimal digit.
pub open spec fn hex_digit(v: int) -> char {
    if v < 10 {
        ('0' as int + v) as char
    } else {
        ('A' as int + v - 10) as char
    }
}

/// Eight hexadecimal digits of a number.
pub open spec fn hex_digits(n: u32) -> Seq<char> {
    seq![
        hex_digit(n as int / 0x1000_0000 % 16),
        hex_digit(n as int / 0x100_0000 % 16),
        hex_digit(n as int / 0x10_0000 % 16),
        hex_digit(n as int / 0x1_0000 % 16),
        hex_digit(n as int / 0x1000 % 16),
        hex_digit(n as int / 0x100 % 16),
        hex_digit(n as int / 0x10 % 16),
        hex_digit(n as int % 16),
    ]
}

/// A number in eight hexadecimal digits.
pub open spec fn hex_number(n: u32) -> Seq<char> {
    "0x"@ + hex_digits(n)
}

proof fn lemma_hex_step(n: nat, width: nat)
    requires
        width > 0,
    ensures
        fixed_hex(n, width) == fixed_hex(n / 16, (width - 1) as nat).push(hex_char(n % 16)),
        upper_hex(hex_char(n % 16)) == hex_digit(n as int % 16),
{
}

proof fn lemma_upper_push(s: Seq<char>, c: char)
    ensures
        s.push(c).map_values(|c: char| upper_hex(c)) == s.map_values(|c: char| upper_hex(c)).push(
            upper_hex(c),
        ),
{
    assert(s.push(c).map_values(|c: char| upper_hex(c)) =~= s.map_values(
        |c: char| upper_hex(c),
    ).push(upper_hex(c)));
}

/// The digits of a number in upper case, `width` of them.
spec fn upper_digits(n: nat, width: nat) -> Seq<char> {
    fixed_hex(n, width).map_values(|c: char| upper_hex(c))
}

proof fn lemma_upper_step(n: nat, width: nat)
    requires
        width > 0,
    ensures
        upper_digits(n, width) == upper_digits(n / 16, (width - 1) as nat).push(
            hex_digit(n as int % 16),
        ),
{
    lemma_hex_step(n, width);
    lemma_upper_push(fixed_hex(n / 16, (width - 1) as nat), hex_char(n % 16));
}

proof fn lemma_hex_number(n: u32)
    ensures
        crc_text(n) == hex_number(n),
{
    let m = n as nat;
    lemma_upper_step(m, 8);
    lemma_upper_step(m / 16, 7);
    lemma_upper_step(m / 0x100, 6);
    lemma_upper_step(m / 0x1000, 5);
    lemma_upper_step(m / 0x1_0000, 4);
    lemma_upper_step(m / 0x10_0000, 3);
    lemma_upper_step(m / 0x100_0000, 2);
    lemma_upper_step(m / 0x1000_0000, 1);
    assert(m / 16 / 16 == m / 0x100 && m / 0x100 / 16 == m / 0x1000 && m / 0x1000 / 16 == m
        / 0x1_0000 && m / 0x1_0000 / 16 == m / 0x10_0000 && m / 0x10_0000 / 16 == m / 0x100_0000
        && m / 0x100_0000 / 16 == m / 0x1000_0000);
    let none = upper_digits(m / 0x1000_0000 / 16, 0);
    assert(none =~= Seq::<char>::empty());
    assert(upper_digits(m, 8) =~= hex_digits(n));
}

} // verus!
