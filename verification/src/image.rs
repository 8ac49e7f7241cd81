//! Random PNG images: writing them, and checking the ones that arrive.
use crate::number::decimal;
use crate::number::decimal_chars;
use crate::number::decimal_text;
use crate::number::fixed_hex;
use crate::number::fixed_hex_chars;
use crate::text::debug_form;
use crate::text::joined;
use crate::text::lossy_text;
use crate::text::quoted;
use crate::text::text_from_bytes;
use crate::text::text_of;
use flate2::read::ZlibDecoder;
use flate2::write::ZlibEncoder;
use flate2::Compression;
use std::io::Read;
use std::io::Write;
use vstd::prelude::*;

verus! {

/// Width of a generated image in pixels.
pub const IMAGE_WIDTH: u32 = 128;

/// Height of a generated image in pixels.
pub const IMAGE_HEIGHT: u32 = 128;

/// Chunk type `IHDR`, read as a big-endian number.
pub const IHDR: u32 = 0x4948_4452;

/// Chunk type `IDAT`, read as a big-endian number.
pub const IDAT: u32 = 0x4944_4154;

/// Chunk type `IEND`, read as a big-endian number.
pub const IEND: u32 = 0x4945_4E44;

/// The eight bytes that every PNG file begins with.
pub open spec fn png_signature() -> Seq<u8> {
    seq![137u8, 80u8, 78u8, 71u8, 13u8, 10u8, 26u8, 10u8]
}

// ── Outside functions ───────────────────────────────────────────────────

/// What `flate2::write::ZlibEncoder` makes of some bytes at the default
/// compression level.
pub uninterp spec fn zlib_stream(raw: Seq<u8>) -> Seq<u8>;

/// What `flate2::read::ZlibDecoder` reads from some bytes up to the end of the
/// stream: the plain bytes, or the text of the error.
pub uninterp spec fn zlib_inflated(data: Seq<u8>) -> Result<Seq<u8>, Seq<char>>;

/// Whether `data` is a zlib stream of `plain`.
pub open spec fn inflates_to(data: Seq<u8>, plain: Seq<u8>) -> bool {
    zlib_inflated(data) == Ok::<Seq<u8>, Seq<char>>(plain)
}

/// `flate2::write::ZlibEncoder` over a `Vec<u8>`, fed with all of `raw` and
/// finished.
///
/// Writing to a `Vec<u8>` cannot fail. The output is determined by the input;
/// it opens with the zlib header, so it is not empty; and the decoder of the
/// same crate reads the input back from it.
///
/// The compressor, `miniz_oxide`, writes its output block by block. A block
/// fits its output buffer of less than 85196 bytes, and each block but the last
/// one stands for more than 31 KiB of input. So the output has at most 3 bytes
/// for each byte of input, and those of one block.
#[verifier::external_body]
fn zlib_compress(raw: &Vec<u8>) -> (r: Vec<u8>)
    ensures
        r@ == zlib_stream(raw@),
        r@.len() > 0,
        inflates_to(r@, raw@),
        r@.len() <= 3 * raw@.len() + 85_196,
{
    let mut encoder = ZlibEncoder::new(Vec::new(), Compression::default());
    encoder.write_all(raw).expect("zlib compression write failed");
    encoder.finish().expect("zlib compression finish failed")
}

/// `flate2::read::ZlibDecoder` over `data`, read to its end.
///
/// The outcome, plain bytes or error text, is determined by the input.
#[verifier::external_body]
fn zlib_decompress(data: &Vec<u8>) -> (r: Result<Vec<u8>, String>)
    ensures
        match (r, zlib_inflated(data@)) {
            (Ok(plain), Ok(expected)) => plain@ == expected,
            (Err(text), Err(expected)) => text@ == expected,
            _ => false,
        },
{
    let mut plain = Vec::new();
    match ZlibDecoder::new(&data[..]).read_to_end(&mut plain) {
        Ok(_) => Ok(plain),
        Err(e) => Err(e.to_string()),
    }
}

/// `rand::random::<u8>`: any byte may come back.
#[verifier::external_body]
fn random_byte() -> (r: u8) {
    rand::random::<u8>()
}

/// Whether the generator can give the byte: it is what [`random_byte`] came back
/// with.
pub closed spec fn is_drawn(byte: u8) -> bool {
    call_ensures(random_byte, (), byte)
}

/// Whether every byte was drawn.
pub open spec fn all_drawn(bytes: Seq<u8>) -> bool {
    forall|i: int| 0 <= i < bytes.len() ==> is_drawn(#[trigger] bytes[i])
}

// ── Numbers in network byte order ───────────────────────────────────────

/// The four bytes of `n`, most significant first.
pub open spec fn be_bytes(n: u32) -> Seq<u8> {
    seq![
        (n / 0x100_0000) as u8,
        (n / 0x1_0000 % 0x100) as u8,
        (n / 0x100 % 0x100) as u8,
        (n % 0x100) as u8,
    ]
}

/// The number that four bytes make, most significant first.
pub open spec fn be_number(a: u8, b: u8, c: u8, d: u8) -> u32 {
    (a * 0x100_0000 + b * 0x1_0000 + c * 0x100 + d) as u32
}

/// The number at position `pos`.
pub open spec fn be_at(data: Seq<u8>, pos: int) -> u32 {
    be_number(data[pos], data[pos + 1], data[pos + 2], data[pos + 3])
}

/// Writing a number and reading the four bytes gives the number back.
pub proof fn be_round_trip(n: u32)
    ensures
        be_at(be_bytes(n), 0) == n,
{
}

proof fn lemma_be_at_part(data: Seq<u8>, pos: int, n: u32)
    requires
        0 <= pos,
        pos + 4 <= data.len(),
        data.subrange(pos, pos + 4) == be_bytes(n),
    ensures
        be_at(data, pos) == n,
{
    let part = data.subrange(pos, pos + 4);
    assert(part[0] == data[pos] && part[1] == data[pos + 1] && part[2] == data[pos + 2] && part[3]
        == data[pos + 3]);
    be_round_trip(n);
}

fn push_be(out: &mut Vec<u8>, n: u32)
    ensures
        final(out)@ == old(out)@ + be_bytes(n),
{
    out.push((n / 0x100_0000) as u8);
    out.push((n / 0x1_0000 % 0x100) as u8);
    out.push((n / 0x100 % 0x100) as u8);
    out.push((n % 0x100) as u8);
    assert(out@ =~= old(out)@ + be_bytes(n));
}

fn read_be(data: &[u8], pos: usize) -> (r: u32)
    requires
        pos + 4 <= data@.len(),
    ensures
        r == be_at(data@, pos as int),
{
    data[pos] as u32 * 0x100_0000 + data[pos + 1] as u32 * 0x1_0000 + data[pos + 2] as u32 * 0x100
        + data[pos + 3] as u32
}

fn push_all(out: &mut Vec<u8>, data: &[u8], from: usize, to: usize)
    requires
        from <= to <= data@.len(),
    ensures
        final(out)@ == old(out)@ + data@.subrange(from as int, to as int),
{
    let mut i: usize = from;
    while i < to
        invariant
            from <= i <= to <= data@.len(),
            out@ == old(out)@ + data@.subrange(from as int, i as int),
        decreases to - i,
    {
        out.push(data[i]);
        i = i + 1;
        assert(data@.subrange(from as int, i as int) =~= data@.subrange(from as int, i - 1).push(
            data@[i - 1],
        ));
    }
}

// ── CRC ─────────────────────────────────────────────────────────────────

/// One bit of the cyclic redundancy check with the reflected polynomial
/// `EDB88320`.
pub open spec fn crc_bit(crc: u32) -> u32 {
    if crc & 1 != 0 {
        (crc >> 1) ^ 0xEDB8_8320
    } else {
        crc >> 1
    }
}

/// `n` bits of the cyclic redundancy check.
pub open spec fn crc_bits(crc: u32, n: nat) -> u32
    decreases n,
{
    if n == 0 {
        crc
    } else {
        crc_bit(crc_bits(crc, (n - 1) as nat))
    }
}

/// The register of the check after `data`.
pub open spec fn crc_register(data: Seq<u8>) -> u32
    decreases data.len(),
{
    if data.len() == 0 {
        0xFFFF_FFFF
    } else {
        crc_bits(crc_register(data.drop_last()) ^ (data.last() as u32), 8)
    }
}

/// The CRC-32 of `data`.
pub open spec fn crc_of(data: Seq<u8>) -> u32 {
    crc_register(data) ^ 0xFFFF_FFFF
}

/// The CRC-32 of the bytes.
pub fn crc32(data: &[u8]) -> (r: u32)
    ensures
        r == crc_of(data@),
{
    let mut crc: u32 = 0xFFFF_FFFF;
    let mut i: usize = 0;
    assert(data@.take(0) =~= Seq::<u8>::empty());
    while i < data.len()
        invariant
            i <= data@.len(),
            crc == crc_register(data@.take(i as int)),
        decreases data@.len() - i,
    {
        let ghost before = crc;
        crc = crc ^ (data[i] as u32);
        let ghost start = crc;
        let mut bit: u32 = 0;
        while bit < 8
            invariant
                bit <= 8,
                crc == crc_bits(start, bit as nat),
            decreases 8 - bit,
        {
            if crc & 1 != 0 {
                crc = (crc >> 1) ^ 0xEDB8_8320;
            } else {
                crc = crc >> 1;
            }
            bit = bit + 1;
        }
        i = i + 1;
        assert(data@.take(i as int).drop_last() =~= data@.take(i - 1));
        assert(data@.take(i as int).last() == data@[i - 1]);
    }
    assert(data@.take(data@.len() as int) =~= data@);
    crc ^ 0xFFFF_FFFF
}

// ── Writing ─────────────────────────────────────────────────────────────

/// A chunk on the wire: length, type, data, and the CRC of type and data. The
/// length field holds the last 32 bits of the length.
pub open spec fn chunk_bytes(kind: u32, data: Seq<u8>) -> Seq<u8> {
    be_bytes((data.len() % 0x1_0000_0000) as u32) + be_bytes(kind) + data + be_bytes(
        crc_of(be_bytes(kind) + data),
    )
}

/// The header of an RGBA image with eight bits a channel, not interlaced.
pub open spec fn header_data(width: u32, height: u32) -> Seq<u8> {
    be_bytes(width) + be_bytes(height) + seq![8u8, 6u8, 0u8, 0u8, 0u8]
}

/// The PNG file of a generated image whose pixel data compresses to
/// `compressed`.
pub open spec fn png_file(compressed: Seq<u8>) -> Seq<u8> {
    png_signature() + chunk_bytes(IHDR, header_data(IMAGE_WIDTH, IMAGE_HEIGHT)) + chunk_bytes(
        IDAT,
        compressed,
    ) + chunk_bytes(IEND, Seq::empty())
}

/// The number of channel bytes of a generated image.
pub open spec fn channel_count() -> nat {
    (IMAGE_HEIGHT * IMAGE_WIDTH * 4) as nat
}

/// The rows of a generated image, each opened by the filter byte 0.
pub open spec fn image_rows(pixels: Seq<u8>) -> Seq<u8> {
    Seq::new(
        (IMAGE_HEIGHT * (1 + IMAGE_WIDTH * 4)) as nat,
        |i: int|
            if i % (1 + IMAGE_WIDTH * 4) == 0 {
                0u8
            } else {
                pixels[i / (1 + IMAGE_WIDTH * 4) * (IMAGE_WIDTH * 4) + i % (1 + IMAGE_WIDTH * 4)
                    - 1]
            },
    )
}

/// Reading four bytes as a number and writing the number gives the bytes back.
pub proof fn tag_round_trip(tag: Seq<u8>)
    requires
        tag.len() == 4,
    ensures
        be_bytes(be_at(tag, 0)) == tag,
{
    let (a, b, c, d) = (tag[0] as int, tag[1] as int, tag[2] as int, tag[3] as int);
    let n = be_at(tag, 0) as int;
    assert(n == a * 0x100_0000 + b * 0x1_0000 + c * 0x100 + d);
    assert(n / 0x100_0000 == a);
    assert(n / 0x1_0000 == a * 0x100 + b);
    assert((a * 0x100 + b) % 0x100 == b);
    assert(n / 0x100 == a * 0x1_0000 + b * 0x100 + c);
    assert((a * 0x1_0000 + b * 0x100 + c) % 0x100 == c);
    assert(n % 0x100 == d);
    let bytes = be_bytes(be_at(tag, 0));
    assert(bytes[0] == tag[0]);
    assert(bytes[1] == tag[1]);
    assert(bytes[2] == tag[2]);
    assert(bytes[3] == tag[3]);
    assert(bytes =~= tag);
}

/// Appends a chunk of the given type to the file.
pub fn write_chunk(out: &mut Vec<u8>, chunk_type: &[u8; 4], data: &[u8])
    ensures
        final(out)@ == old(out)@ + chunk_bytes(be_at(chunk_type@, 0), data@),
{
    let kind: u32 = read_be(chunk_type, 0);
    push_chunk(out, kind, data);
}

fn push_chunk(out: &mut Vec<u8>, kind: u32, data: &[u8])
    ensures
        final(out)@ == old(out)@ + chunk_bytes(kind, data@),
{
    let mut crc_input: Vec<u8> = Vec::new();
    push_be(&mut crc_input, kind);
    push_all(&mut crc_input, data, 0, data.len());
    assert(data@.subrange(0, data@.len() as int) =~= data@);
    assert(crc_input@ =~= be_bytes(kind) + data@);
    let length: u32 = (data.len() as u64 % 0x1_0000_0000) as u32;
    push_be(out, length);
    push_be(out, kind);
    push_all(out, data, 0, data.len());
    push_be(out, crc32(&crc_input));
    assert(out@ =~= old(out)@ + chunk_bytes(kind, data@));
}

/// The PNG file of an image with the given channel bytes, row by row.
pub fn png_from_pixels(pixels: &Vec<u8>) -> (r: Vec<u8>)
    requires
        pixels@.len() == channel_count(),
    ensures
        r@ == png_file(zlib_stream(image_rows(pixels@))),
        zlib_stream(image_rows(pixels@)).len() > 0,
        inflates_to(zlib_stream(image_rows(pixels@)), image_rows(pixels@)),
        r@.len() <= u32::MAX,
        png_verdict(r@) is Ok,
{
    let width: usize = IMAGE_WIDTH as usize * 4;
    let mut raw: Vec<u8> = Vec::new();
    let mut row: usize = 0;
    while row < IMAGE_HEIGHT as usize
        invariant
            width == 512,
            row <= 128,
            pixels@.len() == 65536,
            raw@.len() == row * 513,
            forall|i: int| 0 <= i < raw@.len() ==> #[trigger] raw@[i] == image_rows(pixels@)[i],
        decreases 128 - row,
    {
        let mut column: usize = 0;
        raw.push(0);
        while column < width
            invariant
                width == 512,
                row < 128,
                column <= width,
                pixels@.len() == 65536,
                raw@.len() == row * 513 + 1 + column,
                forall|i: int| 0 <= i < raw@.len() ==> #[trigger] raw@[i] == image_rows(pixels@)[i],
            decreases width - column,
        {
            raw.push(pixels[row * 512 + column]);
            column = column + 1;
        }
        row = row + 1;
    }
    assert(raw@ =~= image_rows(pixels@));
    let compressed = zlib_compress(&raw);
    let mut header: Vec<u8> = Vec::new();
    push_be(&mut header, IMAGE_WIDTH);
    push_be(&mut header, IMAGE_HEIGHT);
    header.push(8);
    header.push(6);
    header.push(0);
    header.push(0);
    header.push(0);
    assert(header@ =~= header_data(IMAGE_WIDTH, IMAGE_HEIGHT));
    let mut out: Vec<u8> = Vec::new();
    out.push(137);
    out.push(80);
    out.push(78);
    out.push(71);
    out.push(13);
    out.push(10);
    out.push(26);
    out.push(10);
    assert(out@ =~= png_signature());
    push_chunk(&mut out, IHDR, &header);
    push_chunk(&mut out, IDAT, &compressed);
    let empty: Vec<u8> = Vec::new();
    assert(empty@ =~= Seq::<u8>::empty());
    push_chunk(&mut out, IEND, &empty);
    proof {
        lemma_file_parts(compressed@);
        png_round_trip(compressed@, raw@);
    }
    out
}

/// Whether `file` is the PNG file of the image with the given channel bytes, and
/// the image's rows can be read back from it.
pub open spec fn is_image_of(file: Seq<u8>, pixels: Seq<u8>) -> bool {
    &&& pixels.len() == channel_count()
    &&& file == png_file(zlib_stream(image_rows(pixels)))
    &&& inflates_to(zlib_stream(image_rows(pixels)), image_rows(pixels))
}

/// A PNG file with random pixels, each channel byte drawn by itself. Whatever
/// they are, the file is the one that [`png_from_pixels`] writes, and it is valid.
pub fn generate_png() -> (r: Vec<u8>)
    ensures
        exists|pixels: Seq<u8>| is_image_of(r@, pixels) && all_drawn(pixels),
        r@.len() <= u32::MAX,
        png_verdict(r@) is Ok,
{
    let mut pixels: Vec<u8> = Vec::new();
    while pixels.len() < 65536
        invariant
            pixels@.len() <= 65536,
            all_drawn(pixels@),
        decreases 65536 - pixels@.len(),
    {
        let byte: u8 = random_byte();
        assert(is_drawn(byte));
        pixels.push(byte);
    }
    let out = png_from_pixels(&pixels);
    assert(is_image_of(out@, pixels@) && all_drawn(pixels@));
    out
}

// ── Checking ────────────────────────────────────────────────────────────

/// Why some bytes are not a valid image.
#[derive(Debug)]
pub enum PngError {
    /// There are fewer than eight bytes.
    TooShort,
    /// The first eight bytes are not the PNG signature.
    BadSignature,
    /// The data ends before the chunk header at `offset` is complete.
    TruncatedHeader { offset: usize },
    /// The data ends before the chunk whose body begins at `offset` is complete.
    TruncatedChunk { kind: u32, offset: usize },
    /// The CRC in the chunk is not the CRC of the chunk.
    CrcMismatch { kind: u32, stored: u32, computed: u32 },
    /// An `IHDR` chunk comes after another chunk.
    IhdrNotFirst,
    /// The `IHDR` chunk has fewer than 13 bytes of data.
    IhdrTooShort { length: u32 },
    /// An `IDAT` chunk comes without an `IHDR` chunk before it.
    IdatBeforeIhdr,
    /// There is no `IHDR` chunk.
    NoIhdr,
    /// The `IDAT` chunks hold no data.
    NoIdat,
    /// The `IDAT` data is not a zlib stream.
    Decompress { reason: String },
    /// The pixel data has another size than the header implies.
    SizeMismatch { expected: u128, actual: usize },
}

/// The mathematical counterpart of [`PngError`].
pub enum PngFault {
    TooShort,
    BadSignature,
    TruncatedHeader { offset: int },
    TruncatedChunk { kind: u32, offset: int },
    CrcMismatch { kind: u32, stored: u32, computed: u32 },
    IhdrNotFirst,
    IhdrTooShort { length: u32 },
    IdatBeforeIhdr,
    NoIhdr,
    NoIdat,
    Decompress { reason: Seq<char> },
    SizeMismatch { expected: int, actual: int },
}

impl View for PngError {
    type V = PngFault;

    open spec fn view(&self) -> PngFault {
        match *self {
            PngError::TooShort => PngFault::TooShort,
            PngError::BadSignature => PngFault::BadSignature,
            PngError::TruncatedHeader { offset } => PngFault::TruncatedHeader {
                offset: offset as int,
            },
            PngError::TruncatedChunk { kind, offset } => PngFault::TruncatedChunk {
                kind,
                offset: offset as int,
            },
            PngError::CrcMismatch { kind, stored, computed } => PngFault::CrcMismatch {
                kind,
                stored,
                computed,
            },
            PngError::IhdrNotFirst => PngFault::IhdrNotFirst,
            PngError::IhdrTooShort { length } => PngFault::IhdrTooShort { length },
            PngError::IdatBeforeIhdr => PngFault::IdatBeforeIhdr,
            PngError::NoIhdr => PngFault::NoIhdr,
            PngError::NoIdat => PngFault::NoIdat,
            PngError::Decompress { reason } => PngFault::Decompress { reason: reason@ },
            PngError::SizeMismatch { expected, actual } => PngFault::SizeMismatch {
                expected: expected as int,
                actual: actual as int,
            },
        }
    }
}

/// A 32-bit number as `0x` and eight upper-case hexadecimal digits.
pub open spec fn crc_text(n: u32) -> Seq<char> {
    "0x"@ + fixed_hex(n as nat, 8).map_values(|c: char| upper_hex(c))
}

/// The upper-case form of a lower-case hexadecimal digit.
pub open spec fn upper_hex(c: char) -> char {
    match c {
        'a' => 'A',
        'b' => 'B',
        'c' => 'C',
        'd' => 'D',
        'e' => 'E',
        'f' => 'F',
        _ => c,
    }
}

fn print_crc(n: u32) -> (r: String)
    ensures
        r@ == crc_text(n),
{
    let digits = fixed_hex_chars(n as u64, 8);
    let mut upper: Vec<char> = Vec::new();
    let mut i: usize = 0;
    while i < digits.len()
        invariant
            i <= digits@.len(),
            upper@ == digits@.take(i as int).map_values(|c: char| upper_hex(c)),
        decreases digits@.len() - i,
    {
        let c = match digits[i] {
            'a' => 'A',
            'b' => 'B',
            'c' => 'C',
            'd' => 'D',
            'e' => 'E',
            'f' => 'F',
            c => c,
        };
        upper.push(c);
        i = i + 1;
        assert(digits@.take(i as int) =~= digits@.take(i - 1).push(digits@[i - 1]));
        assert(upper@ =~= digits@.take(i as int).map_values(|c: char| upper_hex(c)));
    }
    assert(digits@.take(digits@.len() as int) =~= digits@);
    joined("0x", text_of(&upper).as_str())
}

/// A chunk type as quoted text.
fn print_kind(kind: u32) -> (r: String)
    ensures
        r@ == debug_form(lossy_text(be_bytes(kind))),
{
    let mut bytes: Vec<u8> = Vec::new();
    push_be(&mut bytes, kind);
    assert(bytes@ =~= be_bytes(kind));
    quoted(text_from_bytes(&bytes).as_str())
}

impl PngFault {
    /// The text that describes the fault.
    pub open spec fn text(self) -> Seq<char> {
        match self {
            PngFault::TooShort => "data too short to contain PNG signature"@,
            PngFault::BadSignature => "invalid PNG signature"@,
            PngFault::TruncatedHeader { offset } => {
                "unexpected end of data while reading chunk header at offset "@ + decimal(
                    offset as nat,
                )
            },
            PngFault::TruncatedChunk { kind, offset } => {
                "unexpected end of data while reading chunk body/CRC for chunk "@ + debug_form(
                    lossy_text(be_bytes(kind)),
                ) + " at offset "@ + decimal(offset as nat)
            },
            PngFault::CrcMismatch { kind, stored, computed } => {
                "CRC mismatch for chunk "@ + debug_form(lossy_text(be_bytes(kind))) + ": stored="@
                    + crc_text(stored) + ", computed="@ + crc_text(computed)
            },
            PngFault::IhdrNotFirst => "IHDR chunk is not the first chunk"@,
            PngFault::IhdrTooShort { length } => {
                "IHDR chunk data too short (expected 13 bytes, got "@ + decimal(length as nat)
                    + ")"@
            },
            PngFault::IdatBeforeIhdr => "IDAT chunk found before IHDR"@,
            PngFault::NoIhdr => "no IHDR chunk found"@,
            PngFault::NoIdat => "no IDAT data found"@,
            PngFault::Decompress { reason } => "failed to decompress IDAT data: "@ + reason,
            PngFault::SizeMismatch { expected, actual } => {
                "decompressed IDAT size mismatch: expected "@ + decimal(expected as nat)
                    + ", got "@ + decimal(actual as nat)
            },
        }
    }
}

impl PngError {
    /// A description of the error for people.
    pub fn message(&self) -> (r: String)
        ensures
            r@ == self@.text(),
    {
        match self {
            PngError::TooShort => "data too short to contain PNG signature".to_owned(),
            PngError::BadSignature => "invalid PNG signature".to_owned(),
            PngError::TruncatedHeader { offset } => joined(
                "unexpected end of data while reading chunk header at offset ",
                decimal_text(*offset as u64).as_str(),
            ),
            PngError::TruncatedChunk { kind, offset } => {
                let mut out = joined(
                    "unexpected end of data while reading chunk body/CRC for chunk ",
                    print_kind(*kind).as_str(),
                );
                out.append(" at offset ");
                out.append(decimal_text(*offset as u64).as_str());
                out
            },
            PngError::CrcMismatch { kind, stored, computed } => {
                let mut out = joined("CRC mismatch for chunk ", print_kind(*kind).as_str());
                out.append(": stored=");
                out.append(print_crc(*stored).as_str());
                out.append(", computed=");
                out.append(print_crc(*computed).as_str());
                out
            },
            PngError::IhdrNotFirst => "IHDR chunk is not the first chunk".to_owned(),
            PngError::IhdrTooShort { length } => {
                let mut out = joined(
                    "IHDR chunk data too short (expected 13 bytes, got ",
                    decimal_text(*length as u64).as_str(),
                );
                out.append(")");
                out
            },
            PngError::IdatBeforeIhdr => "IDAT chunk found before IHDR".to_owned(),
            PngError::NoIhdr => "no IHDR chunk found".to_owned(),
            PngError::NoIdat => "no IDAT data found".to_owned(),
            PngError::Decompress { reason } => joined(
                "failed to decompress IDAT data: ",
                reason.as_str(),
            ),
            PngError::SizeMismatch { expected, actual } => {
                let mut out = joined(
                    "decompressed IDAT size mismatch: expected ",
                    text_of(&decimal_chars(*expected)).as_str(),
                );
                out.append(", got ");
                out.append(decimal_text(*actual as u64).as_str());
                out
            },
        }
    }
}

/// What the chunks of a file say about the image.
pub struct Layout {
    /// Width and height, once an `IHDR` chunk has given them.
    pub size: Option<(u32, u32)>,
    /// The data of the `IDAT` chunks so far, joined.
    pub idat: Seq<u8>,
}

/// The position after the chunk at `pos`.
pub open spec fn after_chunk(data: Seq<u8>, pos: int) -> int {
    pos + 12 + be_at(data, pos)
}

/// The data of the chunk at `pos`.
pub open spec fn chunk_data(data: Seq<u8>, pos: int) -> Seq<u8> {
    data.subrange(pos + 8, pos + 8 + be_at(data, pos))
}

/// What is wrong with the chunk at `pos` itself, if anything.
pub open spec fn chunk_fault(data: Seq<u8>, pos: int) -> Option<PngFault> {
    if pos + 8 > data.len() {
        Some(PngFault::TruncatedHeader { offset: pos })
    } else if after_chunk(data, pos) > data.len() {
        Some(PngFault::TruncatedChunk { kind: be_at(data, pos + 4), offset: pos + 8 })
    } else {
        let stored = be_at(data, after_chunk(data, pos) - 4);
        let computed = crc_of(data.subrange(pos + 4, after_chunk(data, pos) - 4));
        if stored != computed {
            Some(PngFault::CrcMismatch { kind: be_at(data, pos + 4), stored, computed })
        } else {
            None
        }
    }
}

/// What is known of the image after a chunk with sound CRC, or what is wrong
/// with its place in the file.
pub open spec fn take_chunk(layout: Layout, first: bool, kind: u32, body: Seq<u8>) -> Result<
    Layout,
    PngFault,
> {
    if kind == IHDR {
        if !first {
            Err(PngFault::IhdrNotFirst)
        } else if body.len() < 13 {
            Err(PngFault::IhdrTooShort { length: body.len() as u32 })
        } else {
            Ok(Layout { size: Some((be_at(body, 0), be_at(body, 4))), idat: layout.idat })
        }
    } else if kind == IDAT {
        if layout.size is None {
            Err(PngFault::IdatBeforeIhdr)
        } else {
            Ok(Layout { size: layout.size, idat: layout.idat + body })
        }
    } else {
        Ok(layout)
    }
}

/// What the chunks from `pos` up to and including the first `IEND` chunk add
/// to `layout`, or the first thing that is wrong with them.
pub open spec fn walk(data: Seq<u8>, pos: int, first: bool, layout: Layout) -> Result<
    Layout,
    PngFault,
>
    decreases data.len() - pos,
{
    match chunk_fault(data, pos) {
        Some(fault) => Err(fault),
        None => {
            let kind = be_at(data, pos + 4);
            match take_chunk(layout, first, kind, chunk_data(data, pos)) {
                Err(fault) => Err(fault),
                Ok(next) => if kind == IEND {
                    Ok(next)
                } else {
                    walk(data, after_chunk(data, pos), false, next)
                },
            }
        },
    }
}

/// The size of the pixel data of an RGBA image: a filter byte and four bytes a
/// pixel for each row.
pub open spec fn pixel_data_len(width: u32, height: u32) -> int {
    height * (1 + width * 4)
}

/// Whether the bytes are a valid image, and if not, the first thing that is
/// wrong with them. What follows the `IEND` chunk is not looked at.
pub open spec fn png_verdict(data: Seq<u8>) -> Result<(), PngFault> {
    if data.len() < 8 {
        Err(PngFault::TooShort)
    } else if data.take(8) != png_signature() {
        Err(PngFault::BadSignature)
    } else {
        match walk(data, 8, true, Layout { size: None, idat: Seq::empty() }) {
            Err(fault) => Err(fault),
            Ok(layout) => layout_verdict(layout),
        }
    }
}

/// Whether the image that the chunks describe is complete.
pub open spec fn layout_verdict(layout: Layout) -> Result<(), PngFault> {
    match layout.size {
        None => Err(PngFault::NoIhdr),
        Some((width, height)) => if layout.idat.len() == 0 {
            Err(PngFault::NoIdat)
        } else {
            inflated_verdict(width, height, zlib_inflated(layout.idat))
        },
    }
}

/// Whether what the decoder made of the pixel data is an image of the given
/// size.
pub open spec fn inflated_verdict(
    width: u32,
    height: u32,
    inflated: Result<Seq<u8>, Seq<char>>,
) -> Result<(), PngFault> {
    match inflated {
        Err(reason) => Err(PngFault::Decompress { reason }),
        Ok(plain) => if plain.len() != pixel_data_len(width, height) {
            Err(
                PngFault::SizeMismatch {
                    expected: pixel_data_len(width, height),
                    actual: plain.len() as int,
                },
            )
        } else {
            Ok(())
        },
    }
}

/// The decoder's result in mathematical form.
pub open spec fn inflated_view(r: Result<Vec<u8>, String>) -> Result<Seq<u8>, Seq<char>> {
    match r {
        Ok(plain) => Ok(plain@),
        Err(text) => Err(text@),
    }
}

/// The executable outcome and the mathematical verdict agree.
pub open spec fn agrees(r: Result<(), PngError>, verdict: Result<(), PngFault>) -> bool {
    match (r, verdict) {
        (Ok(_), Ok(_)) => true,
        (Err(e), Err(f)) => e@ == f,
        _ => false,
    }
}

/// Checks what the decoder made of the pixel data of an image with the given
/// width and height.
pub fn check_inflated(width: u32, height: u32, inflated: Result<Vec<u8>, String>) -> (r: Result<
    (),
    PngError,
>)
    ensures
        agrees(r, inflated_verdict(width, height, inflated_view(inflated))),
{
    match inflated {
        Err(reason) => Err(PngError::Decompress { reason }),
        Ok(plain) => {
            let row: u128 = 1 + width as u128 * 4;
            assert(height * row <= 0xFFFF_FFFF * 0x4_0000_0000) by (nonlinear_arith)
                requires
                    0 <= height <= 0xFFFF_FFFF,
                    0 <= row <= 0x4_0000_0000,
            ;
            assert(height * row == pixel_data_len(width, height));
            let expected: u128 = height as u128 * row;
            if plain.len() as u128 != expected {
                Err(PngError::SizeMismatch { expected, actual: plain.len() })
            } else {
                Ok(())
            }
        },
    }
}

/// The pixel data is complete and has the size that the header implies.
fn check_pixel_data(size: Option<(u32, u32)>, idat: &Vec<u8>) -> (r: Result<(), PngError>)
    ensures
        agrees(r, layout_verdict(Layout { size, idat: idat@ })),
{
    match size {
        None => Err(PngError::NoIhdr),
        Some((width, height)) => {
            if idat.len() == 0 {
                return Err(PngError::NoIdat);
            }
            check_inflated(width, height, zlib_decompress(idat))
        },
    }
}

fn has_signature(data: &[u8]) -> (r: bool)
    requires
        data@.len() >= 8,
    ensures
        r == (data@.take(8) == png_signature()),
{
    let r = data[0] == 137 && data[1] == 80 && data[2] == 78 && data[3] == 71 && data[4] == 13
        && data[5] == 10 && data[6] == 26 && data[7] == 10;
    proof {
        if r {
            assert(data@.take(8) =~= png_signature());
        } else {
            let s = png_signature();
            assert(exists|i: int| 0 <= i < 8 && data@.take(8)[i] != s[i]) by {
                assert(data@.take(8)[0] == data@[0]);
                assert(data@.take(8)[1] == data@[1]);
                assert(data@.take(8)[2] == data@[2]);
                assert(data@.take(8)[3] == data@[3]);
                assert(data@.take(8)[4] == data@[4]);
                assert(data@.take(8)[5] == data@[5]);
                assert(data@.take(8)[6] == data@[6]);
                assert(data@.take(8)[7] == data@[7]);
            }
        }
    }
    r
}

/// Checks that the bytes are a PNG file with sound chunks and with as much
/// RGBA pixel data as its header says.
pub fn validate_png(data: &[u8]) -> (r: Result<(), PngError>)
    ensures
        agrees(r, png_verdict(data@)),
{
    if data.len() < 8 {
        return Err(PngError::TooShort);
    }
    if !has_signature(data) {
        return Err(PngError::BadSignature);
    }
    let mut pos: usize = 8;
    let mut first: bool = true;
    let mut size: Option<(u32, u32)> = None;
    let mut idat: Vec<u8> = Vec::new();
    let mut ended: bool = false;
    assert(idat@ =~= Seq::<u8>::empty());
    let ghost verdict = walk(data@, 8, true, Layout { size: None, idat: Seq::empty() });
    while !ended
        invariant
            data@.len() >= 8,
            data@.take(8) == png_signature(),
            verdict == walk(data@, 8, true, Layout { size: None, idat: Seq::empty() }),
            pos <= data@.len(),
            ended ==> verdict == Ok::<Layout, PngFault>(Layout { size, idat: idat@ }),
            !ended ==> verdict == walk(data@, pos as int, first, Layout { size, idat: idat@ }),
        decreases (if ended { 0 } else { 1 + data@.len() - pos }),
    {
        if data.len() - pos < 8 {
            return Err(PngError::TruncatedHeader { offset: pos });
        }
        let length: u32 = read_be(data, pos);
        let kind: u32 = read_be(data, pos + 4);
        let rest: usize = data.len() - pos - 8;
        if rest < 4 || rest - 4 < length as usize {
            return Err(PngError::TruncatedChunk { kind, offset: pos + 8 });
        }
        let body: usize = pos + 8;
        let end: usize = body + length as usize;
        let stored: u32 = read_be(data, end);
        let computed: u32 = crc32(vstd::slice::slice_subrange(data, pos + 4, end));
        if stored != computed {
            return Err(PngError::CrcMismatch { kind, stored, computed });
        }
        let ghost before = Layout { size, idat: idat@ };
        let ghost chunk = chunk_data(data@, pos as int);
        if kind == IHDR {
            if !first {
                return Err(PngError::IhdrNotFirst);
            }
            if length < 13 {
                return Err(PngError::IhdrTooShort { length });
            }
            size = Some((read_be(data, body), read_be(data, body + 4)));
            assert(be_at(chunk, 0) == be_at(data@, body as int));
            assert(be_at(chunk, 4) == be_at(data@, body + 4));
        } else if kind == IDAT {
            if size.is_none() {
                return Err(PngError::IdatBeforeIhdr);
            }
            push_all(&mut idat, data, body, end);
        } else if kind == IEND {
            ended = true;
        }
        assert(take_chunk(before, first, kind, chunk) == Ok::<Layout, PngFault>(
            Layout { size, idat: idat@ },
        ));
        first = false;
        pos = end + 4;
    }
    check_pixel_data(size, &idat)
}

// ── What is written is what is accepted ─────────────────────────────────

/// The four parts of a joined sequence stand at their places.
proof fn lemma_four_parts(data: Seq<u8>, pos: int, a: Seq<u8>, b: Seq<u8>, c: Seq<u8>, d: Seq<u8>)
    requires
        0 <= pos,
        pos + a.len() + b.len() + c.len() + d.len() <= data.len(),
        data.subrange(pos, pos + a.len() + b.len() + c.len() + d.len()) == a + b + c + d,
    ensures
        data.subrange(pos, pos + a.len()) == a,
        data.subrange(pos + a.len(), pos + a.len() + b.len()) == b,
        data.subrange(pos + a.len() + b.len(), pos + a.len() + b.len() + c.len()) == c,
        data.subrange(pos + a.len(), pos + a.len() + b.len() + c.len()) == b + c,
        data.subrange(
            pos + a.len() + b.len() + c.len(),
            pos + a.len() + b.len() + c.len() + d.len(),
        ) == d,
{
    let part = data.subrange(pos, pos + a.len() + b.len() + c.len() + d.len());
    let x = a.len() as int;
    let y = x + b.len();
    let z = y + c.len();
    let w = z + d.len();
    assert(part.subrange(0, x) =~= a);
    assert(part.subrange(x, y) =~= b);
    assert(part.subrange(y, z) =~= c);
    assert(part.subrange(x, z) =~= b + c);
    assert(part.subrange(z, w) =~= d);
    assert(data.subrange(pos, pos + x) =~= part.subrange(0, x));
    assert(data.subrange(pos + x, pos + y) =~= part.subrange(x, y));
    assert(data.subrange(pos + y, pos + z) =~= part.subrange(y, z));
    assert(data.subrange(pos + x, pos + z) =~= part.subrange(x, z));
    assert(data.subrange(pos + z, pos + w) =~= part.subrange(z, w));
}

/// A chunk that was written at `pos` is read back there.
pub(crate) proof fn lemma_chunk_read(data: Seq<u8>, pos: int, kind: u32, body: Seq<u8>)
    requires
        0 <= pos,
        body.len() <= u32::MAX,
        pos + 12 + body.len() <= data.len(),
        data.subrange(pos, pos + 12 + body.len()) == chunk_bytes(kind, body),
    ensures
        be_at(data, pos) == body.len(),
        be_at(data, pos + 4) == kind,
        chunk_data(data, pos) == body,
        after_chunk(data, pos) == pos + 12 + body.len(),
        chunk_fault(data, pos) is None,
{
    let length = body.len() as u32;
    let crc = crc_of(be_bytes(kind) + body);
    assert(body.len() % 0x1_0000_0000 == body.len());
    lemma_four_parts(data, pos, be_bytes(length), be_bytes(kind), body, be_bytes(crc));
    lemma_be_at_part(data, pos, length);
    lemma_be_at_part(data, pos + 4, kind);
    lemma_be_at_part(data, pos + 8 + body.len(), crc);
}

proof fn lemma_chunk_len(kind: u32, body: Seq<u8>)
    ensures
        chunk_bytes(kind, body).len() == 12 + body.len(),
{
}

pub(crate) proof fn lemma_header()
    ensures
        header_data(IMAGE_WIDTH, IMAGE_HEIGHT).len() == 13,
        be_at(header_data(IMAGE_WIDTH, IMAGE_HEIGHT), 0) == IMAGE_WIDTH,
        be_at(header_data(IMAGE_WIDTH, IMAGE_HEIGHT), 4) == IMAGE_HEIGHT,
{
    let header = header_data(IMAGE_WIDTH, IMAGE_HEIGHT);
    assert(header.subrange(0, 4) =~= be_bytes(IMAGE_WIDTH));
    lemma_be_at_part(header, 0, IMAGE_WIDTH);
    assert(header.subrange(4, 8) =~= be_bytes(IMAGE_HEIGHT));
    lemma_be_at_part(header, 4, IMAGE_HEIGHT);
}

/// Where the three chunks of a file stand.
pub(crate) proof fn lemma_file_parts(compressed: Seq<u8>)
    ensures
        png_file(compressed).len() == 57 + compressed.len(),
        png_file(compressed).take(8) == png_signature(),
        png_file(compressed).subrange(8, 33) == chunk_bytes(
            IHDR,
            header_data(IMAGE_WIDTH, IMAGE_HEIGHT),
        ),
        png_file(compressed).subrange(33, 45int + compressed.len()) == chunk_bytes(IDAT, compressed),
        png_file(compressed).subrange(45int + compressed.len(), 57int + compressed.len()) == chunk_bytes(
            IEND,
            Seq::empty(),
        ),
{
    let header = header_data(IMAGE_WIDTH, IMAGE_HEIGHT);
    let data = png_file(compressed);
    lemma_header();
    lemma_chunk_len(IHDR, header);
    lemma_chunk_len(IDAT, compressed);
    lemma_chunk_len(IEND, Seq::empty());
    let a = png_signature();
    let b = chunk_bytes(IHDR, header);
    let c = chunk_bytes(IDAT, compressed);
    let d = chunk_bytes(IEND, Seq::empty());
    assert(data == a + b + c + d);
    assert(data.subrange(0, data.len() as int) =~= data);
    lemma_four_parts(data, 0, a, b, c, d);
    assert(data.take(8) =~= data.subrange(0, 8));
}

/// A sound chunk that is not the last one hands its contents on.
proof fn lemma_walk_step(
    data: Seq<u8>,
    pos: int,
    first: bool,
    layout: Layout,
    kind: u32,
    body: Seq<u8>,
    next: Layout,
)
    requires
        0 <= pos,
        body.len() <= u32::MAX,
        pos + 12 + body.len() <= data.len(),
        data.subrange(pos, pos + 12 + body.len()) == chunk_bytes(kind, body),
        take_chunk(layout, first, kind, body) == Ok::<Layout, PngFault>(next),
    ensures
        walk(data, pos, first, layout) == (if kind == IEND {
            Ok::<Layout, PngFault>(next)
        } else {
            walk(data, pos + 12 + body.len(), false, next)
        }),
{
    lemma_chunk_read(data, pos, kind, body);
}

/// A file around a zlib stream of as many bytes as the image has is valid,
/// as long as the stream fits the 32-bit length field of its chunk.
pub proof fn png_round_trip(compressed: Seq<u8>, rows: Seq<u8>)
    requires
        0 < compressed.len() <= u32::MAX,
        inflates_to(compressed, rows),
        rows.len() == pixel_data_len(IMAGE_WIDTH, IMAGE_HEIGHT),
    ensures
        png_verdict(png_file(compressed)) == Ok::<(), PngFault>(()),
{
    let header = header_data(IMAGE_WIDTH, IMAGE_HEIGHT);
    let data = png_file(compressed);
    let n = compressed.len() as int;
    let empty = Layout { size: None, idat: Seq::<u8>::empty() };
    let sized = Layout { size: Some((IMAGE_WIDTH, IMAGE_HEIGHT)), idat: Seq::<u8>::empty() };
    let full = Layout { size: Some((IMAGE_WIDTH, IMAGE_HEIGHT)), idat: compressed };
    lemma_file_parts(compressed);
    lemma_header();
    assert(Seq::<u8>::empty() + compressed =~= compressed);
    lemma_walk_step(data, 8, true, empty, IHDR, header, sized);
    lemma_walk_step(data, 33, false, sized, IDAT, compressed, full);
    lemma_walk_step(data, 45 + n, false, full, IEND, Seq::empty(), full);
}

} // verus!
