use nerve::image::{
    check_inflated, crc32, generate_png, png_from_pixels, validate_png, write_chunk, PngError,
    IDAT, IEND, IHDR, IMAGE_HEIGHT, IMAGE_WIDTH,
};
use std::io::{Read, Write};

const SIGNATURE: [u8; 8] = [137, 80, 78, 71, 13, 10, 26, 10];

fn header(width: u32, height: u32) -> Vec<u8> {
    let mut data = Vec::new();
    data.extend_from_slice(&width.to_be_bytes());
    data.extend_from_slice(&height.to_be_bytes());
    data.extend_from_slice(&[8, 6, 0, 0, 0]);
    data
}

fn file(chunks: &[(u32, Vec<u8>)]) -> Vec<u8> {
    let mut out = SIGNATURE.to_vec();
    for (kind, data) in chunks {
        write_chunk(&mut out, &kind.to_be_bytes(), data);
    }
    out
}

fn zlib(data: &[u8]) -> Vec<u8> {
    let mut encoder =
        flate2::write::ZlibEncoder::new(Vec::new(), flate2::Compression::default());
    encoder.write_all(data).unwrap();
    encoder.finish().unwrap()
}

fn message(data: &[u8]) -> String {
    validate_png(data).unwrap_err().message()
}

#[test]
fn crc_of_the_check_string() {
    assert_eq!(crc32(b"123456789"), 0xCBF4_3926);
    assert_eq!(crc32(b""), 0);
    assert_eq!(crc32(b"IEND"), 0xAE42_6082);
}

#[test]
fn chunk_layout() {
    let mut out = vec![7];
    write_chunk(&mut out, b"IEND", &[]);
    assert_eq!(out, [7, 0, 0, 0, 0, b'I', b'E', b'N', b'D', 0xAE, 0x42, 0x60, 0x82]);
    let mut out = Vec::new();
    write_chunk(&mut out, b"tEXt", &[1, 2, 3]);
    assert_eq!(&out[..4], &[0, 0, 0, 3]);
    assert_eq!(&out[4..11], b"tEXt\x01\x02\x03");
}

#[test]
fn generated_image_is_valid() {
    let first = generate_png();
    let second = generate_png();
    assert!(validate_png(&first).is_ok());
    assert!(validate_png(&second).is_ok());
    assert_ne!(first, second);
    assert_eq!(&first[..8], &SIGNATURE);
    assert_eq!(&first[16..24], &[0, 0, 0, 128, 0, 0, 0, 128]);
}

#[test]
fn image_holds_its_pixels() {
    let pixels: Vec<u8> = (0..IMAGE_HEIGHT * IMAGE_WIDTH * 4).map(|i| (i * 7 % 251) as u8).collect();
    let png = png_from_pixels(&pixels);
    assert!(validate_png(&png).is_ok());
    let length = u32::from_be_bytes(png[33..37].try_into().unwrap()) as usize;
    let mut plain = Vec::new();
    flate2::read::ZlibDecoder::new(&png[41..41 + length]).read_to_end(&mut plain).unwrap();
    assert_eq!(plain.len(), 128 * 513);
    assert_eq!(plain[0], 0);
    assert_eq!(&plain[1..513], &pixels[..512]);
    assert_eq!(plain[513], 0);
    assert_eq!(&plain[514..1026], &pixels[512..1024]);
}

#[test]
fn every_image_is_valid() {
    let count = IMAGE_HEIGHT * IMAGE_WIDTH * 4;
    let mut noise = 1u32;
    let noisy = (0..count)
        .map(|_| {
            noise = noise.wrapping_mul(1_664_525).wrapping_add(1_013_904_223);
            (noise >> 24) as u8
        })
        .collect();
    let stepped = (0..count).map(|i| (i / 256 % 256) as u8).collect();
    for pixels in [vec![0; count as usize], vec![255; count as usize], noisy, stepped] {
        let png = png_from_pixels(&pixels);
        assert!(validate_png(&png).is_ok());
        assert!(png.len() <= 57 + 3 * 128 * 513 + 85_196);
    }
}

#[test]
fn small_image_and_split_data_are_valid() {
    let data = zlib(&[0, 1, 2, 3, 4, 5, 6, 7, 8]);
    let split = file(&[
        (IHDR, header(2, 1)),
        (u32::from_be_bytes(*b"tEXt"), vec![1]),
        (IDAT, data[..3].to_vec()),
        (IDAT, data[3..].to_vec()),
        (IEND, vec![]),
    ]);
    assert!(validate_png(&split).is_ok());
    let mut trailing = split.clone();
    trailing.extend_from_slice(b"after the end");
    assert!(validate_png(&trailing).is_ok());
}

#[test]
fn short_data_and_wrong_signature() {
    assert!(matches!(validate_png(&[]), Err(PngError::TooShort)));
    assert_eq!(message(&SIGNATURE[..7]), "data too short to contain PNG signature");
    let mut wrong = SIGNATURE.to_vec();
    wrong[3] = 0;
    assert!(matches!(validate_png(&wrong), Err(PngError::BadSignature)));
    assert_eq!(message(&wrong), "invalid PNG signature");
}

#[test]
fn truncated_chunks() {
    assert!(matches!(validate_png(&SIGNATURE), Err(PngError::TruncatedHeader { offset: 8 })));
    assert_eq!(
        message(&SIGNATURE),
        "unexpected end of data while reading chunk header at offset 8"
    );
    let mut data = file(&[(IHDR, header(1, 1))]);
    data.pop();
    assert!(matches!(
        validate_png(&data),
        Err(PngError::TruncatedChunk { kind: IHDR, offset: 16 })
    ));
    assert_eq!(
        message(&data),
        "unexpected end of data while reading chunk body/CRC for chunk \"IHDR\" at offset 16"
    );
    let mut huge = SIGNATURE.to_vec();
    huge.extend_from_slice(&[0xff, 0xff, 0xff, 0xff, 0, 0xff, b'a', b'b', 0, 0, 0, 0]);
    assert_eq!(
        message(&huge),
        "unexpected end of data while reading chunk body/CRC for chunk \"\\0\u{fffd}ab\" at offset 16"
    );
}

#[test]
fn damaged_chunk() {
    let mut data = file(&[(IHDR, header(1, 1)), (IEND, vec![])]);
    let last = data.len() - 1;
    data[last] ^= 1;
    assert!(matches!(
        validate_png(&data),
        Err(PngError::CrcMismatch { kind: IEND, stored: 0xAE42_6083, computed: 0xAE42_6082 })
    ));
    assert_eq!(
        message(&data),
        "CRC mismatch for chunk \"IEND\": stored=0xAE426083, computed=0xAE426082"
    );
}

#[test]
fn header_must_come_first_and_be_complete() {
    let late = file(&[(u32::from_be_bytes(*b"tEXt"), vec![]), (IHDR, header(1, 1))]);
    assert!(matches!(validate_png(&late), Err(PngError::IhdrNotFirst)));
    assert_eq!(message(&late), "IHDR chunk is not the first chunk");
    let short = file(&[(IHDR, header(1, 1)[..12].to_vec())]);
    assert!(matches!(validate_png(&short), Err(PngError::IhdrTooShort { length: 12 })));
    assert_eq!(message(&short), "IHDR chunk data too short (expected 13 bytes, got 12)");
    let early = file(&[(IDAT, vec![1])]);
    assert!(matches!(validate_png(&early), Err(PngError::IdatBeforeIhdr)));
    assert_eq!(message(&early), "IDAT chunk found before IHDR");
    let none = file(&[(IEND, vec![])]);
    assert!(matches!(validate_png(&none), Err(PngError::NoIhdr)));
    assert_eq!(message(&none), "no IHDR chunk found");
}

#[test]
fn pixel_data_must_fit_the_header() {
    let empty = file(&[(IHDR, header(1, 1)), (IEND, vec![])]);
    assert!(matches!(validate_png(&empty), Err(PngError::NoIdat)));
    assert_eq!(message(&empty), "no IDAT data found");
    let garbage = file(&[(IHDR, header(1, 1)), (IDAT, vec![1, 2, 3]), (IEND, vec![])]);
    assert!(matches!(validate_png(&garbage), Err(PngError::Decompress { .. })));
    assert_eq!(message(&garbage), "failed to decompress IDAT data: corrupt deflate stream");
    let short = file(&[(IHDR, header(1, 1)), (IDAT, zlib(&[0, 1, 2, 3])), (IEND, vec![])]);
    assert!(matches!(
        validate_png(&short),
        Err(PngError::SizeMismatch { expected: 5, actual: 4 })
    ));
    assert_eq!(message(&short), "decompressed IDAT size mismatch: expected 5, got 4");
    let vast = file(&[
        (IHDR, header(u32::MAX, u32::MAX)),
        (IDAT, zlib(&[0])),
        (IEND, vec![]),
    ]);
    assert_eq!(
        message(&vast),
        "decompressed IDAT size mismatch: expected 73786976264773435395, got 1"
    );
}

#[test]
fn inflated_data_is_held_to_the_size() {
    assert!(check_inflated(2, 3, Ok(vec![0; 27])).is_ok());
    for actual in [0, 26, 28] {
        assert!(matches!(
            check_inflated(2, 3, Ok(vec![0; actual])),
            Err(PngError::SizeMismatch { expected: 27, actual: n }) if n == actual
        ));
    }
    assert!(matches!(
        check_inflated(u32::MAX, u32::MAX, Ok(vec![])),
        Err(PngError::SizeMismatch { expected: 73786976264773435395, actual: 0 })
    ));
    assert!(matches!(
        check_inflated(2, 3, Err("corrupt deflate stream".to_owned())),
        Err(PngError::Decompress { reason }) if reason == "corrupt deflate stream"
    ));
}

#[test]
fn crc_laws() {
    let (a, b, c) = (b"first text".to_vec(), b"the second".to_vec(), b"a third!!!".to_vec());
    let all: Vec<u8> = (0..10).map(|i| a[i] ^ b[i] ^ c[i]).collect();
    assert_eq!(crc32(&all), crc32(&a) ^ crc32(&b) ^ crc32(&c));
    for text in [&a[..], &b[..], &[]] {
        let mut with_crc = text.to_vec();
        with_crc.extend_from_slice(&crc32(text).to_le_bytes());
        assert_eq!(crc32(&with_crc), 0x2144_DF1C);
    }
    for i in 0..a.len() {
        for byte in 0..=255 {
            let mut changed = a.clone();
            changed[i] = byte;
            assert_eq!(crc32(&changed) == crc32(&a), byte == a[i]);
        }
    }
}

#[test]
fn cut_and_extended_files() {
    let pixels = zlib(&[0, 1, 2, 3, 4]);
    let data = file(&[(IHDR, header(1, 1)), (IDAT, pixels), (IEND, vec![])]);
    for k in 0..data.len() {
        assert!(validate_png(&data[..k]).is_err(), "{k}");
    }
    let mut longer = data.clone();
    for byte in [0, 137, 255] {
        longer.push(byte);
        assert!(validate_png(&longer).is_ok());
        assert!(validate_png(&longer[..data.len()]).is_ok());
        assert!(validate_png(&longer[..data.len() - 1]).is_err());
    }
    let generated = generate_png();
    assert!(validate_png(&generated[..generated.len() - 1]).is_err());
}

#[test]
fn flipped_bits() {
    let pixels = zlib(&[0, 1, 2, 3, 4]);
    let end = pixels.len();
    let data = file(&[(IHDR, header(1, 1)), (IDAT, pixels), (IEND, vec![])]);
    let lengths = [8..12, 33..37, 45 + end..49 + end];
    for i in 0..data.len() {
        if lengths.iter().any(|l| l.contains(&i)) {
            continue;
        }
        for bit in 0..8 {
            let mut damaged = data.clone();
            damaged[i] ^= 1 << bit;
            assert!(validate_png(&damaged).is_err(), "byte {i}, bit {bit}");
        }
    }
}
