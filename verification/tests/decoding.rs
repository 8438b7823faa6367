use png_decoder::{parse_chunks, Chunk, DecodeError, PalleteItem, PngImage};
use std::io::Write;

const TEXT: &[u8] = b"hello hello hello PNG scanline data";

/// `TEXT` as a zlib stream.
const TEXT_DEFLATED: [u8; 33] = [
    120, 218, 203, 72, 205, 201, 201, 87, 200, 64, 34, 3, 252, 220, 21, 138, 147, 19, 243, 114, 50,
    243, 82, 21, 82, 18, 75, 18, 1, 229, 83, 12, 169,
];

/// The bytes 0 to 7 as a zlib stream.
const COUNT_DEFLATED: [u8; 16] = [120, 156, 99, 96, 100, 98, 102, 97, 101, 99, 7, 0, 0, 92, 0, 29];

fn chunk(type_code: &[u8; 4], payload: &[u8]) -> Chunk {
    let mut bytes = Vec::new();
    bytes.extend_from_slice(&(payload.len() as u32).to_be_bytes());
    bytes.extend_from_slice(type_code);
    bytes.extend_from_slice(payload);
    bytes.extend_from_slice(&[0, 0, 0, 0]);
    Chunk::new(&bytes).unwrap()
}

fn deflate(bytes: &[u8]) -> Vec<u8> {
    let mut encoder = flate2::write::ZlibEncoder::new(Vec::new(), flate2::Compression::default());
    encoder.write_all(bytes).unwrap();
    encoder.finish().unwrap()
}

fn rgb(red: u8, green: u8, blue: u8) -> PalleteItem {
    PalleteItem { red, green, blue }
}

const HEADER: [u8; 11] = [0x00, 0x00, 0x00, 0x10, 0x00, 0x00, 0x00, 0x20, 0x08, 0x02, 0x00];

#[test]
fn no_chunks_decode_to_the_empty_descriptor() {
    let image = PngImage::new(vec![]).unwrap();
    assert_eq!(image, PngImage::empty());
    assert_eq!(image.width(), 0);
    assert_eq!(image.height(), 0);
    assert_eq!(image.bit_depth(), 0);
    assert_eq!(image.colour_type(), 0);
    assert_eq!(image.compression_method(), 0);
    assert!(image.pallete().is_empty());
    assert!(image.decompressed_data().is_empty());
}

#[test]
fn header_chunk_sets_the_header_fields() {
    let image = PngImage::new(vec![chunk(b"IHDR", &HEADER)]).unwrap();
    assert_eq!(image.width(), 16);
    assert_eq!(image.height(), 32);
    assert_eq!(image.bit_depth(), 8);
    assert_eq!(image.colour_type(), 2);
    assert_eq!(image.compression_method(), 0);
    assert!(image.pallete().is_empty());
    assert!(image.decompressed_data().is_empty());
}

#[test]
fn full_header_payload_is_read_the_same_way() {
    let payload = [0x00, 0x00, 0x02, 0x80, 0x00, 0x00, 0x01, 0xe0, 0x10, 0x06, 0x00, 0x00, 0x01];
    let image = PngImage::new(vec![chunk(b"IHDR", &payload)]).unwrap();
    assert_eq!(image.width(), 640);
    assert_eq!(image.height(), 480);
    assert_eq!(image.bit_depth(), 16);
    assert_eq!(image.colour_type(), 6);
    assert_eq!(image.compression_method(), 0);
}

#[test]
fn header_fields_use_all_four_bytes() {
    let payload = [0xff, 0xff, 0xff, 0xff, 0x01, 0x02, 0x03, 0x04, 0x01, 0x03, 0x07];
    let mut image = PngImage::empty();
    assert_eq!(PngImage::parse_ihdr(chunk(b"IHDR", &payload), &mut image), Ok(()));
    assert_eq!(image.width(), u32::MAX);
    assert_eq!(image.height(), 0x0102_0304);
    assert_eq!(image.bit_depth(), 1);
    assert_eq!(image.colour_type(), 3);
    assert_eq!(image.compression_method(), 7);
}

#[test]
fn short_header_is_a_decode_error() {
    for length in 0..11 {
        let outcome = PngImage::new(vec![chunk(b"IHDR", &HEADER[..length])]);
        assert_eq!(outcome, Err(DecodeError::ShortHeader));
    }
    let mut image = PngImage::new(vec![chunk(b"IHDR", &HEADER)]).unwrap();
    let before = image.clone();
    let outcome = PngImage::parse_ihdr(chunk(b"IHDR", &[0xff; 10]), &mut image);
    assert_eq!(outcome, Err(DecodeError::ShortHeader));
    assert_eq!(image, before);
}

#[test]
fn short_header_fails_wherever_it_stands() {
    let chunks = vec![
        chunk(b"IHDR", &HEADER),
        chunk(b"IDAT", &TEXT_DEFLATED),
        chunk(b"IHDR", &[1, 2, 3]),
        chunk(b"IEND", &[]),
    ];
    assert_eq!(PngImage::new(chunks), Err(DecodeError::ShortHeader));
    let chunks = vec![chunk(b"IDAT", &[1, 2, 3]), chunk(b"IHDR", &[])];
    assert_eq!(PngImage::new(chunks), Err(DecodeError::ShortHeader));
}

#[test]
fn last_header_chunk_wins() {
    let second = [0x00, 0x00, 0x00, 0x01, 0x00, 0x00, 0x00, 0x02, 0x04, 0x03, 0x00];
    let chunks = vec![
        chunk(b"IHDR", &HEADER),
        chunk(b"PLTE", &[1, 2, 3]),
        chunk(b"IHDR", &second),
    ];
    let image = PngImage::new(chunks).unwrap();
    assert_eq!(image.width(), 1);
    assert_eq!(image.height(), 2);
    assert_eq!(image.bit_depth(), 4);
    assert_eq!(image.colour_type(), 3);
    assert_eq!(image.pallete(), &vec![rgb(1, 2, 3)]);
}

#[test]
fn palette_drops_a_trailing_partial_triplet() {
    let image = PngImage::new(vec![chunk(b"PLTE", &[1, 2, 3, 4, 5, 6, 7])]).unwrap();
    assert_eq!(image.pallete().len(), 2);
    assert_eq!(image.pallete(), &vec![rgb(1, 2, 3), rgb(4, 5, 6)]);
    let image = PngImage::new(vec![chunk(b"PLTE", &[1, 2, 3, 4, 5, 6, 7, 8])]).unwrap();
    assert_eq!(image.pallete(), &vec![rgb(1, 2, 3), rgb(4, 5, 6)]);
}

#[test]
fn palette_holds_every_full_triplet() {
    let image = PngImage::new(vec![chunk(b"PLTE", &[1, 2, 3, 4, 5, 6])]).unwrap();
    assert_eq!(image.pallete(), &vec![rgb(1, 2, 3), rgb(4, 5, 6)]);
    let image = PngImage::new(vec![chunk(b"PLTE", &[255, 0, 128])]).unwrap();
    assert_eq!(image.pallete(), &vec![rgb(255, 0, 128)]);
    for length in 0..3 {
        let image = PngImage::new(vec![chunk(b"PLTE", &[9, 9][..length])]).unwrap();
        assert!(image.pallete().is_empty());
    }
    let long: Vec<u8> = (0..=255u8).chain(0..=255u8).chain(0..=255u8).collect();
    let image = PngImage::new(vec![chunk(b"PLTE", &long)]).unwrap();
    assert_eq!(image.pallete().len(), 256);
    assert_eq!(image.pallete()[85], rgb(255, 0, 1));
    assert_eq!(image.pallete()[255], rgb(253, 254, 255));
}

#[test]
fn palette_chunks_append_in_stream_order() {
    let mut image = PngImage::new(vec![chunk(b"IHDR", &HEADER)]).unwrap();
    PngImage::parse_plte(chunk(b"PLTE", &[1, 2, 3, 4]), &mut image);
    assert_eq!(image.pallete(), &vec![rgb(1, 2, 3)]);
    PngImage::parse_plte(chunk(b"PLTE", &[5, 6, 7, 8, 9, 10]), &mut image);
    assert_eq!(image.pallete(), &vec![rgb(1, 2, 3), rgb(5, 6, 7), rgb(8, 9, 10)]);
    assert_eq!(image.width(), 16);
    assert_eq!(image.height(), 32);
    let chunks = vec![chunk(b"PLTE", &[1, 2, 3]), chunk(b"tEXt", &[0; 9]), chunk(b"PLTE", &[4, 5, 6])];
    let image = PngImage::new(chunks).unwrap();
    assert_eq!(image.pallete(), &vec![rgb(1, 2, 3), rgb(4, 5, 6)]);
}

#[test]
fn image_data_payloads_are_gathered_in_order() {
    let mut stream = vec![1, 2];
    PngImage::parse_idat(chunk(b"IDAT", &[3, 4, 5]), &mut stream);
    assert_eq!(stream, vec![1, 2, 3, 4, 5]);
    PngImage::parse_idat(chunk(b"IDAT", &[]), &mut stream);
    assert_eq!(stream, vec![1, 2, 3, 4, 5]);
    PngImage::parse_idat(chunk(b"IDAT", &[6]), &mut stream);
    assert_eq!(stream, vec![1, 2, 3, 4, 5, 6]);
}

#[test]
fn single_image_data_chunk_is_inflated() {
    let image = PngImage::new(vec![chunk(b"IDAT", &TEXT_DEFLATED)]).unwrap();
    assert_eq!(image.decompressed_data().as_slice(), TEXT);
    assert_ne!(image.decompressed_data().as_slice(), &TEXT_DEFLATED[..]);
    let image = PngImage::new(vec![chunk(b"IDAT", &COUNT_DEFLATED)]).unwrap();
    assert_eq!(image.decompressed_data(), &vec![0, 1, 2, 3, 4, 5, 6, 7]);
}

#[test]
fn image_data_split_over_chunks_is_inflated_as_one_stream() {
    for split in 1..TEXT_DEFLATED.len() {
        let (front, back) = TEXT_DEFLATED.split_at(split);
        let chunks = vec![
            chunk(b"IHDR", &HEADER),
            chunk(b"IDAT", front),
            chunk(b"IDAT", back),
            chunk(b"IEND", &[]),
        ];
        let image = PngImage::new(chunks).unwrap();
        assert_eq!(image.decompressed_data().as_slice(), TEXT);
        assert_eq!(image.width(), 16);

        // Neither piece alone is the stream.
        for piece in [front, back] {
            match PngImage::new(vec![chunk(b"IDAT", piece)]) {
                Ok(partial) => assert_ne!(partial.decompressed_data().as_slice(), TEXT),
                Err(e) => assert_eq!(e, DecodeError::CorruptData),
            }
        }
    }
}

#[test]
fn image_data_split_in_three_with_other_chunks_between() {
    let data: Vec<u8> = (0..2000u32).map(|i| (i * 7 % 251) as u8).collect();
    let stream = deflate(&data);
    assert!(stream.len() > 30);
    let chunks = vec![
        chunk(b"IDAT", &stream[..10]),
        chunk(b"tIME", &[1, 2, 3, 4, 5, 6, 7]),
        chunk(b"IDAT", &stream[10..11]),
        chunk(b"PLTE", &[1, 2, 3]),
        chunk(b"IDAT", &[]),
        chunk(b"IDAT", &stream[11..]),
    ];
    let image = PngImage::new(chunks).unwrap();
    assert_eq!(image.decompressed_data(), &data);
    assert_eq!(image.pallete(), &vec![rgb(1, 2, 3)]);
}

#[test]
fn image_data_in_the_wrong_order_is_not_the_stream() {
    let (front, back) = TEXT_DEFLATED.split_at(12);
    let outcome = PngImage::new(vec![chunk(b"IDAT", back), chunk(b"IDAT", front)]);
    assert_eq!(outcome, Err(DecodeError::CorruptData));
}

#[test]
fn corrupt_image_data_is_a_decode_error() {
    let outcome = PngImage::new(vec![chunk(b"IDAT", &[1, 2, 3, 4, 5, 6, 7, 8])]);
    assert_eq!(outcome, Err(DecodeError::CorruptData));
    let mut damaged = TEXT_DEFLATED;
    damaged[32] ^= 0xff;
    let outcome = PngImage::new(vec![chunk(b"IHDR", &HEADER), chunk(b"IDAT", &damaged)]);
    assert_eq!(outcome, Err(DecodeError::CorruptData));
}

#[test]
fn incomplete_image_data_is_a_decode_error() {
    let outcome = PngImage::new(vec![chunk(b"IDAT", &TEXT_DEFLATED[..20])]);
    assert_eq!(outcome, Err(DecodeError::CorruptData));
    let outcome = PngImage::new(vec![chunk(b"IDAT", &[])]);
    assert_eq!(outcome, Err(DecodeError::CorruptData));
}

#[test]
fn inflated_bytes_complete_the_descriptor() {
    let image = PngImage::new(vec![chunk(b"IHDR", &HEADER), chunk(b"PLTE", &[1, 2, 3])]).unwrap();
    let done = PngImage::with_inflated(image.clone(), Some(vec![5, 6, 7])).unwrap();
    assert_eq!(done.decompressed_data(), &vec![5, 6, 7]);
    assert_eq!(done.width(), 16);
    assert_eq!(done.height(), 32);
    assert_eq!(done.bit_depth(), 8);
    assert_eq!(done.colour_type(), 2);
    assert_eq!(done.pallete(), &vec![rgb(1, 2, 3)]);
    assert_eq!(PngImage::with_inflated(image, None), Err(DecodeError::CorruptData));
}

#[test]
fn unknown_chunks_change_nothing() {
    let known = || {
        vec![
            chunk(b"IHDR", &HEADER),
            chunk(b"PLTE", &[1, 2, 3, 4, 5, 6]),
            chunk(b"IDAT", &TEXT_DEFLATED[..9]),
            chunk(b"IDAT", &TEXT_DEFLATED[9..]),
        ]
    };
    let expected = PngImage::new(known()).unwrap();
    assert_eq!(expected.decompressed_data().as_slice(), TEXT);
    for at in 0..=4 {
        let mut chunks = known();
        chunks.insert(at, chunk(b"tEXt", b"Comment\0made by hand"));
        let image = PngImage::new(chunks).unwrap();
        assert_eq!(image, expected);
        assert_eq!(image.width(), 16);
        assert_eq!(image.height(), 32);
        assert_eq!(image.bit_depth(), 8);
        assert_eq!(image.pallete(), &vec![rgb(1, 2, 3), rgb(4, 5, 6)]);
    }
    let only = PngImage::new(vec![chunk(b"tEXt", &[1, 2, 3]), chunk(b"IEND", &[])]).unwrap();
    assert_eq!(only, PngImage::empty());
}

#[test]
fn unknown_chunk_does_not_hide_a_failure() {
    let chunks = vec![chunk(b"tEXt", &[1]), chunk(b"IDAT", &[1, 2, 3]), chunk(b"zTXt", &[2])];
    assert_eq!(PngImage::new(chunks), Err(DecodeError::CorruptData));
    let chunks = vec![chunk(b"tEXt", &[1]), chunk(b"IHDR", &[1, 2, 3])];
    assert_eq!(PngImage::new(chunks), Err(DecodeError::ShortHeader));
}

#[test]
fn type_codes_are_matched_by_exact_bytes() {
    let chunks = vec![
        chunk(b"ihdr", &HEADER),
        chunk(b"plte", &[1, 2, 3]),
        chunk(b"idat", &[1, 2, 3]),
        chunk(b"IHDr", &[]),
    ];
    assert_eq!(PngImage::new(chunks).unwrap(), PngImage::empty());
}

#[test]
fn framed_file_body_decodes() {
    let mut body = Vec::new();
    for (code, payload) in [
        (b"IHDR", &HEADER[..]),
        (b"gAMA", &[0, 0, 0xb1, 0x8f][..]),
        (b"PLTE", &[10, 20, 30, 40, 50, 60, 70][..]),
        (b"IDAT", &COUNT_DEFLATED[..5]),
        (b"IDAT", &COUNT_DEFLATED[5..]),
        (b"IEND", &[][..]),
    ] {
        body.extend_from_slice(&(payload.len() as u32).to_be_bytes());
        body.extend_from_slice(code);
        body.extend_from_slice(payload);
        body.extend_from_slice(&[0xaa, 0xbb, 0xcc, 0xdd]);
    }
    let chunks = parse_chunks(&body).unwrap();
    assert_eq!(chunks.len(), 6);
    let image = PngImage::new(chunks).unwrap();
    assert_eq!(image.width(), 16);
    assert_eq!(image.height(), 32);
    assert_eq!(image.pallete(), &vec![rgb(10, 20, 30), rgb(40, 50, 60)]);
    assert_eq!(image.decompressed_data(), &vec![0, 1, 2, 3, 4, 5, 6, 7]);
}

#[test]
fn decode_error_messages() {
    assert_eq!(DecodeError::ShortHeader.message(), "header chunk is too short");
    assert_eq!(
        DecodeError::CorruptData.message(),
        "image data is not a complete zlib stream"
    );
}
