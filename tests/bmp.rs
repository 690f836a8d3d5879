use mage::bmp::{
    parse_header, parse_image, write_image, BMPError, ColorFormat, CompressionType, ErrorKind,
};
use mage::image::{Image, RGBA};

const RGBA_MASKS: [u32; 4] = [0xFF00_0000, 0x00FF_0000, 0x0000_FF00, 0x0000_00FF];

fn push32(v: &mut Vec<u8>, n: u32) {
    v.extend_from_slice(&n.to_le_bytes());
}

/// A file with a 40-byte image header, the masks, and the pixel bytes at offset 70.
fn file(
    width: u32,
    height: i32,
    bit_count: u16,
    compression: u32,
    masks: [u32; 4],
    image_bytes: u32,
    pixels: &[u8],
) -> Vec<u8> {
    let mut v = vec![b'B', b'M'];
    push32(&mut v, 70 + pixels.len() as u32);
    push32(&mut v, 0);
    push32(&mut v, 70);
    push32(&mut v, 40);
    push32(&mut v, width);
    push32(&mut v, height as u32);
    v.extend_from_slice(&[1, 0]);
    v.extend_from_slice(&bit_count.to_le_bytes());
    push32(&mut v, compression);
    push32(&mut v, image_bytes);
    push32(&mut v, 2835);
    push32(&mut v, 2835);
    push32(&mut v, 0);
    push32(&mut v, 0);
    for m in masks {
        push32(&mut v, m);
    }
    v.extend_from_slice(pixels);
    v
}

fn kind<T>(r: Result<T, BMPError>) -> Option<ErrorKind> {
    r.err().map(|e| e.kind())
}

fn encode(image: &Image) -> Vec<u8> {
    let mut out = Vec::new();
    write_image(&mut out, image);
    out
}

#[test]
fn encode_two_by_two_red() {
    let mut image = Image::new(2, 2);
    for y in 0..2 {
        for x in 0..2 {
            image.write(x, y, RGBA::new(255, 0, 0, 255));
        }
    }
    let bytes = encode(&image);
    assert_eq!(bytes.len(), 138);
    assert_eq!(&bytes[0..2], b"BM");
    assert_eq!(u32::from_le_bytes([bytes[2], bytes[3], bytes[4], bytes[5]]), 138);
    assert_eq!(u32::from_le_bytes([bytes[10], bytes[11], bytes[12], bytes[13]]), 122);
    assert_eq!(i32::from_le_bytes([bytes[22], bytes[23], bytes[24], bytes[25]]), -2);
}

#[test]
fn encoded_header_fields() {
    let mut image = Image::new(3, 1);
    image.write(0, 0, RGBA::new(1, 2, 3, 4));
    let b = encode(&image);
    let u32_at = |i: usize| u32::from_le_bytes([b[i], b[i + 1], b[i + 2], b[i + 3]]);
    assert_eq!(b.len(), 122 + 12);
    assert_eq!(&b[6..10], &[0, 0, 0, 0]);
    assert_eq!(u32_at(14), 108);
    assert_eq!(u32_at(18), 3);
    assert_eq!(i32::from_le_bytes([b[22], b[23], b[24], b[25]]), -1);
    assert_eq!(&b[26..28], &[1, 0]);
    assert_eq!(u16::from_le_bytes([b[28], b[29]]), 32);
    assert_eq!(u32_at(30), 3);
    assert_eq!(u32_at(34), 12);
    assert_eq!(u32_at(38), 2835);
    assert_eq!(u32_at(42), 2835);
    assert_eq!(u32_at(46), 0);
    assert_eq!(u32_at(50), 0);
    assert_eq!(u32_at(54), 0xFF00_0000);
    assert_eq!(u32_at(58), 0x00FF_0000);
    assert_eq!(u32_at(62), 0x0000_FF00);
    assert_eq!(u32_at(66), 0x0000_00FF);
    assert_eq!(u32_at(70), 0x5769_6E20);
    assert!(b[74..122].iter().all(|&x| x == 0));
    // alpha, blue, green, red
    assert_eq!(&b[122..126], &[4, 3, 2, 1]);
    assert_eq!(&b[126..134], &[0; 8]);
}

#[test]
fn encode_appends_to_sink() {
    let image = Image::new(1, 1);
    let mut out = vec![9, 9];
    write_image(&mut out, &image);
    assert_eq!(out.len(), 2 + 126);
    assert_eq!(&out[0..4], &[9, 9, b'B', b'M']);
}

#[test]
fn minimal_rgba_header_parses() {
    let data = file(1, 1, 32, 3, RGBA_MASKS, 4, &[1, 2, 3, 4]);
    let header = parse_header(&data).unwrap();
    assert_eq!(header.format, ColorFormat::RGBA);
    assert_eq!(header.file_header.size, 74);
    assert_eq!(header.file_header.offset, 70);
    assert_eq!(header.image_header.size, 40);
    assert_eq!(header.image_header.width, 1);
    assert_eq!(header.image_header.height, 1);
    assert_eq!(header.image_header.bit_count, 32);
    assert_eq!(header.image_header.compression, CompressionType::Bitfields);
    assert_eq!(header.image_header.image_bytes, 4);
    assert_eq!(header.image_header.x_pixels_per_meter, 2835);
    assert_eq!(header.image_header.color_used, 0);
}

#[test]
fn permuted_masks_are_unsupported() {
    let masks = [0x00FF_0000, 0xFF00_0000, 0x0000_FF00, 0x0000_00FF];
    let data = file(1, 1, 32, 3, masks, 4, &[1, 2, 3, 4]);
    assert_eq!(kind(parse_header(&data)), Some(ErrorKind::UnsupportedFormat));
    assert_eq!(kind(parse_image(&data)), Some(ErrorKind::UnsupportedFormat));
}

#[test]
fn thirteen_bytes_are_invalid() {
    let data = vec![b'B', b'M', 0, 0, 0, 0, 0, 0, 0, 0, 0, 0, 0];
    assert!(matches!(parse_image(&data), Err(BMPError::InvalidFormat(_))));
}

#[test]
fn wrong_signature_is_invalid() {
    let data = vec![b'B', b'A', 14, 0, 0, 0, 0, 0, 0, 0, 14, 0, 0, 0];
    assert!(matches!(parse_image(&data), Err(BMPError::InvalidFormat(_))));
    let mut data = file(1, 1, 32, 3, RGBA_MASKS, 4, &[1, 2, 3, 4]);
    data[0] = b'M';
    data[1] = b'B';
    assert_eq!(kind(parse_image(&data)), Some(ErrorKind::InvalidFormat));
}

#[test]
fn bit_count_24_is_unsupported() {
    let data = file(1, 1, 24, 3, RGBA_MASKS, 4, &[1, 2, 3, 4]);
    assert!(matches!(parse_image(&data), Err(BMPError::UnsupportedFormat(_))));
}

#[test]
fn uncompressed_is_unsupported() {
    let data = file(1, 1, 32, 0, RGBA_MASKS, 4, &[1, 2, 3, 4]);
    assert!(matches!(parse_image(&data), Err(BMPError::UnsupportedFormat(_))));
    let data = file(1, 1, 32, 1, RGBA_MASKS, 4, &[1, 2, 3, 4]);
    assert_eq!(kind(parse_image(&data)), Some(ErrorKind::UnsupportedFormat));
    let data = file(1, 1, 32, 7, RGBA_MASKS, 4, &[1, 2, 3, 4]);
    assert_eq!(kind(parse_image(&data)), Some(ErrorKind::UnsupportedFormat));
}

#[test]
fn reserved_bytes_must_be_zero() {
    let mut data = file(1, 1, 32, 3, RGBA_MASKS, 4, &[1, 2, 3, 4]);
    data[8] = 1;
    assert_eq!(kind(parse_image(&data)), Some(ErrorKind::InvalidFormat));
}

#[test]
fn plane_count_must_be_one() {
    let mut data = file(1, 1, 32, 3, RGBA_MASKS, 4, &[1, 2, 3, 4]);
    data[26] = 2;
    assert_eq!(kind(parse_header(&data)), Some(ErrorKind::InvalidFormat));
}

#[test]
fn offset_past_end_is_invalid() {
    let mut data = file(1, 1, 32, 3, RGBA_MASKS, 4, &[1, 2, 3, 4]);
    data[10] = 200;
    assert_eq!(kind(parse_header(&data)), Some(ErrorKind::InvalidFormat));
}

#[test]
fn truncated_image_header_is_invalid() {
    let data = file(1, 1, 32, 3, RGBA_MASKS, 4, &[]);
    assert_eq!(kind(parse_header(&data[..50])), Some(ErrorKind::InvalidFormat));
}

#[test]
fn truncated_masks_are_invalid() {
    let mut data = file(1, 1, 32, 3, RGBA_MASKS, 0, &[]);
    data.truncate(60);
    data[10] = 60;
    data[2] = 60;
    assert_eq!(kind(parse_header(&data)), Some(ErrorKind::InvalidFormat));
}

#[test]
fn file_shorter_than_declared_size_is_invalid() {
    let mut data = file(1, 1, 32, 3, RGBA_MASKS, 4, &[1, 2, 3, 4]);
    data[2] = 75;
    assert!(parse_header(&data).is_ok());
    assert_eq!(kind(parse_image(&data)), Some(ErrorKind::InvalidFormat));
}

#[test]
fn pixel_data_past_end_is_invalid() {
    let data = file(1, 1, 32, 3, RGBA_MASKS, 8, &[1, 2, 3, 4]);
    assert_eq!(kind(parse_image(&data)), Some(ErrorKind::InvalidFormat));
}

#[test]
fn huge_dimensions_are_unsupported() {
    let data = file(u32::MAX, -0x7FFF_FFFF, 32, 3, RGBA_MASKS, 0, &[]);
    assert_eq!(kind(parse_image(&data)), Some(ErrorKind::UnsupportedFormat));
}

#[test]
fn decode_reads_r_g_b_a_in_scan_order() {
    let pixels = [1, 2, 3, 4, 5, 6, 7, 8, 9, 10, 11, 12, 13, 14, 15, 16];
    let data = file(2, 2, 32, 3, RGBA_MASKS, 16, &pixels);
    let image = parse_image(&data).unwrap();
    assert_eq!(image.width(), 2);
    assert_eq!(image.height(), 2);
    assert_eq!(image.read(0, 0), RGBA::new(1, 2, 3, 4));
    assert_eq!(image.read(1, 0), RGBA::new(5, 6, 7, 8));
    assert_eq!(image.read(0, 1), RGBA::new(9, 10, 11, 12));
    assert_eq!(image.read(1, 1), RGBA::new(13, 14, 15, 16));
}

#[test]
fn negative_height_gives_row_count() {
    let pixels = [1, 2, 3, 4, 5, 6, 7, 8];
    let data = file(1, -2, 32, 3, RGBA_MASKS, 8, &pixels);
    let image = parse_image(&data).unwrap();
    assert_eq!(image.height(), 2);
    assert_eq!(image.read(0, 0), RGBA::new(1, 2, 3, 4));
    assert_eq!(image.read(0, 1), RGBA::new(5, 6, 7, 8));
}

#[test]
fn positive_height_keeps_stored_row_order() {
    let pixels = [1, 2, 3, 4, 5, 6, 7, 8];
    let data = file(1, 2, 32, 3, RGBA_MASKS, 8, &pixels);
    let image = parse_image(&data).unwrap();
    assert_eq!(image.read(0, 0), RGBA::new(1, 2, 3, 4));
    assert_eq!(image.read(0, 1), RGBA::new(5, 6, 7, 8));
}

#[test]
fn short_pixel_data_leaves_blank_pixels() {
    // six declared bytes: one whole pixel, the partial one is not read
    let pixels = [1, 2, 3, 4, 5, 6, 7, 8];
    let data = file(2, 1, 32, 3, RGBA_MASKS, 6, &pixels);
    let image = parse_image(&data).unwrap();
    assert_eq!(image.read(0, 0), RGBA::new(1, 2, 3, 4));
    assert_eq!(image.read(1, 0), RGBA::new(0, 0, 0, 0));
}

#[test]
fn extra_pixel_data_is_ignored() {
    let pixels = [1, 2, 3, 4, 5, 6, 7, 8];
    let data = file(1, 1, 32, 3, RGBA_MASKS, 8, &pixels);
    let image = parse_image(&data).unwrap();
    assert_eq!(image.as_bytes(), &[1, 2, 3, 4]);
}

#[test]
fn zero_width_gives_empty_image() {
    let pixels = [1, 2, 3, 4, 5, 6, 7, 8];
    let data = file(0, 2, 32, 3, RGBA_MASKS, 8, &pixels);
    let image = parse_image(&data).unwrap();
    assert_eq!(image.width(), 0);
    assert_eq!(image.height(), 2);
    assert_eq!(image.as_bytes().len(), 0);
}

#[test]
fn zero_height_gives_empty_image() {
    let data = file(3, 0, 32, 3, RGBA_MASKS, 0, &[]);
    let image = parse_image(&data).unwrap();
    assert_eq!(image.width(), 3);
    assert_eq!(image.height(), 0);
    assert_eq!(image.as_bytes().len(), 0);
}

#[test]
fn parsing_twice_gives_the_same_result() {
    let pixels = [1, 2, 3, 4, 5, 6, 7, 8];
    let data = file(2, 1, 32, 3, RGBA_MASKS, 8, &pixels);
    assert_eq!(parse_header(&data).unwrap(), parse_header(&data).unwrap());
    let a = parse_image(&data).unwrap();
    let b = parse_image(&data).unwrap();
    assert_eq!(a.width(), b.width());
    assert_eq!(a.height(), b.height());
    assert_eq!(a.as_bytes(), b.as_bytes());
}

#[test]
fn round_trip_of_symmetric_pixels() {
    let mut image = Image::new(3, 2);
    image.write(0, 0, RGBA::new(10, 20, 20, 10));
    image.write(2, 1, RGBA::new(255, 7, 7, 255));
    let back = parse_image(&encode(&image)).unwrap();
    assert_eq!(back.width(), 3);
    assert_eq!(back.height(), 2);
    assert_eq!(back.as_bytes(), image.as_bytes());
}

#[test]
fn round_trip_reverses_channels() {
    let mut image = Image::new(2, 1);
    image.write(0, 0, RGBA::new(1, 2, 3, 4));
    image.write(1, 0, RGBA::new(255, 0, 0, 255));
    let back = parse_image(&encode(&image)).unwrap();
    assert_eq!(back.read(0, 0), RGBA::new(4, 3, 2, 1));
    assert_eq!(back.read(1, 0), RGBA::new(255, 0, 0, 255));
}

#[test]
fn compression_codes() {
    assert_eq!(CompressionType::from(0), CompressionType::Uncompressed);
    assert_eq!(CompressionType::from(1), CompressionType::RLE8);
    assert_eq!(CompressionType::from(2), CompressionType::RLE4);
    assert_eq!(CompressionType::from(3), CompressionType::Bitfields);
    assert_eq!(CompressionType::from(4), CompressionType::Unknown);
    assert_eq!(u32::from(CompressionType::Bitfields), 3);
    assert_eq!(u32::from(CompressionType::RLE4), 2);
}

#[test]
fn offset_past_declared_size_is_invalid() {
    let mut data = file(0, 0, 32, 3, RGBA_MASKS, 0, &[]);
    assert_eq!(data.len(), 70);
    data[2] = 0;
    match parse_header(&data) {
        Err(BMPError::InvalidFormat(m)) => {
            assert_eq!(m, "pixel data offset past the end of the file")
        }
        _ => panic!("expected InvalidFormat"),
    }
    assert_eq!(kind(parse_image(&data)), Some(ErrorKind::InvalidFormat));
}

#[test]
fn header_errors_pass_on_with_their_message() {
    let data = file(1, 1, 24, 3, RGBA_MASKS, 4, &[1, 2, 3, 4]);
    match (parse_header(&data), parse_image(&data)) {
        (Err(BMPError::UnsupportedFormat(a)), Err(BMPError::UnsupportedFormat(b))) => {
            assert_eq!(a, "unsupported pixel format");
            assert_eq!(a, b);
        }
        _ => panic!("expected UnsupportedFormat twice"),
    }
}

#[test]
fn repeated_failures_are_identical() {
    let data = vec![b'B', b'M', 0, 0];
    let a = format!("{:?}", parse_header(&data).err());
    let b = format!("{:?}", parse_header(&data).err());
    assert_eq!(a, b);
    assert!(a.contains("insufficient file header length"));
}
