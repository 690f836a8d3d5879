//! Reading and writing the one BMP layout this library supports: 32 bits per
//! pixel, `Bitfields` compression and the RGBA channel masks.
//!
//! The field layout follows the usual description of the BMP format, e.g.
//! <http://www.dragonwins.com/domains/GetTechEd/bmp/bmpfileformat.htm>.
use crate::image::{blank, pixel_in, Image, ImageView, RGBA};
use vstd::prelude::*;

verus! {

// ---------------------------------------------------------------------------
// Little-endian integers
// ---------------------------------------------------------------------------

/// The unsigned little-endian integer in bytes `at .. at + 4` of `d`.
pub open spec fn le_u32_at(d: Seq<u8>, at: int) -> u32 {
    (d[at] + 256 * d[at + 1] + 65536 * d[at + 2] + 16777216 * d[at + 3]) as u32
}

/// The unsigned little-endian integer in bytes `at .. at + 2` of `d`.
pub open spec fn le_u16_at(d: Seq<u8>, at: int) -> u16 {
    (d[at] + 256 * d[at + 1]) as u16
}

/// The four bytes of `n`, least significant first.
pub open spec fn le_u32_bytes(n: u32) -> Seq<u8> {
    seq![(n % 256) as u8, (n / 256 % 256) as u8, (n / 65536 % 256) as u8, (n / 16777216) as u8]
}

/// The two bytes of `n`, least significant first.
pub open spec fn le_u16_bytes(n: u16) -> Seq<u8> {
    seq![(n % 256) as u8, (n / 256) as u8]
}

/// Reading back the bytes of `n` gives `n`.
pub proof fn lemma_le_u32_round_trip(n: u32)
    ensures
        le_u32_at(le_u32_bytes(n), 0) == n,
{
    let b = le_u32_bytes(n);
    assert(b[0] + 256 * b[1] + 65536 * b[2] + 16777216 * b[3] == n) by (nonlinear_arith)
        requires
            b[0] == n % 256,
            b[1] == n / 256 % 256,
            b[2] == n / 65536 % 256,
            b[3] == n / 16777216,
            n < 0x1_0000_0000,
    ;
}

/// Reads the `u32` stored little-endian at `data[at .. at + 4]`.
fn u32_le(data: &[u8], at: usize) -> (n: u32)
    requires
        at + 4 <= data@.len(),
    ensures
        n == le_u32_at(data@, at as int),
{
    let b0 = data[at];
    let b1 = data[at + 1];
    let b2 = data[at + 2];
    let b3 = data[at + 3];
    let n = (b0 as u32) | ((b1 as u32) << 8) | ((b2 as u32) << 16) | ((b3 as u32) << 24);
    assert(n == b0 + 256 * b1 + 65536 * b2 + 16777216 * b3) by (bit_vector)
        requires
            n == (b0 as u32) | ((b1 as u32) << 8) | ((b2 as u32) << 16) | ((b3 as u32) << 24),
    ;
    n
}

/// Reads the `u16` stored little-endian at `data[at .. at + 2]`.
fn u16_le(data: &[u8], at: usize) -> (n: u16)
    requires
        at + 2 <= data@.len(),
    ensures
        n == le_u16_at(data@, at as int),
{
    let b0 = data[at];
    let b1 = data[at + 1];
    let n = (b0 as u16) | ((b1 as u16) << 8);
    assert(n == b0 + 256 * b1) by (bit_vector)
        requires
            n == (b0 as u16) | ((b1 as u16) << 8),
    ;
    n
}

/// Appends the four bytes of `num`, least significant first.
fn write_u32_le(out: &mut Vec<u8>, num: u32)
    ensures
        final(out)@ == old(out)@ + le_u32_bytes(num),
{
    let b0 = num as u8;
    let b1 = (num >> 8) as u8;
    let b2 = (num >> 16) as u8;
    let b3 = (num >> 24) as u8;
    assert(b0 == num % 256 && b1 == num / 256 % 256 && b2 == num / 65536 % 256 && b3 == num
        / 16777216) by (bit_vector)
        requires
            b0 == num as u8,
            b1 == (num >> 8) as u8,
            b2 == (num >> 16) as u8,
            b3 == (num >> 24) as u8,
    ;
    out.push(b0);
    out.push(b1);
    out.push(b2);
    out.push(b3);
    assert(out@ =~= old(out)@ + le_u32_bytes(num));
}

/// Appends the four bytes of `num` in two's complement, least significant first.
fn write_i32_le(out: &mut Vec<u8>, num: i32)
    ensures
        final(out)@ == old(out)@ + le_u32_bytes(num as u32),
{
    write_u32_le(out, num as u32);
}

/// Appends the two bytes of `num`, least significant first.
fn write_u16_le(out: &mut Vec<u8>, num: u16)
    ensures
        final(out)@ == old(out)@ + le_u16_bytes(num),
{
    let b0 = num as u8;
    let b1 = (num >> 8) as u8;
    assert(b0 == num % 256 && b1 == num / 256) by (bit_vector)
        requires
            b0 == num as u8,
            b1 == (num >> 8) as u8,
    ;
    out.push(b0);
    out.push(b1);
    assert(out@ =~= old(out)@ + le_u16_bytes(num));
}

// ---------------------------------------------------------------------------
// Errors
// ---------------------------------------------------------------------------

/// The errors that reading a BMP file can run into.
#[derive(Debug)]
pub enum BMPError {
    /// The file does not follow the BMP format.
    InvalidFormat(String),
    /// The file is a valid BMP file, but uses a layout this library does not
    /// read (palettes, 24-bit pixels, other channel masks, ...).
    UnsupportedFormat(String),
}

/// The two kinds of [`BMPError`], without their messages.
#[derive(Clone, Copy, Debug, PartialEq, Eq, Structural)]
pub enum ErrorKind {
    InvalidFormat,
    UnsupportedFormat,
}

impl BMPError {
    pub open spec fn spec_kind(&self) -> ErrorKind {
        match self {
            BMPError::InvalidFormat(_) => ErrorKind::InvalidFormat,
            BMPError::UnsupportedFormat(_) => ErrorKind::UnsupportedFormat,
        }
    }

    /// Which kind of error this is.
    #[verifier::when_used_as_spec(spec_kind)]
    pub fn kind(&self) -> (k: ErrorKind)
        ensures
            k == self.spec_kind(),
    {
        match self {
            BMPError::InvalidFormat(_) => ErrorKind::InvalidFormat,
            BMPError::UnsupportedFormat(_) => ErrorKind::UnsupportedFormat,
        }
    }
}

pub type BMPResult<T> = Result<T, BMPError>;

/// A [`BMPError`] as a value: its kind and the text of its message.
pub struct Failure {
    pub kind: ErrorKind,
    pub message: Seq<char>,
}

/// The `InvalidFormat` failure with message `msg`.
pub open spec fn invalid(msg: &str) -> Failure {
    Failure { kind: ErrorKind::InvalidFormat, message: msg@ }
}

/// The `UnsupportedFormat` failure with message `msg`.
pub open spec fn unsupported(msg: &str) -> Failure {
    Failure { kind: ErrorKind::UnsupportedFormat, message: msg@ }
}

impl BMPError {
    pub open spec fn failure(&self) -> Failure {
        match self {
            BMPError::InvalidFormat(m) => Failure { kind: ErrorKind::InvalidFormat, message: m@ },
            BMPError::UnsupportedFormat(m) => Failure {
                kind: ErrorKind::UnsupportedFormat,
                message: m@,
            },
        }
    }
}

/// What a result comes to as a value, its error message included.
pub open spec fn outcome<T>(r: &BMPResult<T>) -> Result<T, Failure> {
    match r {
        Ok(v) => Ok(*v),
        Err(e) => Err(e.failure()),
    }
}

fn invalid_format<T>(msg: &str) -> (r: BMPResult<T>)
    ensures
        outcome(&r) == Err::<T, Failure>(invalid(msg)),
{
    Err(BMPError::InvalidFormat(msg.to_owned()))
}

fn unsupported_format<T>(msg: &str) -> (r: BMPResult<T>)
    ensures
        outcome(&r) == Err::<T, Failure>(unsupported(msg)),
{
    Err(BMPError::UnsupportedFormat(msg.to_owned()))
}

// ---------------------------------------------------------------------------
// Header data
// ---------------------------------------------------------------------------

/// The file header: the first 14 bytes of a BMP file.
#[derive(Clone, Copy, Debug, PartialEq, Eq, Structural)]
pub struct FileHeader {
    /// How big the file is, this header included.
    pub size: u32,
    /// The index at which the pixel data starts.
    pub offset: u32,
}

/// How the pixel data is compressed.
#[derive(Clone, Copy, Debug, PartialEq, Eq, Structural)]
pub enum CompressionType {
    /// No compression at all.
    Uncompressed,
    /// Run-length encoding of 4-bit pixels.
    RLE4,
    /// Run-length encoding of 8-bit pixels.
    RLE8,
    /// Pixels laid out by explicit channel masks; the mode for 16 and 32 bit pixels.
    Bitfields,
    /// Any code this library does not know.
    Unknown,
}

/// The compression type that a code in the image header stands for.
pub open spec fn compression_of(code: u32) -> CompressionType {
    if code == 0 {
        CompressionType::Uncompressed
    } else if code == 1 {
        CompressionType::RLE8
    } else if code == 2 {
        CompressionType::RLE4
    } else if code == 3 {
        CompressionType::Bitfields
    } else {
        CompressionType::Unknown
    }
}

/// The code written for a compression type.
pub open spec fn code_of(compression: CompressionType) -> u32 {
    match compression {
        CompressionType::Uncompressed => 0,
        CompressionType::RLE8 => 1,
        CompressionType::RLE4 => 2,
        CompressionType::Bitfields => 3,
        CompressionType::Unknown => 69,
    }
}

impl From<u32> for CompressionType {
    fn from(num: u32) -> (c: Self) {
        if num == 0 {
            CompressionType::Uncompressed
        } else if num == 1 {
            CompressionType::RLE8
        } else if num == 2 {
            CompressionType::RLE4
        } else if num == 3 {
            CompressionType::Bitfields
        } else {
            CompressionType::Unknown
        }
    }
}

impl vstd::std_specs::convert::FromSpecImpl<u32> for CompressionType {
    open spec fn obeys_from_spec() -> bool {
        true
    }

    open spec fn from_spec(num: u32) -> Self {
        compression_of(num)
    }
}

impl From<CompressionType> for u32 {
    fn from(compression: CompressionType) -> (code: Self) {
        match compression {
            CompressionType::Uncompressed => 0,
            CompressionType::RLE8 => 1,
            CompressionType::RLE4 => 2,
            CompressionType::Bitfields => 3,
            CompressionType::Unknown => 69,
        }
    }
}

impl vstd::std_specs::convert::FromSpecImpl<CompressionType> for u32 {
    open spec fn obeys_from_spec() -> bool {
        true
    }

    open spec fn from_spec(compression: CompressionType) -> Self {
        code_of(compression)
    }
}

/// The image header, which follows the file header.
#[derive(Clone, Copy, Debug, PartialEq, Eq, Structural)]
pub struct ImageHeader {
    /// How large this header says it is.
    pub size: u32,
    /// How many pixels are in a row.
    pub width: u32,
    /// How many rows there are; negative when the rows are stored from the top.
    pub height: i32,
    /// How many bits each pixel takes.
    pub bit_count: u16,
    /// How the pixel data is compressed.
    pub compression: CompressionType,
    /// How many bytes of pixel data there are.
    pub image_bytes: u32,
    /// Horizontal resolution.
    pub x_pixels_per_meter: u32,
    /// Vertical resolution.
    pub y_pixels_per_meter: u32,
    /// How many colors of the color table are used.
    pub color_used: u32,
    /// How many colors of the color table are important.
    pub color_important: u32,
}

/// Which bits of a 32-bit pixel carry each channel.
#[derive(Clone, Copy, Debug, PartialEq, Eq, Structural)]
pub struct ColorMasks {
    pub r: u32,
    pub g: u32,
    pub b: u32,
    pub a: u32,
}

/// The pixel layouts this library reads and writes.
#[derive(Clone, Copy, Debug, PartialEq, Eq, Structural)]
pub enum ColorFormat {
    /// Red in the highest byte, then green, blue, and alpha in the lowest.
    RGBA,
}

/// The channel masks that stand for a color format.
pub open spec fn masks_of(format: ColorFormat) -> ColorMasks {
    match format {
        ColorFormat::RGBA => ColorMasks { r: 0xFF00_0000, g: 0x00FF_0000, b: 0x0000_FF00, a: 0x0000_00FF },
    }
}

/// The color format whose masks are `masks`, if there is one.
pub open spec fn format_of(masks: ColorMasks) -> Option<ColorFormat> {
    if masks == masks_of(ColorFormat::RGBA) {
        Some(ColorFormat::RGBA)
    } else {
        None
    }
}

impl From<ColorFormat> for ColorMasks {
    fn from(format: ColorFormat) -> (masks: Self) {
        match format {
            ColorFormat::RGBA => ColorMasks {
                r: 0xFF00_0000,
                g: 0x00FF_0000,
                b: 0x0000_FF00,
                a: 0x0000_00FF,
            },
        }
    }
}

impl vstd::std_specs::convert::FromSpecImpl<ColorFormat> for ColorMasks {
    open spec fn obeys_from_spec() -> bool {
        true
    }

    open spec fn from_spec(format: ColorFormat) -> Self {
        masks_of(format)
    }
}

impl ColorFormat {
    /// The color format whose masks are `masks`; an unknown set of masks is
    /// an unsupported format.
    pub fn from_masks(masks: ColorMasks) -> (r: BMPResult<ColorFormat>)
        ensures
            outcome(&r) == match format_of(masks) {
                Some(f) => Ok(f),
                None => Err(unsupported("unknown color format")),
            },
    {
        let formats = [ColorFormat::RGBA];
        let mut i: usize = 0;
        while i < formats.len()
            invariant
                formats@ == seq![ColorFormat::RGBA],
                0 <= i <= 1,
                forall|j: int| 0 <= j < i ==> masks != masks_of(#[trigger] formats@[j]),
            decreases formats.len() - i,
        {
            let f = formats[i];
            if masks == ColorMasks::from(f) {
                return Ok(f);
            }
            i = i + 1;
        }
        unsupported_format("unknown color format")
    }
}

/// Everything the headers of a BMP file say, once checked.
#[derive(Clone, Copy, Debug, PartialEq, Eq, Structural)]
pub struct Header {
    pub file_header: FileHeader,
    pub image_header: ImageHeader,
    pub format: ColorFormat,
}

// ---------------------------------------------------------------------------
// Reading the headers
// ---------------------------------------------------------------------------

/// What reading the file header at the start of `d` gives: it needs 14
/// bytes, the signature `BM`, four zero reserved bytes, and a pixel data
/// offset within the declared file size.
pub open spec fn file_header_of(d: Seq<u8>) -> Result<FileHeader, Failure> {
    if d.len() < 14 {
        Err(invalid("insufficient file header length"))
    } else if d[0] != 66 || d[1] != 77 {
        Err(invalid("header didn't start with 'BM'"))
    } else if d[6] != 0 || d[7] != 0 || d[8] != 0 || d[9] != 0 {
        Err(invalid("reserved bytes not 0"))
    } else if le_u32_at(d, 10) > le_u32_at(d, 2) {
        Err(invalid("pixel data offset past the end of the file"))
    } else {
        Ok(file_header_at(d))
    }
}

/// The file header at the start of `d`.
pub open spec fn file_header_at(d: Seq<u8>) -> FileHeader {
    FileHeader { size: le_u32_at(d, 2), offset: le_u32_at(d, 10) }
}

/// What reading the image header at the start of `d` gives: it needs 40
/// bytes and one plane.
pub open spec fn image_header_of(d: Seq<u8>) -> Result<ImageHeader, Failure> {
    if d.len() < 40 {
        Err(invalid("insufficient image header length"))
    } else if d[12] != 1 || d[13] != 0 {
        Err(invalid("plane count not 1"))
    } else {
        Ok(image_header_at(d))
    }
}

/// The image header at the start of `d`.
pub open spec fn image_header_at(d: Seq<u8>) -> ImageHeader {
    ImageHeader {
        size: le_u32_at(d, 0),
        width: le_u32_at(d, 4),
        height: le_u32_at(d, 8) as i32,
        bit_count: le_u16_at(d, 14),
        compression: compression_of(le_u32_at(d, 16)),
        image_bytes: le_u32_at(d, 20),
        x_pixels_per_meter: le_u32_at(d, 24),
        y_pixels_per_meter: le_u32_at(d, 28),
        color_used: le_u32_at(d, 32),
        color_important: le_u32_at(d, 36),
    }
}

/// The color format that the masks at the start of `d` stand for.
pub open spec fn color_format_at(d: Seq<u8>) -> Result<ColorFormat, Failure> {
    if d.len() < 16 {
        Err(invalid("insufficient color mask length"))
    } else {
        let masks = ColorMasks {
            r: le_u32_at(d, 0),
            g: le_u32_at(d, 4),
            b: le_u32_at(d, 8),
            a: le_u32_at(d, 12),
        };
        match format_of(masks) {
            Some(f) => Ok(f),
            None => Err(unsupported("unknown color format")),
        }
    }
}

/// What reading the headers of the file `d` gives.
pub open spec fn header_of(d: Seq<u8>) -> Result<Header, Failure> {
    match file_header_of(d) {
        Err(f) => Err(f),
        Ok(file_header) => if d.len() < file_header.offset {
            Err(invalid("insufficient header length"))
        } else {
            match image_header_of(d.subrange(14, d.len() as int)) {
                Err(f) => Err(f),
                Ok(image_header) => if image_header.compression != CompressionType::Bitfields {
                    Err(unsupported("compression type not supported"))
                } else if image_header.bit_count != 32 {
                    Err(unsupported("unsupported pixel format"))
                } else {
                    match color_format_at(d.subrange(54, d.len() as int)) {
                        Ok(format) => Ok(Header { file_header, image_header, format }),
                        Err(f) => Err(f),
                    }
                },
            }
        },
    }
}

/// Reads the file header at the start of `data`.
fn parse_file_header(data: &[u8]) -> (r: BMPResult<FileHeader>)
    ensures
        outcome(&r) == file_header_of(data@),
{
    if data.len() < 14 {
        return invalid_format("insufficient file header length");
    }
    if data[0] != 66 || data[1] != 77 {
        return invalid_format("header didn't start with 'BM'");
    }
    let size = u32_le(data, 2);
    if data[6] != 0 || data[7] != 0 || data[8] != 0 || data[9] != 0 {
        return invalid_format("reserved bytes not 0");
    }
    let offset = u32_le(data, 10);
    if offset > size {
        return invalid_format("pixel data offset past the end of the file");
    }
    Ok(FileHeader { size, offset })
}

/// Reads the image header that starts at `data[at]`.
fn parse_image_header(data: &[u8], at: usize) -> (r: BMPResult<ImageHeader>)
    requires
        at <= data@.len(),
    ensures
        outcome(&r) == image_header_of(data@.subrange(at as int, data@.len() as int)),
{
    let ghost d = data@.subrange(at as int, data@.len() as int);
    if data.len() - at < 40 {
        return invalid_format("insufficient image header length");
    }
    let size = u32_le(data, at);
    let width = u32_le(data, at + 4);
    let height = u32_le(data, at + 8) as i32;
    if data[at + 12] != 1 || data[at + 13] != 0 {
        return invalid_format("plane count not 1");
    }
    let bit_count = u16_le(data, at + 14);
    let compression = CompressionType::from(u32_le(data, at + 16));
    let image_bytes = u32_le(data, at + 20);
    let x_pixels_per_meter = u32_le(data, at + 24);
    let y_pixels_per_meter = u32_le(data, at + 28);
    let color_used = u32_le(data, at + 32);
    let color_important = u32_le(data, at + 36);
    let header = ImageHeader {
        size,
        width,
        height,
        bit_count,
        compression,
        image_bytes,
        x_pixels_per_meter,
        y_pixels_per_meter,
        color_used,
        color_important,
    };
    assert(header == image_header_at(d));
    Ok(header)
}

/// Reads the channel masks that start at `data[at]` and finds their color format.
fn parse_color_format(data: &[u8], at: usize) -> (r: BMPResult<ColorFormat>)
    requires
        at <= data@.len(),
    ensures
        outcome(&r) == color_format_at(data@.subrange(at as int, data@.len() as int)),
{
    if data.len() - at < 16 {
        return invalid_format("insufficient color mask length");
    }
    let r = u32_le(data, at);
    let g = u32_le(data, at + 4);
    let b = u32_le(data, at + 8);
    let a = u32_le(data, at + 12);
    ColorFormat::from_masks(ColorMasks { r, g, b, a })
}

/// Reads and checks the headers of the BMP file `data`: the file header, the
/// image header and the channel masks.
///
/// Fails with `InvalidFormat` where the bytes break the BMP format, and with
/// `UnsupportedFormat` where they describe anything but 32-bit pixels with
/// `Bitfields` compression and the RGBA channel masks.
pub fn parse_header(data: &[u8]) -> (r: BMPResult<Header>)
    ensures
        outcome(&r) == header_of(data@),
{
    let file_header = match parse_file_header(data) {
        Ok(h) => h,
        Err(e) => return Err(e),
    };
    if data.len() < file_header.offset as usize {
        return invalid_format("insufficient header length");
    }
    let image_header = match parse_image_header(data, 14) {
        Ok(h) => h,
        Err(e) => return Err(e),
    };
    if image_header.compression != CompressionType::Bitfields {
        return unsupported_format("compression type not supported");
    }
    if image_header.bit_count != 32 {
        return unsupported_format("unsupported pixel format");
    }
    let format = match parse_color_format(data, 54) {
        Ok(f) => f,
        Err(e) => return Err(e),
    };
    Ok(Header { file_header, image_header, format })
}

// ---------------------------------------------------------------------------
// Reading the pixels
// ---------------------------------------------------------------------------

/// How many rows a header's height stands for, whatever its sign.
pub open spec fn rows_of(height: i32) -> u32 {
    if height < 0 {
        (-height) as u32
    } else {
        height as u32
    }
}

/// The pixels read from the file `d` with headers `h`: pixel `k` is the
/// `k`-th group of four bytes (r, g, b, a) from the pixel data offset, as long
/// as that group lies within the declared `image_bytes`; the rest are blank.
///
/// The rows are taken in the order they are stored, whatever the sign of the
/// height.
pub open spec fn decoded_pixels(d: Seq<u8>, h: Header) -> Seq<RGBA> {
    let pixel_data = d.subrange(h.file_header.offset as int, d.len() as int);
    Seq::new(
        (h.image_header.width * rows_of(h.image_header.height)) as nat,
        |k: int|
            if 4 * k + 4 <= h.image_header.image_bytes {
                pixel_in(pixel_data, k)
            } else {
                blank()
            },
    )
}

/// What reading the BMP file `d` gives.
pub open spec fn image_of(d: Seq<u8>) -> Result<ImageView, Failure> {
    match header_of(d) {
        Err(f) => Err(f),
        Ok(h) => {
            let width = h.image_header.width;
            let height = rows_of(h.image_header.height);
            if d.len() < h.file_header.size {
                Err(invalid("insufficient image data"))
            } else if h.file_header.offset + h.image_header.image_bytes > d.len() {
                Err(invalid("pixel data runs past the end of the file"))
            } else if 4 * (width * height) > usize::MAX {
                Err(unsupported("image too large to hold in memory"))
            } else {
                Ok(ImageView { width, height, pixels: decoded_pixels(d, h) })
            }
        },
    }
}

/// What a result of reading an image comes to as a value, its error message
/// included.
pub open spec fn image_outcome(r: &BMPResult<Image>) -> Result<ImageView, Failure> {
    match r {
        Ok(image) => Ok(image@),
        Err(e) => Err(e.failure()),
    }
}

fn abs_height(height: i32) -> (n: u32)
    ensures
        n == rows_of(height),
{
    if height < 0 {
        (-(height as i64)) as u32
    } else {
        height as u32
    }
}

/// Reads the BMP file `data` into an image.
///
/// Beyond the checks of [`parse_header`], the file must be as long as its
/// declared size, and the declared pixel data must fit in it
/// (`InvalidFormat`); an image whose pixels cannot be held in memory is
/// `UnsupportedFormat`.
pub fn parse_image(data: &[u8]) -> (r: BMPResult<Image>)
    ensures
        image_outcome(&r) == image_of(data@),
        r matches Ok(image) ==> image.wf(),
{
    let header = match parse_header(data) {
        Ok(h) => h,
        Err(e) => return Err(e),
    };
    if data.len() < header.file_header.size as usize {
        return invalid_format("insufficient image data");
    }
    let offset = header.file_header.offset as usize;
    let image_bytes = header.image_header.image_bytes as usize;
    if image_bytes > data.len() - offset {
        return invalid_format("pixel data runs past the end of the file");
    }
    let width = header.image_header.width;
    let height = abs_height(header.image_header.height);
    assert(width * height <= u64::MAX) by (nonlinear_arith)
        requires
            width <= u32::MAX,
            height <= u32::MAX,
    ;
    let pixel_count = width as u64 * height as u64;
    if pixel_count > (usize::MAX / 4) as u64 {
        return unsupported_format("image too large to hold in memory");
    }
    let pixel_count = pixel_count as usize;
    let ghost pixel_data = data@.subrange(offset as int, data@.len() as int);
    let mut image = Image::new(width, height);
    let mut k: usize = 0;
    let mut x: u32 = 0;
    let mut y: u32 = 0;
    while k < pixel_count && 4 * k + 4 <= image_bytes
        invariant
            pixel_count == width * height,
            4 * pixel_count <= usize::MAX,
            offset + image_bytes <= data@.len() <= usize::MAX,
            pixel_data == data@.subrange(offset as int, data@.len() as int),
            k <= pixel_count,
            4 * k <= image_bytes,
            k == y * width + x,
            width > 0 ==> x < width,
            image.wf(),
            image.width() == width,
            image.height() == height,
            image.pixels() == Seq::new(
                pixel_count as nat,
                |j: int|
                    if j < k {
                        pixel_in(pixel_data, j)
                    } else {
                        blank()
                    },
            ),
        decreases pixel_count - k,
    {
        assert(y < height) by (nonlinear_arith)
            requires
                k == y * width + x,
                k < width * height,
        ;
        let i = offset + 4 * k;
        let color = RGBA::new(data[i], data[i + 1], data[i + 2], data[i + 3]);
        image.write(x, y, color);
        assert(image.pixels() =~= Seq::new(
            pixel_count as nat,
            |j: int|
                if j < k + 1 {
                    pixel_in(pixel_data, j)
                } else {
                    blank()
                },
        ));
        x = x + 1;
        if x >= width {
            assert(k + 1 == (y + 1) * width) by (nonlinear_arith)
                requires
                    k == y * width + x - 1,
                    x == width,
            ;
            x = 0;
            y = y + 1;
        }
        k = k + 1;
    }
    proof {
        image.lemma_pixel_count();
        let h = header;
        assert(image.pixels() =~= decoded_pixels(data@, h));
    }
    Ok(image)
}

// ---------------------------------------------------------------------------
// Writing
// ---------------------------------------------------------------------------

/// Where the writer puts the pixel data: after the file header, a 108-byte
/// image header and nothing else.
pub const PIXEL_DATA_OFFSET: u32 = 122;

/// The resolution the writer records, in pixels per meter (72 dots per inch).
pub const PIXELS_PER_METER: u32 = 2835;

/// The color space the writer records: `"Win "`, the system default.
pub const COLOR_SPACE: u32 = 0x5769_6E20;

/// The file header written before an image of `width * height` pixels.
pub open spec fn written_file_header(width: u32, height: u32) -> FileHeader {
    FileHeader { size: (PIXEL_DATA_OFFSET + 4 * (width * height)) as u32, offset: PIXEL_DATA_OFFSET }
}

/// The image header written for an image of `width * height` pixels: its
/// rows are stored from the top, hence the negative height.
pub open spec fn written_image_header(width: u32, height: u32) -> ImageHeader {
    ImageHeader {
        size: 108,
        width,
        height: (-height) as i32,
        bit_count: 32,
        compression: CompressionType::Bitfields,
        image_bytes: (4 * (width * height)) as u32,
        x_pixels_per_meter: PIXELS_PER_METER,
        y_pixels_per_meter: PIXELS_PER_METER,
        color_used: 0,
        color_important: 0,
    }
}

/// The 14 bytes of a file header.
pub open spec fn file_header_bytes(h: FileHeader) -> Seq<u8> {
    seq![66u8, 77u8] + le_u32_bytes(h.size) + seq![0u8, 0u8, 0u8, 0u8] + le_u32_bytes(h.offset)
}

/// The 40 bytes of an image header.
pub open spec fn image_header_bytes(h: ImageHeader) -> Seq<u8> {
    le_u32_bytes(h.size) + le_u32_bytes(h.width) + le_u32_bytes(h.height as u32) + seq![1u8, 0u8]
        + le_u16_bytes(h.bit_count) + le_u32_bytes(code_of(h.compression)) + le_u32_bytes(
        h.image_bytes,
    ) + le_u32_bytes(h.x_pixels_per_meter) + le_u32_bytes(h.y_pixels_per_meter) + le_u32_bytes(
        h.color_used,
    ) + le_u32_bytes(h.color_important)
}

/// The 68 bytes that follow the image header: the channel masks of `format`,
/// the color space and 48 reserved zero bytes.
pub open spec fn format_bytes(format: ColorFormat) -> Seq<u8> {
    let m = masks_of(format);
    le_u32_bytes(m.r) + le_u32_bytes(m.g) + le_u32_bytes(m.b) + le_u32_bytes(m.a) + le_u32_bytes(
        COLOR_SPACE,
    ) + Seq::new(48, |i: int| 0u8)
}

/// Byte `c` (0 to 3) of a pixel as the writer stores it: alpha, blue, green, red.
pub open spec fn abgr_byte(p: RGBA, c: int) -> u8 {
    if c == 0 {
        p.a
    } else if c == 1 {
        p.b
    } else if c == 2 {
        p.g
    } else {
        p.r
    }
}

/// The pixel data written for `pixels`: four bytes per pixel, alpha, blue,
/// green and red.
pub open spec fn pixel_bytes(pixels: Seq<RGBA>) -> Seq<u8> {
    Seq::new(4 * pixels.len(), |i: int| abgr_byte(pixels[i / 4], i % 4))
}

/// The BMP file written for `image`.
pub open spec fn encoded(image: ImageView) -> Seq<u8> {
    file_header_bytes(written_file_header(image.width, image.height)) + image_header_bytes(
        written_image_header(image.width, image.height),
    ) + format_bytes(ColorFormat::RGBA) + pixel_bytes(image.pixels)
}

proof fn lemma_pixel_bytes_push(pixels: Seq<RGBA>, p: RGBA)
    ensures
        pixel_bytes(pixels.push(p)) == pixel_bytes(pixels) + seq![p.a, p.b, p.g, p.r],
{
    let lhs = pixel_bytes(pixels.push(p));
    let rhs = pixel_bytes(pixels) + seq![p.a, p.b, p.g, p.r];
    let n = pixels.len() as int;
    assert forall|i: int| 0 <= i < lhs.len() implies lhs[i] == rhs[i] by {
        if i < 4 * n {
            assert(i / 4 < n) by (nonlinear_arith)
                requires
                    0 <= i < 4 * n,
            ;
        } else {
            assert(i / 4 == n && i % 4 == i - 4 * n) by (nonlinear_arith)
                requires
                    4 * n <= i < 4 * n + 4,
            ;
        }
    }
    assert(lhs =~= rhs);
}

fn write_file_header(out: &mut Vec<u8>, header: &FileHeader)
    ensures
        final(out)@ == old(out)@ + file_header_bytes(*header),
{
    out.push(66);
    out.push(77);
    write_u32_le(out, header.size);
    out.push(0);
    out.push(0);
    out.push(0);
    out.push(0);
    write_u32_le(out, header.offset);
    assert(out@ =~= old(out)@ + file_header_bytes(*header));
}

fn write_image_header(out: &mut Vec<u8>, header: &ImageHeader)
    ensures
        final(out)@ == old(out)@ + image_header_bytes(*header),
{
    write_u32_le(out, header.size);
    write_u32_le(out, header.width);
    write_i32_le(out, header.height);
    out.push(1);
    out.push(0);
    write_u16_le(out, header.bit_count);
    write_u32_le(out, u32::from(header.compression));
    write_u32_le(out, header.image_bytes);
    write_u32_le(out, header.x_pixels_per_meter);
    write_u32_le(out, header.y_pixels_per_meter);
    write_u32_le(out, header.color_used);
    write_u32_le(out, header.color_important);
    assert(out@ =~= old(out)@ + image_header_bytes(*header));
}

fn write_format(out: &mut Vec<u8>, format: ColorFormat)
    ensures
        final(out)@ == old(out)@ + format_bytes(format),
{
    let mask = ColorMasks::from(format);
    write_u32_le(out, mask.r);
    write_u32_le(out, mask.g);
    write_u32_le(out, mask.b);
    write_u32_le(out, mask.a);
    write_u32_le(out, COLOR_SPACE);
    let ghost before = out@;
    let mut i: usize = 0;
    while i < 48
        invariant
            i <= 48,
            out@ == before + Seq::new(i as nat, |j: int| 0u8),
        decreases 48 - i,
    {
        out.push(0);
        i = i + 1;
        assert(out@ =~= before + Seq::new(i as nat, |j: int| 0u8));
    }
    assert(out@ =~= old(out)@ + format_bytes(format));
}

/// Appends the BMP file for `image` to `out`: 32-bit pixels with the RGBA
/// channel masks, rows stored from the top, each pixel written as alpha,
/// blue, green, red.
///
/// The file size must fit in the header's 32-bit field and the height in
/// its signed one.
pub fn write_image(out: &mut Vec<u8>, image: &Image)
    requires
        image.wf(),
        PIXEL_DATA_OFFSET + 4 * (image.width() * image.height()) <= u32::MAX,
        image.height() <= i32::MAX,
    ensures
        final(out)@ == old(out)@ + encoded(image@),
{
    let width = image.width();
    let height = image.height();
    let pixel_count = width * height;
    let file_header = FileHeader { size: PIXEL_DATA_OFFSET + 4 * pixel_count, offset: PIXEL_DATA_OFFSET };
    let image_header = ImageHeader {
        size: 108,
        width,
        height: -(height as i32),
        bit_count: 32,
        compression: CompressionType::Bitfields,
        image_bytes: 4 * pixel_count,
        x_pixels_per_meter: PIXELS_PER_METER,
        y_pixels_per_meter: PIXELS_PER_METER,
        color_used: 0,
        color_important: 0,
    };
    assert(image_header == written_image_header(width, height));
    write_file_header(out, &file_header);
    write_image_header(out, &image_header);
    write_format(out, ColorFormat::RGBA);
    let ghost start = out@;
    let ghost pixels = image.pixels();
    let ghost mut done: int = 0;
    let mut it = image.iter();
    loop
        invariant
            it.wf(),
            0 <= done <= pixels.len(),
            it.pixels_left() == pixels.subrange(done, pixels.len() as int),
            out@ == start + pixel_bytes(pixels.subrange(0, done)),
        ensures
            out@ == start + pixel_bytes(pixels),
        decreases it.pixels_left().len(),
    {
        match it.next() {
            Some(p) => {
                proof {
                    assert(pixels.subrange(0, done + 1) =~= pixels.subrange(0, done).push(p));
                    lemma_pixel_bytes_push(pixels.subrange(0, done), p);
                    done = done + 1;
                }
                out.push(p.a);
                out.push(p.b);
                out.push(p.g);
                out.push(p.r);
                assert(out@ =~= start + pixel_bytes(pixels.subrange(0, done)));
                assert(it.pixels_left() =~= pixels.subrange(done, pixels.len() as int));
            },
            None => {
                assert(pixels.subrange(0, done) =~= pixels);
                break ;
            },
        }
    }
}

// ---------------------------------------------------------------------------
// Reading back what was written
// ---------------------------------------------------------------------------

proof fn lemma_le_u16_round_trip(n: u16)
    ensures
        le_u16_at(le_u16_bytes(n), 0) == n,
{
    let b = le_u16_bytes(n);
    assert(b[0] + 256 * b[1] == n) by (nonlinear_arith)
        requires
            b[0] == n % 256,
            b[1] == n / 256,
            n < 0x1_0000,
    ;
}

/// A file header whose offset lies within its size reads back as written.
pub proof fn lemma_file_header_round_trip(h: FileHeader)
    requires
        h.offset <= h.size,
    ensures
        file_header_bytes(h).len() == 14,
        file_header_of(file_header_bytes(h)) == Ok::<FileHeader, Failure>(h),
{
    let b = file_header_bytes(h);
    lemma_le_u32_round_trip(h.size);
    lemma_le_u32_round_trip(h.offset);
    assert(b.subrange(2, 6) =~= le_u32_bytes(h.size));
    assert(b.subrange(10, 14) =~= le_u32_bytes(h.offset));
}

/// An image header reads back as written.
pub proof fn lemma_image_header_round_trip(h: ImageHeader)
    ensures
        image_header_bytes(h).len() == 40,
        image_header_of(image_header_bytes(h)) == Ok::<ImageHeader, Failure>(h),
{
    let b = image_header_bytes(h);
    let height = h.height;
    assert((height as u32) as i32 == height) by (bit_vector);
    assert(le_u32_at(b, 0) == h.size) by {
        lemma_le_u32_round_trip(h.size);
        assert(b.subrange(0, 4) =~= le_u32_bytes(h.size));
    }
    assert(le_u32_at(b, 4) == h.width) by {
        lemma_le_u32_round_trip(h.width);
        assert(b.subrange(4, 8) =~= le_u32_bytes(h.width));
    }
    assert(le_u32_at(b, 8) == h.height as u32) by {
        lemma_le_u32_round_trip(h.height as u32);
        assert(b.subrange(8, 12) =~= le_u32_bytes(h.height as u32));
    }
    assert(le_u16_at(b, 14) == h.bit_count) by {
        lemma_le_u16_round_trip(h.bit_count);
        assert(b.subrange(14, 16) =~= le_u16_bytes(h.bit_count));
    }
    assert(le_u32_at(b, 16) == code_of(h.compression)) by {
        lemma_le_u32_round_trip(code_of(h.compression));
        assert(b.subrange(16, 20) =~= le_u32_bytes(code_of(h.compression)));
    }
    assert(le_u32_at(b, 20) == h.image_bytes) by {
        lemma_le_u32_round_trip(h.image_bytes);
        assert(b.subrange(20, 24) =~= le_u32_bytes(h.image_bytes));
    }
    assert(le_u32_at(b, 24) == h.x_pixels_per_meter) by {
        lemma_le_u32_round_trip(h.x_pixels_per_meter);
        assert(b.subrange(24, 28) =~= le_u32_bytes(h.x_pixels_per_meter));
    }
    assert(le_u32_at(b, 28) == h.y_pixels_per_meter) by {
        lemma_le_u32_round_trip(h.y_pixels_per_meter);
        assert(b.subrange(28, 32) =~= le_u32_bytes(h.y_pixels_per_meter));
    }
    assert(le_u32_at(b, 32) == h.color_used) by {
        lemma_le_u32_round_trip(h.color_used);
        assert(b.subrange(32, 36) =~= le_u32_bytes(h.color_used));
    }
    assert(le_u32_at(b, 36) == h.color_important) by {
        lemma_le_u32_round_trip(h.color_important);
        assert(b.subrange(36, 40) =~= le_u32_bytes(h.color_important));
    }
}

/// The channel masks written for a format read back as that format.
pub proof fn lemma_format_round_trip(format: ColorFormat)
    ensures
        format_bytes(format).len() == 68,
        color_format_at(format_bytes(format)) == Ok::<ColorFormat, Failure>(format),
{
    let b = format_bytes(format);
    let m = masks_of(format);
    lemma_le_u32_round_trip(m.r);
    lemma_le_u32_round_trip(m.g);
    lemma_le_u32_round_trip(m.b);
    lemma_le_u32_round_trip(m.a);
    assert(b.subrange(0, 4) =~= le_u32_bytes(m.r));
    assert(b.subrange(4, 8) =~= le_u32_bytes(m.g));
    assert(b.subrange(8, 12) =~= le_u32_bytes(m.b));
    assert(b.subrange(12, 16) =~= le_u32_bytes(m.a));
}

/// A pixel with its channels in reverse order: what the reader makes of the
/// four bytes the writer stores for `p`.
pub open spec fn reversed(p: RGBA) -> RGBA {
    RGBA { r: p.a, g: p.b, b: p.g, a: p.r }
}

/// Reading what [`write_image`] wrote gives an image of the same size whose
/// pixels are the original ones with their channels in reverse order: the
/// writer stores alpha, blue, green, red, where the reader takes red, green,
/// blue, alpha.
pub proof fn lemma_read_written(image: &Image)
    requires
        image.wf(),
        PIXEL_DATA_OFFSET + 4 * (image.width() * image.height()) <= u32::MAX,
        image.height() <= i32::MAX,
    ensures
        image_of(encoded(image@)) == Ok::<ImageView, Failure>(
            ImageView {
                width: image.width(),
                height: image.height(),
                pixels: image.pixels().map_values(|p: RGBA| reversed(p)),
            },
        ),
{
    image.lemma_pixel_count();
    let w = image.width();
    let h = image.height();
    let fh = written_file_header(w, h);
    let ih = written_image_header(w, h);
    let a = file_header_bytes(fh);
    let b = image_header_bytes(ih);
    let c = format_bytes(ColorFormat::RGBA);
    let p = pixel_bytes(image.pixels());
    let e = encoded(image@);
    lemma_file_header_round_trip(fh);
    lemma_image_header_round_trip(ih);
    lemma_format_round_trip(ColorFormat::RGBA);
    assert(e == a + b + c + p);
    assert(e.len() == 122 + 4 * (w * h));
    assert forall|i: int| 0 <= i < 14 implies e[i] == a[i] by {}
    let rest = e.subrange(14, e.len() as int);
    assert forall|i: int| 0 <= i < 40 implies rest[i] == b[i] by {}
    let masks = e.subrange(54, e.len() as int);
    assert forall|i: int| 0 <= i < 16 implies masks[i] == c[i] by {}
    assert(file_header_at(e) == fh);
    assert(image_header_at(rest) == ih);
    assert(color_format_at(masks) == Ok::<ColorFormat, Failure>(ColorFormat::RGBA));
    assert(rows_of(ih.height) == h);
    let header = Header { file_header: fh, image_header: ih, format: ColorFormat::RGBA };
    assert(header_of(e) == Ok::<Header, Failure>(header));
    let pixel_data = e.subrange(122, e.len() as int);
    assert(pixel_data =~= p);
    let decoded = decoded_pixels(e, header);
    let expected = image.pixels().map_values(|q: RGBA| reversed(q));
    assert forall|k: int| 0 <= k < decoded.len() implies decoded[k] == expected[k] by {
        assert(4 * k + 4 <= 4 * (w * h));
        assert((4 * k) / 4 == k && (4 * k + 1) / 4 == k && (4 * k + 2) / 4 == k && (4 * k + 3) / 4
            == k);
        assert((4 * k) % 4 == 0 && (4 * k + 1) % 4 == 1 && (4 * k + 2) % 4 == 2 && (4 * k + 3) % 4
            == 3);
    }
    assert(decoded =~= expected);
}

/// Writing an image and reading it back gives the same image, for images
/// whose pixels read the same with their channels reversed (red equal to
/// alpha, green equal to blue): the only ones on which the writer's channel
/// order and the reader's agree.
pub proof fn lemma_round_trip(image: &Image)
    requires
        image.wf(),
        PIXEL_DATA_OFFSET + 4 * (image.width() * image.height()) <= u32::MAX,
        image.height() <= i32::MAX,
        forall|i: int|
            0 <= i < image.pixels().len() ==> reversed(#[trigger] image.pixels()[i])
                == image.pixels()[i],
    ensures
        image_of(encoded(image@)) == Ok::<ImageView, Failure>(image@),
{
    lemma_read_written(image);
    assert(image.pixels().map_values(|p: RGBA| reversed(p)) =~= image.pixels());
}

// ---------------------------------------------------------------------------
// Properties of reading
// ---------------------------------------------------------------------------

/// Reading is deterministic: two reads of the same bytes give the same
/// headers and the same image, or fail with the same error, message included.
pub proof fn lemma_read_deterministic(
    d: Seq<u8>,
    h1: &BMPResult<Header>,
    h2: &BMPResult<Header>,
    i1: &BMPResult<Image>,
    i2: &BMPResult<Image>,
)
    requires
        outcome(h1) == header_of(d),
        outcome(h2) == header_of(d),
        image_outcome(i1) == image_of(d),
        image_outcome(i2) == image_of(d),
    ensures
        outcome(h1) == outcome(h2),
        image_outcome(i1) == image_outcome(i2),
{
}

/// A file whose headers declare no columns or no rows reads as an image
/// without pixels, whatever pixel data it declares, as long as its headers
/// are accepted and its declared lengths fit in it.
pub proof fn lemma_empty_image(d: Seq<u8>)
    requires
        header_of(d) is Ok,
        header_of(d)->Ok_0.image_header.width == 0 || header_of(d)->Ok_0.image_header.height == 0,
        d.len() >= header_of(d)->Ok_0.file_header.size,
        header_of(d)->Ok_0.file_header.offset + header_of(d)->Ok_0.image_header.image_bytes
            <= d.len(),
    ensures
        image_of(d) is Ok,
        image_of(d)->Ok_0.pixels.len() == 0,
{
    let h = header_of(d)->Ok_0;
    let w = h.image_header.width;
    let n = rows_of(h.image_header.height);
    assert(w * n == 0) by (nonlinear_arith)
        requires
            w == 0 || n == 0,
    ;
}

/// Where the headers are turned down, reading the image fails with the
/// very same error.
pub proof fn lemma_header_failure_passes_on(d: Seq<u8>)
    requires
        header_of(d) is Err,
    ensures
        image_of(d) == Err::<ImageView, Failure>(header_of(d)->Err_0),
{
}

/// The inputs that reading turns down at once: fewer than 14 bytes or a
/// signature other than `BM` (invalid), and well-formed headers that declare
/// other than 32 bits per pixel or other than `Bitfields` compression
/// (unsupported).
pub proof fn lemma_rejections(d: Seq<u8>)
    ensures
        d.len() < 14 ==> image_of(d) is Err && image_of(d)->Err_0.kind == ErrorKind::InvalidFormat,
        d.len() >= 14 && (d[0] != 66 || d[1] != 77) ==> image_of(d) is Err && image_of(d)->Err_0.kind
            == ErrorKind::InvalidFormat,
        ({
            &&& file_header_of(d) is Ok
            &&& d.len() >= file_header_at(d).offset
            &&& image_header_of(d.subrange(14, d.len() as int)) is Ok
            &&& (le_u16_at(d, 28) != 32 || le_u32_at(d, 30) != 3)
        }) ==> image_of(d) is Err && image_of(d)->Err_0.kind == ErrorKind::UnsupportedFormat,
{
    if file_header_of(d) is Ok && d.len() >= 54 {
        let rest = d.subrange(14, d.len() as int);
        assert(le_u16_at(rest, 14) == le_u16_at(d, 28));
        assert(le_u32_at(rest, 16) == le_u32_at(d, 30));
    }
}

} // verus!
