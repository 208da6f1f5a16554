//! Pixmaps from and to PNG images.
use vstd::prelude::*;

use crate::color::law_opaque_is_unchanged;
use crate::color::law_premultiplied_is_valid;
use crate::color::law_premultiply_undoes_demultiply;
use crate::color::premultiply_u8;
use crate::color::ColorU8;
use crate::color::PremultipliedColorU8;
use crate::color::ALPHA_U8_OPAQUE;
use crate::geom::IntSize;
use crate::pixmap::data_len_for_size;
use crate::pixmap::min_row_bytes;
use crate::pixmap::AlignedMemory;
use crate::pixmap::PixelType;
use crate::pixmap::Pixmap;
use crate::pixmap::PixmapRef;
use crate::raster::law_demultiplied_colors;
use crate::raster::law_packed_keeps_colors;
use crate::raster::layout_ok;
use crate::raster::lemma_offset;
use crate::raster::lemma_packed;
use crate::raster::Raster;

verus! {

/// What the samples of a pixel stand for.
#[derive(Clone, Copy, Debug, PartialEq, Eq, Structural)]
pub enum ColorType {
    /// 1 grayscale sample.
    Grayscale,
    /// 1 red sample, 1 green sample, 1 blue sample.
    Rgb,
    /// 1 sample for the palette index.
    Indexed,
    /// 1 grayscale sample, then 1 alpha sample.
    GrayscaleAlpha,
    /// 1 red sample, 1 green sample, 1 blue sample, and finally, 1 alpha sample.
    Rgba,
}

impl ColorType {
    /// The number of samples in a pixel.
    pub open spec fn spec_samples(self) -> int {
        match self {
            ColorType::Grayscale => 1,
            ColorType::Rgb => 3,
            ColorType::Indexed => 1,
            ColorType::GrayscaleAlpha => 2,
            ColorType::Rgba => 4,
        }
    }

    /// The number that stands for the type in a PNG header.
    pub open spec fn code(self) -> u8 {
        match self {
            ColorType::Grayscale => 0,
            ColorType::Rgb => 2,
            ColorType::Indexed => 3,
            ColorType::GrayscaleAlpha => 4,
            ColorType::Rgba => 6,
        }
    }

    /// Returns the number of samples in a pixel.
    pub fn samples(&self) -> (n: usize)
        ensures
            n == self.spec_samples(),
    {
        match self {
            ColorType::Grayscale => 1,
            ColorType::Rgb => 3,
            ColorType::Indexed => 1,
            ColorType::GrayscaleAlpha => 2,
            ColorType::Rgba => 4,
        }
    }
}

/// A decoded image: its measures, and its samples row by row.
pub struct Frame {
    pub data: Seq<u8>,
    pub width: u32,
    pub height: u32,
    pub color_type: ColorType,
    pub bit_depth: u8,
}

/// A decoded image: its measures, and its samples row by row.
#[derive(Debug)]
pub struct DecodedFrame {
    pub data: Vec<u8>,
    pub width: u32,
    pub height: u32,
    pub color_type: ColorType,
    /// The number of bits in a sample.
    pub bit_depth: u8,
}

impl View for DecodedFrame {
    type V = Frame;

    open spec fn view(&self) -> Frame {
        Frame {
            data: self.data@,
            width: self.width,
            height: self.height,
            color_type: self.color_type,
            bit_depth: self.bit_depth,
        }
    }
}

/// Why a decoded image is no pixmap.
#[derive(Clone, Copy, Debug, PartialEq, Eq, Structural)]
pub enum DecodeFault {
    /// A sample is not of a supported number of bits.
    UnsupportedBitDepth,
    /// A side is zero.
    InvalidImageSize,
    /// A row or the whole is over its limit.
    ImageTooBig,
    /// The samples are indices into a palette.
    IndexedNotSupported,
    /// The samples are not those of the size.
    PixmapNotCreated,
}

impl DecodeFault {
    /// The text that tells the fault.
    pub open spec fn text(self) -> Seq<char> {
        match self {
            DecodeFault::UnsupportedBitDepth => "unsupported bit depth"@,
            DecodeFault::InvalidImageSize => "invalid image size"@,
            DecodeFault::ImageTooBig => "image is too big"@,
            DecodeFault::IndexedNotSupported => "indexed PNG is not supported"@,
            DecodeFault::PixmapNotCreated => "failed to create a pixmap"@,
        }
    }

    /// Returns a text that tells the fault.
    pub fn message(&self) -> (r: &'static str)
        ensures
            r@ == self.text(),
    {
        match self {
            DecodeFault::UnsupportedBitDepth => "unsupported bit depth",
            DecodeFault::InvalidImageSize => "invalid image size",
            DecodeFault::ImageTooBig => "image is too big",
            DecodeFault::IndexedNotSupported => "indexed PNG is not supported",
            DecodeFault::PixmapNotCreated => "failed to create a pixmap",
        }
    }
}

/// Declares the error of the PNG decoder.
#[verifier::external_type_specification]
#[verifier::external_body]
pub struct ExDecodingError(png::DecodingError);

/// Declares the error of the PNG encoder.
#[verifier::external_type_specification]
#[verifier::external_body]
pub struct ExEncodingError(png::EncodingError);

/// Why bytes could not be made into a pixmap.
#[derive(Debug)]
pub enum DecodeError {
    /// They are no PNG image that can be decoded.
    Decoding(png::DecodingError),
    /// They are an image that is no pixmap.
    Rejected(DecodeFault),
}

/// Why a pixmap could not be made into a PNG image.
#[derive(Debug)]
pub enum EncodeError {
    /// The image could not be encoded.
    Encoding(png::EncodingError),
}

/// What the PNG decoder makes of `data`, with every sample brought to 8 bits and every
/// palette resolved, unless it refuses it.
pub uninterp spec fn png_color8_frame(data: Seq<u8>) -> Option<Frame>;

/// The bytes that the PNG encoder makes of an image.
pub uninterp spec fn png_encoding(
    data: Seq<u8>,
    width: u32,
    height: u32,
    color_type: ColorType,
    bit_depth: u8,
) -> Seq<u8>;

/// The most bytes that the PNG decoder sets aside for a row.
pub const MAX_DECODED_ROW: u32 = 0x400_0000;

/// What PNG data starts with: the signature, then the length and the name of the header.
pub open spec fn png_start() -> Seq<u8> {
    seq![
        0x89u8,
        0x50,
        0x4E,
        0x47,
        0x0D,
        0x0A,
        0x1A,
        0x0A,
        0,
        0,
        0,
        13,
        0x49,
        0x48,
        0x44,
        0x52,
    ]
}

/// Whether there is a whole PNG header in `data`.
pub open spec fn has_header(data: Seq<u8>) -> bool {
    data.len() >= 33 && data.take(16) == png_start()
}

/// The number that four bytes of `data` are, the highest one first.
pub open spec fn big_endian(data: Seq<u8>, at: int) -> u32 {
    (0x100_0000 * data[at] + 0x1_0000 * data[at + 1] + 0x100 * data[at + 2] + data[at + 3]) as u32
}

/// The width that a PNG header gives.
pub open spec fn header_width(data: Seq<u8>) -> u32 {
    big_endian(data, 16)
}

/// The height that a PNG header gives.
pub open spec fn header_height(data: Seq<u8>) -> u32 {
    big_endian(data, 20)
}

/// The number of bits in a sample that a PNG header gives.
pub open spec fn header_depth(data: Seq<u8>) -> u8 {
    data[24]
}

/// The number for the color type that a PNG header gives.
pub open spec fn header_color(data: Seq<u8>) -> u8 {
    data[25]
}

/// Why the header of PNG data is that of no pixmap, unless it may be that of one.
///
/// What has no header, or one that no image has, is left to the decoder.
pub open spec fn header_fault(data: Seq<u8>) -> Option<DecodeFault> {
    let width = header_width(data);
    let height = header_height(data);
    let depth = header_depth(data);
    if !has_header(data) {
        None
    } else if header_color(data) == ColorType::Indexed.code() {
        Some(DecodeFault::IndexedNotSupported)
    } else if depth == 1 || depth == 2 || depth == 4 {
        Some(DecodeFault::UnsupportedBitDepth)
    } else if width > 0 && height > 0 && !layout_ok(
        width as int,
        height as int,
        4 * width,
        PixelType::Rgba8U,
    ) {
        Some(DecodeFault::ImageTooBig)
    } else {
        None
    }
}

/// Returns whether `data` starts as PNG data does.
fn starts_as_png(data: &[u8]) -> (r: bool)
    requires
        data@.len() >= 16,
    ensures
        r == (data@.take(16) == png_start()),
{
    let start: [u8; 16] = [
        0x89,
        0x50,
        0x4E,
        0x47,
        0x0D,
        0x0A,
        0x1A,
        0x0A,
        0,
        0,
        0,
        13,
        0x49,
        0x48,
        0x44,
        0x52,
    ];
    assert(start@ =~= png_start());
    let mut i: usize = 0;
    while i < 16
        invariant
            i <= 16,
            data@.len() >= 16,
            start@ == png_start(),
            forall|k: int| 0 <= k < i ==> data@[k] == start@[k],
        decreases 16 - i,
    {
        if data[i] != start[i] {
            assert(data@.take(16)[i as int] != png_start()[i as int]);
            return false;
        }
        i = i + 1;
    }
    assert(data@.take(16) =~= png_start());
    true
}

/// Reads four bytes as a number, the highest one first.
fn read_big_endian(data: &[u8], at: usize) -> (r: u32)
    requires
        at + 4 <= data@.len(),
    ensures
        r == big_endian(data@, at as int),
{
    assert(data@.len() == data.len());
    0x100_0000 * data[at] as u32 + 0x1_0000 * data[at + 1] as u32 + 0x100 * data[at + 2] as u32
        + data[at + 3] as u32
}

/// Returns why the header of PNG data is that of no pixmap, unless it may be that of one.
fn find_header_fault(data: &[u8]) -> (r: Option<DecodeFault>)
    ensures
        r == header_fault(data@),
{
    if data.len() < 33 || !starts_as_png(data) {
        return None;
    }
    if data[25] == 3 {
        return Some(DecodeFault::IndexedNotSupported);
    }
    let depth: u8 = data[24];
    if depth == 1 || depth == 2 || depth == 4 {
        return Some(DecodeFault::UnsupportedBitDepth);
    }
    let size = IntSize::from_wh(read_big_endian(data, 16), read_big_endian(data, 20))?;
    match min_row_bytes(size, PixelType::Rgba8U) {
        Some(stride) => if data_len_for_size(size, stride).is_none() {
            Some(DecodeFault::ImageTooBig)
        } else {
            None
        },
        None => Some(DecodeFault::ImageTooBig),
    }
}

/// Runs a `png::Decoder` over `data`: it applies `Transformations::normalize_to_color8`,
/// and reads the first frame with `Reader::next_frame` into a buffer of
/// `Reader::output_buffer_size` bytes. What comes out is a function of `data`. The image
/// has the size that the header gives, which is not zero. Every sample of it is 8 bits,
/// none is a palette index, and there are as many as the size takes. What the samples are
/// is left to the decoder.
///
/// The decoder panics on some palettes, and where the number of an image's bytes does not
/// fit in `u64`: headers of such images are left out.
#[verifier::external_body]
fn png_decode(data: &[u8]) -> (r: Result<DecodedFrame, png::DecodingError>)
    requires
        header_fault(data@) is None,
    ensures
        match r {
            Ok(frame) => {
                &&& png_color8_frame(data@) == Some(frame@)
                &&& has_header(data@)
                &&& frame.width == header_width(data@) && frame.width > 0
                &&& frame.height == header_height(data@) && frame.height > 0
                &&& frame.bit_depth == 8
                &&& frame.color_type != ColorType::Indexed
                &&& frame.data@.len() == frame.height * (frame.width
                    * frame.color_type.spec_samples())
            },
            Err(_) => png_color8_frame(data@) is None,
        },
{
    let mut decoder = png::Decoder::new(std::io::BufReader::new(std::io::Cursor::new(data)));
    decoder.set_transformations(png::Transformations::normalize_to_color8());
    let mut reader = decoder.read_info()?;
    let size = reader.output_buffer_size().ok_or(png::DecodingError::LimitsExceeded)?;
    let mut data = vec![0; size];
    let info = reader.next_frame(&mut data)?;
    let color_type = match info.color_type {
        png::ColorType::Grayscale => ColorType::Grayscale,
        png::ColorType::Rgb => ColorType::Rgb,
        png::ColorType::Indexed => ColorType::Indexed,
        png::ColorType::GrayscaleAlpha => ColorType::GrayscaleAlpha,
        png::ColorType::Rgba => ColorType::Rgba,
    };
    let (width, height, bit_depth) = (info.width, info.height, info.bit_depth as u8);
    Ok(DecodedFrame { data, width, height, color_type, bit_depth })
}

/// Runs a `png::Encoder` over an image: it sets the color type and the bit depth, then
/// writes the header and the image data to a `Vec`, which takes whatever is written. What
/// comes out is a function of the arguments. It starts with a header that gives them. An
/// image is encoded without loss: the decoder makes the same image of it, where a row is
/// not over the decoder's limit.
#[verifier::external_body]
fn png_encode(data: &[u8], width: u32, height: u32, color_type: ColorType, bit_depth: u8) -> (r:
    Result<Vec<u8>, png::EncodingError>)
    requires
        0 < width,
        0 < height,
        bit_depth == 8,
        color_type != ColorType::Indexed,
        data@.len() == height * (width * color_type.spec_samples()),
    ensures
        match r {
            Ok(out) => {
                &&& out@ == png_encoding(data@, width, height, color_type, bit_depth)
                &&& has_header(out@)
                &&& header_width(out@) == width
                &&& header_height(out@) == height
                &&& header_depth(out@) == bit_depth
                &&& header_color(out@) == color_type.code()
                &&& width * color_type.spec_samples() <= MAX_DECODED_ROW ==> png_color8_frame(out@)
                    == Some(Frame { data: data@, width, height, color_type, bit_depth })
            },
            Err(_) => false,
        },
{
    let mut out = Vec::new();
    let mut encoder = png::Encoder::new(&mut out, width, height);
    encoder.set_color(match color_type {
        ColorType::Grayscale => png::ColorType::Grayscale,
        ColorType::Rgb => png::ColorType::Rgb,
        ColorType::Indexed => png::ColorType::Indexed,
        ColorType::GrayscaleAlpha => png::ColorType::GrayscaleAlpha,
        ColorType::Rgba => png::ColorType::Rgba,
    });
    encoder.set_depth(png::BitDepth::from_u8(bit_depth).unwrap());
    let mut writer = encoder.write_header()?;
    writer.write_image_data(data)?;
    drop(writer);
    Ok(out)
}

/// The channel `j` of the pixel `k` of an image, as red, green, blue and alpha. A gray
/// sample is the value of all three colors, and a pixel without an alpha is opaque.
pub open spec fn rgba_sample(data: Seq<u8>, color_type: ColorType, k: int, j: int) -> u8 {
    match color_type {
        ColorType::Grayscale | ColorType::Indexed => if j < 3 {
            data[k]
        } else {
            ALPHA_U8_OPAQUE
        },
        ColorType::Rgb => if j < 3 {
            data[3 * k + j]
        } else {
            ALPHA_U8_OPAQUE
        },
        ColorType::GrayscaleAlpha => if j < 3 {
            data[2 * k]
        } else {
            data[2 * k + 1]
        },
        ColorType::Rgba => data[4 * k + j],
    }
}

/// The samples of an image as red, green, blue and alpha.
pub open spec fn rgba_bytes(data: Seq<u8>, color_type: ColorType) -> Seq<u8> {
    Seq::new(
        4 * (data.len() / color_type.spec_samples() as nat),
        |i: int| rgba_sample(data, color_type, i / 4, i % 4),
    )
}

/// Bytes in groups of red, green, blue and alpha, with the alpha of each group applied to
/// the other three.
pub open spec fn premultiplied_bytes(b: Seq<u8>) -> Seq<u8> {
    Seq::new(
        b.len(),
        |i: int|
            {
                let at = i - i % 4;
                (ColorU8 { r: b[at], g: b[at + 1], b: b[at + 2], a: b[at + 3] }).premultiplied().bytes()[i
                    % 4]
            },
    )
}

impl Frame {
    /// Whether the samples of an image with 8 bit samples are those of whole pixels.
    pub open spec fn valid(self) -> bool {
        self.bit_depth == 8 ==> self.data.len() % self.color_type.spec_samples() as nat == 0
    }

    /// The pixmap that an image is, or why it is none.
    pub open spec fn pixmap(self) -> Result<Raster, DecodeFault> {
        let stride = 4 * self.width;
        let bytes = premultiplied_bytes(rgba_bytes(self.data, self.color_type));
        if self.bit_depth != 8 {
            Err(DecodeFault::UnsupportedBitDepth)
        } else if self.width == 0 || self.height == 0 {
            Err(DecodeFault::InvalidImageSize)
        } else if !layout_ok(
            self.width as int,
            self.height as int,
            stride,
            PixelType::Rgba8U,
        ) {
            Err(DecodeFault::ImageTooBig)
        } else if self.color_type == ColorType::Indexed {
            Err(DecodeFault::IndexedNotSupported)
        } else if bytes.len() != self.height * stride {
            Err(DecodeFault::PixmapNotCreated)
        } else {
            Ok(
                Raster {
                    bytes,
                    width: self.width as int,
                    height: self.height as int,
                    stride,
                    pixel_type: PixelType::Rgba8U,
                },
            )
        }
    }
}

/// What decoding PNG data gives: a pixmap, a reason why the image is none, or nothing
/// where the decoder refuses the data.
pub open spec fn decoded(data: Seq<u8>) -> Option<Result<Raster, DecodeFault>> {
    match header_fault(data) {
        Some(fault) => Some(Err(fault)),
        None => match png_color8_frame(data) {
            Some(frame) => Some(frame.pixmap()),
            None => None,
        },
    }
}

proof fn lemma_whole_pixels(len: nat, color_type: ColorType)
    requires
        len % color_type.spec_samples() as nat == 0,
    ensures
        color_type.spec_samples() * (len / color_type.spec_samples() as nat) == len,
        color_type == ColorType::Rgb ==> 3 * (len / color_type.spec_samples() as nat) == len,
        color_type == ColorType::GrayscaleAlpha ==> 2 * (len / color_type.spec_samples() as nat)
            == len,
        color_type == ColorType::Rgba ==> 4 * (len / color_type.spec_samples() as nat) == len,
{
    let s = color_type.spec_samples();
    vstd::arithmetic::div_mod::lemma_fundamental_div_mod(len as int, s);
}

/// An image with as many samples as its size takes is a pixmap, where its size is one.
proof fn lemma_whole_image(frame: Frame)
    requires
        frame.bit_depth == 8,
        frame.color_type != ColorType::Indexed,
        layout_ok(frame.width as int, frame.height as int, 4 * frame.width, PixelType::Rgba8U),
        frame.data.len() == frame.height * (frame.width * frame.color_type.spec_samples()),
    ensures
        frame.valid(),
        frame.pixmap() is Ok,
{
    let s = frame.color_type.spec_samples();
    let n = frame.height * frame.width;
    assert(frame.data.len() == n * s) by (nonlinear_arith)
        requires
            frame.data.len() == frame.height * (frame.width * s),
            n == frame.height * frame.width,
    ;
    assert(4 * n == frame.height * (4 * frame.width) && 0 <= n) by (nonlinear_arith)
        requires
            n == frame.height * frame.width,
    ;
    vstd::arithmetic::div_mod::lemma_fundamental_div_mod_converse(n * s, s, n, 0);
}

/// Brings the samples of an image to red, green, blue and alpha.
fn to_rgba(data: Vec<u8>, color_type: ColorType) -> (r: Vec<u8>)
    requires
        data@.len() % color_type.spec_samples() as nat == 0,
    ensures
        r@ == rgba_bytes(data@, color_type),
{
    proof {
        lemma_whole_pixels(data@.len(), color_type);
    }
    if color_type == ColorType::Rgba {
        assert(data@ =~= rgba_bytes(data@, color_type));
        return data;
    }
    let n: usize = data.len() / color_type.samples();
    let mut rgba: Vec<u8> = Vec::new();
    let mut k: usize = 0;
    while k < n
        invariant
            k <= n,
            color_type != ColorType::Rgba,
            n == data@.len() / color_type.spec_samples() as nat,
            color_type == ColorType::Rgb ==> 3 * n == data@.len(),
            color_type == ColorType::GrayscaleAlpha ==> 2 * n == data@.len(),
            n <= data@.len() <= usize::MAX,
            rgba@.len() == 4 * k,
            forall|i: int|
                0 <= i < 4 * k ==> rgba@[i] == rgba_sample(data@, color_type, i / 4, i % 4),
        decreases n - k,
    {
        let ghost prev = rgba@;
        let (red, green, blue, alpha): (u8, u8, u8, u8) = match color_type {
            ColorType::Rgb => (data[3 * k], data[3 * k + 1], data[3 * k + 2], ALPHA_U8_OPAQUE),
            ColorType::GrayscaleAlpha => {
                let gray: u8 = data[2 * k];
                (gray, gray, gray, data[2 * k + 1])
            },
            _ => {
                let gray: u8 = data[k];
                (gray, gray, gray, ALPHA_U8_OPAQUE)
            },
        };
        rgba.push(red);
        rgba.push(green);
        rgba.push(blue);
        rgba.push(alpha);
        k = k + 1;
    }
    assert(rgba@ =~= rgba_bytes(data@, color_type));
    rgba
}

/// Applies the alpha of every pixel to its other channels.
fn premultiply_all(data: &mut Vec<u8>)
    requires
        old(data)@.len() % 4 == 0,
    ensures
        final(data)@ == premultiplied_bytes(old(data)@),
{
    let ghost before = data@;
    let n: usize = data.len();
    let mut i: usize = 0;
    while i < n
        invariant
            i <= n,
            i % 4 == 0,
            n % 4 == 0,
            n == before.len(),
            data@.len() == n,
            forall|j: int| 0 <= j < i ==> data@[j] == premultiplied_bytes(before)[j],
            forall|j: int| i <= j < n ==> data@[j] == before[j],
        decreases n - i,
    {
        let a: u8 = data[i + 3];
        let red: u8 = premultiply_u8(data[i], a);
        let green: u8 = premultiply_u8(data[i + 1], a);
        let blue: u8 = premultiply_u8(data[i + 2], a);
        data[i] = red;
        data[i + 1] = green;
        data[i + 2] = blue;
        i = i + 4;
    }
    assert(data@ =~= premultiplied_bytes(before));
}

impl Pixmap {
    /// Makes a pixmap of a decoded image.
    ///
    /// Only 8-bit samples are supported.
    /// Indexed images are not supported.
    pub fn from_decoded(frame: DecodedFrame) -> (r: Result<Pixmap, DecodeFault>)
        requires
            frame@.valid(),
        ensures
            match r {
                Ok(p) => p.wf() && frame@.pixmap() == Ok::<Raster, DecodeFault>(p@),
                Err(fault) => frame@.pixmap() == Err::<Raster, DecodeFault>(fault),
            },
    {
        if frame.bit_depth != 8 {
            return Err(DecodeFault::UnsupportedBitDepth);
        }
        let size = match IntSize::from_wh(frame.width, frame.height) {
            Some(size) => size,
            None => return Err(DecodeFault::InvalidImageSize),
        };
        let stride: usize = match min_row_bytes(size, PixelType::Rgba8U) {
            Some(stride) => stride,
            None => return Err(DecodeFault::ImageTooBig),
        };
        if data_len_for_size(size, stride).is_none() {
            return Err(DecodeFault::ImageTooBig);
        }
        if frame.color_type == ColorType::Indexed {
            return Err(DecodeFault::IndexedNotSupported);
        }
        let mut rgba: Vec<u8> = to_rgba(frame.data, frame.color_type);
        premultiply_all(&mut rgba);
        match Pixmap::from_vec(rgba, size) {
            Some(pixmap) => Ok(pixmap),
            None => Err(DecodeFault::PixmapNotCreated),
        }
    }

    /// Decodes a PNG data into a `Pixmap`.
    ///
    /// Only 8-bit images are supported, and 16-bit ones, whose samples are brought to 8 bits.
    /// Index PNGs are not supported.
    pub fn decode_png(data: &[u8]) -> (r: Result<Pixmap, DecodeError>)
        ensures
            match r {
                Ok(p) => p.wf() && decoded(data@) == Some(Ok::<Raster, DecodeFault>(p@)),
                Err(DecodeError::Rejected(fault)) => header_fault(data@) == Some(fault) && decoded(
                    data@,
                ) == Some(Err::<Raster, DecodeFault>(fault)),
                Err(DecodeError::Decoding(_)) => decoded(data@) is None,
            },
    {
        if let Some(fault) = find_header_fault(data) {
            return Err(DecodeError::Rejected(fault));
        }
        match png_decode(data) {
            Ok(frame) => {
                proof {
                    lemma_whole_image(frame@);
                }
                match Pixmap::from_decoded(frame) {
                    Ok(pixmap) => Ok(pixmap),
                    Err(fault) => Err(DecodeError::Rejected(fault)),
                }
            },
            Err(error) => Err(DecodeError::Decoding(error)),
        }
    }

    /// Encodes pixmap into a PNG data.
    pub fn encode_png(&self) -> (r: Result<Vec<u8>, EncodeError>)
        requires
            self.wf(),
        ensures
            self@.encoded_as(r),
    {
        self.as_ref().encode_png()
    }
}

impl Raster {
    /// What encoding the raster gives: the PNG data of its pixels with the alpha taken
    /// out of them. Decoding the data gives the same pixels back, where they have their
    /// alpha applied to them and a row is within the decoder's limit.
    pub open spec fn encoded_as(self, r: Result<Vec<u8>, EncodeError>) -> bool {
        &&& r matches Ok(out)
        &&& out@ == png_encoding(
            self.packed().demultiplied_bytes(),
            self.width as u32,
            self.height as u32,
            ColorType::Rgba,
            8,
        )
        &&& self.row_len() <= MAX_DECODED_ROW && self.premultiplied() ==> decoded(out@) == Some(
            Ok::<Raster, DecodeFault>(self.packed()),
        )
    }
}

proof fn lemma_encoded_frame(r: Raster)
    requires
        r.valid(),
        r.premultiplied(),
    ensures
        (Frame {
            data: r.packed().demultiplied_bytes(),
            width: r.width as u32,
            height: r.height as u32,
            color_type: ColorType::Rgba,
            bit_depth: 8,
        }).pixmap() == Ok::<Raster, DecodeFault>(r.packed()),
{
    let p = r.packed();
    let d = p.demultiplied_bytes();
    lemma_packed(r);
    lemma_whole_rows(p.height, p.width);
    lemma_whole_pixels(d.len(), ColorType::Rgba);
    assert(rgba_bytes(d, ColorType::Rgba) =~= d);
    let q = premultiplied_bytes(d);
    assert forall|i: int| 0 <= i < p.bytes.len() implies q[i] == p.bytes[i] by {
        lemma_encoded_byte(r, i);
    }
    assert(q =~= p.bytes);
}

proof fn lemma_encoded_byte(r: Raster, i: int)
    requires
        r.valid(),
        r.premultiplied(),
        0 <= i < r.packed().bytes.len(),
    ensures
        premultiplied_bytes(r.packed().demultiplied_bytes())[i] == r.packed().bytes[i],
{
    let p = r.packed();
    let d = p.demultiplied_bytes();
    let at = i - i % 4;
    let c = PremultipliedColorU8::read(p.bytes, at);
    lemma_packed(r);
    lemma_group_in_row(at, p.width, p.height);
    let (x, y) = ((at % p.stride) / 4, at / p.stride);
    assert(p.contains(x, y) && p.offset(x, y) == at);
    assert(r.contains(x, y));
    law_packed_keeps_colors(r, x, y);
    law_premultiply_undoes_demultiply(c);
    lemma_byte_in_group(at, 0, p.width, p.height);
    lemma_byte_in_group(at, 1, p.width, p.height);
    lemma_byte_in_group(at, 2, p.width, p.height);
    lemma_byte_in_group(at, 3, p.width, p.height);
    lemma_offset(p, x, y);
    let m = c.demultiplied();
    assert(d[at] == m.r && d[at + 1] == m.g && d[at + 2] == m.b && d[at + 3] == m.a);
}

proof fn lemma_whole_rows(height: int, width: int)
    requires
        0 < height,
        0 < width,
    ensures
        (height * (width * 4)) % 4 == 0,
{
    assert(height * (width * 4) == 4 * (height * width)) by (nonlinear_arith);
}

/// Where a group of four bytes lies in rows of `width` of them.
proof fn lemma_group_in_row(at: int, width: int, height: int)
    requires
        at % 4 == 0,
        0 < width,
        0 <= at < height * (width * 4),
    ensures
        0 <= at / (width * 4) < height,
        0 <= at % (width * 4) < width * 4,
        (at % (width * 4)) % 4 == 0,
        (at / (width * 4)) * (width * 4) + at % (width * 4) == at,
{
    let s = width * 4;
    let q = at / s;
    vstd::arithmetic::div_mod::lemma_fundamental_div_mod(at, s);
    assert(0 <= q < height && 0 <= at % s < s) by (nonlinear_arith)
        requires
            q == at / s,
            0 <= at < height * s,
            0 < s,
    ;
    assert(q * s == s * q && q * s == 4 * (q * width)) by (nonlinear_arith)
        requires
            s == width * 4,
    ;
}

proof fn lemma_byte_in_group(at: int, j: int, width: int, height: int)
    requires
        at % 4 == 0,
        0 < width,
        0 <= at < height * (width * 4),
        0 <= j < 4,
    ensures
        (at + j) / (width * 4) == at / (width * 4),
        (at + j) % (width * 4) == at % (width * 4) + j,
        ((at + j) % (width * 4)) % 4 == j,
        (at + j) % (width * 4) < (width * 4) / 4 * 4,
        (at + j) / (width * 4) < height,
{
    let s = width * 4;
    lemma_group_in_row(at, width, height);
    vstd::arithmetic::div_mod::lemma_fundamental_div_mod_converse(
        at + j,
        s,
        at / s,
        at % s + j,
    );
}

impl<'a> PixmapRef<'a> {
    /// Encodes pixmap into a PNG data.
    pub fn encode_png(&self) -> (r: Result<Vec<u8>, EncodeError>)
        requires
            self@.valid(),
        ensures
            self@.encoded_as(r),
    {
        let (width, height) = (self.width(), self.height());
        let copy = self.to_owned();
        let AlignedMemory::Align1(data) = copy.take_demultiplied();
        proof {
            lemma_packed(self@);
            if self@.premultiplied() {
                lemma_encoded_frame(self@);
            }
        }
        let bit_depth: u8 = match self.pixel_type() {
            PixelType::Rgba8U => 8,
        };
        match png_encode(&data, width, height, ColorType::Rgba, bit_depth) {
            Ok(out) => Ok(out),
            Err(error) => Err(EncodeError::Encoding(error)),
        }
    }
}

/// The colors of a decoded image are its samples, row by row, with their alpha applied to
/// them. So every color of it can be the result of a multiplication by its alpha.
pub proof fn law_decoded_colors(frame: Frame, x: int, y: int)
    requires
        frame.valid(),
        frame.pixmap() matches Ok(r) && r.contains(x, y),
    ensures
        frame.pixmap() matches Ok(r) && {
            let k = y * r.width + x;
            let c = ColorU8 {
                r: rgba_sample(frame.data, frame.color_type, k, 0),
                g: rgba_sample(frame.data, frame.color_type, k, 1),
                b: rgba_sample(frame.data, frame.color_type, k, 2),
                a: rgba_sample(frame.data, frame.color_type, k, 3),
            };
            &&& r.tight() && r.whole()
            &&& r.color(x, y) == c.premultiplied()
            &&& r.color(x, y).valid()
        },
{
    let r = frame.pixmap()->Ok_0;
    let k = y * r.width + x;
    let at = r.offset(x, y);
    let samples = rgba_bytes(frame.data, frame.color_type);
    assert(at == 4 * k) by (nonlinear_arith)
        requires
            at == y * (4 * r.width) + x * 4,
            k == y * r.width + x,
    ;
    assert(0 <= y * r.stride <= (r.height - 1) * r.stride && (r.height - 1) * r.stride + r.stride
        == r.height * r.stride) by (nonlinear_arith)
        requires
            0 <= y <= r.height - 1,
            0 <= r.stride,
    ;
    let c = ColorU8 { r: samples[at], g: samples[at + 1], b: samples[at + 2], a: samples[at + 3] };
    law_premultiplied_is_valid(c);
    assert(at % 4 == 0 && (at + 1) % 4 == 1 && (at + 2) % 4 == 2 && (at + 3) % 4 == 3);
}

/// An image without an alpha is an opaque pixmap with the image's samples for colors.
pub proof fn law_image_without_alpha_is_opaque(frame: Frame, x: int, y: int)
    requires
        frame.valid(),
        frame.color_type == ColorType::Grayscale || frame.color_type == ColorType::Rgb,
        frame.pixmap() matches Ok(r) && r.contains(x, y),
    ensures
        frame.pixmap() matches Ok(r) && {
            let k = y * r.width + x;
            &&& r.color(x, y).a == ALPHA_U8_OPAQUE
            &&& r.color(x, y).r == rgba_sample(frame.data, frame.color_type, k, 0)
            &&& r.color(x, y).g == rgba_sample(frame.data, frame.color_type, k, 1)
            &&& r.color(x, y).b == rgba_sample(frame.data, frame.color_type, k, 2)
        },
{
    let r = frame.pixmap()->Ok_0;
    let k = y * r.width + x;
    let c = ColorU8 {
        r: rgba_sample(frame.data, frame.color_type, k, 0),
        g: rgba_sample(frame.data, frame.color_type, k, 1),
        b: rgba_sample(frame.data, frame.color_type, k, 2),
        a: rgba_sample(frame.data, frame.color_type, k, 3),
    };
    law_decoded_colors(frame, x, y);
    law_opaque_is_unchanged(c);
    assert(c.premultiplied().bytes()[0] == c.bytes()[0]);
    assert(c.premultiplied().bytes()[1] == c.bytes()[1]);
    assert(c.premultiplied().bytes()[2] == c.bytes()[2]);
}

/// The color that a decoded image has at a position, over the bytes of the image: with as
/// many pixels before it as there are in the rows above and to the left, a gray sample
/// stands for all three colors, and a pixel without an alpha sample is opaque. The alpha is
/// applied to the color.
pub proof fn law_decoded_colors_by_index(frame: Frame, x: int, y: int)
    requires
        frame.valid(),
        frame.pixmap() matches Ok(r) && r.contains(x, y),
    ensures
        frame.pixmap() matches Ok(r) && {
            let k = y * frame.width + x;
            let d = frame.data;
            let c = match frame.color_type {
                ColorType::Grayscale => ColorU8 { r: d[k], g: d[k], b: d[k], a: 255 },
                ColorType::GrayscaleAlpha => ColorU8 {
                    r: d[2 * k],
                    g: d[2 * k],
                    b: d[2 * k],
                    a: d[2 * k + 1],
                },
                ColorType::Rgb => ColorU8 { r: d[3 * k], g: d[3 * k + 1], b: d[3 * k + 2], a: 255 },
                _ => ColorU8 { r: d[4 * k], g: d[4 * k + 1], b: d[4 * k + 2], a: d[4 * k + 3] },
            };
            &&& frame.color_type != ColorType::Indexed
            &&& r.color(x, y) == c.premultiplied()
        },
{
    law_decoded_colors(frame, x, y);
}

/// Which decoded images are pixmaps, and of what measures. The samples are 8 bits and no
/// palette indices, the size is neither zero nor over a limit, and there are as many
/// samples as the size takes.
pub proof fn law_decoded_measures(frame: Frame)
    requires
        frame.valid(),
    ensures
        frame.pixmap() is Ok <==> {
            &&& frame.bit_depth == 8
            &&& 0 < frame.width <= 536870911 && 0 < frame.height
            &&& frame.height * (4 * frame.width) <= usize::MAX
            &&& match frame.color_type {
                ColorType::Grayscale => frame.data.len() == frame.width * frame.height,
                ColorType::GrayscaleAlpha => frame.data.len() == 2 * (frame.width * frame.height),
                ColorType::Rgb => frame.data.len() == 3 * (frame.width * frame.height),
                ColorType::Rgba => frame.data.len() == 4 * (frame.width * frame.height),
                ColorType::Indexed => false,
            }
        },
        frame.pixmap() matches Ok(r) ==> r.width == frame.width && r.height == frame.height
            && r.stride == 4 * frame.width && r.bytes.len() == 4 * (frame.width * frame.height),
{
    let n = frame.width * frame.height;
    assert(frame.height * (4 * frame.width) == 4 * n) by (nonlinear_arith)
        requires
            n == frame.width * frame.height,
    ;
    if frame.bit_depth == 8 {
        lemma_whole_pixels(frame.data.len(), frame.color_type);
    }
}

/// Which fault of a decoded image is told, where there are several: the number of bits in a
/// sample first, then a zero side, then a size over a limit, then a palette, and at last
/// that the samples are not those of the size.
pub proof fn law_faults_of_decoded_images(frame: Frame)
    ensures
        frame.pixmap() == Err::<Raster, DecodeFault>(DecodeFault::UnsupportedBitDepth)
            <==> frame.bit_depth != 8,
        frame.pixmap() == Err::<Raster, DecodeFault>(DecodeFault::InvalidImageSize)
            <==> frame.bit_depth == 8 && (frame.width == 0 || frame.height == 0),
        frame.pixmap() == Err::<Raster, DecodeFault>(DecodeFault::ImageTooBig) <==> frame.bit_depth
            == 8 && frame.width > 0 && frame.height > 0 && (frame.width > 536870911 || frame.height
            * (4 * frame.width) > usize::MAX),
        frame.pixmap() == Err::<Raster, DecodeFault>(DecodeFault::IndexedNotSupported)
            <==> frame.bit_depth == 8 && 0 < frame.width <= 536870911 && 0 < frame.height
            && frame.height * (4 * frame.width) <= usize::MAX && frame.color_type
            == ColorType::Indexed,
{
}

/// Why PNG data is refused by its header, over the bytes themselves. There has to be a
/// whole header, which the first sixteen bytes tell. Then the byte for the color type must
/// not say that there is a palette, the one for the bits of a sample must not say that
/// there are less than eight, and the size must be within the limits of a pixmap.
pub proof fn law_faults_of_headers(data: Seq<u8>)
    ensures
        ({
            let header = {
                &&& data.len() >= 33
                &&& data[0] == 137 && data[1] == 80 && data[2] == 78 && data[3] == 71
                &&& data[4] == 13 && data[5] == 10 && data[6] == 26 && data[7] == 10
                &&& data[8] == 0 && data[9] == 0 && data[10] == 0 && data[11] == 13
                &&& data[12] == 73 && data[13] == 72 && data[14] == 68 && data[15] == 82
            };
            let width = ((data[16] * 256 + data[17]) * 256 + data[18]) * 256 + data[19];
            let height = ((data[20] * 256 + data[21]) * 256 + data[22]) * 256 + data[23];
            let deep = data[24] != 1 && data[24] != 2 && data[24] != 4;
            let fits = width <= 536870911 && height * (4 * width) <= usize::MAX;
            &&& header_fault(data) == Some(DecodeFault::IndexedNotSupported) <==> header && data[25]
                == 3
            &&& header_fault(data) == Some(DecodeFault::UnsupportedBitDepth) <==> header && data[25]
                != 3 && !deep
            &&& header_fault(data) == Some(DecodeFault::ImageTooBig) <==> header && data[25] != 3
                && deep && width > 0 && height > 0 && !fits
            &&& header_fault(data) is None <==> !header || data[25] != 3 && deep && (width == 0
                || height == 0 || fits)
        }),
{
    let start = png_start();
    if data.len() >= 33 {
        let t = data.take(16);
        assert(t == start <==> (forall|i: int| 0 <= i < 16 ==> t[i] == start[i])) by {
            if forall|i: int| 0 <= i < 16 ==> t[i] == start[i] {
                assert(t =~= start);
            }
        }
        assert(t == start ==> t[0] == start[0] && t[1] == start[1] && t[2] == start[2] && t[3]
            == start[3] && t[4] == start[4] && t[5] == start[5] && t[6] == start[6] && t[7]
            == start[7] && t[8] == start[8] && t[9] == start[9] && t[10] == start[10] && t[11]
            == start[11] && t[12] == start[12] && t[13] == start[13] && t[14] == start[14] && t[15]
            == start[15]);
    }
    assert(header_width(data) == ((data[16] * 256 + data[17]) * 256 + data[18]) * 256 + data[19]);
    assert(header_height(data) == ((data[20] * 256 + data[21]) * 256 + data[22]) * 256 + data[23]);
}

/// What decoding gives, over what the decoder makes of the data: the fault of the header,
/// else the pixmap of the frame or why it is none, else nothing where there is no frame.
pub proof fn law_cases_of_decoding(data: Seq<u8>)
    ensures
        header_fault(data) matches Some(fault) ==> decoded(data) == Some(
            Err::<Raster, DecodeFault>(fault),
        ),
        header_fault(data) is None ==> (decoded(data) is None <==> png_color8_frame(data) is None),
        header_fault(data) is None ==> (png_color8_frame(data) matches Some(frame) ==> decoded(data)
            == Some(frame.pixmap())),
{
}

/// Decoding an encoded pixmap gives a pixmap of the same size back, with the same color at
/// every position, where all colors have their alpha applied to them and a row is no longer
/// than 64 MiB. Encoding always gives data.
pub proof fn law_encoding_is_without_loss(
    r: Raster,
    out: Result<Vec<u8>, EncodeError>,
    x: int,
    y: int,
)
    requires
        r.valid(),
        r.encoded_as(out),
    ensures
        out is Ok,
        r.premultiplied() && 4 * r.width <= 0x400_0000 ==> {
            &&& decoded(out->Ok_0@) matches Some(Ok(back))
            &&& back.width == r.width && back.height == r.height && back.stride == 4 * r.width
            &&& 0 <= x < r.width && 0 <= y < r.height ==> back.color(x, y) == r.color(x, y)
        },
{
    if 0 <= x < r.width && 0 <= y < r.height {
        law_packed_keeps_colors(r, x, y);
    }
}

/// What is encoded of a pixmap: an image of the same size with 8 bit samples of red, green,
/// blue and alpha, which are those of the pixel at a position with the alpha taken out.
pub proof fn law_encoded_samples(
    r: Raster,
    out: Result<Vec<u8>, EncodeError>,
    x: int,
    y: int,
)
    requires
        r.valid(),
        r.encoded_as(out),
        0 <= x < r.width,
        0 <= y < r.height,
    ensures
        ({
            let samples = r.packed().demultiplied_bytes();
            let at = 4 * (y * r.width + x);
            let c = r.color(x, y).demultiplied();
            &&& out matches Ok(data) && data@ == png_encoding(
                samples,
                r.width as u32,
                r.height as u32,
                ColorType::Rgba,
                8,
            )
            &&& samples.len() == 4 * r.width * r.height
            &&& samples[at] == c.r && samples[at + 1] == c.g && samples[at + 2] == c.b && samples[at
                + 3] == c.a
        }),
{
    let p = r.packed();
    lemma_packed(r);
    law_packed_keeps_colors(r, x, y);
    law_demultiplied_colors(p, x, y);
    assert(p.offset(x, y) == 4 * (y * r.width + x)) by (nonlinear_arith)
        requires
            p.offset(x, y) == y * (r.width * 4) + x * 4,
    ;
    assert(r.height * (r.width * 4) == 4 * r.width * r.height) by (nonlinear_arith);
}

/// The texts that tell the faults.
pub proof fn law_texts_of_faults()
    ensures
        DecodeFault::UnsupportedBitDepth.text() == "unsupported bit depth"@,
        DecodeFault::InvalidImageSize.text() == "invalid image size"@,
        DecodeFault::ImageTooBig.text() == "image is too big"@,
        DecodeFault::IndexedNotSupported.text() == "indexed PNG is not supported"@,
        DecodeFault::PixmapNotCreated.text() == "failed to create a pixmap"@,
{
}

} // verus!
