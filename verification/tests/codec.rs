use tiny_skia::codec::ColorType;
use tiny_skia::codec::DecodeError;
use tiny_skia::codec::DecodeFault;
use tiny_skia::codec::DecodedFrame;
use tiny_skia::color::PremultipliedColorU8;
use tiny_skia::geom::IntRect;
use tiny_skia::pixmap::PixelType;
use tiny_skia::pixmap::Pixmap;

fn frame(data: Vec<u8>, width: u32, height: u32, color_type: ColorType) -> DecodedFrame {
    DecodedFrame { data, width, height, color_type, bit_depth: 8 }
}

fn encode(
    data: &[u8],
    width: u32,
    height: u32,
    color_type: png::ColorType,
    depth: png::BitDepth,
) -> Vec<u8> {
    let mut out = Vec::new();
    let mut encoder = png::Encoder::new(&mut out, width, height);
    encoder.set_color(color_type);
    encoder.set_depth(depth);
    if color_type == png::ColorType::Indexed {
        encoder.set_palette(vec![1, 2, 3, 40, 50, 60]);
    }
    let mut writer = encoder.write_header().unwrap();
    writer.write_image_data(data).unwrap();
    drop(writer);
    out
}

fn fault(frame: DecodedFrame) -> DecodeFault {
    Pixmap::from_decoded(frame).err().unwrap()
}

#[test]
fn decodes_grayscale() {
    let png = encode(&[10, 200], 2, 1, png::ColorType::Grayscale, png::BitDepth::Eight);
    let pixmap = Pixmap::decode_png(&png).unwrap();
    assert_eq!((pixmap.width(), pixmap.height(), pixmap.stride()), (2, 1, 8));
    assert_eq!(pixmap.data(), &[10, 10, 10, 255, 200, 200, 200, 255]);
}

#[test]
fn decodes_grayscale_with_alpha() {
    let samples = [100, 128, 7, 0];
    let png = encode(&samples, 1, 2, png::ColorType::GrayscaleAlpha, png::BitDepth::Eight);
    let pixmap = Pixmap::decode_png(&png).unwrap();
    assert_eq!(pixmap.data(), &[50, 50, 50, 128, 0, 0, 0, 0]);
}

#[test]
fn decodes_rgb() {
    let png = encode(&[1, 2, 3, 4, 5, 6], 2, 1, png::ColorType::Rgb, png::BitDepth::Eight);
    let pixmap = Pixmap::decode_png(&png).unwrap();
    assert_eq!(pixmap.data(), &[1, 2, 3, 255, 4, 5, 6, 255]);
}

#[test]
fn decodes_rgba() {
    let samples = [50, 100, 150, 200];
    let png = encode(&samples, 1, 1, png::ColorType::Rgba, png::BitDepth::Eight);
    let pixmap = Pixmap::decode_png(&png).unwrap();
    assert_eq!(pixmap.data(), &[39, 78, 118, 200]);
}

#[test]
fn decodes_what_can_be_brought_to_eight_bits() {
    let samples = [0x12, 0x34, 0xAB, 0xCD];
    let png = encode(&samples, 2, 1, png::ColorType::Grayscale, png::BitDepth::Sixteen);
    let pixmap = Pixmap::decode_png(&png).unwrap();
    assert_eq!(pixmap.data(), &[0x12, 0x12, 0x12, 255, 0xAB, 0xAB, 0xAB, 255]);
}

fn rejection(png: &[u8]) -> DecodeFault {
    match Pixmap::decode_png(png) {
        Err(DecodeError::Rejected(fault)) => fault,
        _ => panic!("not rejected"),
    }
}

#[test]
fn refuses_indexed_images() {
    let want = DecodeFault::IndexedNotSupported;
    let png = encode(&[1, 0], 2, 1, png::ColorType::Indexed, png::BitDepth::Eight);
    assert_eq!(rejection(&png), want);
    let png = encode(&[0x40], 2, 1, png::ColorType::Indexed, png::BitDepth::Two);
    assert_eq!(rejection(&png), want);
}

#[test]
fn refuses_a_palette_that_is_no_whole_number_of_colors() {
    let mut out = Vec::new();
    let mut encoder = png::Encoder::new(&mut out, 1, 1);
    encoder.set_color(png::ColorType::Indexed);
    encoder.set_depth(png::BitDepth::Eight);
    encoder.set_palette(vec![1, 2, 3, 4]);
    let mut writer = encoder.write_header().unwrap();
    writer.write_image_data(&[0]).unwrap();
    drop(writer);
    assert_eq!(rejection(&out), DecodeFault::IndexedNotSupported);
}

#[test]
fn refuses_samples_of_less_than_eight_bits() {
    let want = DecodeFault::UnsupportedBitDepth;
    for depth in [png::BitDepth::One, png::BitDepth::Two, png::BitDepth::Four] {
        let png = encode(&[0x80], 1, 1, png::ColorType::Grayscale, depth);
        assert_eq!(rejection(&png), want);
    }
}

#[test]
fn refuses_headers_of_too_big_images() {
    let png = encode(&[0; 8], 1, 1, png::ColorType::Rgba, png::BitDepth::Sixteen);
    let claim = |width: u32, height: u32| {
        let mut png = png.clone();
        png[16..20].copy_from_slice(&width.to_be_bytes());
        png[20..24].copy_from_slice(&height.to_be_bytes());
        png
    };
    let want = DecodeFault::ImageTooBig;
    assert_eq!(rejection(&claim(0x4000_0001, 0x7FFF_FFFE)), want);
    assert_eq!(rejection(&claim(0x2000_0000, 1)), want);
    let decoding = |png: Vec<u8>| matches!(Pixmap::decode_png(&png), Err(DecodeError::Decoding(_)));
    assert!(decoding(claim(0x1FFF_FFFF, 1)));
    assert!(decoding(claim(0, u32::MAX)));
    assert!(decoding(claim(2, 2)));
}

#[test]
fn headers_are_read_only_where_there_is_one() {
    let png = encode(&[1, 0], 2, 1, png::ColorType::Indexed, png::BitDepth::Eight);
    assert!(matches!(Pixmap::decode_png(&png[..32]), Err(DecodeError::Decoding(_))));
    for at in 0..16 {
        let mut other = png.clone();
        other[at] ^= 1;
        assert!(matches!(Pixmap::decode_png(&other), Err(DecodeError::Decoding(_))));
    }
}

#[test]
fn refuses_what_is_no_png() {
    assert!(matches!(Pixmap::decode_png(&[]), Err(DecodeError::Decoding(_))));
    assert!(matches!(Pixmap::decode_png(&[1, 2, 3, 4]), Err(DecodeError::Decoding(_))));
    let mut png = encode(&[10, 200], 2, 1, png::ColorType::Grayscale, png::BitDepth::Eight);
    png.truncate(40);
    assert!(matches!(Pixmap::decode_png(&png), Err(DecodeError::Decoding(_))));
}

#[test]
fn faults_of_decoded_images() {
    let mut deep = frame(vec![0; 2], 1, 1, ColorType::Grayscale);
    deep.bit_depth = 16;
    assert_eq!(fault(deep), DecodeFault::UnsupportedBitDepth);
    assert_eq!(
        fault(frame(vec![], 0, 1, ColorType::Grayscale)),
        DecodeFault::InvalidImageSize
    );
    assert_eq!(
        fault(frame(vec![], 1, 0, ColorType::Rgba)),
        DecodeFault::InvalidImageSize
    );
    assert_eq!(
        fault(frame(vec![], 0x2000_0000, 1, ColorType::Rgba)),
        DecodeFault::ImageTooBig
    );
    assert_eq!(
        fault(frame(vec![0], 1, 1, ColorType::Indexed)),
        DecodeFault::IndexedNotSupported
    );
    assert_eq!(
        fault(frame(vec![0; 3], 1, 2, ColorType::Rgb)),
        DecodeFault::PixmapNotCreated
    );
}

#[test]
fn faults_are_tested_in_order() {
    let mut all = frame(vec![], 0, 0, ColorType::Indexed);
    all.bit_depth = 1;
    assert_eq!(fault(all), DecodeFault::UnsupportedBitDepth);
    assert_eq!(
        fault(frame(vec![], u32::MAX, 1, ColorType::Indexed)),
        DecodeFault::ImageTooBig
    );
}

#[test]
fn fault_messages() {
    assert_eq!(DecodeFault::UnsupportedBitDepth.message(), "unsupported bit depth");
    assert_eq!(DecodeFault::InvalidImageSize.message(), "invalid image size");
    assert_eq!(DecodeFault::ImageTooBig.message(), "image is too big");
    assert_eq!(DecodeFault::IndexedNotSupported.message(), "indexed PNG is not supported");
    assert_eq!(DecodeFault::PixmapNotCreated.message(), "failed to create a pixmap");
}

#[test]
fn samples_per_pixel() {
    assert_eq!(ColorType::Grayscale.samples(), 1);
    assert_eq!(ColorType::GrayscaleAlpha.samples(), 2);
    assert_eq!(ColorType::Rgb.samples(), 3);
    assert_eq!(ColorType::Rgba.samples(), 4);
    assert_eq!(ColorType::Indexed.samples(), 1);
}

#[test]
fn decoded_images_are_premultiplied() {
    let mut data = Vec::new();
    for a in 0..=255 {
        data.push(255);
        data.push(a);
    }
    let pixmap = Pixmap::from_decoded(frame(data, 16, 16, ColorType::GrayscaleAlpha)).unwrap();
    for y in 0..16 {
        for x in 0..16 {
            let a = (16 * y + x) as u8;
            let want = PremultipliedColorU8::from_rgba(a, a, a, a);
            assert_eq!(pixmap.pixel(x, y), want);
        }
    }
}

#[test]
fn encoding_is_without_loss() {
    let mut pixmap = Pixmap::new_with_type(7, 5, 31, PixelType::Rgba8U).unwrap();
    for y in 0..5 {
        for x in 0..7 {
            let at = 31 * y + 4 * x;
            let a = (40 * y + 13 * x) as u8;
            let pixel = [a / 3, a / 2, a, a];
            pixmap.data_mut()[at..at + 4].copy_from_slice(&pixel);
        }
    }
    let png = pixmap.encode_png().unwrap();
    assert_eq!(&png[1..4], b"PNG");
    assert_eq!(Pixmap::decode_png(&png).unwrap(), pixmap.as_ref().to_owned());
}

#[test]
fn encoding_a_part_encodes_that_part() {
    let mut pixmap = Pixmap::new(6, 6).unwrap();
    pixmap.fill(PremultipliedColorU8::from_rgba(10, 20, 30, 40).unwrap());
    pixmap.data_mut()[4 * 7..4 * 8].copy_from_slice(&[1, 2, 3, 4]);
    let rect = IntRect::from_xywh(1, 1, 2, 3).unwrap();
    let png = pixmap.as_ref().subpixmap(rect).unwrap().encode_png().unwrap();
    let part = Pixmap::decode_png(&png).unwrap();
    assert_eq!(part, pixmap.clone_rect(rect).unwrap());
    assert_eq!(part.pixel(0, 0), PremultipliedColorU8::from_rgba(1, 2, 3, 4));
}

#[test]
fn encoded_samples_are_demultiplied() {
    let mut pixmap = Pixmap::new(1, 1).unwrap();
    pixmap.fill(PremultipliedColorU8::from_rgba(39, 78, 118, 200).unwrap());
    let png = pixmap.encode_png().unwrap();
    let decoder = png::Decoder::new(std::io::BufReader::new(std::io::Cursor::new(png)));
    let mut reader = decoder.read_info().unwrap();
    let mut samples = vec![0; 4];
    let info = reader.next_frame(&mut samples).unwrap();
    assert_eq!((info.width, info.height), (1, 1));
    assert_eq!(info.color_type, png::ColorType::Rgba);
    assert_eq!(samples, vec![50, 99, 150, 200]);
}
