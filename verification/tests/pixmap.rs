use tiny_skia::ColorU8;
use tiny_skia::PremultipliedColorU8;
use tiny_skia::IntRect;
use tiny_skia::IntSize;
use tiny_skia::pixmap::data_len_for_size;
use tiny_skia::pixmap::min_row_bytes;
use tiny_skia::AlignedMemory;
use tiny_skia::PixelType;
use tiny_skia::Pixmap;
use tiny_skia::PixmapMut;
use tiny_skia::PixmapRef;

fn color(r: u8, g: u8, b: u8, a: u8) -> PremultipliedColorU8 {
    PremultipliedColorU8::from_rgba_unchecked(r, g, b, a)
}

fn bytes_of(memory: AlignedMemory) -> Vec<u8> {
    let AlignedMemory::Align1(bytes) = memory;
    bytes.into_vec()
}

/// A pixmap whose colors tell their positions.
fn positions(width: u32, height: u32, stride: usize) -> Pixmap {
    let mut pixmap = Pixmap::new_with_type(width, height, stride, PixelType::Rgba8U).unwrap();
    for y in 0..height as usize {
        for x in 0..width as usize {
            let at = y * stride + 4 * x;
            let pixel = [(x % 251) as u8, (y % 251) as u8, 7, 255];
            pixmap.data_mut()[at..at + 4].copy_from_slice(&pixel);
        }
    }
    pixmap
}

#[test]
fn pixel_type_measures() {
    assert_eq!(PixelType::Rgba8U.size(), 4);
    assert_eq!(PixelType::Rgba8U.alignment(), 1);
}

#[test]
fn fill() {
    let c = ColorU8::from_rgba(50, 100, 150, 200).premultiply();
    assert_eq!(c, color(39, 78, 118, 200));
    let mut pixmap = Pixmap::new(10, 10).unwrap();
    pixmap.fill(c);
    let pixels = bytemuck::cast_slice::<_, [u8; 4]>(pixmap.data());
    assert_eq!(pixels.len(), 100);
    assert!(pixels.iter().all(|p| { *p == c.to_bytes() }));
}

#[test]
fn clone_rect_1() {
    let pixmap = positions(200, 200, 800);
    let part = pixmap.as_ref().clone_rect(IntRect::from_xywh(10, 15, 80, 90).unwrap()).unwrap();
    assert_eq!((part.width(), part.height(), part.stride()), (80, 90, 320));
    assert_eq!(part.data().len(), 320 * 90);
    for y in 0..90 {
        for x in 0..80 {
            assert_eq!(part.pixel(x, y), pixmap.pixel(10 + x, 15 + y));
        }
    }
    assert_eq!(part.pixel(0, 0), Some(color(10, 15, 7, 255)));
    assert_eq!(part.pixel(80, 0), None);
    assert_eq!(part.pixel(0, 90), None);
}

#[test]
fn clone_rect_2() {
    let pixmap = positions(200, 200, 800);
    let part = pixmap.as_ref().clone_rect(IntRect::from_xywh(130, 120, 80, 90).unwrap()).unwrap();
    assert_eq!((part.width(), part.height(), part.stride()), (70, 80, 280));
    for y in 0..80 {
        for x in 0..70 {
            assert_eq!(part.pixel(x, y), pixmap.pixel(130 + x, 120 + y));
        }
    }
    assert_eq!(part.pixel(69, 79), Some(color(199, 199, 7, 255)));
    assert_eq!(part, pixmap.clone_rect(IntRect::from_xywh(130, 120, 70, 80).unwrap()).unwrap());
}

#[test]
fn clone_rect_out_of_bound() {
    let mut pixmap = Pixmap::new(200, 200).unwrap();
    pixmap.fill(ColorU8::from_rgba(50, 127, 150, 200).premultiply());

    assert!(pixmap.as_ref().clone_rect(IntRect::from_xywh(250, 15, 80, 90).unwrap()).is_none());
    assert!(pixmap.as_ref().clone_rect(IntRect::from_xywh(10, 250, 80, 90).unwrap()).is_none());
    assert!(pixmap.as_ref().clone_rect(IntRect::from_xywh(10, -250, 80, 90).unwrap()).is_none());
}

#[test]
fn clone_rect_touching_the_edge_is_none() {
    let pixmap = positions(4, 3, 16);
    assert!(pixmap.clone_rect(IntRect::from_xywh(4, 0, 1, 1).unwrap()).is_none());
    assert!(pixmap.clone_rect(IntRect::from_xywh(-1, 0, 1, 1).unwrap()).is_none());
    let corner = pixmap.clone_rect(IntRect::from_xywh(-5, -5, 6, 6).unwrap()).unwrap();
    assert_eq!((corner.width(), corner.height()), (1, 1));
    assert_eq!(corner.pixel(0, 0), Some(color(0, 0, 7, 255)));
}

#[test]
fn new_is_transparent_black() {
    let pixmap = Pixmap::new(3, 2).unwrap();
    assert_eq!((pixmap.width(), pixmap.height(), pixmap.stride()), (3, 2, 12));
    assert_eq!(pixmap.pixel_type(), PixelType::Rgba8U);
    assert_eq!((pixmap.size().width(), pixmap.size().height()), (3, 2));
    assert_eq!(pixmap.data(), &[0; 24]);
    assert_eq!(pixmap.pixel(2, 1), Some(PremultipliedColorU8::transparent()));
}

#[test]
fn new_rejects_bad_sizes() {
    assert!(Pixmap::new(0, 1).is_none());
    assert!(Pixmap::new(1, 0).is_none());
    assert!(Pixmap::new(i32::MAX as u32 / 4 + 1, 1).is_none());
    assert!(Pixmap::new(u32::MAX, 1).is_none());
}

#[test]
fn new_with_type_keeps_its_stride() {
    let pixmap = Pixmap::new_with_type(100, 100, 419, PixelType::Rgba8U).unwrap();
    assert_eq!(pixmap.stride(), 419);
    assert_eq!(pixmap.data().len(), 41900);
    assert!(pixmap.data().iter().all(|b| *b == 0));
    assert!(Pixmap::new_with_type(100, 100, 399, PixelType::Rgba8U).is_none());
    assert!(Pixmap::new_with_type(100, 100, 400, PixelType::Rgba8U).is_some());
    assert!(Pixmap::new_with_type(0, 100, 400, PixelType::Rgba8U).is_none());
    assert!(Pixmap::new_with_type(1, 3, usize::MAX, PixelType::Rgba8U).is_none());
}

#[test]
fn from_mem_with_type_wants_all_rows() {
    let memory = |len: usize| AlignedMemory::Align1(vec![9; len].into_boxed_slice());
    let make = |len, w, h, s| Pixmap::from_mem_with_type(memory(len), w, h, s, PixelType::Rgba8U);
    let pixmap = make(20, 2, 2, 10).unwrap();
    assert_eq!(pixmap.pixel(1, 1), Some(color(9, 9, 9, 9)));
    assert!(make(18, 2, 2, 10).is_none());
    assert!(make(21, 2, 2, 10).is_none());
    assert!(make(14, 2, 2, 7).is_none());
    assert!(make(0, 0, 2, 7).is_none());
}

#[test]
fn from_vec_wants_the_size() {
    let size = IntSize::from_wh(2, 1).unwrap();
    let pixmap = Pixmap::from_vec(vec![1, 2, 3, 4, 5, 6, 7, 8], size).unwrap();
    assert_eq!(pixmap.pixel(1, 0), Some(color(5, 6, 7, 8)));
    assert_eq!(pixmap.stride(), 8);
    assert!(Pixmap::from_vec(vec![0; 7], size).is_none());
    assert!(Pixmap::from_vec(vec![0; 9], size).is_none());
    let wide = IntSize::from_wh(0x2000_0000, 1).unwrap();
    assert!(Pixmap::from_vec(vec![], wide).is_none());
}

#[test]
fn taken_memory_can_be_taken_back() {
    let pixmap = positions(5, 4, 23);
    let copy = pixmap.clone();
    let memory = pixmap.take();
    assert_eq!(memory.clone(), memory);
    let back = Pixmap::from_mem_with_type(memory, 5, 4, 23, PixelType::Rgba8U).unwrap();
    assert_eq!(back, copy);
}

#[test]
fn from_bytes_takes_more_than_it_needs() {
    let data = [1, 2, 3, 4, 5, 6, 7, 8, 9];
    let pixmap = PixmapRef::from_bytes(&data, 1, 2).unwrap();
    assert_eq!(pixmap.pixel(0, 1), Some(color(5, 6, 7, 8)));
    assert_eq!(pixmap.data(), &data);
    assert!(PixmapRef::from_bytes(&data, 3, 1).is_none());
    assert!(PixmapRef::from_bytes(&data, 0, 1).is_none());
    assert!(PixmapRef::from_bytes(&data, 0x2000_0000, 1).is_none());
    assert!(PixmapRef::from_bytes(&[], 1, 1).is_none());
}

#[test]
fn from_bytes_with_type_takes_more_than_it_needs() {
    let data = [3; 15];
    let make = |w, h, s| PixmapRef::from_bytes_with_type(&data, w, h, s, PixelType::Rgba8U);
    let pixmap = make(1, 3, 5).unwrap();
    assert_eq!((pixmap.width(), pixmap.height(), pixmap.stride()), (1, 3, 5));
    let pixmap = make(1, 3, 4).unwrap();
    assert_eq!((pixmap.height(), pixmap.stride()), (3, 4));
    assert_eq!(pixmap.data(), &data);
    assert_eq!(pixmap.pixel(0, 2), Some(color(3, 3, 3, 3)));
    assert_eq!(pixmap.to_owned().data(), &[3; 12]);
    assert!(make(2, 3, 5).is_none());
    assert!(make(1, 4, 5).is_none());
    assert!(make(1, 3, 6).is_none());
    assert!(make(1, 0, 5).is_none());
    assert!(make(1, 2, usize::MAX).is_none());
    let eight = PixmapRef::from_bytes_with_type(&[0u8; 8], 1, 1, 4, PixelType::Rgba8U);
    assert!(eight.is_some());
}

#[test]
fn mutable_constructors_check_the_same() {
    let mut data = [0; 15];
    assert!(PixmapMut::from_bytes(&mut data, 2, 2).is_none());
    assert!(PixmapMut::from_bytes(&mut data, 2, 0).is_none());
    assert!(PixmapMut::from_bytes_with_type(&mut data, 1, 3, 6, PixelType::Rgba8U).is_none());
    assert!(PixmapMut::from_bytes_with_type(&mut data, 1, 3, 3, PixelType::Rgba8U).is_none());
    assert!(PixmapMut::from_bytes_with_type(&mut data, 1, 3, 5, PixelType::Rgba8U).is_some());
    assert!(PixmapMut::from_bytes_with_type(&mut data, 1, 3, 4, PixelType::Rgba8U).is_some());
    let mut pixmap = PixmapMut::from_bytes(&mut data, 3, 1).unwrap();
    assert_eq!((pixmap.width(), pixmap.height(), pixmap.stride()), (3, 1, 12));
    assert_eq!(pixmap.pixel_type(), PixelType::Rgba8U);
    pixmap.fill(color(1, 2, 3, 4));
    assert_eq!(pixmap.as_ref().pixel(2, 0), Some(color(1, 2, 3, 4)));
    pixmap.data_mut()[0] = 9;
    assert_eq!(data, [9, 2, 3, 4, 1, 2, 3, 4, 1, 2, 3, 4, 0, 0, 0]);
}

#[test]
fn fill_keeps_padding() {
    let mut data = [9; 22];
    let mut pixmap =
        PixmapMut::from_bytes_with_type(&mut data, 2, 2, 11, PixelType::Rgba8U).unwrap();
    pixmap.fill(color(1, 2, 3, 4));
    pixmap.fill(color(5, 6, 7, 8));
    assert_eq!(
        data,
        [5, 6, 7, 8, 5, 6, 7, 8, 9, 9, 9, 5, 6, 7, 8, 5, 6, 7, 8, 9, 9, 9]
    );
}

#[test]
fn pixel_out_of_bounds_is_none() {
    let pixmap = positions(3, 2, 12);
    assert_eq!(pixmap.pixel(2, 1), Some(color(2, 1, 7, 255)));
    assert_eq!(pixmap.pixel(3, 1), None);
    assert_eq!(pixmap.pixel(2, 2), None);
    assert_eq!(pixmap.pixel(u32::MAX, u32::MAX), None);
}

#[test]
fn subpixmap_shares_the_memory() {
    let pixmap = positions(6, 5, 27);
    let part = pixmap.as_ref().subpixmap(IntRect::from_xywh(2, 1, 9, 3).unwrap());
    let part = part.unwrap();
    assert_eq!((part.width(), part.height(), part.stride()), (4, 3, 27));
    assert_eq!(part.data().len(), pixmap.data().len() - 27 - 8);
    assert_eq!(part.pixel(0, 0), Some(color(2, 1, 7, 255)));
    assert_eq!(part.pixel(3, 2), Some(color(5, 3, 7, 255)));
    let inner = part.subpixmap(IntRect::from_xywh(1, 2, 1, 1).unwrap()).unwrap();
    assert_eq!(inner.pixel(0, 0), Some(color(3, 3, 7, 255)));
}

#[test]
fn last_row_of_a_part_has_colors() {
    let pixmap = positions(4, 4, 16);
    let part = pixmap.as_ref().subpixmap(IntRect::from_xywh(1, 1, 3, 3).unwrap()).unwrap();
    assert_eq!(part.pixel(2, 2), Some(color(3, 3, 7, 255)));
}

#[test]
fn filling_a_part_fills_that_rect() {
    let mut pixmap = positions(6, 5, 27);
    let before = pixmap.clone();
    let red = color(200, 0, 0, 200);
    let mut whole = pixmap.as_mut();
    whole.subpixmap(IntRect::from_xywh(4, 3, 10, 10).unwrap()).unwrap().fill(red);
    assert!(whole.subpixmap(IntRect::from_xywh(6, 0, 1, 1).unwrap()).is_none());
    for y in 0..5 {
        for x in 0..6 {
            let inside = x >= 4 && y >= 3;
            let want = if inside { Some(red) } else { before.pixel(x, y) };
            assert_eq!(pixmap.pixel(x, y), want);
        }
    }
}

#[test]
fn whole_part_is_the_pixmap() {
    let pixmap = positions(6, 5, 27);
    let part = pixmap.as_ref().subpixmap(IntRect::from_xywh(0, 0, 6, 5).unwrap()).unwrap();
    assert!(part == pixmap.as_ref());
}

#[test]
fn to_owned_drops_padding() {
    let pixmap = positions(3, 3, 17);
    let copy = pixmap.as_ref().to_owned();
    assert_eq!(copy.stride(), 12);
    assert_eq!(copy.data().len(), 36);
    for y in 0..3 {
        for x in 0..3 {
            assert_eq!(copy.pixel(x, y), pixmap.pixel(x, y));
        }
    }
    assert_eq!(copy.as_ref().to_owned(), copy);
    let mut other = pixmap.clone();
    assert_eq!(other.as_mut().to_owned(), copy);
}

#[test]
fn take_demultiplied_takes_alpha_out() {
    let size = IntSize::from_wh(3, 1).unwrap();
    let data = vec![39, 78, 118, 200, 1, 2, 3, 255, 0, 0, 0, 0];
    let pixmap = Pixmap::from_vec(data, size).unwrap();
    assert_eq!(
        bytes_of(pixmap.take_demultiplied()),
        vec![50, 99, 150, 200, 1, 2, 3, 255, 0, 0, 0, 0]
    );
}

#[test]
fn take_demultiplied_goes_row_by_row() {
    let mut data = vec![0; 10];
    data[0..4].copy_from_slice(&[50, 0, 25, 100]);
    data[5..9].copy_from_slice(&[10, 20, 30, 60]);
    data[4] = 77;
    data[9] = 88;
    let memory = AlignedMemory::Align1(data.into_boxed_slice());
    let pixmap = Pixmap::from_mem_with_type(memory, 1, 2, 5, PixelType::Rgba8U).unwrap();
    assert_eq!(
        bytes_of(pixmap.take_demultiplied()),
        vec![128, 0, 64, 100, 77, 43, 85, 128, 60, 88]
    );
}

#[test]
fn row_bytes_are_limited() {
    let size = |w, h| IntSize::from_wh(w, h).unwrap();
    assert_eq!(min_row_bytes(size(3, 7), PixelType::Rgba8U), Some(12));
    assert_eq!(min_row_bytes(size(0x1FFF_FFFF, 1), PixelType::Rgba8U), Some(0x7FFF_FFFC));
    assert_eq!(min_row_bytes(size(0x2000_0000, 1), PixelType::Rgba8U), None);
    assert_eq!(min_row_bytes(size(u32::MAX, 1), PixelType::Rgba8U), None);
    assert_eq!(data_len_for_size(size(1, 7), 11), Some(77));
    assert_eq!(data_len_for_size(size(1, 2), usize::MAX), None);
}

#[test]
fn fills_and_copies_stay_premultiplied() {
    let mut pixmap = Pixmap::new_with_type(5, 4, 22, PixelType::Rgba8U).unwrap();
    pixmap.fill(PremultipliedColorU8::from_rgba(10, 20, 30, 40).unwrap());
    let part = pixmap.clone_rect(IntRect::from_xywh(3, 1, 9, 2).unwrap()).unwrap();
    for copy in [pixmap.as_ref().to_owned(), part] {
        for y in 0..copy.height() {
            for x in 0..copy.width() {
                let c = copy.pixel(x, y).unwrap();
                assert_eq!(PremultipliedColorU8::from_rgba(c.r, c.g, c.b, c.a), Some(c));
            }
        }
    }
}

#[test]
fn part_of_a_part_is_a_part() {
    let pixmap = positions(9, 8, 40);
    let outer = pixmap.as_ref().subpixmap(IntRect::from_xywh(2, 1, 6, 6).unwrap()).unwrap();
    let inner = outer.subpixmap(IntRect::from_xywh(1, 2, 3, 4).unwrap()).unwrap();
    let direct = pixmap.as_ref().subpixmap(IntRect::from_xywh(3, 3, 3, 4).unwrap()).unwrap();
    assert_eq!(inner, direct);
}
