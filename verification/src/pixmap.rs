//! Containers of pixels.
use vstd::prelude::*;

use crate::bytes::byte_len;
use crate::bytes::cast_pixels;
use crate::bytes::copy_rows;
use crate::bytes::fill_pixel_rows;
use crate::bytes::demultiply_rows;
use crate::bytes::into_boxed;
use crate::bytes::pixel_bytes;
use crate::color::PremultipliedColorU8;
use crate::geom::IntRect;
use crate::geom::IntSize;
use crate::raster::blank;
use crate::raster::layout_ok;
use crate::raster::lemma_cropped;
use crate::raster::lemma_filled;
use crate::raster::lemma_offset;
use crate::raster::lemma_packed;
use crate::raster::Raster;

verus! {

/// This determines how pixels are encoded in memory and map to real values.
///
/// This does NOT include color space information.
#[derive(Clone, Copy, Debug, PartialEq, Eq, PartialOrd, Ord, Hash, Structural)]
pub enum PixelType {
    /// 8 bit premultiplied integer values in R,G,B,A memory order.
    ///
    /// See [`PremultipliedColorU8`]. Unit white is (255,255,255,255).
    Rgba8U,
}

impl PixelType {
    /// The number of bytes per pixel.
    pub open spec fn bytes(self) -> int {
        match self {
            PixelType::Rgba8U => 4,
        }
    }

    /// Number of bytes per pixel
    pub fn size(&self) -> (n: u8)
        ensures
            n == self.bytes(),
    {
        match self {
            PixelType::Rgba8U => 4,
        }
    }

    /// Required memory alignment of each pixel
    pub fn alignment(&self) -> (n: u8)
        ensures
            n == (match *self {
                PixelType::Rgba8U => 1u8,
            }),
    {
        match self {
            PixelType::Rgba8U => 1,
        }
    }
}

/// An owned buffer which may have a particular alignment constraint, used by [`Pixmap`].
///
/// A pixel type with an alignment requirement greater than 1 cannot be stored in a
/// `Box<[u8]>`, because nothing guarantees that its data is aligned to a multiple of any
/// value other than 1.
///
/// Because strides need not be a multiple of the pixel size, the contents are a slice of
/// pixels only where the pixmap that they come from is tightly packed, which is what
/// [`Pixmap::new`] makes.
#[derive(Debug, PartialEq, Eq)]
pub enum AlignedMemory {
    /// Used for [`PixelType::Rgba8U`]
    Align1(Box<[u8]>),
}

impl View for AlignedMemory {
    type V = Seq<u8>;

    open spec fn view(&self) -> Seq<u8> {
        match self {
            AlignedMemory::Align1(mem) => mem@,
        }
    }
}

impl Clone for AlignedMemory {
    fn clone(&self) -> (r: Self)
        ensures
            r@ == self@,
    {
        match self {
            AlignedMemory::Align1(mem) => {
                let copy: Vec<u8> = vstd::slice::slice_to_vec(mem);
                AlignedMemory::Align1(into_boxed(copy))
            },
        }
    }
}

/// Returns minimum bytes per row.
///
/// Pixmap's maximum value for row bytes must fit in 31 bits.
pub fn min_row_bytes(size: IntSize, pixel_type: PixelType) -> (r: Option<usize>)
    requires
        size.valid(),
    ensures
        r is Some <==> size.w() * pixel_type.bytes() <= i32::MAX,
        r matches Some(n) ==> n == size.w() * pixel_type.bytes() && n > 0,
{
    let w: u32 = size.width();
    if w > i32::MAX as u32 {
        return None;
    }
    let w: i32 = (w as i32).checked_mul(pixel_type.size() as i32)?;
    Some(w as usize)
}

/// Returns storage size required by pixel array. Assumes stride is valid.
///
/// For simplicity, this requires the trailing row include the entire padding up to the
/// stride.
pub fn data_len_for_size(size: IntSize, stride: usize) -> (r: Option<usize>)
    ensures
        r is Some <==> size.h() * stride <= usize::MAX,
        r matches Some(n) ==> n == size.h() * stride,
{
    (size.height() as usize).checked_mul(stride)
}

/// A container that references premultiplied RGBA pixels.
///
/// Can be created from [`Pixmap`] or from a user provided data.
#[derive(Clone, Copy, Debug, PartialEq)]
pub struct PixmapRef<'a> {
    data: &'a [u8],
    size: IntSize,
    stride: usize,
    pixel_type: PixelType,
}

impl<'a> View for PixmapRef<'a> {
    type V = Raster;

    closed spec fn view(&self) -> Raster {
        Raster {
            bytes: self.data@,
            width: self.size.w() as int,
            height: self.size.h() as int,
            stride: self.stride as int,
            pixel_type: self.pixel_type,
        }
    }
}

impl<'a> PixmapRef<'a> {
    /// Creates a new `PixmapRef` from bytes.
    ///
    /// The size must be at least `size.width() * size.height() * PixelType::Rgba8U.size()`.
    /// Zero size is an error. Width is limited by i32::MAX/4.
    ///
    /// The `data` is assumed to have premultiplied RGBA pixels (byteorder: RGBA).
    pub fn from_bytes(data: &'a [u8], width: u32, height: u32) -> (r: Option<PixmapRef<'a>>)
        ensures
            r is Some <==> layout_ok(width as int, height as int, 4 * width, PixelType::Rgba8U)
                && height * (4 * width) <= data@.len(),
            r matches Some(p) ==> p@.valid() && p@ == (Raster {
                bytes: data@,
                width: width as int,
                height: height as int,
                stride: 4 * width,
                pixel_type: PixelType::Rgba8U,
            }),
    {
        let size = IntSize::from_wh(width, height)?;
        let stride: usize = min_row_bytes(size, PixelType::Rgba8U)?;
        let data_len: usize = data_len_for_size(size, stride)?;
        if byte_len(data) < data_len {
            return None;
        }
        proof {
            lemma_last_row(height as int, stride as int);
        }
        Some(PixmapRef { data, size, stride, pixel_type: PixelType::Rgba8U })
    }

    /// Creates a new `PixmapRef` from bytes.
    ///
    /// The size must be at least `size.width() * size.height() * pixel_type.size()`.
    /// Zero size is an error. Width is limited by i32::MAX/pixel_type.size().
    ///
    /// The `data` is assumed to have pixels following the given [`PixelType`]; it must have
    /// the minimum alignment of the [`PixelType`], which any byte has.
    pub fn from_bytes_with_type(
        data: &'a [u8],
        width: u32,
        height: u32,
        stride: usize,
        pixel_type: PixelType,
    ) -> (r: Option<PixmapRef<'a>>)
        ensures
            r is Some <==> layout_ok(width as int, height as int, stride as int, pixel_type)
                && height * stride <= data@.len(),
            r matches Some(p) ==> p@.valid() && p@ == (Raster {
                bytes: data@,
                width: width as int,
                height: height as int,
                stride: stride as int,
                pixel_type,
            }),
    {
        let size = IntSize::from_wh(width, height)?;
        let min_stride: usize = min_row_bytes(size, pixel_type)?;
        if min_stride > stride {
            return None;
        }
        let data_len: usize = data_len_for_size(size, stride)?;
        if byte_len(data) < data_len {
            return None;
        }
        proof {
            lemma_last_row(height as int, stride as int);
        }
        Some(PixmapRef { data, size, stride, pixel_type })
    }

    /// Creates a new `Pixmap` from the current data.
    ///
    /// Clones the pixels without their padding.
    pub fn to_owned(&self) -> (r: Pixmap)
        requires
            self@.valid(),
        ensures
            r.wf(),
            r@ == self@.packed(),
    {
        // Create a tightly packed copy, so that views of larger images don't copy the
        // entire thing.
        proof {
            lemma_packed(self@);
        }
        let new_stride: usize = self.width() as usize * self.pixel_type.size() as usize;
        let len: usize = self.height() as usize * new_stride;
        let mut bytes: Vec<u8> = vec![0u8; len];
        copy_rows(
            bytes.as_mut_slice(),
            new_stride,
            self.data,
            self.stride,
            self.height(),
            new_stride,
        );
        proof {
            let want = self@.packed().bytes;
            let n = new_stride as int;
            assert forall|i: int| 0 <= i < len implies bytes@[i] == want[i] by {
                assert(i / n < self@.height && 0 <= i % n < n) by (nonlinear_arith)
                    requires
                        0 <= i < self@.height * n,
                        0 < n,
                ;
            }
            assert(bytes@ =~= want);
        }
        Pixmap {
            data: AlignedMemory::Align1(into_boxed(bytes)),
            size: self.size,
            stride: new_stride,
            pixel_type: self.pixel_type,
        }
    }

    /// Returns pixmap's width.
    pub fn width(&self) -> (r: u32)
        ensures
            r == self@.width,
    {
        self.size.width()
    }

    /// Returns pixmap's height.
    pub fn height(&self) -> (r: u32)
        ensures
            r == self@.height,
    {
        self.size.height()
    }

    /// Returns pixmap's pixel type
    pub fn pixel_type(&self) -> (r: PixelType)
        ensures
            r == self@.pixel_type,
    {
        self.pixel_type
    }

    /// Returns pixmap's stride (spacing in bytes between the starts of rows)
    pub fn stride(&self) -> (r: usize)
        ensures
            r == self@.stride,
    {
        self.stride
    }

    /// Returns pixmap's size.
    pub fn size(&self) -> (r: IntSize)
        ensures
            r.w() == self@.width,
            r.h() == self@.height,
    {
        self.size
    }

    /// Returns the internal data.
    pub fn data(&self) -> (r: &'a [u8])
        ensures
            r@ == self@.bytes,
    {
        self.data
    }

    /// Returns a pixel's color.
    ///
    /// Returns `None` when position is out of bounds.
    pub fn pixel(&self, x: u32, y: u32) -> (r: Option<PremultipliedColorU8>)
        requires
            self@.valid(),
        ensures
            r == (if self@.contains(x as int, y as int) {
                Some(self@.color(x as int, y as int))
            } else {
                None
            }),
    {
        if y >= self.height() || x >= self.width() {
            return None;
        }
        proof {
            lemma_offset(self@, x as int, y as int);
        }
        let start: usize = y as usize * self.stride;
        match self.pixel_type {
            PixelType::Rgba8U => {
                let row = &self.data[start..start + self.width() as usize * 4];
                let pixels = cast_pixels(row);
                proof {
                    let n = pixel_bytes(pixels@).len();
                    assert(n == 4 * pixels@.len());
                    assert forall|j: int| 0 <= j < 4 implies pixels@[x as int]@[j]
                        == self@.bytes[self@.offset(x as int, y as int) + j] by {
                        assert(pixel_bytes(pixels@)[4 * x + j] == pixels@[x as int]@[j]);
                    }
                }
                Some(PremultipliedColorU8::from_bytes(pixels[x as usize]))
            },
        }
    }

    /// Returns a copy of the pixmap that intersects the `rect`.
    ///
    /// Returns `None` when there is nothing of it in the pixmap.
    pub fn clone_rect(&self, rect: IntRect) -> (r: Option<Pixmap>)
        requires
            self@.valid(),
            self@.height <= i32::MAX,
            rect.valid(),
        ensures
            r is Some <==> self@.area(rect.xywh()) is Some,
            r matches Some(p) ==> p.wf() && p@ == self@.cropped(
                self@.area(rect.xywh())->0,
            ).packed(),
    {
        let part = self.subpixmap(rect)?;
        Some(part.to_owned())
    }

    /// Returns a reference to the pixmap region that intersects the `rect`.
    ///
    /// Returns `None` when there is nothing of it in the pixmap.
    pub fn subpixmap(&self, rect: IntRect) -> (r: Option<PixmapRef<'a>>)
        requires
            self@.valid(),
            self@.height <= i32::MAX,
            rect.valid(),
        ensures
            r is Some <==> self@.area(rect.xywh()) is Some,
            r matches Some(p) ==> p@.valid() && p@ == self@.cropped(self@.area(rect.xywh())->0),
    {
        let rect = self.size.to_int_rect(0, 0).intersect(&rect)?;
        proof {
            lemma_cropped(self@, rect.xywh());
        }
        let offset: usize = rect.top() as usize * self.stride + rect.left() as usize
            * self.pixel_type.size() as usize;
        let end: usize = self.data.len();
        Some(
            PixmapRef {
                size: rect.size(),
                stride: self.stride,
                data: &self.data[offset..end],
                pixel_type: self.pixel_type,
            },
        )
    }
}

/// A container that owns premultiplied RGBA pixels.
///
/// The data is only guaranteed to be aligned to match the [`PixelType`].
#[derive(Debug, PartialEq)]
pub struct Pixmap {
    data: AlignedMemory,
    size: IntSize,
    /// The number of bytes between the starts of two rows
    stride: usize,
    pixel_type: PixelType,
}

impl View for Pixmap {
    type V = Raster;

    closed spec fn view(&self) -> Raster {
        Raster {
            bytes: self.data@,
            width: self.size.w() as int,
            height: self.size.h() as int,
            stride: self.stride as int,
            pixel_type: self.pixel_type,
        }
    }
}

impl Clone for Pixmap {
    fn clone(&self) -> (r: Self)
        ensures
            r@ == self@,
    {
        Pixmap {
            data: self.data.clone(),
            size: self.size,
            stride: self.stride,
            pixel_type: self.pixel_type,
        }
    }
}

impl Pixmap {
    /// Whether the pixmap's memory is that of its rows.
    pub open spec fn wf(&self) -> bool {
        self@.valid() && self@.whole()
    }

    /// Allocates a new pixmap.
    ///
    /// A pixmap is filled with transparent black by default, aka (0, 0, 0, 0).
    ///
    /// Zero size is an error.
    ///
    /// Pixmap's width is limited by i32::MAX/4.
    pub fn new(width: u32, height: u32) -> (r: Option<Pixmap>)
        requires
            layout_ok(width as int, height as int, 4 * width, PixelType::Rgba8U) ==> height * (4
                * width) <= isize::MAX,
        ensures
            r is Some <==> layout_ok(width as int, height as int, 4 * width, PixelType::Rgba8U),
            r matches Some(p) ==> p.wf() && p@ == blank(
                width as int,
                height as int,
                4 * width,
                PixelType::Rgba8U,
            ),
    {
        let size = IntSize::from_wh(width, height)?;
        let stride: usize = min_row_bytes(size, PixelType::Rgba8U)?;
        let data_len: usize = data_len_for_size(size, stride)?;
        let zeros: Vec<u8> = vec![0u8; data_len];
        let data = AlignedMemory::Align1(into_boxed(zeros));
        let r = Pixmap { data, size, stride, pixel_type: PixelType::Rgba8U };
        proof {
            lemma_last_row(height as int, stride as int);
            assert(r@.bytes =~= blank(
                width as int,
                height as int,
                4 * width,
                PixelType::Rgba8U,
            ).bytes);
        }
        Some(r)
    }

    /// Allocates a new pixmap with the provided parameters.
    ///
    /// A pixmap is filled with transparent black by default.
    ///
    /// Zero size is an error.
    ///
    /// Pixmap's width is limited by i32::MAX/pixel_type.size().
    pub fn new_with_type(
        width: u32,
        height: u32,
        stride: usize,
        pixel_type: PixelType,
    ) -> (r: Option<Pixmap>)
        requires
            layout_ok(width as int, height as int, stride as int, pixel_type) ==> height * stride
                <= isize::MAX,
        ensures
            r is Some <==> layout_ok(width as int, height as int, stride as int, pixel_type),
            r matches Some(p) ==> p.wf() && p@ == blank(
                width as int,
                height as int,
                stride as int,
                pixel_type,
            ),
    {
        let size = IntSize::from_wh(width, height)?;
        let min_stride: usize = min_row_bytes(size, pixel_type)?;
        if min_stride > stride {
            return None;
        }
        let data_len: usize = data_len_for_size(size, stride)?;
        let zeros: Vec<u8> = vec![0u8; data_len];
        let data = AlignedMemory::Align1(into_boxed(zeros));
        let r = Pixmap { data, size, stride, pixel_type };
        proof {
            lemma_last_row(height as int, stride as int);
            assert(r@.bytes =~= blank(
                width as int,
                height as int,
                stride as int,
                pixel_type,
            ).bytes);
        }
        Some(r)
    }

    /// Creates a new pixmap by taking ownership over a buffer with the provided
    /// parameters.
    ///
    /// The size of the buffer needs to be `height * stride`.
    ///
    /// Zero size is an error.
    ///
    /// Pixmap's width is limited by i32::MAX/pixel_type.size().
    pub fn from_mem_with_type(
        data: AlignedMemory,
        width: u32,
        height: u32,
        stride: usize,
        pixel_type: PixelType,
    ) -> (r: Option<Pixmap>)
        ensures
            r is Some <==> layout_ok(width as int, height as int, stride as int, pixel_type)
                && height * stride == data@.len(),
            r matches Some(p) ==> p.wf() && p@ == (Raster {
                bytes: data@,
                width: width as int,
                height: height as int,
                stride: stride as int,
                pixel_type,
            }),
    {
        let size = IntSize::from_wh(width, height)?;
        let min_stride: usize = min_row_bytes(size, pixel_type)?;
        if min_stride > stride {
            return None;
        }
        let data_len: usize = data_len_for_size(size, stride)?;
        let AlignedMemory::Align1(buf) = &data;
        if byte_len(buf) != data_len {
            return None;
        }
        proof {
            lemma_last_row(height as int, stride as int);
        }
        Some(Pixmap { data, size, stride, pixel_type })
    }

    /// Creates a new pixmap by taking ownership over an image buffer
    /// containing tightly packed premultiplied RGBA pixels.
    ///
    /// The size needs to match the data provided.
    ///
    /// Pixmap's width is limited by i32::MAX/4.
    pub fn from_vec(data: Vec<u8>, size: IntSize) -> (r: Option<Pixmap>)
        requires
            size.valid(),
        ensures
            r is Some <==> layout_ok(
                size.w() as int,
                size.h() as int,
                4 * size.w(),
                PixelType::Rgba8U,
            ) && size.h() * (4 * size.w()) == data@.len(),
            r matches Some(p) ==> p.wf() && p@ == (Raster {
                bytes: data@,
                width: size.w() as int,
                height: size.h() as int,
                stride: 4 * size.w(),
                pixel_type: PixelType::Rgba8U,
            }),
    {
        let stride: usize = min_row_bytes(size, PixelType::Rgba8U)?;
        let data_len: usize = data_len_for_size(size, stride)?;
        if byte_len(data.as_slice()) != data_len {
            return None;
        }
        proof {
            lemma_last_row(size.h() as int, stride as int);
        }
        Some(
            Pixmap {
                data: AlignedMemory::Align1(into_boxed(data)),
                size,
                stride,
                pixel_type: PixelType::Rgba8U,
            },
        )
    }

    /// Returns a container that references Pixmap's data.
    pub fn as_ref(&self) -> (r: PixmapRef<'_>)
        ensures
            r@ == self@,
    {
        PixmapRef {
            data: self.data(),
            size: self.size,
            stride: self.stride,
            pixel_type: self.pixel_type,
        }
    }

    /// Returns a container that references Pixmap's data.
    pub fn as_mut(&mut self) -> (r: PixmapMut<'_>)
        ensures
            r@ == old(self)@,
            final(self)@ == (Raster { bytes: final(r.data)@, ..old(self)@ }),
    {
        let (size, stride, pixel_type) = (self.size, self.stride, self.pixel_type);
        PixmapMut { data: self.data_mut(), size, stride, pixel_type }
    }

    /// Returns pixmap's width.
    pub fn width(&self) -> (r: u32)
        ensures
            r == self@.width,
    {
        self.size.width()
    }

    /// Returns pixmap's height.
    pub fn height(&self) -> (r: u32)
        ensures
            r == self@.height,
    {
        self.size.height()
    }

    /// Returns pixmap's pixel type
    pub fn pixel_type(&self) -> (r: PixelType)
        ensures
            r == self@.pixel_type,
    {
        self.pixel_type
    }

    /// Returns pixmap's stride (spacing in bytes between the starts of rows)
    pub fn stride(&self) -> (r: usize)
        ensures
            r == self@.stride,
    {
        self.stride
    }

    /// Returns pixmap's size.
    pub fn size(&self) -> (r: IntSize)
        ensures
            r.w() == self@.width,
            r.h() == self@.height,
    {
        self.size
    }

    /// Fills the entire pixmap with a specified color.
    pub fn fill(&mut self, color: PremultipliedColorU8)
        requires
            old(self).wf(),
        ensures
            final(self).wf(),
            final(self)@ == old(self)@.filled(0, 0, old(self)@.width, old(self)@.height, color),
    {
        proof {
            lemma_filled(self@, 0, 0, self@.width, self@.height, color);
        }
        self.as_mut().fill(color);
    }

    /// Returns the internal data.
    ///
    /// Byteorder: RGBA
    pub fn data(&self) -> (r: &[u8])
        ensures
            r@ == self@.bytes,
    {
        match &self.data {
            AlignedMemory::Align1(mem) => mem,
        }
    }

    /// Returns the mutable internal data.
    ///
    /// Byteorder: RGBA
    pub fn data_mut(&mut self) -> (r: &mut [u8])
        ensures
            r@ == old(self)@.bytes,
            final(self)@ == (Raster { bytes: final(r)@, ..old(self)@ }),
    {
        match &mut self.data {
            AlignedMemory::Align1(mem) => mem,
        }
    }

    /// Returns a pixel's color.
    ///
    /// Returns `None` when position is out of bounds.
    pub fn pixel(&self, x: u32, y: u32) -> (r: Option<PremultipliedColorU8>)
        requires
            self.wf(),
        ensures
            r == (if self@.contains(x as int, y as int) {
                Some(self@.color(x as int, y as int))
            } else {
                None
            }),
    {
        self.as_ref().pixel(x, y)
    }

    /// Consumes the internal data.
    ///
    /// See [`PixelType`] and [`Self::stride`] for the data layout.
    pub fn take(self) -> (r: AlignedMemory)
        ensures
            r@ == self@.bytes,
    {
        self.data
    }

    /// Consumes the pixmap and returns the internal data as demultiplied RGBA bytes.
    ///
    /// See [`PixelType`] for the data layout.
    pub fn take_demultiplied(self) -> (r: AlignedMemory)
        requires
            self.wf(),
        ensures
            r@ == self@.demultiplied_bytes(),
    {
        let mut pixmap = self;
        let (stride, height) = (pixmap.stride, pixmap.height());
        match pixmap.pixel_type {
            PixelType::Rgba8U => {
                demultiply_rows(pixmap.data_mut(), stride, height);
            },
        }
        pixmap.data
    }

    /// Returns a copy of the pixmap that intersects the `rect`.
    ///
    /// Returns `None` when there is nothing of it in the pixmap.
    pub fn clone_rect(&self, rect: IntRect) -> (r: Option<Pixmap>)
        requires
            self.wf(),
            self@.height <= i32::MAX,
            rect.valid(),
        ensures
            r is Some <==> self@.area(rect.xywh()) is Some,
            r matches Some(p) ==> p.wf() && p@ == self@.cropped(
                self@.area(rect.xywh())->0,
            ).packed(),
    {
        self.as_ref().clone_rect(rect)
    }
}

/// A container that references mutable premultiplied RGBA pixels.
///
/// Can be created from [`Pixmap`] or from a user provided data.
///
/// This may have any stride >= width * sizeof(one pixel of [`PixelType`]).
///
/// The fields are public so that a contract can speak of what the borrowed bytes are
/// when the borrow ends.
#[derive(Debug, PartialEq)]
pub struct PixmapMut<'a> {
    pub data: &'a mut [u8],
    pub size: IntSize,
    pub stride: usize,
    pub pixel_type: PixelType,
}

impl<'a> View for PixmapMut<'a> {
    type V = Raster;

    open spec fn view(&self) -> Raster {
        Raster {
            bytes: self.data@,
            width: self.size.w() as int,
            height: self.size.h() as int,
            stride: self.stride as int,
            pixel_type: self.pixel_type,
        }
    }
}

impl<'a> PixmapMut<'a> {
    /// Creates a new `PixmapMut` from bytes.
    ///
    /// The size must be at least `size.width() * size.height() * 4`.
    /// Zero size is an error. Width is limited by i32::MAX/4.
    ///
    /// The `data` is assumed to have premultiplied RGBA pixels (see [`PixelType::Rgba8U`]).
    pub fn from_bytes(data: &'a mut [u8], width: u32, height: u32) -> (r: Option<PixmapMut<'a>>)
        ensures
            r is Some <==> layout_ok(width as int, height as int, 4 * width, PixelType::Rgba8U)
                && height * (4 * width) <= old(data)@.len(),
            match r {
                Some(p) => p@.valid() && final(data)@ == final(p.data)@ && p@ == (Raster {
                    bytes: old(data)@,
                    width: width as int,
                    height: height as int,
                    stride: 4 * width,
                    pixel_type: PixelType::Rgba8U,
                }),
                None => final(data)@ == old(data)@,
            },
    {
        let size = IntSize::from_wh(width, height)?;
        let stride: usize = min_row_bytes(size, PixelType::Rgba8U)?;
        let data_len: usize = data_len_for_size(size, stride)?;
        if byte_len(data) < data_len {
            return None;
        }
        proof {
            lemma_last_row(height as int, stride as int);
        }
        Some(PixmapMut { data, size, stride, pixel_type: PixelType::Rgba8U })
    }

    /// Creates a new `PixmapMut` from bytes.
    ///
    /// The size must be at least `size.width() * size.height() * pixel_type.size()`.
    /// Zero size is an error. Width is limited by i32::MAX/pixel_type.size().
    ///
    /// The `data` is assumed to have pixels following the given [`PixelType`]; it must have
    /// the minimum alignment of the [`PixelType`], which any byte has.
    pub fn from_bytes_with_type(
        data: &'a mut [u8],
        width: u32,
        height: u32,
        stride: usize,
        pixel_type: PixelType,
    ) -> (r: Option<PixmapMut<'a>>)
        ensures
            r is Some <==> layout_ok(width as int, height as int, stride as int, pixel_type)
                && height * stride <= old(data)@.len(),
            match r {
                Some(p) => p@.valid() && final(data)@ == final(p.data)@ && p@ == (Raster {
                    bytes: old(data)@,
                    width: width as int,
                    height: height as int,
                    stride: stride as int,
                    pixel_type,
                }),
                None => final(data)@ == old(data)@,
            },
    {
        let size = IntSize::from_wh(width, height)?;
        let min_stride: usize = min_row_bytes(size, pixel_type)?;
        if min_stride > stride {
            return None;
        }
        let data_len: usize = data_len_for_size(size, stride)?;
        if byte_len(data) < data_len {
            return None;
        }
        proof {
            lemma_last_row(height as int, stride as int);
        }
        Some(PixmapMut { data, size, stride, pixel_type })
    }

    /// Creates a new `Pixmap` from the current data.
    ///
    /// Clones the pixels without their padding.
    pub fn to_owned(&self) -> (r: Pixmap)
        requires
            self@.valid(),
        ensures
            r.wf(),
            r@ == self@.packed(),
    {
        self.as_ref().to_owned()
    }

    /// Returns a container that references Pixmap's data.
    pub fn as_ref(&self) -> (r: PixmapRef<'_>)
        ensures
            r@ == self@,
    {
        PixmapRef {
            data: self.data,
            size: self.size,
            stride: self.stride,
            pixel_type: self.pixel_type,
        }
    }

    /// Returns pixmap's width.
    pub fn width(&self) -> (r: u32)
        ensures
            r == self@.width,
    {
        self.size.width()
    }

    /// Returns pixmap's height.
    pub fn height(&self) -> (r: u32)
        ensures
            r == self@.height,
    {
        self.size.height()
    }

    /// Returns pixmap's pixel type
    pub fn pixel_type(&self) -> (r: PixelType)
        ensures
            r == self@.pixel_type,
    {
        self.pixel_type
    }

    /// Returns pixmap's stride (spacing in bytes between the starts of rows)
    pub fn stride(&self) -> (r: usize)
        ensures
            r == self@.stride,
    {
        self.stride
    }

    /// Returns pixmap's size.
    pub fn size(&self) -> (r: IntSize)
        ensures
            r == self.size,
            r.w() == self@.width,
            r.h() == self@.height,
    {
        self.size
    }

    /// Fills the entire pixmap with a specified color.
    pub fn fill(&mut self, color: PremultipliedColorU8)
        requires
            old(self)@.valid(),
        ensures
            final(self)@.valid(),
            final(self)@ == old(self)@.filled(0, 0, old(self)@.width, old(self)@.height, color),
            final(self)@.bytes.len() == old(self)@.bytes.len(),
            final(self).size == old(self).size,
            final(final(self).data)@ == final(old(self).data)@,
    {
        match self.pixel_type {
            PixelType::Rgba8U => {
                let (width, height, stride) = (self.width(), self.height(), self.stride);
                proof {
                    lemma_filled(self@, 0, 0, self@.width, self@.height, color);
                }
                fill_pixel_rows(self.data, 0, stride, height, width as usize, color);
            },
        }
    }

    /// Returns the mutable internal data.
    pub fn data_mut(&mut self) -> (r: &mut [u8])
        ensures
            r@ == old(self)@.bytes,
            final(self)@ == (Raster { bytes: final(r)@, ..old(self)@ }),
            final(self).size == old(self).size,
            final(final(self).data)@ == final(old(self).data)@,
    {
        self.data
    }

    /// Returns a mutable reference to the pixmap region that intersects the `rect`.
    ///
    /// Returns `None` when there is nothing of it in the pixmap.
    pub fn subpixmap(&mut self, rect: IntRect) -> (r: Option<PixmapMut<'_>>)
        requires
            old(self)@.valid(),
            old(self)@.height <= i32::MAX,
            rect.valid(),
        ensures
            r is Some <==> old(self)@.area(rect.xywh()) is Some,
            match r {
                Some(p) => {
                    let area = old(self)@.area(rect.xywh())->0;
                    let offset = old(self)@.offset(area.0 as int, area.1 as int);
                    &&& p@.valid()
                    &&& p@ == old(self)@.cropped(area)
                    &&& final(self)@ == (Raster {
                        bytes: old(self)@.bytes.take(offset) + final(p.data)@,
                        ..old(self)@
                    })
                },
                None => final(self)@ == old(self)@,
            },
            final(self).size == old(self).size,
            final(final(self).data)@ == final(old(self).data)@,
    {
        let rect = self.size.to_int_rect(0, 0).intersect(&rect)?;
        proof {
            lemma_cropped(self@, rect.xywh());
        }
        let offset: usize = rect.top() as usize * self.stride + rect.left() as usize
            * self.pixel_type.size() as usize;
        let (stride, pixel_type) = (self.stride, self.pixel_type);
        let (head, tail) = self.data.split_at_mut(offset);
        Some(PixmapMut { size: rect.size(), stride, data: tail, pixel_type })
    }
}

proof fn lemma_last_row(height: int, stride: int)
    ensures
        (height - 1) * stride + stride == height * stride,
{
    assert((height - 1) * stride + stride == height * stride) by (nonlinear_arith);
}

} // verus!
