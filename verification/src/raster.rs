//! What a block of pixels is: the model that the contracts of the pixmaps speak of.
use vstd::prelude::*;

use crate::bytes::law_rows_filled_bytes;
use crate::bytes::lemma_rows_filled_len;
use crate::bytes::rows_demultiplied;
use crate::bytes::rows_filled;
use crate::color::PremultipliedColorU8;
use crate::geom::rect_ok;
use crate::geom::shared_area;
use crate::geom::Xywh;
use crate::pixmap::PixelType;

verus! {

/// Rows of pixels in a sequence of bytes. Each row starts `stride` bytes after the one
/// above it, and what a row has behind its pixels is padding.
pub struct Raster {
    pub bytes: Seq<u8>,
    pub width: int,
    pub height: int,
    pub stride: int,
    pub pixel_type: PixelType,
}

/// Whether a pixmap of these measures can exist.
///
/// It has an area, a row of its pixels is within the limit and within the stride, and
/// the number of its bytes can be written down.
pub open spec fn layout_ok(width: int, height: int, stride: int, pixel_type: PixelType) -> bool {
    &&& 0 < width
    &&& 0 < height
    &&& width * pixel_type.bytes() <= i32::MAX
    &&& width * pixel_type.bytes() <= stride
    &&& height * stride <= usize::MAX
}

/// A pixmap of these measures with all of its bytes zero.
pub open spec fn blank(width: int, height: int, stride: int, pixel_type: PixelType) -> Raster {
    Raster {
        bytes: Seq::new((height * stride) as nat, |i: int| 0u8),
        width,
        height,
        stride,
        pixel_type,
    }
}

impl Raster {
    /// The number of bytes in a row's pixels.
    pub open spec fn row_len(self) -> int {
        self.width * self.pixel_type.bytes()
    }

    /// Whether every pixel lies in the bytes, and all of the measures are within their
    /// limits.
    pub open spec fn valid(self) -> bool {
        &&& 0 < self.width <= u32::MAX
        &&& 0 < self.height <= u32::MAX
        &&& self.row_len() <= i32::MAX
        &&& self.row_len() <= self.stride <= usize::MAX
        &&& (self.height - 1) * self.stride + self.row_len() <= self.bytes.len()
        &&& self.bytes.len() <= isize::MAX
    }

    /// Whether the bytes are those of the rows, the padding of the last one included.
    pub open spec fn whole(self) -> bool {
        self.bytes.len() == self.height * self.stride
    }

    /// Whether there is no padding.
    pub open spec fn tight(self) -> bool {
        self.stride == self.row_len()
    }

    /// Whether there is a pixel at a position.
    pub open spec fn contains(self, x: int, y: int) -> bool {
        0 <= x < self.width && 0 <= y < self.height
    }

    /// Where the pixel at a position starts.
    pub open spec fn offset(self, x: int, y: int) -> int {
        y * self.stride + x * self.pixel_type.bytes()
    }

    /// The color at a position.
    pub open spec fn color(self, x: int, y: int) -> PremultipliedColorU8 {
        PremultipliedColorU8::read(self.bytes, self.offset(x, y))
    }

    /// The same rows with `w` pixels of `h` rows, from a position on, set to a color.
    pub open spec fn filled(
        self,
        x: int,
        y: int,
        w: int,
        h: int,
        color: PremultipliedColorU8,
    ) -> Raster {
        Raster {
            bytes: rows_filled(
                self.bytes,
                self.offset(x, y),
                self.stride,
                h as nat,
                w,
                color.bytes(),
            ),
            ..self
        }
    }

    /// The part of a rectangle that lies in the raster, unless none does.
    pub open spec fn area(self, rect: Xywh) -> Option<Xywh> {
        shared_area((0, 0, self.width as u32, self.height as u32), rect)
    }

    /// The part of the pixels that an area covers, in the same memory.
    pub open spec fn cropped(self, area: Xywh) -> Raster {
        Raster {
            bytes: self.bytes.skip(self.offset(area.0 as int, area.1 as int)),
            width: area.2 as int,
            height: area.3 as int,
            ..self
        }
    }

    /// The same pixels without padding.
    pub open spec fn packed(self) -> Raster {
        Raster {
            bytes: Seq::new(
                (self.height * self.row_len()) as nat,
                |i: int| self.bytes[(i / self.row_len()) * self.stride + i % self.row_len()],
            ),
            stride: self.row_len(),
            ..self
        }
    }

    /// Whether all of the colors can be the result of a multiplication by their alpha.
    pub open spec fn premultiplied(self) -> bool {
        forall|x: int, y: int| #[trigger] self.contains(x, y) ==> self.color(x, y).valid()
    }

    /// The bytes with the alpha taken out of every color, row by row. What is left at the
    /// end of a row, after the last full four bytes, stays as it is.
    pub open spec fn demultiplied_bytes(self) -> Seq<u8> {
        rows_demultiplied(self.bytes, self.stride, self.height)
    }
}

pub(crate) proof fn lemma_offset(r: Raster, x: int, y: int)
    requires
        r.valid(),
        r.contains(x, y),
    ensures
        0 <= y * r.stride <= (r.height - 1) * r.stride,
        0 <= r.offset(x, y),
        0 <= x * 4,
        r.offset(x, y) + 4 <= y * r.stride + r.row_len() <= r.bytes.len(),
        y * r.stride + r.stride <= usize::MAX || y == r.height - 1,
{
    assert(0 <= y * r.stride <= (r.height - 1) * r.stride) by (nonlinear_arith)
        requires
            0 <= y <= r.height - 1,
            0 <= r.stride,
    ;
    if y < r.height - 1 {
        assert((y + 1) * r.stride <= (r.height - 1) * r.stride) by (nonlinear_arith)
            requires
                y + 1 <= r.height - 1,
                0 <= r.stride,
        ;
        assert((y + 1) * r.stride == y * r.stride + r.stride) by (nonlinear_arith);
    }
}

pub(crate) proof fn lemma_cropped(r: Raster, area: Xywh)
    requires
        r.valid(),
        0 <= area.0,
        0 <= area.1,
        0 < area.2,
        0 < area.3,
        area.0 + area.2 <= r.width,
        area.1 + area.3 <= r.height,
    ensures
        r.cropped(area).valid(),
        0 <= r.offset(area.0 as int, area.1 as int) <= r.bytes.len(),
        0 <= area.1 * r.stride <= r.offset(area.0 as int, area.1 as int),
{
    let c = r.cropped(area);
    let x = area.0 as int;
    let y = area.1 as int;
    let h = area.3 as int;
    lemma_offset(r, x, y);
    assert((y + h - 1) * r.stride <= (r.height - 1) * r.stride) by (nonlinear_arith)
        requires
            y + h <= r.height,
            0 <= r.stride,
    ;
    assert((y + h - 1) * r.stride == y * r.stride + (h - 1) * r.stride) by (nonlinear_arith);
}

/// Filling keeps a raster valid and all of its measures.
pub(crate) proof fn lemma_filled(
    r: Raster,
    x: int,
    y: int,
    w: int,
    h: int,
    color: PremultipliedColorU8,
)
    requires
        r.valid(),
        h >= 0,
    ensures
        r.filled(x, y, w, h, color).valid(),
        r.filled(x, y, w, h, color).bytes.len() == r.bytes.len(),
{
    lemma_rows_filled_len(r.bytes, r.offset(x, y), r.stride, h as nat, w, color.bytes());
}

pub(crate) proof fn lemma_packed(r: Raster)
    requires
        r.valid(),
    ensures
        r.packed().valid(),
        r.packed().whole(),
        r.packed().tight(),
        r.height * r.row_len() <= r.bytes.len(),
{
    assert((r.height - 1) * r.row_len() <= (r.height - 1) * r.stride) by (nonlinear_arith)
        requires
            0 <= r.height - 1,
            r.row_len() <= r.stride,
    ;
    assert((r.height - 1) * r.row_len() + r.row_len() == r.height * r.row_len())
        by (nonlinear_arith);
    assert(0 <= r.height * r.row_len()) by (nonlinear_arith)
        requires
            0 <= r.height,
            0 <= r.row_len(),
    ;
}

/// A copy without padding has the same color at every position.
pub proof fn law_packed_keeps_colors(r: Raster, x: int, y: int)
    requires
        r.valid(),
        r.contains(x, y),
    ensures
        r.packed().valid(),
        r.packed().contains(x, y),
        r.packed().color(x, y) == r.color(x, y),
{
    let p = r.packed();
    let n = r.row_len();
    lemma_packed(r);
    lemma_offset(p, x, y);
    let from = r.offset(x, y);
    let to = p.offset(x, y);
    assert forall|i: int| to <= i < to + 4 implies p.bytes[i] == r.bytes[from + (i - to)] by {
        vstd::arithmetic::div_mod::lemma_fundamental_div_mod_converse(i, n, y, 4 * x + (i - to));
    }
}

/// What a byte of a pixel is after a fill of a rectangle.
proof fn lemma_filled_byte(
    r: Raster,
    x: int,
    y: int,
    w: int,
    h: int,
    color: PremultipliedColorU8,
    px: int,
    py: int,
    j: int,
)
    requires
        r.valid(),
        0 <= x,
        0 <= y,
        0 <= w,
        0 <= h,
        x + w <= r.width,
        y + h <= r.height,
        r.contains(px, py),
        0 <= j < 4,
    ensures
        r.filled(x, y, w, h, color).bytes[r.offset(px, py) + j] == (if x <= px < x + w && y <= py < y
            + h {
            color.bytes()[j]
        } else {
            r.bytes[r.offset(px, py) + j]
        }),
{
    let s = r.stride;
    let start = r.offset(x, y);
    let i = r.offset(px, py) + j;
    let unit = color.bytes();
    assert(w * unit.len() == 4 * w) by (nonlinear_arith)
        requires
            unit.len() == 4,
    ;
    lemma_offset(r, px, py);
    law_rows_filled_bytes(r.bytes, start, s, h as nat, w, unit, i);
    assert(i - start == (py - y) * s + 4 * (px - x) + j) by (nonlinear_arith)
        requires
            i == py * s + px * 4 + j,
            start == y * s + x * 4,
    ;
    if py < y {
        assert((py - y) * s <= -s) by (nonlinear_arith)
            requires
                py - y <= -1,
                0 <= s,
        ;
    } else if px < x {
        assert(((py - y) * s) == (py - y - 1) * s + s) by (nonlinear_arith);
        vstd::arithmetic::div_mod::lemma_fundamental_div_mod_converse(
            i - start,
            s,
            py - y - 1,
            s + 4 * (px - x) + j,
        );
    } else {
        assert(0 <= (py - y) * s) by (nonlinear_arith)
            requires
                0 <= py - y,
                0 <= s,
        ;
        vstd::arithmetic::div_mod::lemma_fundamental_div_mod_converse(
            i - start,
            s,
            py - y,
            4 * (px - x) + j,
        );
        assert((4 * (px - x) + j) % 4 == j);
    }
}

/// A fill of a rectangle sets every pixel in it to the color, and no pixel outside of it.
pub proof fn law_filled_colors(
    r: Raster,
    x: int,
    y: int,
    w: int,
    h: int,
    color: PremultipliedColorU8,
    px: int,
    py: int,
)
    requires
        r.valid(),
        0 <= x,
        0 <= y,
        0 <= w,
        0 <= h,
        x + w <= r.width,
        y + h <= r.height,
        r.contains(px, py),
    ensures
        r.filled(x, y, w, h, color).color(px, py) == (if x <= px < x + w && y <= py < y + h {
            color
        } else {
            r.color(px, py)
        }),
{
    lemma_filled_byte(r, x, y, w, h, color, px, py, 0);
    lemma_filled_byte(r, x, y, w, h, color, px, py, 1);
    lemma_filled_byte(r, x, y, w, h, color, px, py, 2);
    lemma_filled_byte(r, x, y, w, h, color, px, py, 3);
}

/// A fill of everything leaves the padding behind every row as it is.
pub proof fn law_fill_keeps_padding(r: Raster, color: PremultipliedColorU8, i: int)
    requires
        r.valid(),
        0 <= i < r.bytes.len(),
        i / r.stride >= r.height || i % r.stride >= r.row_len(),
    ensures
        r.filled(0, 0, r.width, r.height, color).bytes[i] == r.bytes[i],
{
    let unit = color.bytes();
    assert(r.width * unit.len() == r.row_len()) by (nonlinear_arith)
        requires
            unit.len() == 4,
            r.row_len() == r.width * 4,
    ;
    assert(0 * r.stride == 0) by (nonlinear_arith);
    law_rows_filled_bytes(r.bytes, 0, r.stride, r.height as nat, r.width, unit, i);
}

/// The last of two fills of the same rectangle is the one that counts.
pub proof fn law_last_fill_counts(
    r: Raster,
    x: int,
    y: int,
    w: int,
    h: int,
    first: PremultipliedColorU8,
    last: PremultipliedColorU8,
)
    requires
        r.valid(),
        0 <= x,
        0 <= y,
        0 <= w,
        0 <= h,
        x + w <= r.width,
        y + h <= r.height,
    ensures
        r.filled(x, y, w, h, first).filled(x, y, w, h, last) == r.filled(x, y, w, h, last),
{
    let a = r.filled(x, y, w, h, first);
    let b = a.filled(x, y, w, h, last);
    let c = r.filled(x, y, w, h, last);
    lemma_filled(r, x, y, w, h, first);
    lemma_filled(a, x, y, w, h, last);
    lemma_filled(r, x, y, w, h, last);
    let start = r.offset(x, y);
    assert(w * first.bytes().len() == 4 * w && w * last.bytes().len() == 4 * w)
        by (nonlinear_arith)
        requires
            first.bytes().len() == 4,
            last.bytes().len() == 4,
    ;
    assert forall|i: int| 0 <= i < r.bytes.len() implies b.bytes[i] == c.bytes[i] by {
        law_rows_filled_bytes(r.bytes, start, r.stride, h as nat, w, first.bytes(), i);
        law_rows_filled_bytes(a.bytes, start, r.stride, h as nat, w, last.bytes(), i);
        law_rows_filled_bytes(r.bytes, start, r.stride, h as nat, w, last.bytes(), i);
    }
    assert(b.bytes =~= c.bytes);
}

/// A new pixmap is transparent black everywhere.
pub proof fn law_blank_is_transparent(
    width: int,
    height: int,
    stride: int,
    pixel_type: PixelType,
    x: int,
    y: int,
)
    requires
        blank(width, height, stride, pixel_type).valid(),
        blank(width, height, stride, pixel_type).contains(x, y),
    ensures
        blank(width, height, stride, pixel_type).color(x, y) == (PremultipliedColorU8 {
            r: 0,
            g: 0,
            b: 0,
            a: 0,
        }),
{
    lemma_offset(blank(width, height, stride, pixel_type), x, y);
}

/// A part of a raster has the colors that the raster has there.
pub proof fn law_cropped_keeps_colors(r: Raster, rect: Xywh, x: int, y: int)
    requires
        r.valid(),
        r.height <= i32::MAX,
        rect_ok(rect),
        r.area(rect) matches Some(area) && r.cropped(area).contains(x, y),
    ensures
        r.area(rect) matches Some(area) && {
            &&& r.cropped(area).valid()
            &&& r.contains(area.0 + x, area.1 + y)
            &&& r.cropped(area).color(x, y) == r.color(area.0 + x, area.1 + y)
        },
{
    let area = r.area(rect)->0;
    let (ax, ay) = (area.0 as int, area.1 as int);
    let s = r.stride;
    lemma_cropped(r, area);
    lemma_offset(r.cropped(area), x, y);
    lemma_offset(r, ax + x, ay + y);
    assert((ay + y) * s == ay * s + y * s) by (nonlinear_arith);
}

/// A copy of a part of a raster has the colors that the raster has there, and nothing
/// else: as many columns and rows as the area has, and no padding.
pub proof fn law_copied_part_keeps_colors(r: Raster, rect: Xywh, x: int, y: int)
    requires
        r.valid(),
        r.height <= i32::MAX,
        rect_ok(rect),
        r.area(rect) matches Some(area) && 0 <= x < area.2 && 0 <= y < area.3,
    ensures
        r.area(rect) matches Some(area) && {
            let copy = r.cropped(area).packed();
            &&& copy.width == area.2 && copy.height == area.3
            &&& copy.bytes.len() == area.2 * r.pixel_type.bytes() * area.3
            &&& copy.color(x, y) == r.color(area.0 + x, area.1 + y)
        },
{
    let area = r.area(rect)->0;
    let part = r.cropped(area);
    law_cropped_keeps_colors(r, rect, x, y);
    law_packed_keeps_colors(part, x, y);
    assert(part.height * part.row_len() == area.2 * r.pixel_type.bytes() * area.3)
        by (nonlinear_arith)
        requires
            part.height == area.3,
            part.row_len() == area.2 * r.pixel_type.bytes(),
    ;
    lemma_packed(part);
}

/// The part of a raster that the rectangle of all of it covers is the raster.
pub proof fn law_whole_crop_is_identity(r: Raster)
    requires
        r.valid(),
        r.height <= i32::MAX,
    ensures
        r.area((0, 0, r.width as u32, r.height as u32)) == Some(
            (0i32, 0i32, r.width as u32, r.height as u32),
        ),
        r.cropped((0, 0, r.width as u32, r.height as u32)) == r,
{
    assert(0 * r.stride == 0) by (nonlinear_arith);
    assert(r.bytes.skip(0) =~= r.bytes);
}

/// A copy without padding of a raster that has none is the raster.
pub proof fn law_packed_is_identity(r: Raster)
    requires
        r.valid(),
        r.whole(),
        r.tight(),
    ensures
        r.packed() == r,
{
    let n = r.row_len();
    lemma_packed(r);
    assert forall|i: int| 0 <= i < r.bytes.len() implies r.packed().bytes[i] == r.bytes[i] by {
        vstd::arithmetic::div_mod::lemma_fundamental_div_mod(i, n);
        assert(n * (i / n) == (i / n) * n) by (nonlinear_arith);
    }
    assert(r.packed().bytes =~= r.bytes);
}

/// The memory of a pixmap, with the pixmap's measures, is good for a pixmap.
pub proof fn law_memory_can_be_taken_back(r: Raster)
    requires
        r.valid(),
        r.whole(),
    ensures
        layout_ok(r.width, r.height, r.stride, r.pixel_type),
        r.height * r.stride == r.bytes.len(),
{
}

proof fn lemma_fill_behind(
    b: Seq<u8>,
    at: int,
    stride: int,
    rows: nat,
    count: int,
    unit: Seq<u8>,
)
    requires
        0 <= at <= b.len(),
        0 <= stride,
        0 < unit.len(),
    ensures
        b.take(at) + rows_filled(b.skip(at), 0, stride, rows, count, unit) == rows_filled(
            b,
            at,
            stride,
            rows,
            count,
            unit,
        ),
    decreases rows,
{
    if rows == 0 {
        assert(b.take(at) + b.skip(at) =~= b);
    } else {
        let n = (rows - 1) as nat;
        lemma_fill_behind(b, at, stride, n, count, unit);
        lemma_rows_filled_len(b.skip(at), 0, stride, n, count, unit);
        assert(0 <= n * stride) by (nonlinear_arith)
            requires
                0 <= n,
                0 <= stride,
        ;
        assert(b.take(at) + rows_filled(b.skip(at), 0, stride, rows, count, unit) =~= rows_filled(
            b,
            at,
            stride,
            rows,
            count,
            unit,
        ));
    }
}

/// Filling a part of a raster fills that part of the whole, and nothing else.
pub proof fn law_part_fill_is_rect_fill(r: Raster, rect: Xywh, color: PremultipliedColorU8)
    requires
        r.valid(),
        r.height <= i32::MAX,
        rect_ok(rect),
        r.area(rect) is Some,
    ensures
        r.area(rect) matches Some(area) && {
            let (x, y, w, h) = (area.0 as int, area.1 as int, area.2 as int, area.3 as int);
            let part = r.cropped(area).filled(0, 0, w, h, color);
            (Raster { bytes: r.bytes.take(r.offset(x, y)) + part.bytes, ..r }) == r.filled(
                x,
                y,
                w,
                h,
                color,
            )
        },
{
    let area = r.area(rect)->0;
    let (x, y) = (area.0 as int, area.1 as int);
    lemma_cropped(r, area);
    assert(0 * r.stride == 0) by (nonlinear_arith);
    lemma_fill_behind(
        r.bytes,
        r.offset(x, y),
        r.stride,
        area.3 as nat,
        area.2 as int,
        color.bytes(),
    );
}

/// Taking the alpha out of a pixmap's bytes takes it out of every color, and keeps the
/// alpha itself.
pub proof fn law_demultiplied_colors(r: Raster, x: int, y: int)
    requires
        r.valid(),
        r.whole(),
        r.contains(x, y),
    ensures
        ({
            let d = r.demultiplied_bytes();
            let at = r.offset(x, y);
            let c = r.color(x, y).demultiplied();
            &&& d.len() == r.bytes.len()
            &&& d[at] == c.r && d[at + 1] == c.g && d[at + 2] == c.b && d[at + 3] == c.a
            &&& d[at + 3] == r.color(x, y).a
        }),
{
    let s = r.stride;
    let at = r.offset(x, y);
    lemma_offset(r, x, y);
    assert forall|j: int| 0 <= j < 4 implies #[trigger] r.demultiplied_bytes()[at + j]
        == r.color(x, y).demultiplied().bytes()[j] by {
        vstd::arithmetic::div_mod::lemma_fundamental_div_mod_converse(at + j, s, y, 4 * x + j);
        assert((4 * x + j) % 4 == j);
    }
    assert(at + 0 == at);
    assert(r.demultiplied_bytes()[at + 0] == r.color(x, y).demultiplied().bytes()[0]);
    assert(r.demultiplied_bytes()[at + 1] == r.color(x, y).demultiplied().bytes()[1]);
    assert(r.demultiplied_bytes()[at + 2] == r.color(x, y).demultiplied().bytes()[2]);
    assert(r.demultiplied_bytes()[at + 3] == r.color(x, y).demultiplied().bytes()[3]);
}

/// A part of a part of a raster is a part of the raster.
pub proof fn law_part_of_part_is_part(r: Raster, outer: Xywh, inner: Xywh)
    requires
        r.valid(),
        rect_ok(outer),
        rect_ok(inner),
        0 <= outer.0 && outer.0 + outer.2 <= r.width,
        0 <= outer.1 && outer.1 + outer.3 <= r.height,
        0 <= inner.0 && inner.0 + inner.2 <= outer.2,
        0 <= inner.1 && inner.1 + inner.3 <= outer.3,
    ensures
        r.cropped(outer).cropped(inner) == r.cropped(
            ((outer.0 + inner.0) as i32, (outer.1 + inner.1) as i32, inner.2, inner.3),
        ),
{
    let part = r.cropped(outer);
    let (a, b) = (outer.1 as int, inner.1 as int);
    lemma_cropped(r, outer);
    lemma_cropped(part, inner);
    assert((a + b) * r.stride == a * r.stride + b * r.stride) by (nonlinear_arith);
    let first = r.offset(outer.0 as int, a);
    let second = part.offset(inner.0 as int, b);
    assert(r.bytes.skip(first).skip(second) =~= r.bytes.skip(first + second));
}

/// Filling everything with a color that has its alpha applied to it leaves no other color.
pub proof fn law_fill_is_premultiplied(r: Raster, color: PremultipliedColorU8)
    requires
        r.valid(),
        color.valid(),
    ensures
        r.filled(0, 0, r.width, r.height, color).premultiplied(),
{
    let f = r.filled(0, 0, r.width, r.height, color);
    assert forall|x: int, y: int| #[trigger] f.contains(x, y) implies f.color(x, y).valid() by {
        assert(r.contains(x, y));
        law_filled_colors(r, 0, 0, r.width, r.height, color, x, y);
    }
}

/// A copy without padding, of everything or of a part, has no color that does not have its
/// alpha applied to it, where the raster has none.
pub proof fn law_copies_stay_premultiplied(r: Raster, rect: Xywh)
    requires
        r.valid(),
        r.height <= i32::MAX,
        rect_ok(rect),
        r.premultiplied(),
    ensures
        r.packed().premultiplied(),
        r.area(rect) matches Some(area) ==> r.cropped(area).premultiplied() && r.cropped(
            area,
        ).packed().premultiplied(),
{
    let p = r.packed();
    assert forall|x: int, y: int| #[trigger] p.contains(x, y) implies p.color(x, y).valid() by {
        assert(r.contains(x, y));
        law_packed_keeps_colors(r, x, y);
    }
    if let Some(area) = r.area(rect) {
        let c = r.cropped(area);
        assert forall|x: int, y: int| #[trigger] c.contains(x, y) implies c.color(x, y).valid() by {
            law_cropped_keeps_colors(r, rect, x, y);
        }
        let q = c.packed();
        lemma_cropped(r, area);
        assert forall|x: int, y: int| #[trigger] q.contains(x, y) implies q.color(x, y).valid() by {
            assert(c.contains(x, y));
            law_packed_keeps_colors(c, x, y);
        }
    }
}

/// Where the color at a position lies: in the four bytes that start as many strides behind
/// the first byte as there are rows above, and four bytes further for every pixel to the
/// left.
pub proof fn law_where_colors_lie(r: Raster, x: int, y: int)
    ensures
        r.color(x, y).r == r.bytes[y * r.stride + 4 * x],
        r.color(x, y).g == r.bytes[y * r.stride + 4 * x + 1],
        r.color(x, y).b == r.bytes[y * r.stride + 4 * x + 2],
        r.color(x, y).a == r.bytes[y * r.stride + 4 * x + 3],
        r.contains(x, y) <==> 0 <= x < r.width && 0 <= y < r.height,
{
}

/// What a layout has to be: neither side is zero, the width is within its limit, a row
/// takes no more than the stride, and all rows together can be counted.
pub proof fn law_limits_of_layouts(width: int, height: int, stride: int, pixel_type: PixelType)
    ensures
        layout_ok(width, height, stride, pixel_type) <==> 1 <= width <= 536870911 && 1 <= height
            && 4 * width <= stride && height * stride <= usize::MAX,
{
}

/// The measures of what is made of a raster. A fill keeps all of them. A part has the size
/// of its area and the stride of the whole. A copy has the size of what is copied, and
/// rows without padding. A new raster has nothing but zeros.
pub proof fn law_measures(
    r: Raster,
    x: int,
    y: int,
    w: int,
    h: int,
    color: PremultipliedColorU8,
    area: Xywh,
    i: int,
)
    requires
        r.valid(),
        0 <= w,
        0 <= h,
    ensures
        ({
            let f = r.filled(x, y, w, h, color);
            &&& f.width == r.width && f.height == r.height && f.stride == r.stride
            &&& f.pixel_type == r.pixel_type && f.bytes.len() == r.bytes.len()
        }),
        ({
            let c = r.cropped(area);
            &&& c.width == area.2 && c.height == area.3 && c.stride == r.stride
            &&& c.pixel_type == r.pixel_type
        }),
        ({
            let p = r.packed();
            &&& p.width == r.width && p.height == r.height && p.stride == 4 * r.width
            &&& p.pixel_type == r.pixel_type && p.bytes.len() == 4 * r.width * r.height
        }),
        ({
            let b = blank(w, h, r.stride, r.pixel_type);
            &&& b.width == w && b.height == h && b.stride == r.stride
            &&& b.pixel_type == r.pixel_type && b.bytes.len() == h * r.stride
            &&& 0 <= i < b.bytes.len() ==> b.bytes[i] == 0
        }),
{
    lemma_filled(r, x, y, w, h, color);
    lemma_packed(r);
    assert(r.height * r.row_len() == 4 * r.width * r.height) by (nonlinear_arith)
        requires
            r.row_len() == r.width * 4,
    ;
    assert(0 <= h * r.stride) by (nonlinear_arith)
        requires
            0 <= h,
            0 <= r.stride,
    ;
}

/// The area of a rectangle is everything of it that lies in the raster: a point is in the
/// area exactly if it is in the rectangle and has a pixel. There is no area exactly where
/// there is no such point.
pub proof fn law_area_is_what_both_cover(r: Raster, rect: Xywh, px: int, py: int)
    requires
        r.valid(),
        r.height <= i32::MAX,
        rect_ok(rect),
    ensures
        (0 <= px < r.width && 0 <= py < r.height && rect.0 <= px < rect.0 + rect.2 && rect.1 <= py
            < rect.1 + rect.3) <==> (r.area(rect) matches Some(a) && a.0 <= px < a.0 + a.2 && a.1
            <= py < a.1 + a.3),
        r.area(rect) matches Some(a) ==> a.2 > 0 && a.3 > 0 && 0 <= a.0 && 0 <= a.1 && a.0 + a.2
            <= r.width && a.1 + a.3 <= r.height,
{
}

/// Taking the alpha out of a pixmap's bytes takes it out of every four bytes of a row, the
/// padding too, as far as there are four. What is left at the end of a row stays.
pub proof fn law_demultiplied_rows(r: Raster, k: int, y: int, j: int)
    requires
        r.valid(),
        r.whole(),
        0 <= y < r.height,
        0 <= k,
        0 <= j < 4,
        4 * k + j < r.stride,
    ensures
        ({
            let at = y * r.stride + 4 * k;
            let c = PremultipliedColorU8 {
                r: r.bytes[at],
                g: r.bytes[at + 1],
                b: r.bytes[at + 2],
                a: r.bytes[at + 3],
            };
            r.demultiplied_bytes()[at + j] == (if 4 * k + 4 <= r.stride {
                if j == 0 {
                    c.demultiplied().r
                } else if j == 1 {
                    c.demultiplied().g
                } else if j == 2 {
                    c.demultiplied().b
                } else {
                    c.a
                }
            } else {
                r.bytes[at + j]
            })
        }),
{
    let s = r.stride;
    let at = y * s + 4 * k;
    assert(0 <= y * s && y * s + s <= r.height * s) by (nonlinear_arith)
        requires
            0 <= y <= r.height - 1,
            0 <= s,
    ;
    vstd::arithmetic::div_mod::lemma_fundamental_div_mod_converse(at + j, s, y, 4 * k + j);
    assert((4 * k + j) % 4 == j);
}

/// A raster has its alpha applied to all colors where no byte of a pixel is over the
/// pixel's last one, and only there.
pub proof fn law_when_premultiplied(r: Raster)
    ensures
        r.premultiplied() <==> (forall|x: int, y: int|
            0 <= x < r.width && 0 <= y < r.height ==> (#[trigger] r.color(x, y)).r <= r.color(
                x,
                y,
            ).a && r.color(x, y).g <= r.color(x, y).a && r.color(x, y).b <= r.color(x, y).a),
{
    if r.premultiplied() {
        assert forall|x: int, y: int| 0 <= x < r.width && 0 <= y < r.height implies (
        #[trigger] r.color(x, y)).r <= r.color(x, y).a && r.color(x, y).g <= r.color(x, y).a
            && r.color(x, y).b <= r.color(x, y).a by {
            assert(r.contains(x, y));
        }
    }
}

} // verus!
