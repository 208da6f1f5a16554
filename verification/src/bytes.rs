//! Runs of bytes: casts between bytes and pixels, and fills.
use vstd::prelude::*;

use crate::color::PremultipliedColorU8;

verus! {

/// The bytes of four byte pixels that lie one after another.
pub open spec fn pixel_bytes(pixels: Seq<[u8; 4]>) -> Seq<u8> {
    Seq::new(4 * pixels.len(), |i: int| pixels[i / 4]@[i % 4])
}

/// `b` with `count` copies of `unit` written from `start` on.
pub open spec fn span_filled(b: Seq<u8>, start: int, count: int, unit: Seq<u8>) -> Seq<u8> {
    Seq::new(
        b.len(),
        |i: int|
            if start <= i < start + count * unit.len() {
                unit[(i - start) % unit.len() as int]
            } else {
                b[i]
            },
    )
}

/// `b` with `count` copies of `unit` written in each of `rows` rows, which start `stride`
/// bytes apart, the first one at `start`.
pub open spec fn rows_filled(
    b: Seq<u8>,
    start: int,
    stride: int,
    rows: nat,
    count: int,
    unit: Seq<u8>,
) -> Seq<u8>
    decreases rows,
{
    if rows == 0 {
        b
    } else {
        span_filled(
            rows_filled(b, start, stride, (rows - 1) as nat, count, unit),
            start + (rows - 1) * stride,
            count,
            unit,
        )
    }
}

/// Calls `bytemuck::cast_slice`, which returns the same memory as a slice of pixels. It
/// panics where the bytes are no whole number of pixels.
#[verifier::external_body]
pub(crate) fn cast_pixels(bytes: &[u8]) -> (pixels: &[[u8; 4]])
    requires
        bytes@.len() % 4 == 0,
    ensures
        bytes@ == pixel_bytes(pixels@),
{
    bytemuck::cast_slice(bytes)
}

/// Calls `bytemuck::cast_slice_mut`, which returns the same memory as a slice of pixels,
/// so that what is written to the pixels is written to the bytes. It panics where the
/// bytes are no whole number of pixels.
#[verifier::external_body]
pub(crate) fn cast_pixels_mut(bytes: &mut [u8]) -> (pixels: &mut [[u8; 4]])
    requires
        old(bytes)@.len() % 4 == 0,
    ensures
        old(bytes)@ == pixel_bytes(pixels@),
        final(bytes)@ == pixel_bytes(final(pixels)@),
{
    bytemuck::cast_slice_mut(bytes)
}

/// Calls `core::mem::size_of_val`, which returns the size of a value in bytes. The size
/// of a slice fits in `isize`.
#[verifier::external_body]
pub(crate) fn byte_len(bytes: &[u8]) -> (n: usize)
    ensures
        n == bytes@.len(),
        n <= isize::MAX,
{
    core::mem::size_of_val(bytes)
}

/// Calls `Vec::into_boxed_slice`, which keeps the elements as they are.
#[verifier::external_body]
pub(crate) fn into_boxed(v: Vec<u8>) -> (b: Box<[u8]>)
    ensures
        b@ == v@,
{
    v.into_boxed_slice()
}

/// Sets every pixel of a slice to the same value.
fn set_all(pixels: &mut [[u8; 4]], value: [u8; 4])
    ensures
        final(pixels)@ == Seq::new(old(pixels)@.len(), |k: int| value),
{
    let n: usize = pixels.len();
    let mut i: usize = 0;
    while i < n
        invariant
            i <= n,
            n == pixels@.len(),
            n == old(pixels)@.len(),
            forall|k: int| 0 <= k < i ==> pixels@[k] == value,
        decreases n - i,
    {
        pixels[i] = value;
        i = i + 1;
    }
}

/// Sets `count` pixels, the first one at the byte `start`, to a color.
pub fn fill_pixels(data: &mut [u8], start: usize, count: usize, color: PremultipliedColorU8)
    requires
        start + 4 * count <= old(data)@.len(),
    ensures
        final(data)@ == span_filled(old(data)@, start as int, count as int, color.bytes()),
{
    let ghost before = data@;
    let ghost unit = color.bytes();
    assert(data@.len() == data.len());
    let (head, rest) = data.split_at_mut(start);
    let (body, tail) = rest.split_at_mut(4 * count);
    let pixels = cast_pixels_mut(body);
    assert(pixels@.len() == count) by {
        assert(pixel_bytes(pixels@).len() == 4 * pixels@.len());
    }
    let value: [u8; 4] = color.to_bytes();
    set_all(pixels, value);
    proof {
        assert(count * unit.len() == 4 * count) by (nonlinear_arith)
            requires
                unit.len() == 4,
        ;
        let after = data@;
        let want = span_filled(before, start as int, count as int, unit);
        assert(after.len() == want.len());
        assert forall|i: int| 0 <= i < after.len() implies after[i] == want[i] by {
            if start <= i < start + 4 * count {
                assert(0 <= (i - start) / 4 < count);
            }
        }
        assert(after =~= want);
    }
}

/// Sets `count` pixels in each of `rows` rows to a color. The rows start `stride` bytes
/// apart, the first one at the byte `start`.
pub fn fill_pixel_rows(
    data: &mut [u8],
    start: usize,
    stride: usize,
    rows: u32,
    count: usize,
    color: PremultipliedColorU8,
)
    requires
        rows > 0 ==> start + (rows - 1) * stride + 4 * count <= old(data)@.len(),
    ensures
        final(data)@ == rows_filled(
            old(data)@,
            start as int,
            stride as int,
            rows as nat,
            count as int,
            color.bytes(),
        ),
{
    let ghost before = data@;
    let ghost unit = color.bytes();
    let mut row: u32 = 0;
    while row < rows
        invariant
            row <= rows,
            rows > 0 ==> start + (rows - 1) * stride + 4 * count <= before.len(),
            data@.len() == before.len(),
            unit == color.bytes(),
            data@ == rows_filled(
                before,
                start as int,
                stride as int,
                row as nat,
                count as int,
                unit,
            ),
        decreases rows - row,
    {
        proof {
            assert(data@.len() == data.len());
            lemma_row_offset(row as int, rows - 1, stride as int);
        }
        let at: usize = start + row as usize * stride;
        fill_pixels(data, at, count, color);
        row = row + 1;
    }
}

/// Sets `count` bytes in each of `rows` rows to a value. The rows start `stride` bytes
/// apart, the first one at the byte `start`.
pub fn fill_byte_rows(
    data: &mut [u8],
    start: usize,
    stride: usize,
    rows: u32,
    count: usize,
    value: u8,
)
    requires
        rows > 0 ==> start + (rows - 1) * stride + count <= old(data)@.len(),
    ensures
        final(data)@ == rows_filled(
            old(data)@,
            start as int,
            stride as int,
            rows as nat,
            count as int,
            seq![value],
        ),
{
    let ghost before = data@;
    let mut row: u32 = 0;
    while row < rows
        invariant
            row <= rows,
            rows > 0 ==> start + (rows - 1) * stride + count <= before.len(),
            data@.len() == before.len(),
            data@ == rows_filled(
                before,
                start as int,
                stride as int,
                row as nat,
                count as int,
                seq![value],
            ),
        decreases rows - row,
    {
        proof {
            assert(data@.len() == data.len());
            lemma_row_offset(row as int, rows - 1, stride as int);
        }
        let ghost row_before = data@;
        let at: usize = start + row as usize * stride;
        let mut i: usize = 0;
        while i < count
            invariant
                i <= count,
                at + count <= row_before.len(),
                data@.len() == row_before.len(),
                data@ == span_filled(row_before, at as int, i as int, seq![value]),
            decreases count - i,
        {
            assert(data@.len() == data.len());
            data[at + i] = value;
            i = i + 1;
            proof {
                lemma_single_byte_span(row_before, at as int, i as int, value);
                lemma_single_byte_span(row_before, at as int, i - 1, value);
                assert(data@ =~= span_filled(row_before, at as int, i as int, seq![value]));
            }
        }
        assert(count == 0 ==> data@ =~= span_filled(row_before, at as int, 0, seq![value]));
        row = row + 1;
    }
}

proof fn lemma_single_byte_span(b: Seq<u8>, start: int, count: int, value: u8)
    ensures
        span_filled(b, start, count, seq![value]) == Seq::new(
            b.len(),
            |j: int|
                if start <= j < start + count {
                    value
                } else {
                    b[j]
                },
        ),
{
    let unit = seq![value];
    assert forall|j: int| 0 <= j < b.len() && start <= j < start + count implies #[trigger] unit[(j
        - start) % unit.len() as int] == value by {
        assert((j - start) % 1 == 0);
    }
    assert(count * unit.len() == count) by (nonlinear_arith)
        requires
            unit.len() == 1,
    ;
    assert(span_filled(b, start, count, unit) =~= Seq::new(
        b.len(),
        |j: int|
            if start <= j < start + count {
                value
            } else {
                b[j]
            },
    ));
}

/// `dst` with `len` bytes of `src` from `from` on copied to `to`.
pub open spec fn copied(dst: Seq<u8>, to: int, src: Seq<u8>, from: int, len: int) -> Seq<u8> {
    Seq::new(
        dst.len(),
        |i: int|
            if to <= i < to + len {
                src[from + (i - to)]
            } else {
                dst[i]
            },
    )
}

/// Copies `len` bytes of `src` from `from` on to `dst` from `to` on.
pub fn copy_bytes(dst: &mut [u8], to: usize, src: &[u8], from: usize, len: usize)
    requires
        to + len <= old(dst)@.len(),
        from + len <= src@.len(),
    ensures
        final(dst)@ == copied(old(dst)@, to as int, src@, from as int, len as int),
{
    let ghost before = dst@;
    let mut i: usize = 0;
    while i < len
        invariant
            i <= len,
            to + len <= before.len(),
            from + len <= src@.len(),
            dst@.len() == before.len(),
            dst@ == copied(before, to as int, src@, from as int, i as int),
        decreases len - i,
    {
        assert(dst@.len() == dst.len() && src@.len() == src.len());
        dst[to + i] = src[from + i];
        i = i + 1;
        assert(dst@ =~= copied(before, to as int, src@, from as int, i as int));
    }
    assert(len == 0 ==> dst@ =~= copied(before, to as int, src@, from as int, 0));
}

/// `dst` with the first `len` bytes of each of `rows` rows taken from the rows of `src`.
/// The rows of `dst` are `dst_stride` bytes apart, those of `src` are `src_stride` apart.
pub open spec fn rows_copied(
    dst: Seq<u8>,
    dst_stride: int,
    src: Seq<u8>,
    src_stride: int,
    rows: int,
    len: int,
) -> Seq<u8> {
    Seq::new(
        dst.len(),
        |i: int|
            if i / dst_stride < rows && i % dst_stride < len {
                src[(i / dst_stride) * src_stride + i % dst_stride]
            } else {
                dst[i]
            },
    )
}

/// Copies the first `len` bytes of each of `rows` rows.
pub fn copy_rows(
    dst: &mut [u8],
    dst_stride: usize,
    src: &[u8],
    src_stride: usize,
    rows: u32,
    len: usize,
)
    requires
        0 < len <= dst_stride,
        rows > 0 ==> (rows - 1) * dst_stride + len <= old(dst)@.len(),
        rows > 0 ==> (rows - 1) * src_stride + len <= src@.len(),
    ensures
        final(dst)@ == rows_copied(
            old(dst)@,
            dst_stride as int,
            src@,
            src_stride as int,
            rows as int,
            len as int,
        ),
{
    let ghost before = dst@;
    let mut row: u32 = 0;
    proof {
        let want = rows_copied(before, dst_stride as int, src@, src_stride as int, 0, len as int);
        assert forall|i: int| 0 <= i < before.len() implies before[i] == want[i] by {
            assert(0 <= i / dst_stride as int) by (nonlinear_arith)
                requires
                    0 <= i,
                    0 < dst_stride,
            ;
        }
        assert(before =~= want);
    }
    while row < rows
        invariant
            row <= rows,
            0 < len <= dst_stride,
            rows > 0 ==> (rows - 1) * dst_stride + len <= before.len(),
            rows > 0 ==> (rows - 1) * src_stride + len <= src@.len(),
            dst@.len() == before.len(),
            dst@ == rows_copied(
                before,
                dst_stride as int,
                src@,
                src_stride as int,
                row as int,
                len as int,
            ),
        decreases rows - row,
    {
        proof {
            assert(dst@.len() == dst.len() && src@.len() == src.len());
            lemma_row_offset(row as int, rows - 1, dst_stride as int);
            lemma_row_offset(row as int, rows - 1, src_stride as int);
        }
        let ghost prev = dst@;
        let to: usize = row as usize * dst_stride;
        let from: usize = row as usize * src_stride;
        copy_bytes(dst, to, src, from, len);
        proof {
            let want = rows_copied(
                before,
                dst_stride as int,
                src@,
                src_stride as int,
                row + 1,
                len as int,
            );
            assert forall|i: int| 0 <= i < before.len() implies dst@[i] == want[i] by {
                let d = dst_stride as int;
                if to <= i < to + len {
                    vstd::arithmetic::div_mod::lemma_fundamental_div_mod_converse(
                        i,
                        d,
                        row as int,
                        i - to,
                    );
                } else {
                    vstd::arithmetic::div_mod::lemma_fundamental_div_mod(i, d);
                    assert(d * (i / d) == (i / d) * d) by (nonlinear_arith);
                }
            }
            assert(dst@ =~= want);
        }
        row = row + 1;
    }
}

/// `b` with the alpha taken out of the colors in `count` pixels from `start` on.
pub open spec fn span_demultiplied(b: Seq<u8>, start: int, count: int) -> Seq<u8> {
    Seq::new(
        b.len(),
        |i: int|
            if start <= i < start + 4 * count {
                PremultipliedColorU8::read(b, i - (i - start) % 4).demultiplied().bytes()[(i
                    - start) % 4]
            } else {
                b[i]
            },
    )
}

/// `b` with the alpha taken out of the colors in `rows` rows of `stride` bytes, each of
/// which holds as many colors as fit in it.
pub open spec fn rows_demultiplied(b: Seq<u8>, stride: int, rows: int) -> Seq<u8> {
    Seq::new(
        b.len(),
        |i: int|
            {
                let k = i % stride;
                if i / stride < rows && k < stride / 4 * 4 {
                    PremultipliedColorU8::read(b, i - k % 4).demultiplied().bytes()[k % 4]
                } else {
                    b[i]
                }
            },
    )
}

/// Takes the alpha out of every color of a slice.
fn demultiply_all(pixels: &mut [[u8; 4]])
    ensures
        final(pixels)@.len() == old(pixels)@.len(),
        forall|k: int|
            0 <= k < old(pixels)@.len() ==> (#[trigger] final(pixels)@[k])@
                == PremultipliedColorU8::read(old(pixels)@[k]@, 0).demultiplied().bytes(),
{
    let n: usize = pixels.len();
    let mut i: usize = 0;
    while i < n
        invariant
            i <= n,
            n == pixels@.len(),
            n == old(pixels)@.len(),
            forall|k: int|
                0 <= k < i ==> (#[trigger] pixels@[k])@ == PremultipliedColorU8::read(
                    old(pixels)@[k]@,
                    0,
                ).demultiplied().bytes(),
            forall|k: int| i <= k < n ==> pixels@[k] == old(pixels)@[k],
        decreases n - i,
    {
        let c = PremultipliedColorU8::from_bytes(pixels[i]).demultiply();
        let c = PremultipliedColorU8::from_rgba_unchecked(
            c.red(),
            c.green(),
            c.blue(),
            c.alpha(),
        );
        pixels[i] = c.to_bytes();
        i = i + 1;
    }
}

/// Takes the alpha out of the colors in `count` pixels, the first one at the byte `start`.
fn demultiply_pixels(data: &mut [u8], start: usize, count: usize)
    requires
        start + 4 * count <= old(data)@.len(),
    ensures
        final(data)@ == span_demultiplied(old(data)@, start as int, count as int),
{
    let ghost before = data@;
    assert(data@.len() == data.len());
    let (head, rest) = data.split_at_mut(start);
    let (body, tail) = rest.split_at_mut(4 * count);
    let ghost middle = body@;
    let pixels = cast_pixels_mut(body);
    assert(pixels@.len() == count) by {
        assert(pixel_bytes(pixels@).len() == 4 * pixels@.len());
    }
    let ghost colors = pixels@;
    demultiply_all(pixels);
    proof {
        let after = data@;
        let want = span_demultiplied(before, start as int, count as int);
        assert(after.len() == want.len());
        assert forall|i: int| 0 <= i < after.len() implies after[i] == want[i] by {
            if start <= i < start + 4 * count {
                let k = (i - start) / 4;
                assert(0 <= k < count);
                assert forall|j: int| 0 <= j < 4 implies colors[k]@[j] == before[start + 4 * k
                    + j] by {
                    assert(middle[4 * k + j] == colors[k]@[j]);
                }
                assert(i - (i - start) % 4 == start + 4 * k);
            }
        }
        assert(after =~= want);
    }
}

/// Takes the alpha out of the colors in `rows` rows of `stride` bytes.
pub fn demultiply_rows(data: &mut [u8], stride: usize, rows: u32)
    requires
        0 < stride,
        old(data)@.len() == rows * stride,
    ensures
        final(data)@ == rows_demultiplied(old(data)@, stride as int, rows as int),
{
    let ghost before = data@;
    let ghost s = stride as int;
    let count: usize = stride / 4;
    let mut row: u32 = 0;
    proof {
        let want = rows_demultiplied(before, s, 0);
        assert forall|i: int| 0 <= i < before.len() implies before[i] == want[i] by {
            assert(0 <= i / s) by (nonlinear_arith)
                requires
                    0 <= i,
                    0 < s,
            ;
        }
        assert(before =~= want);
    }
    while row < rows
        invariant
            row <= rows,
            0 < stride,
            s == stride,
            count == stride / 4,
            before.len() == rows * stride,
            data@ == rows_demultiplied(before, s, row as int),
        decreases rows - row,
    {
        proof {
            assert(data@.len() == data.len());
            lemma_row_offset(row as int, rows - 1, s);
            assert((rows - 1) * s + s == rows * s) by (nonlinear_arith);
        }
        let ghost prev = data@;
        let at: usize = row as usize * stride;
        demultiply_pixels(data, at, count);
        proof {
            let want = rows_demultiplied(before, s, row + 1);
            assert forall|i: int| 0 <= i < before.len() implies data@[i] == want[i] by {
                if at <= i < at + 4 * count {
                    vstd::arithmetic::div_mod::lemma_fundamental_div_mod_converse(
                        i,
                        s,
                        row as int,
                        i - at,
                    );
                    let base = i - (i - at) % 4;
                    assert forall|j: int| base <= j < base + 4 implies prev[j] == before[j] by {
                        vstd::arithmetic::div_mod::lemma_fundamental_div_mod_converse(
                            j,
                            s,
                            row as int,
                            j - at,
                        );
                    }
                } else {
                    vstd::arithmetic::div_mod::lemma_fundamental_div_mod(i, s);
                    assert(s * (i / s) == (i / s) * s) by (nonlinear_arith);
                }
            }
            assert(data@ =~= want);
        }
        row = row + 1;
    }
}

pub(crate) proof fn lemma_row_offset(row: int, last: int, stride: int)
    requires
        0 <= row <= last,
        0 <= stride,
    ensures
        0 <= row * stride <= last * stride,
{
    assert(0 <= row * stride <= last * stride) by (nonlinear_arith)
        requires
            0 <= row <= last,
            0 <= stride,
    ;
}

pub(crate) proof fn lemma_rows_filled_len(
    b: Seq<u8>,
    start: int,
    stride: int,
    rows: nat,
    count: int,
    unit: Seq<u8>,
)
    ensures
        rows_filled(b, start, stride, rows, count, unit).len() == b.len(),
    decreases rows,
{
    if rows > 0 {
        lemma_rows_filled_len(b, start, stride, (rows - 1) as nat, count, unit);
    }
}

/// What a byte is after a fill of rows that do not overlap: a byte of the unit where it
/// lies in a row's span, and what it was everywhere else.
pub proof fn law_rows_filled_bytes(
    b: Seq<u8>,
    start: int,
    stride: int,
    rows: nat,
    count: int,
    unit: Seq<u8>,
    i: int,
)
    requires
        0 <= i < b.len(),
        0 < unit.len(),
        0 <= count,
        0 < stride,
        count * unit.len() <= stride,
    ensures
        rows_filled(b, start, stride, rows, count, unit).len() == b.len(),
        rows_filled(b, start, stride, rows, count, unit)[i] == (if start <= i && (i - start) / stride
            < rows && (i - start) % stride < count * unit.len() {
            unit[((i - start) % stride) % unit.len() as int]
        } else {
            b[i]
        }),
    decreases rows,
{
    if rows == 0 {
        if start <= i {
            assert(0 <= (i - start) / stride) by (nonlinear_arith)
                requires
                    0 <= i - start,
                    0 < stride,
            ;
        }
    } else {
        let r = (rows - 1) as nat;
        law_rows_filled_bytes(b, start, stride, r, count, unit, i);
        let at = start + r * stride;
        let k = i - start;
        assert(0 <= r * stride) by (nonlinear_arith)
            requires
                0 <= r,
                0 < stride,
        ;
        assert(0 <= count * unit.len()) by (nonlinear_arith)
            requires
                0 <= count,
                0 < unit.len(),
        ;
        if at <= i < at + count * unit.len() {
            vstd::arithmetic::div_mod::lemma_fundamental_div_mod_converse(
                k,
                stride,
                r as int,
                i - at,
            );
        } else if start <= i {
            vstd::arithmetic::div_mod::lemma_fundamental_div_mod(k, stride);
            assert(stride * (k / stride) == (k / stride) * stride) by (nonlinear_arith);
        }
    }
}

} // verus!
