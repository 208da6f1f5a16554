//! What drawing comes to: step by step for pipelines, and pixel by pixel for what is drawn.
use vstd::prelude::*;

use crate::bytes::law_rows_filled_bytes;
use crate::bytes::rows_filled;
use crate::color::PremultipliedColorU8;
use crate::geom::larger;
use crate::geom::ScreenIntRect;
use crate::mask::AAMaskCtx;
use crate::mask::Mask;
use crate::mask::SubMaskRef;
use crate::pipeline::blitter::contiguous;
use crate::pipeline::blitter::law_runs_draw_opaque_spans;
use crate::pipeline::blitter::law_spans_are_contiguous;
use crate::pipeline::blitter::lemma_span_ends;
use crate::pipeline::blitter::lemma_span_starts;
use crate::pipeline::blitter::runs_ok;
use crate::pipeline::blitter::runs_width;
use crate::pipeline::blitter::spans;
use crate::pipeline::blitter::AlphaSpan;
use crate::pipeline::blitter::PipelineDest;
use crate::pipeline::blitter::PipelineKind;
use crate::pipeline::blitter::PipelineRun;
use crate::pipeline::blitter::RasterPipelineBlitter;
use crate::pipeline::if_any;
use crate::pipeline::BlendMode;
use crate::pipeline::Paint;
use crate::pipeline::ShaderKind;
use crate::pipeline::Stage;
use crate::pixmap::PixelType;

verus! {

/// The number of steps that there are in an optional one.
pub open spec fn how_many(stage: Option<Stage>) -> int {
    if stage is Some {
        1
    } else {
        0
    }
}

/// Whether the steps of a pipeline are, from `at` on, the loading of the destination, what
/// brings it in, what blends, what weighs the result where it has to be weighed, what
/// brings the result out, and the storing of it. Each step is told by its position.
pub open spec fn blends_and_stores(
    steps: Seq<Stage>,
    at: int,
    expand: Option<Stage>,
    blend: Option<Stage>,
    weigh: Option<Stage>,
    compress: Option<Stage>,
) -> bool {
    let blend_at = at + 1 + how_many(expand);
    let weigh_at = blend_at + how_many(blend);
    let compress_at = weigh_at + how_many(weigh);
    let store_at = compress_at + how_many(compress);
    &&& steps.len() == store_at + 1
    &&& steps[at] == Stage::LoadDestination
    &&& expand matches Some(step) ==> steps[at + 1] == step
    &&& blend matches Some(step) ==> steps[blend_at] == step
    &&& weigh matches Some(step) ==> steps[weigh_at] == step
    &&& compress matches Some(step) ==> steps[compress_at] == step
    &&& steps[store_at] == Stage::Store
}

/// Every pipeline of a blitter starts with the steps of the shader. If there is a mask,
/// the step that applies it comes directly behind them, whatever the shader is; so it
/// comes before the destination is loaded. If there is none, no step behind the shader's
/// applies one.
pub proof fn law_mask_is_applied<'a, 'b>(
    blitter: RasterPipelineBlitter<'a, 'b>,
    paint: Paint<'a>,
    mask: Option<SubMaskRef<'a>>,
    dest_type: PixelType,
    i: int,
)
    requires
        blitter.prepared_for(paint, mask, dest_type),
        paint.colorspace.expand_dest != Some(Stage::MaskU8),
        paint.colorspace.compress != Some(Stage::MaskU8),
    ensures
        ({
            let made = paint.shader.stages->0@;
            let n = made.len() as int;
            let anti = blitter.blit_anti_h_rp.stages@;
            let rect = blitter.blit_rect_rp.stages@;
            let mask_rp = blitter.blit_mask_rp.stages@;
            &&& paint.shader.stages is Some
            &&& 0 <= i < n ==> anti[i] == made[i] && rect[i] == made[i] && mask_rp[i] == made[i]
            &&& anti.len() > n && rect.len() > n && mask_rp.len() > n
            &&& mask is Some ==> anti[n] == Stage::MaskU8 && rect[n] == Stage::MaskU8 && mask_rp[n]
                == Stage::MaskU8
            &&& n <= i < anti.len() && anti[i] == Stage::MaskU8 ==> mask is Some && i == n
            &&& n <= i < rect.len() && rect[i] == Stage::MaskU8 ==> mask is Some && i == n
            &&& n <= i < mask_rp.len() && mask_rp[i] == Stage::MaskU8 ==> mask is Some && i == n
        }),
{
    let masked = mask is Some;
    lemma_blend_steps_apply_no_mask(paint.reduced_mode(masked));
    lemma_coverage_steps(paint, masked, Stage::Scale1Float, Stage::Lerp1Float, i);
    lemma_coverage_steps(paint, masked, Stage::ScaleU8, Stage::LerpU8, i);
    lemma_rect_steps(paint, masked, i);
}

proof fn lemma_blend_steps_apply_no_mask(mode: BlendMode)
    ensures
        mode.stage() != Some(Stage::MaskU8),
{
}

proof fn lemma_coverage_steps(paint: Paint, masked: bool, scale: Stage, lerp: Stage, i: int)
    requires
        paint.shader.stages is Some,
    ensures
        ({
            let made = paint.shader.stages->0@;
            let n = made.len() as int;
            let m = if masked {
                n + 1
            } else {
                n
            };
            let mode = paint.reduced_mode(masked);
            let all = paint.coverage_stages(masked, scale, lerp);
            let space = paint.colorspace;
            &&& 0 <= i < n ==> all[i] == made[i]
            &&& masked ==> all[n] == Stage::MaskU8
            &&& if mode.pre_scales_coverage() {
                &&& all[m] == scale
                &&& blends_and_stores(
                    all,
                    m + 1,
                    space.expand_dest,
                    mode.stage(),
                    None,
                    space.compress,
                )
            } else {
                blends_and_stores(
                    all,
                    m,
                    space.expand_dest,
                    mode.stage(),
                    Some(lerp),
                    space.compress,
                )
            }
            &&& m <= i < all.len() ==> all[i] == scale || all[i] == lerp || all[i]
                == Stage::LoadDestination || all[i] == Stage::Store || Some(all[i])
                == space.expand_dest || Some(all[i]) == mode.stage() || Some(all[i])
                == space.compress
        }),
{
    let source = paint.source_stages(masked);
    let mode = paint.reduced_mode(masked);
    let space = paint.colorspace;
    if mode.pre_scales_coverage() {
        lemma_tail_steps(
            source.push(scale),
            space.expand_dest,
            mode.stage(),
            None,
            space.compress,
            i,
        );
    } else {
        lemma_tail_steps(source, space.expand_dest, mode.stage(), Some(lerp), space.compress, i);
    }
}

/// Where the steps are that are put behind others one after another.
proof fn lemma_tail_steps(
    source: Seq<Stage>,
    expand: Option<Stage>,
    blend: Option<Stage>,
    weigh: Option<Stage>,
    compress: Option<Stage>,
    i: int,
)
    ensures
        ({
            let blended = source.push(Stage::LoadDestination) + if_any(expand) + if_any(blend);
            let covered = match weigh {
                Some(step) => blended.push(step),
                None => blended,
            };
            let all = (covered + if_any(compress)).push(Stage::Store);
            &&& blends_and_stores(all, source.len() as int, expand, blend, weigh, compress)
            &&& forall|k: int| 0 <= k < source.len() ==> #[trigger] all[k] == source[k]
            &&& source.len() <= i < all.len() ==> all[i] == Stage::LoadDestination || all[i]
                == Stage::Store || Some(all[i]) == weigh || Some(all[i]) == expand || Some(all[i])
                == blend || Some(all[i]) == compress
        }),
{
    let blended = source.push(Stage::LoadDestination) + if_any(expand) + if_any(blend);
    assert(blended.len() == source.len() + 1 + how_many(expand) + how_many(blend));
}

proof fn lemma_rect_steps(paint: Paint, masked: bool, i: int)
    requires
        paint.shader.stages is Some,
    ensures
        ({
            let made = paint.shader.stages->0@;
            let n = made.len() as int;
            let m = if masked {
                n + 1
            } else {
                n
            };
            let mode = paint.reduced_mode(masked);
            let all = paint.rect_stages(masked);
            let space = paint.colorspace;
            &&& 0 <= i < n ==> all[i] == made[i]
            &&& masked ==> all[n] == Stage::MaskU8
            &&& if mode == BlendMode::Source || mode == BlendMode::SourceOver && !masked {
                &&& all.len() == m + how_many(space.compress) + 1
                &&& space.compress matches Some(step) ==> all[m] == step
                &&& all[m + how_many(space.compress)] == (if mode == BlendMode::Source {
                    Stage::Store
                } else {
                    Stage::SourceOverRgba
                })
            } else {
                blends_and_stores(all, m, space.expand_dest, mode.stage(), None, space.compress)
            }
            &&& m <= i < all.len() ==> all[i] == Stage::LoadDestination || all[i] == Stage::Store
                || all[i] == Stage::SourceOverRgba || Some(all[i]) == space.expand_dest || Some(
                all[i],
            ) == mode.stage() || Some(all[i]) == space.compress
        }),
{
}

/// Every step of every pipeline of a blitter, told by its position, and everything else
/// that a pipeline has.
///
/// The shader's steps come first, then the mask. A mode that scales its source by the
/// coverage does that before the destination is loaded. The other modes weigh what came
/// out against what was there, before the result is brought out. Where everything is
/// covered, the source takes the place of what was there without loading it, and drawing
/// over it without a mask is one step.
pub proof fn law_steps_by_position<'a, 'b>(
    blitter: RasterPipelineBlitter<'a, 'b>,
    paint: Paint<'a>,
    mask: Option<SubMaskRef<'a>>,
    dest_type: PixelType,
)
    requires
        blitter.prepared_for(paint, mask, dest_type),
    ensures
        ({
            let m = paint.shader.stages->0@.len() + if mask is Some {
                1int
            } else {
                0int
            };
            let mode = paint.reduced_mode(mask is Some);
            let anti = blitter.blit_anti_h_rp.stages@;
            let rect = blitter.blit_rect_rp.stages@;
            let mask_rp = blitter.blit_mask_rp.stages@;
            let (expand, compress) = (paint.colorspace.expand_dest, paint.colorspace.compress);
            &&& if mode.pre_scales_coverage() {
                &&& anti[m] == Stage::Scale1Float
                &&& blends_and_stores(anti, m + 1, expand, mode.stage(), None, compress)
                &&& mask_rp[m] == Stage::ScaleU8
                &&& blends_and_stores(mask_rp, m + 1, expand, mode.stage(), None, compress)
            } else {
                &&& blends_and_stores(
                    anti,
                    m,
                    expand,
                    mode.stage(),
                    Some(Stage::Lerp1Float),
                    compress,
                )
                &&& blends_and_stores(
                    mask_rp,
                    m,
                    expand,
                    mode.stage(),
                    Some(Stage::LerpU8),
                    compress,
                )
            }
            &&& if mode == BlendMode::Source || mode == BlendMode::SourceOver && mask is None {
                &&& rect.len() == m + how_many(compress) + 1
                &&& compress matches Some(step) ==> rect[m] == step
                &&& rect.last() == (if mode == BlendMode::Source {
                    Stage::Store
                } else {
                    Stage::SourceOverRgba
                })
            } else {
                blends_and_stores(rect, m, expand, mode.stage(), None, compress)
            }
        }),
{
    let masked = mask is Some;
    lemma_coverage_steps(paint, masked, Stage::Scale1Float, Stage::Lerp1Float, 0);
    lemma_coverage_steps(paint, masked, Stage::ScaleU8, Stage::LerpU8, 0);
    lemma_rect_steps(paint, masked, 0);
}

/// What a blitter and its pipelines take over from the paint: the mask, the pixmap of a
/// pattern or else one transparent pixel, the color of a solid paint and of no other one,
/// the quality, and the types of the pixels.
pub proof fn law_paint_is_taken_over<'a, 'b>(
    blitter: RasterPipelineBlitter<'a, 'b>,
    paint: Paint<'a>,
    mask: Option<SubMaskRef<'a>>,
    dest_type: PixelType,
)
    requires
        blitter.prepared_for(paint, mask, dest_type),
    ensures
        blitter.mask == mask,
        match paint.shader.kind {
            ShaderKind::SolidColor(c) => blitter.blit_anti_h_rp.uniform_color == Some(c)
                && blitter.blit_rect_rp.uniform_color == Some(c)
                && blitter.blit_mask_rp.uniform_color == Some(c),
            _ => blitter.blit_anti_h_rp.uniform_color is None
                && blitter.blit_rect_rp.uniform_color is None
                && blitter.blit_mask_rp.uniform_color is None,
        },
        match paint.shader.kind {
            ShaderKind::Pattern(patt) => blitter.pixmap_src == patt,
            _ => blitter.pixmap_src@.width == 1 && blitter.pixmap_src@.height == 1
                && blitter.pixmap_src@.bytes == seq![0u8, 0u8, 0u8, 0u8],
        },
        blitter.blit_anti_h_rp.force_hq_pipeline == paint.force_hq_pipeline,
        blitter.blit_rect_rp.force_hq_pipeline == paint.force_hq_pipeline,
        blitter.blit_mask_rp.force_hq_pipeline == paint.force_hq_pipeline,
        blitter.blit_anti_h_rp.dest_type == dest_type,
        blitter.blit_rect_rp.dest_type == dest_type,
        blitter.blit_mask_rp.dest_type == dest_type,
        blitter.blit_anti_h_rp.src_type == blitter.pixmap_src@.pixel_type,
        blitter.blit_rect_rp.src_type == blitter.pixmap_src@.pixel_type,
        blitter.blit_mask_rp.src_type == blitter.pixmap_src@.pixel_type,
{
    if !(paint.shader.kind is Pattern) {
        assert(blitter.pixmap_src@.bytes =~= seq![0u8, 0u8, 0u8, 0u8]);
    }
}

/// When everything is simply set to a color, and to which one. There is no mask, and the
/// paint either clears without smooth edges, or its one color replaces what is there:
/// because that is its mode, or because it is drawn over it and lets nothing through.
pub proof fn law_when_a_color_is_set<'a, 'b>(
    blitter: RasterPipelineBlitter<'a, 'b>,
    paint: Paint<'a>,
    mask: Option<SubMaskRef<'a>>,
    dest_type: PixelType,
    c: PremultipliedColorU8,
)
    requires
        blitter.prepared_for(paint, mask, dest_type),
    ensures
        blitter.memset2d_color == Some(c) <==> mask is None && {
            ||| paint.blend_mode == BlendMode::Clear && !paint.anti_alias && c.r == 0 && c.g == 0
                && c.b == 0 && c.a == 0
            ||| paint.blend_mode == BlendMode::Source && paint.shader.kind
                == ShaderKind::SolidColor(c)
            ||| paint.blend_mode == BlendMode::SourceOver && paint.shader.opaque
                && paint.shader.kind == ShaderKind::SolidColor(c)
        },
{
}

/// A paint draws nothing exactly where its mode keeps what is there, or where its one
/// color lets nothing through and only trims what is there. For every other paint whose
/// colors can be made there is a blitter.
pub proof fn law_what_draws_nothing(paint: Paint)
    ensures
        paint.blend_mode == BlendMode::Destination ==> paint.draws_nothing(),
        paint.blend_mode == BlendMode::DestinationIn ==> (paint.draws_nothing()
            <==> paint.shader.opaque && paint.shader.kind is SolidColor),
        paint.blend_mode != BlendMode::Destination && paint.blend_mode != BlendMode::DestinationIn
            ==> !paint.draws_nothing(),
{
}

/// A paint is blended in its own mode, but for two that come to replacing what is there,
/// where there is no mask: opaque colors drawn over it, and clearing without smooth edges.
pub proof fn law_how_a_paint_is_blended(paint: Paint, masked: bool)
    ensures
        masked ==> paint.reduced_mode(masked) == paint.blend_mode,
        !masked && paint.blend_mode == BlendMode::SourceOver ==> paint.reduced_mode(masked) == (
        if paint.shader.opaque {
            BlendMode::Source
        } else {
            BlendMode::SourceOver
        }),
        !masked && paint.blend_mode == BlendMode::Clear ==> paint.reduced_mode(masked) == (
        if paint.anti_alias {
            BlendMode::Clear
        } else {
            BlendMode::Source
        }),
        paint.blend_mode != BlendMode::SourceOver && paint.blend_mode != BlendMode::Clear
            ==> paint.reduced_mode(masked) == paint.blend_mode,
{
}

/// No two modes blend with the same step, and only replacing what is there takes none.
pub proof fn law_modes_have_steps_of_their_own(a: BlendMode, b: BlendMode)
    ensures
        a.stage() == b.stage() ==> a == b,
        a.stage() is None <==> a == BlendMode::Source,
{
}

/// A mode blends with the step of its own name. Keeping what is there takes what is there
/// for the source.
pub proof fn law_modes_blend_as_they_are_named()
    ensures
        BlendMode::SourceOver.stage() == Some(Stage::SourceOver),
        BlendMode::DestinationOver.stage() == Some(Stage::DestinationOver),
        BlendMode::SourceIn.stage() == Some(Stage::SourceIn),
        BlendMode::DestinationIn.stage() == Some(Stage::DestinationIn),
        BlendMode::SourceOut.stage() == Some(Stage::SourceOut),
        BlendMode::DestinationOut.stage() == Some(Stage::DestinationOut),
        BlendMode::SourceAtop.stage() == Some(Stage::SourceAtop),
        BlendMode::DestinationAtop.stage() == Some(Stage::DestinationAtop),
        BlendMode::Xor.stage() == Some(Stage::Xor),
        BlendMode::Plus.stage() == Some(Stage::Plus),
        BlendMode::Modulate.stage() == Some(Stage::Modulate),
        BlendMode::Screen.stage() == Some(Stage::Screen),
        BlendMode::Overlay.stage() == Some(Stage::Overlay),
        BlendMode::Darken.stage() == Some(Stage::Darken),
        BlendMode::Lighten.stage() == Some(Stage::Lighten),
        BlendMode::ColorDodge.stage() == Some(Stage::ColorDodge),
        BlendMode::ColorBurn.stage() == Some(Stage::ColorBurn),
        BlendMode::HardLight.stage() == Some(Stage::HardLight),
        BlendMode::SoftLight.stage() == Some(Stage::SoftLight),
        BlendMode::Difference.stage() == Some(Stage::Difference),
        BlendMode::Exclusion.stage() == Some(Stage::Exclusion),
        BlendMode::Multiply.stage() == Some(Stage::Multiply),
        BlendMode::Hue.stage() == Some(Stage::Hue),
        BlendMode::Saturation.stage() == Some(Stage::Saturation),
        BlendMode::Color.stage() == Some(Stage::Color),
        BlendMode::Luminosity.stage() == Some(Stage::Luminosity),
        BlendMode::Clear.stage() == Some(Stage::Clear),
        BlendMode::Destination.stage() == Some(Stage::MoveDestinationToSource),
        BlendMode::Source.stage() is None,
{
}

/// The source can be scaled by its coverage before it is blended in these modes, and in no
/// other ones.
pub proof fn law_modes_that_scale_their_source()
    ensures
        BlendMode::Destination.pre_scales_coverage(),
        BlendMode::DestinationOver.pre_scales_coverage(),
        BlendMode::Plus.pre_scales_coverage(),
        BlendMode::DestinationOut.pre_scales_coverage(),
        BlendMode::SourceAtop.pre_scales_coverage(),
        BlendMode::SourceOver.pre_scales_coverage(),
        BlendMode::Xor.pre_scales_coverage(),
        !BlendMode::SourceIn.pre_scales_coverage(),
        !BlendMode::DestinationIn.pre_scales_coverage(),
        !BlendMode::SourceOut.pre_scales_coverage(),
        !BlendMode::DestinationAtop.pre_scales_coverage(),
        !BlendMode::Modulate.pre_scales_coverage(),
        !BlendMode::Screen.pre_scales_coverage(),
        !BlendMode::Overlay.pre_scales_coverage(),
        !BlendMode::Darken.pre_scales_coverage(),
        !BlendMode::Lighten.pre_scales_coverage(),
        !BlendMode::ColorDodge.pre_scales_coverage(),
        !BlendMode::ColorBurn.pre_scales_coverage(),
        !BlendMode::HardLight.pre_scales_coverage(),
        !BlendMode::SoftLight.pre_scales_coverage(),
        !BlendMode::Difference.pre_scales_coverage(),
        !BlendMode::Exclusion.pre_scales_coverage(),
        !BlendMode::Multiply.pre_scales_coverage(),
        !BlendMode::Hue.pre_scales_coverage(),
        !BlendMode::Saturation.pre_scales_coverage(),
        !BlendMode::Color.pre_scales_coverage(),
        !BlendMode::Luminosity.pre_scales_coverage(),
        !BlendMode::Clear.pre_scales_coverage(),
        !BlendMode::Source.pre_scales_coverage(),
{
}

/// Where no color is simply set, drawing a rectangle is one run of the pipeline for full
/// coverage. It covers exactly the pixels of the rectangle, and is given no mask of one or
/// two bytes. Where a color is simply set, there is no run.
pub proof fn law_rect_run_covers_the_rect<'a, 'b>(
    blitter: RasterPipelineBlitter<'a, 'b>,
    r: Option<PipelineRun<'a>>,
    rect: ScreenIntRect,
    px: int,
    py: int,
)
    requires
        blitter.rect_rest(r, rect),
    ensures
        r is Some <==> blitter.memset2d_color is None,
        r matches Some(run) ==> {
            &&& (run.rect.x <= px < run.rect.x + run.rect.width && run.rect.y <= py < run.rect.y
                + run.rect.height) <==> (rect.x <= px < rect.x + rect.width && rect.y <= py < rect.y
                + rect.height)
            &&& run.pipeline == PipelineKind::Rect
            &&& run.coverage is None
            &&& run.aa_mask_ctx.pixels@[0] == 0 && run.aa_mask_ctx.pixels@[1] == 0
            &&& run.aa_mask_ctx.stride == 0 && run.aa_mask_ctx.shift == 0
            &&& run.pixmap_src == blitter.pixmap_src
            &&& match blitter.mask {
                Some(mask) => run.mask_ctx.data@ == mask.data@ && run.mask_ctx.real_width
                    == mask.real_width,
                None => run.mask_ctx.data@.len() == 0 && run.mask_ctx.real_width == 0,
            }
        },
{
}

/// Every run of a blitter, of whatever pipeline, carries the blitter's mask: its bytes and
/// the distance of its rows, or nothing where there is no mask. It reads the blitter's
/// source, and covers the pixels of the rectangle that it was asked for.
pub proof fn law_run_carries_the_mask<'a, 'b>(
    blitter: RasterPipelineBlitter<'a, 'b>,
    run: PipelineRun<'a>,
    pipeline: PipelineKind,
    coverage: Option<u8>,
    rect: ScreenIntRect,
    px: int,
    py: int,
)
    requires
        blitter.runs(run, pipeline, coverage, rect),
    ensures
        match blitter.mask {
            Some(mask) => run.mask_ctx.data@ == mask.data@ && run.mask_ctx.real_width
                == mask.real_width,
            None => run.mask_ctx.data@.len() == 0 && run.mask_ctx.real_width == 0,
        },
        run.pixmap_src == blitter.pixmap_src,
        run.pipeline == pipeline,
        run.coverage == coverage,
        (run.rect.x <= px < run.rect.x + run.rect.width && run.rect.y <= py < run.rect.y
            + run.rect.height) <==> (rect.x <= px < rect.x + rect.width && rect.y <= py < rect.y
            + rect.height),
{
}

/// What a byte of a pixel is after a fill of a rectangle of pixels.
proof fn lemma_filled_unit(
    b: Seq<u8>,
    s: int,
    unit: Seq<u8>,
    x: int,
    y: int,
    w: int,
    h: int,
    px: int,
    py: int,
    j: int,
)
    requires
        0 < unit.len(),
        0 <= x,
        0 <= y,
        0 <= w,
        0 <= h,
        unit.len() * (x + w) <= s,
        0 <= px,
        0 <= py,
        unit.len() * px + unit.len() <= s,
        0 <= j < unit.len(),
        py * s + unit.len() * px + j < b.len(),
    ensures
        rows_filled(b, y * s + unit.len() * x, s, h as nat, w, unit).len() == b.len(),
        rows_filled(b, y * s + unit.len() * x, s, h as nat, w, unit)[py * s + unit.len() * px + j]
            == (if x <= px < x + w && y <= py < y + h {
            unit[j]
        } else {
            b[py * s + unit.len() * px + j]
        }),
{
    let u = unit.len() as int;
    let start = y * s + u * x;
    let i = py * s + u * px + j;
    let k = u * (px - x) + j;
    assert(u * px == u * x + u * (px - x) && u * (x + w) == u * x + u * w && w * u == u * w && 0
        <= u * x && 0 <= u * w && 0 <= u * px) by (nonlinear_arith)
        requires
            0 < u,
            0 <= x,
            0 <= w,
            0 <= px,
    ;
    assert(0 <= py * s && i - start == (py - y) * s + k) by (nonlinear_arith)
        requires
            0 <= py,
            0 <= s,
            i == py * s + u * px + j,
            start == y * s + u * x,
            u * px == u * x + u * (px - x),
            k == u * (px - x) + j,
    ;
    law_rows_filled_bytes(b, start, s, h as nat, w, unit, i);
    if py < y {
        assert((py - y) * s <= -s) by (nonlinear_arith)
            requires
                py - y <= -1,
                0 <= s,
        ;
    } else if px < x {
        assert((py - y) * s == (py - y - 1) * s + s) by (nonlinear_arith);
        assert(k < 0) by (nonlinear_arith)
            requires
                k == u * (px - x) + j,
                px - x <= -1,
                j < u,
                0 < u,
        ;
        vstd::arithmetic::div_mod::lemma_fundamental_div_mod_converse(
            i - start,
            s,
            py - y - 1,
            s + k,
        );
    } else {
        assert(0 <= (py - y) * s && 0 <= k) by (nonlinear_arith)
            requires
                0 <= py - y,
                0 <= s,
                0 <= px - x,
                0 < u,
                0 <= j,
                k == u * (px - x) + j,
        ;
        vstd::arithmetic::div_mod::lemma_fundamental_div_mod_converse(i - start, s, py - y, k);
        vstd::arithmetic::div_mod::lemma_fundamental_div_mod_converse(k, u, px - x, j);
        assert(k < u * w <==> px < x + w) by (nonlinear_arith)
            requires
                k == u * (px - x) + j,
                0 <= j < u,
        ;
    }
}

/// What drawing a rectangle leaves in the memory of a pixmap, as far as no pipeline is
/// needed for it, in the byte `j` of the pixel at a position. Where a color is simply set,
/// the pixels of the rectangle have its red, green, blue and alpha one behind another.
/// Everything else stays.
pub proof fn law_rect_in_the_memory_of_a_pixmap<'a, 'b>(
    blitter: RasterPipelineBlitter<'a, 'b>,
    rect: ScreenIntRect,
    px: int,
    py: int,
    j: int,
)
    requires
        blitter.dest matches PipelineDest::Pixmap(pixmap) && {
            &&& 4 * (rect.x + rect.width) <= pixmap.stride
            &&& 0 <= px && 4 * px + 4 <= pixmap.stride
            &&& 0 <= py && 0 <= j < 4
            &&& py * pixmap.stride + 4 * px + j < pixmap.data@.len()
        },
    ensures
        blitter.dest matches PipelineDest::Pixmap(pixmap) && {
            let at = py * pixmap.stride + 4 * px + j;
            let after = blitter.rect_bytes(rect);
            &&& after.len() == pixmap.data@.len()
            &&& match blitter.memset2d_color {
                Some(c) => if rect.x <= px < rect.x + rect.width && rect.y <= py < rect.y
                    + rect.height {
                    after[at] == (if j == 0 {
                        c.r
                    } else if j == 1 {
                        c.g
                    } else if j == 2 {
                        c.b
                    } else {
                        c.a
                    })
                } else {
                    after[at] == pixmap.data@[at]
                },
                None => after == pixmap.data@,
            }
        },
{
    if let Some(c) = blitter.memset2d_color {
        lemma_filled_unit(
            blitter.dest.bytes(),
            blitter.dest.stride(),
            c.bytes(),
            rect.x as int,
            rect.y as int,
            rect.width as int,
            rect.height as int,
            px,
            py,
            j,
        );
    }
}

/// What drawing a rectangle leaves in the memory of a mask, as far as no pipeline is needed
/// for it, at a position. Where a color is simply set, it is the color's alpha in the
/// rectangle. Everything else stays.
pub proof fn law_rect_in_the_memory_of_a_mask<'a, 'b>(
    blitter: RasterPipelineBlitter<'a, 'b>,
    rect: ScreenIntRect,
    px: int,
    py: int,
)
    requires
        blitter.dest matches PipelineDest::Mask(mask) && {
            &&& rect.x + rect.width <= mask.real_width
            &&& 0 <= px < mask.real_width
            &&& 0 <= py
            &&& py * mask.real_width + px < mask.data@.len()
        },
    ensures
        blitter.dest matches PipelineDest::Mask(mask) && {
            let at = py * mask.real_width + px;
            let after = blitter.rect_bytes(rect);
            &&& after.len() == mask.data@.len()
            &&& match blitter.memset2d_color {
                Some(c) => after[at] == (if rect.x <= px < rect.x + rect.width && rect.y <= py
                    < rect.y + rect.height {
                    c.a
                } else {
                    mask.data@[at]
                }),
                None => after == mask.data@,
            }
        },
{
    if let Some(c) = blitter.memset2d_color {
        lemma_filled_unit(
            blitter.dest.bytes(),
            blitter.dest.stride(),
            seq![c.a],
            rect.x as int,
            rect.y as int,
            rect.width as int,
            rect.height as int,
            px,
            py,
            0,
        );
        assert(blitter.dest.pixel_size() * rect.x == rect.x) by (nonlinear_arith)
            requires
                blitter.dest.pixel_size() == 1,
        ;
    }
}

/// Drawing changes nothing of a blitter but the bytes that are drawn on.
pub proof fn law_setup_is_kept<'a, 'b>(
    before: RasterPipelineBlitter<'a, 'b>,
    after: RasterPipelineBlitter<'a, 'b>,
)
    requires
        after.same_setup(before),
    ensures
        after.mask == before.mask,
        after.pixmap_src == before.pixmap_src,
        after.memset2d_color == before.memset2d_color,
        after.blit_anti_h_rp == before.blit_anti_h_rp,
        after.blit_rect_rp == before.blit_rect_rp,
        after.blit_mask_rp == before.blit_mask_rp,
        before.dest matches PipelineDest::Pixmap(p) ==> after.dest matches PipelineDest::Pixmap(q)
            && q.size == p.size && q.stride == p.stride && q.pixel_type == p.pixel_type,
        before.dest matches PipelineDest::Mask(m) ==> after.dest matches PipelineDest::Mask(n)
            && n.size == m.size && n.real_width == m.real_width,
{
}

/// A rectangle can be drawn wherever a pipeline draws it, and wherever its last row lies in
/// the memory.
pub proof fn law_what_can_be_drawn<'a, 'b>(
    blitter: RasterPipelineBlitter<'a, 'b>,
    rect: ScreenIntRect,
)
    requires
        rect.valid(),
    ensures
        blitter.memset2d_color is None ==> blitter.can_blit(rect),
        blitter.dest matches PipelineDest::Pixmap(p) ==> rect.y + rect.height <= u32::MAX && (rect.y
            + rect.height - 1) * p.stride + 4 * rect.x + 4 * rect.width <= p.data@.len()
            ==> blitter.can_blit(rect),
        blitter.dest matches PipelineDest::Mask(m) ==> rect.y + rect.height <= u32::MAX && (rect.y
            + rect.height - 1) * m.real_width + rect.x + rect.width <= m.data@.len()
            ==> blitter.can_blit(rect),
{
    if blitter.dest is Mask {
        assert(blitter.dest.pixel_size() * rect.x == rect.x && blitter.dest.pixel_size()
            * rect.width == rect.width) by (nonlinear_arith)
            requires
                blitter.dest.pixel_size() == 1,
        ;
    }
}

impl AAMaskCtx {
    /// The coverage of a pixel: a byte of the mask, as far from the first one as the pixel
    /// is from where the mask lies.
    pub open spec fn coverage(self, px: int, py: int) -> u8 {
        self.pixels@[py * self.stride + px - self.shift]
    }
}

/// The pipeline for a mask of one or two bytes finds, for a pixel of the mask's bounds, the
/// byte of it that lies as far right and as far down from its first one as the pixel does
/// from the corner of the bounds.
pub proof fn law_mask_lies_in_its_bounds(mask: Mask, ctx: AAMaskCtx, px: int, py: int)
    requires
        ctx == (AAMaskCtx {
            pixels: mask.image,
            stride: mask.row_bytes,
            shift: (mask.bounds.x + mask.bounds.y * mask.row_bytes) as usize,
        }),
        mask.bounds.x + mask.bounds.y * mask.row_bytes <= u32::MAX,
    ensures
        ctx.coverage(px, py) == mask.image@[(py - mask.bounds.y) * mask.row_bytes + (px
            - mask.bounds.x)],
{
    assert(0 <= mask.bounds.y * mask.row_bytes) by (nonlinear_arith);
    assert((py - mask.bounds.y) * mask.row_bytes == py * mask.row_bytes - mask.bounds.y
        * mask.row_bytes) by (nonlinear_arith);
}

/// Whether walking runs from one position leads to another one: each step goes as far as
/// the run at the position is long.
pub open spec fn leads_to(runs: Seq<Option<u16>>, from: int, to: int) -> bool
    decreases larger(to - from, 0),
{
    ||| from == to
    ||| {
        &&& 0 <= from < to
        &&& from < runs.len()
        &&& runs[from] matches Some(n) && n > 0 && leads_to(runs, from + n, to)
    }
}

/// Runs can be walked exactly where every position that the walk leads to is one of them,
/// and holds the end mark or a run that is not empty and has an alpha.
pub proof fn law_runs_that_can_be_walked(aa_len: nat, runs: Seq<Option<u16>>, at: int)
    requires
        0 <= at,
    ensures
        runs_ok(aa_len, runs, at) <==> (forall|to: int| #[trigger]
            leads_to(runs, at, to) ==> 0 <= to < runs.len() && (runs[to] matches Some(n) ==> n > 0
                && to < aa_len)),
    decreases larger(runs.len() - at, 0),
{
    assert(leads_to(runs, at, at));
    if at < runs.len() {
        if let Some(n) = runs[at] {
            if n > 0 {
                law_runs_that_can_be_walked(aa_len, runs, at + n);
                assert forall|to: int| #[trigger] leads_to(runs, at + n, to) implies leads_to(
                    runs,
                    at,
                    to,
                ) by {
                    lemma_walk_goes_on(runs, at + n, to);
                }
                assert forall|to: int| #[trigger] leads_to(runs, at, to) && to != at implies leads_to(
                    runs,
                    at + n,
                    to,
                ) by {}
            }
        } else {
            assert forall|to: int| #[trigger] leads_to(runs, at, to) implies to == at by {}
        }
    }
}

proof fn lemma_walk_goes_on(runs: Seq<Option<u16>>, from: int, to: int)
    requires
        leads_to(runs, from, to),
    ensures
        from <= to,
    decreases larger(to - from, 0),
{
    if from != to {
        let n = runs[from]->0;
        lemma_walk_goes_on(runs, from + n, to);
    }
}

/// As many pixels are in a row as the position of the end mark says.
pub proof fn law_width_of_runs(aa_len: nat, runs: Seq<Option<u16>>, at: int, end: int)
    requires
        runs_ok(aa_len, runs, at),
        leads_to(runs, at, end),
        runs[end] is None,
    ensures
        runs_width(runs, at) == end - at,
    decreases larger(runs.len() - at, 0),
{
    if at != end {
        let n = runs[at]->0;
        law_width_of_runs(aa_len, runs, at + n, end);
    }
}

/// The span of the run at a position.
proof fn lemma_span_of_run(
    x: int,
    aa: Seq<u8>,
    runs: Seq<Option<u16>>,
    at: int,
    start: int,
) -> (k: int)
    requires
        runs_ok(aa.len(), runs, at),
        leads_to(runs, at, start),
        runs[start] is Some,
    ensures
        0 <= k < spans(x, aa, runs, at).len(),
        spans(x, aa, runs, at)[k] == (AlphaSpan {
            x: x + (start - at),
            width: runs[start]->0 as int,
            alpha: aa[start],
        }),
        0 <= start < runs.len(),
        runs[start]->0 > 0,
    decreases larger(runs.len() - at, 0),
{
    if at == start {
        0
    } else {
        let n = runs[at]->0;
        let k = lemma_span_of_run(x + n, aa, runs, at + n, start);
        k + 1
    }
}

/// The span that a span with a pipeline is.
proof fn lemma_piped_is_a_span<'a, 'b>(
    blitter: RasterPipelineBlitter<'a, 'b>,
    all: Seq<AlphaSpan>,
    i: int,
) -> (k: int)
    requires
        0 <= i < blitter.piped(all).len(),
    ensures
        i <= k < all.len(),
        blitter.piped(all)[i] == all[k],
        blitter.needs_pipeline(all[k]),
    decreases all.len(),
{
    let rest = blitter.piped(all.drop_last());
    if blitter.needs_pipeline(all.last()) && i == rest.len() {
        lemma_fewer_piped(blitter, all.drop_last());
        all.len() - 1
    } else {
        let k = lemma_piped_is_a_span(blitter, all.drop_last(), i);
        k
    }
}

proof fn lemma_fewer_piped<'a, 'b>(blitter: RasterPipelineBlitter<'a, 'b>, all: Seq<AlphaSpan>)
    ensures
        blitter.piped(all).len() <= all.len(),
    decreases all.len(),
{
    if all.len() > 0 {
        lemma_fewer_piped(blitter, all.drop_last());
    }
}

/// Where a span that needs a pipeline is among those that do.
proof fn lemma_span_is_piped<'a, 'b>(
    blitter: RasterPipelineBlitter<'a, 'b>,
    all: Seq<AlphaSpan>,
    k: int,
) -> (i: int)
    requires
        0 <= k < all.len(),
        blitter.needs_pipeline(all[k]),
    ensures
        0 <= i < blitter.piped(all).len(),
        blitter.piped(all)[i] == all[k],
    decreases all.len(),
{
    if k == all.len() - 1 {
        blitter.piped(all.drop_last()).len() as int
    } else {
        lemma_span_is_piped(blitter, all.drop_last(), k)
    }
}

/// Of two spans with a pipeline the first one ends before the second one starts.
proof fn lemma_piped_order<'a, 'b>(
    blitter: RasterPipelineBlitter<'a, 'b>,
    all: Seq<AlphaSpan>,
    i: int,
    j: int,
)
    requires
        0 <= i < j < blitter.piped(all).len(),
        forall|k: int| 0 <= k < all.len() ==> (#[trigger] all[k]).width > 0,
        contiguous(all),
    ensures
        blitter.piped(all)[i].x + blitter.piped(all)[i].width <= blitter.piped(all)[j].x,
    decreases all.len(),
{
    let head = all.drop_last();
    let rest = blitter.piped(head);
    assert(contiguous(head));
    if blitter.needs_pipeline(all.last()) && j == rest.len() {
        let k = lemma_piped_is_a_span(blitter, head, i);
        lemma_span_starts(all, k, all.len() - 2);
        assert(all[all.len() - 1].x == all[all.len() - 2].x + all[all.len() - 2].width);
    } else {
        lemma_piped_order(blitter, head, i, j);
    }
}

/// Two spans with a pixel in common are one.
proof fn lemma_spans_are_disjoint(all: Seq<AlphaSpan>, j: int, k: int, p: int)
    requires
        0 <= j < all.len(),
        0 <= k < all.len(),
        forall|i: int| 0 <= i < all.len() ==> (#[trigger] all[i]).width > 0,
        contiguous(all),
        all[j].x <= p < all[j].x + all[j].width,
        all[k].x <= p < all[k].x + all[k].width,
    ensures
        j == k,
{
    if j < k {
        lemma_span_starts(all, j, k - 1);
        assert(all[k].x == all[k - 1].x + all[k - 1].width);
    } else if k < j {
        lemma_span_starts(all, k, j - 1);
        assert(all[j].x == all[j - 1].x + all[j - 1].width);
    }
}

/// Which runs cover a pixel of a row: `start` is a position that the walk leads to, and
/// the pixel is one of those that the run there stands for.
///
/// A pixel of a transparent run lies in no rectangle, and neither does one of an opaque run
/// where a color is simply set. Any other pixel lies in the rectangle of exactly one run:
/// an opaque one in that of a run with full coverage, and one that is covered in part in
/// that of a run with the pixel's own alpha for its coverage.
pub proof fn law_runs_cover_their_pixels<'a, 'b>(
    blitter: RasterPipelineBlitter<'a, 'b>,
    todo: Seq<PipelineRun<'a>>,
    x: u32,
    y: u32,
    aa: Seq<u8>,
    runs: Seq<Option<u16>>,
    start: int,
    px: int,
)
    requires
        runs_ok(aa.len(), runs, 0),
        x + runs_width(runs, 0) <= u32::MAX,
        blitter.spans_rest(todo, spans(x as int, aa, runs, 0), y),
        leads_to(runs, 0, start),
        runs[start] matches Some(n) && x + start <= px < x + start + n,
    ensures
        aa[start] == 0 || aa[start] == 255 && blitter.memset2d_color is Some ==> forall|i: int|
            0 <= i < todo.len() ==> !((#[trigger] todo[i]).rect.x <= px < todo[i].rect.x
                + todo[i].rect.width && todo[i].rect.y <= y < todo[i].rect.y + todo[i].rect.height),
        0 < aa[start] < 255 || aa[start] == 255 && blitter.memset2d_color is None ==> exists|i: int|
            {
                &&& 0 <= i < todo.len()
                &&& (#[trigger] todo[i]).rect.x <= px < todo[i].rect.x + todo[i].rect.width
                &&& todo[i].rect.y <= y < todo[i].rect.y + todo[i].rect.height
                &&& aa[start] < 255 ==> todo[i].pipeline == PipelineKind::AntiH && todo[i].coverage
                    == Some(aa[start])
                &&& aa[start] == 255 ==> todo[i].pipeline == PipelineKind::Rect
                    && todo[i].coverage is None
            },
        forall|i: int, j: int|
            0 <= i < j < todo.len() && (#[trigger] todo[i]).rect.x <= px < todo[i].rect.x
                + todo[i].rect.width ==> !((#[trigger] todo[j]).rect.x <= px < todo[j].rect.x
                + todo[j].rect.width),
{
    let all = spans(x as int, aa, runs, 0);
    let piped = blitter.piped(all);
    let at = lemma_span_of_run(x as int, aa, runs, 0, start);
    let span = all[at];
    law_spans_are_contiguous(x as int, aa, runs, 0);
    assert forall|i: int| 0 <= i < todo.len() implies (#[trigger] todo[i]).rect.x == piped[i].x
        && todo[i].rect.width == piped[i].width && todo[i].rect.y == y && todo[i].rect.height == 1
        by {
        let k = lemma_piped_is_a_span(blitter, all, i);
        lemma_span_ends(all, k);
        assert(blitter.span_run(todo[i], piped[i], y));
    }
    if blitter.needs_pipeline(span) {
        let i = lemma_span_is_piped(blitter, all, at);
        assert(blitter.span_run(todo[i], piped[i], y));
        assert(todo[i].rect.x == span.x);
    } else {
        assert forall|i: int| 0 <= i < todo.len() implies !((#[trigger] todo[i]).rect.x <= px
            < todo[i].rect.x + todo[i].rect.width) by {
            let k = lemma_piped_is_a_span(blitter, all, i);
            assert(todo[i].rect.x == piped[i].x);
            if todo[i].rect.x <= px < todo[i].rect.x + todo[i].rect.width {
                lemma_spans_are_disjoint(all, at, k, px);
            }
        }
    }
    assert forall|i: int, j: int|
        0 <= i < j < todo.len() && (#[trigger] todo[i]).rect.x <= px < todo[i].rect.x
            + todo[i].rect.width implies !((#[trigger] todo[j]).rect.x <= px < todo[j].rect.x
        + todo[j].rect.width) by {
        lemma_piped_order(blitter, all, i, j);
        assert(todo[i].rect.x == piped[i].x && todo[j].rect.x == piped[j].x);
    }
}

/// No run covers a pixel of another row, or one before or behind the pixels of the row;
/// `end` is the position of the end mark. Every run carries the blitter's mask and source,
/// and no mask of one or two bytes.
pub proof fn law_runs_cover_nothing_else<'a, 'b>(
    blitter: RasterPipelineBlitter<'a, 'b>,
    todo: Seq<PipelineRun<'a>>,
    x: u32,
    y: u32,
    aa: Seq<u8>,
    runs: Seq<Option<u16>>,
    end: int,
    i: int,
    px: int,
    py: int,
)
    requires
        runs_ok(aa.len(), runs, 0),
        x + runs_width(runs, 0) <= u32::MAX,
        blitter.spans_rest(todo, spans(x as int, aa, runs, 0), y),
        leads_to(runs, 0, end),
        runs[end] is None,
        0 <= i < todo.len(),
    ensures
        todo[i].rect.x <= px < todo[i].rect.x + todo[i].rect.width && todo[i].rect.y <= py
            < todo[i].rect.y + todo[i].rect.height ==> py == y && x <= px < x + end,
        match blitter.mask {
            Some(mask) => todo[i].mask_ctx.data@ == mask.data@ && todo[i].mask_ctx.real_width
                == mask.real_width,
            None => todo[i].mask_ctx.data@.len() == 0 && todo[i].mask_ctx.real_width == 0,
        },
        todo[i].pixmap_src == blitter.pixmap_src,
        todo[i].aa_mask_ctx.pixels@[0] == 0 && todo[i].aa_mask_ctx.pixels@[1] == 0,
        todo[i].aa_mask_ctx.stride == 0 && todo[i].aa_mask_ctx.shift == 0,
{
    let all = spans(x as int, aa, runs, 0);
    let k = lemma_piped_is_a_span(blitter, all, i);
    law_spans_are_contiguous(x as int, aa, runs, 0);
    law_width_of_runs(aa.len(), runs, 0, end);
    lemma_span_ends(all, k);
    assert(blitter.span_run(todo[i], blitter.piped(all)[i], y));
}

/// What a row in runs leaves in the memory of a pixmap, as far as no pipeline is needed for
/// it, in the byte `j` of a pixel of the run at `start`. Where a color is simply set, a
/// pixel of an opaque run has its red, green, blue and alpha one behind another. Every
/// other pixel stays.
pub proof fn law_runs_in_the_memory_of_a_pixmap<'a, 'b>(
    blitter: RasterPipelineBlitter<'a, 'b>,
    x: u32,
    y: u32,
    aa: Seq<u8>,
    runs: Seq<Option<u16>>,
    start: int,
    px: int,
    j: int,
)
    requires
        runs_ok(aa.len(), runs, 0),
        x + runs_width(runs, 0) <= u32::MAX,
        leads_to(runs, 0, start),
        runs[start] matches Some(n) && x + start <= px < x + start + n,
        0 <= j < 4,
        blitter.dest matches PipelineDest::Pixmap(pixmap) && {
            &&& 4 * (x + runs_width(runs, 0)) <= pixmap.stride
            &&& y * pixmap.stride + 4 * px + j < pixmap.data@.len()
        },
    ensures
        blitter.dest matches PipelineDest::Pixmap(pixmap) && {
            let at = y * pixmap.stride + 4 * px + j;
            let after = blitter.spans_bytes(spans(x as int, aa, runs, 0), y);
            &&& after.len() == pixmap.data@.len()
            &&& after[at] == (match blitter.memset2d_color {
                Some(c) => if aa[start] == 255 {
                    if j == 0 {
                        c.r
                    } else if j == 1 {
                        c.g
                    } else if j == 2 {
                        c.b
                    } else {
                        c.a
                    }
                } else {
                    pixmap.data@[at]
                },
                None => pixmap.data@[at],
            })
        },
{
    let d = blitter.dest;
    let s = d.stride();
    let i = y * s + 4 * px + j;
    let all = spans(x as int, aa, runs, 0);
    let k = lemma_span_of_run(x as int, aa, runs, 0, start);
    let span = all[k];
    law_spans_are_contiguous(x as int, aa, runs, 0);
    lemma_span_ends(all, k);
    assert(0 <= y * s) by (nonlinear_arith)
        requires
            0 <= y,
            0 <= s,
    ;
    law_runs_draw_opaque_spans(blitter, x, y, aa, runs, i);
    assert forall|m: int| 0 <= m < all.len() implies d.in_span(#[trigger] all[m], y, i) == (all[m].x
        <= px < all[m].x + all[m].width) by {
        assert(d.pixel_size() * all[m].x == 4 * all[m].x && d.pixel_size() * all[m].width == 4
            * all[m].width) by (nonlinear_arith)
            requires
                d.pixel_size() == 4,
        ;
    }
    assert(d.in_span(span, y, i));
    if span.alpha == 255 {
        law_rect_in_the_memory_of_a_pixmap(blitter, span.rect(y), px, y as int, j);
    } else {
        assert forall|m: int| 0 <= m < all.len() && d.in_span(#[trigger] all[m], y, i) implies m
            == k by {
            lemma_spans_are_disjoint(all, m, k, px);
        }
    }
}

/// What a row in runs leaves in the memory of a mask, as far as no pipeline is needed for
/// it, at a pixel of the run at `start`. Where a color is simply set, it is the color's
/// alpha in an opaque run. Everything else stays.
pub proof fn law_runs_in_the_memory_of_a_mask<'a, 'b>(
    blitter: RasterPipelineBlitter<'a, 'b>,
    x: u32,
    y: u32,
    aa: Seq<u8>,
    runs: Seq<Option<u16>>,
    start: int,
    px: int,
)
    requires
        runs_ok(aa.len(), runs, 0),
        x + runs_width(runs, 0) <= u32::MAX,
        leads_to(runs, 0, start),
        runs[start] matches Some(n) && x + start <= px < x + start + n,
        blitter.dest matches PipelineDest::Mask(mask) && {
            &&& x + runs_width(runs, 0) <= mask.real_width
            &&& y * mask.real_width + px < mask.data@.len()
        },
    ensures
        blitter.dest matches PipelineDest::Mask(mask) && {
            let at = y * mask.real_width + px;
            let after = blitter.spans_bytes(spans(x as int, aa, runs, 0), y);
            &&& after.len() == mask.data@.len()
            &&& after[at] == (match blitter.memset2d_color {
                Some(c) => if aa[start] == 255 {
                    c.a
                } else {
                    mask.data@[at]
                },
                None => mask.data@[at],
            })
        },
{
    let d = blitter.dest;
    let s = d.stride();
    let i = y * s + px;
    let all = spans(x as int, aa, runs, 0);
    let k = lemma_span_of_run(x as int, aa, runs, 0, start);
    let span = all[k];
    law_spans_are_contiguous(x as int, aa, runs, 0);
    lemma_span_ends(all, k);
    assert(0 <= y * s) by (nonlinear_arith)
        requires
            0 <= y,
            0 <= s,
    ;
    law_runs_draw_opaque_spans(blitter, x, y, aa, runs, i);
    assert forall|m: int| 0 <= m < all.len() implies d.in_span(#[trigger] all[m], y, i) == (all[m].x
        <= px < all[m].x + all[m].width) by {
        assert(d.pixel_size() * all[m].x == all[m].x && d.pixel_size() * all[m].width
            == all[m].width) by (nonlinear_arith)
            requires
                d.pixel_size() == 1,
        ;
    }
    assert(d.in_span(span, y, i));
    if span.alpha == 255 {
        law_rect_in_the_memory_of_a_mask(blitter, span.rect(y), px, y as int);
    } else {
        assert forall|m: int| 0 <= m < all.len() && d.in_span(#[trigger] all[m], y, i) implies m
            == k by {
            lemma_spans_are_disjoint(all, m, k, px);
        }
    }
}

/// A row in runs changes no byte before its first pixel or behind its last one; `end` is
/// the position of the end mark.
pub proof fn law_runs_keep_other_memory<'a, 'b>(
    blitter: RasterPipelineBlitter<'a, 'b>,
    x: u32,
    y: u32,
    aa: Seq<u8>,
    runs: Seq<Option<u16>>,
    end: int,
    i: int,
)
    requires
        runs_ok(aa.len(), runs, 0),
        x + runs_width(runs, 0) <= u32::MAX,
        leads_to(runs, 0, end),
        runs[end] is None,
        0 <= i < blitter.dest.bytes().len(),
        match blitter.dest {
            PipelineDest::Pixmap(pixmap) => i < y * pixmap.stride + 4 * x || i >= y * pixmap.stride
                + 4 * (x + end),
            PipelineDest::Mask(mask) => i < y * mask.real_width + x || i >= y * mask.real_width + x
                + end,
        },
    ensures
        blitter.spans_bytes(spans(x as int, aa, runs, 0), y)[i] == (match blitter.dest {
            PipelineDest::Pixmap(pixmap) => pixmap.data@[i],
            PipelineDest::Mask(mask) => mask.data@[i],
        }),
{
    let d = blitter.dest;
    let all = spans(x as int, aa, runs, 0);
    law_spans_are_contiguous(x as int, aa, runs, 0);
    law_width_of_runs(aa.len(), runs, 0, end);
    law_runs_draw_opaque_spans(blitter, x, y, aa, runs, i);
    assert forall|k: int| 0 <= k < all.len() implies !d.in_span(#[trigger] all[k], y, i) by {
        lemma_span_ends(all, k);
        if d is Mask {
            assert(d.pixel_size() * all[k].x == all[k].x && d.pixel_size() * all[k].width
                == all[k].width) by (nonlinear_arith)
                requires
                    d.pixel_size() == 1,
            ;
        } else {
            assert(d.pixel_size() * all[k].x == 4 * all[k].x && d.pixel_size() * all[k].width == 4
                * all[k].width) by (nonlinear_arith)
                requires
                    d.pixel_size() == 4,
            ;
        }
    }
}

} // verus!
