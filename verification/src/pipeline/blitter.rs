//! Drawing of rows, columns and rectangles of pixels.
use vstd::prelude::*;

use crate::bytes::fill_byte_rows;
use crate::bytes::fill_pixel_rows;
use crate::bytes::law_rows_filled_bytes;
use crate::bytes::lemma_row_offset;
use crate::bytes::lemma_rows_filled_len;
use crate::bytes::rows_filled;
use crate::bytes::span_filled;
use crate::color::PremultipliedColorU8;
use crate::color::ALPHA_U8_OPAQUE;
use crate::color::ALPHA_U8_TRANSPARENT;
use crate::geom::larger;
use crate::geom::ScreenIntRect;
use crate::mask::AAMaskCtx;
use crate::mask::Mask;
use crate::mask::MaskCtx;
use crate::mask::SubMaskMut;
use crate::mask::SubMaskRef;
use crate::pipeline::if_any;
use crate::pipeline::BlendMode;
use crate::pipeline::GenericPixmapMut;
use crate::pipeline::Paint;
use crate::pipeline::RasterPipeline;
use crate::pipeline::RasterPipelineBuilder;
use crate::pipeline::ShaderKind;
use crate::pipeline::Stage;
use crate::pixmap::PixelType;
use crate::pixmap::PixmapMut;
use crate::pixmap::PixmapRef;
use crate::raster::blank;
use crate::raster::law_filled_colors;
use crate::raster::Raster;

verus! {

/// What is drawn on.
pub enum PipelineDest<'a, 'b> {
    Mask(&'a mut SubMaskMut<'b>),
    Pixmap(&'a mut PixmapMut<'b>),
}

impl<'a, 'b> PipelineDest<'a, 'b> {
    /// The bytes that are drawn on.
    pub open spec fn bytes(self) -> Seq<u8> {
        match self {
            PipelineDest::Mask(mask) => mask.data@,
            PipelineDest::Pixmap(pixmap) => pixmap.data@,
        }
    }

    /// The number of bytes between the starts of two rows.
    pub open spec fn stride(self) -> int {
        match self {
            PipelineDest::Mask(mask) => mask.real_width as int,
            PipelineDest::Pixmap(pixmap) => pixmap.stride as int,
        }
    }

    /// What a pixel of a color is in memory. A mask takes the alpha of it.
    pub open spec fn unit(self, color: PremultipliedColorU8) -> Seq<u8> {
        match self {
            PipelineDest::Mask(_) => seq![color.a],
            PipelineDest::Pixmap(_) => color.bytes(),
        }
    }

    /// The number of bytes in a pixel.
    pub open spec fn pixel_size(self) -> int {
        match self {
            PipelineDest::Mask(_) => 1,
            PipelineDest::Pixmap(pixmap) => pixmap.pixel_type.bytes(),
        }
    }

    /// Where the pixel at a position starts.
    pub open spec fn offset(self, x: int, y: int) -> int {
        y * self.stride() + self.pixel_size() * x
    }

    /// Whether a rectangle lies in the memory that is drawn on.
    pub open spec fn fits(self, rect: ScreenIntRect) -> bool {
        &&& rect.y + rect.height - 1 <= u32::MAX
        &&& self.offset(rect.x as int, rect.y + rect.height - 1) + self.pixel_size() * rect.width
            <= self.bytes().len()
    }

    /// Bytes of the same layout with a rectangle set to a color.
    pub open spec fn filled(
        self,
        bytes: Seq<u8>,
        rect: ScreenIntRect,
        color: PremultipliedColorU8,
    ) -> Seq<u8> {
        rows_filled(
            bytes,
            self.offset(rect.x as int, rect.y as int),
            self.stride(),
            rect.height as nat,
            rect.width as int,
            self.unit(color),
        )
    }

    /// Whether the same thing, in the same layout, is drawn on. Its bytes may differ.
    pub open spec fn same_layout(self, other: PipelineDest) -> bool {
        match (self, other) {
            (PipelineDest::Mask(m), PipelineDest::Mask(n)) => {
                &&& m.size == n.size
                &&& m.real_width == n.real_width
            },
            (PipelineDest::Pixmap(p), PipelineDest::Pixmap(q)) => {
                &&& p.size == q.size
                &&& p.stride == q.stride
                &&& p.pixel_type == q.pixel_type
            },
            _ => false,
        }
    }

    /// Returns what a pipeline draws on.
    pub fn to_generic_pixmap<'c>(&'c mut self) -> (r: GenericPixmapMut<'c>)
        ensures
            r.data@ == old(self).bytes(),
            r.stride == old(self).stride(),
            match *old(self) {
                PipelineDest::Mask(mask) => r.size == mask.size && r.pixel_type is None,
                PipelineDest::Pixmap(pixmap) => r.size == pixmap.size && r.pixel_type == Some(
                    pixmap.pixel_type,
                ),
            },
            final(self).bytes() == final(r.data)@,
            final(self).same_layout(*old(self)),
            // The borrows are still the same ones.
            match (*old(self), *final(self)) {
                (PipelineDest::Mask(m), PipelineDest::Mask(n)) => {
                    &&& *final(n) == *final(m)
                    &&& final(n.data)@ == final(m.data)@
                },
                (PipelineDest::Pixmap(p), PipelineDest::Pixmap(q)) => {
                    &&& *final(q) == *final(p)
                    &&& final(q.data)@ == final(p.data)@
                },
                _ => false,
            },
    {
        match self {
            PipelineDest::Mask(mask) => GenericPixmapMut::from_mask(mask),
            PipelineDest::Pixmap(pixmap) => GenericPixmapMut::from_pixmap(pixmap),
        }
    }

    /// Sets a rectangle to a color.
    pub fn memset(&mut self, rect: &ScreenIntRect, c: PremultipliedColorU8)
        requires
            rect.valid(),
            old(self).fits(*rect),
        ensures
            final(self).bytes() == old(self).filled(old(self).bytes(), *rect, c),
            final(self).same_layout(*old(self)),
            // The borrows are still the same ones.
            match (*old(self), *final(self)) {
                (PipelineDest::Mask(m), PipelineDest::Mask(n)) => {
                    &&& *final(n) == *final(m)
                    &&& final(n.data)@ == final(m.data)@
                },
                (PipelineDest::Pixmap(p), PipelineDest::Pixmap(q)) => {
                    &&& *final(q) == *final(p)
                    &&& final(q.data)@ == final(p.data)@
                },
                _ => false,
            },
    {
        let ghost before = *self;
        proof {
            let s = self.stride();
            let (y, h) = (rect.y as int, rect.height as int);
            lemma_row_offset(y, y + h - 1, s);
            assert((y + h - 1) * s == y * s + (h - 1) * s) by (nonlinear_arith);
            assert(y * s == s * y) by (nonlinear_arith);
            assert(0 <= (h - 1) * s) by (nonlinear_arith)
                requires
                    0 <= h - 1,
                    0 <= s,
            ;
        }
        match self {
            PipelineDest::Mask(mask) => {
                assert(mask.data@.len() == mask.data.len());
                assert(before.pixel_size() * rect.width == rect.width) by (nonlinear_arith)
                    requires
                        before.pixel_size() == 1,
                ;
                assert(before.pixel_size() * rect.x == rect.x) by (nonlinear_arith)
                    requires
                        before.pixel_size() == 1,
                ;
                let start: usize = mask.real_width * rect.y as usize + rect.x as usize;
                fill_byte_rows(
                    mask.data,
                    start,
                    mask.real_width,
                    rect.height,
                    rect.width as usize,
                    c.alpha(),
                );
            },
            PipelineDest::Pixmap(pixmap) => match pixmap.pixel_type {
                PixelType::Rgba8U => {
                    assert(pixmap.data@.len() == pixmap.data.len());
                    let start: usize = pixmap.stride * rect.y as usize + 4 * rect.x as usize;
                    fill_pixel_rows(
                        pixmap.data,
                        start,
                        pixmap.stride,
                        rect.height,
                        rect.width as usize,
                        c,
                    );
                },
            },
        }
    }
}

impl<'a> Paint<'a> {
    /// Whether the paint leaves everything as it is.
    pub open spec fn draws_nothing(self) -> bool {
        ||| self.blend_mode == BlendMode::Destination
        ||| self.blend_mode == BlendMode::DestinationIn && self.shader.opaque
            && self.shader.kind is SolidColor
    }

    /// Whether the paint only sets everything to transparent black.
    pub open spec fn just_clears(self, masked: bool) -> bool {
        self.blend_mode == BlendMode::Clear && !self.anti_alias && !masked
    }

    /// How the paint's colors are blended. Opaque colors hide what is below them, and
    /// clearing is drawing with a transparent color.
    pub open spec fn reduced_mode(self, masked: bool) -> BlendMode {
        if self.shader.opaque && self.blend_mode == BlendMode::SourceOver && !masked {
            BlendMode::Source
        } else if self.just_clears(masked) {
            BlendMode::Source
        } else {
            self.blend_mode
        }
    }

    /// The color that everything is simply set to, where no more than that is needed.
    pub open spec fn memset_color(self, masked: bool) -> Option<PremultipliedColorU8> {
        if self.just_clears(masked) {
            Some(PremultipliedColorU8 { r: 0, g: 0, b: 0, a: 0 })
        } else if self.reduced_mode(masked) == BlendMode::Source && !masked {
            self.shader.uniform_color()
        } else {
            None
        }
    }

    /// The steps that make the colors, and apply the mask to them.
    pub open spec fn source_stages(self, masked: bool) -> Seq<Stage> {
        let made = match self.shader.stages {
            Some(stages) => stages@,
            None => Seq::empty(),
        };
        if masked {
            made.push(Stage::MaskU8)
        } else {
            made
        }
    }

    /// The steps that draw with a coverage, which either scales the colors before they
    /// are blended, or weighs what came out against what was there.
    pub open spec fn coverage_stages(self, masked: bool, scale: Stage, lerp: Stage) -> Seq<Stage> {
        let mode = self.reduced_mode(masked);
        let source = self.source_stages(masked);
        let loaded = if mode.pre_scales_coverage() {
            source.push(scale).push(Stage::LoadDestination)
        } else {
            source.push(Stage::LoadDestination)
        };
        let blended = loaded + if_any(self.colorspace.expand_dest) + if_any(mode.stage());
        let covered = if mode.pre_scales_coverage() {
            blended
        } else {
            blended.push(lerp)
        };
        (covered + if_any(self.colorspace.compress)).push(Stage::Store)
    }

    /// The steps that draw where everything is covered.
    pub open spec fn rect_stages(self, masked: bool) -> Seq<Stage> {
        let mode = self.reduced_mode(masked);
        let source = self.source_stages(masked);
        let compress = if_any(self.colorspace.compress);
        if mode == BlendMode::SourceOver && !masked {
            (source + compress).push(Stage::SourceOverRgba)
        } else if mode == BlendMode::Source {
            (source + compress).push(Stage::Store)
        } else {
            let loaded = source.push(Stage::LoadDestination);
            let blended = loaded + if_any(self.colorspace.expand_dest) + if_any(mode.stage());
            (blended + compress).push(Stage::Store)
        }
    }

    /// Starts a pipeline with the steps that make the colors, and apply the mask to them.
    fn start_pipeline(&self, masked: bool, dest_type: PixelType, src_type: PixelType) -> (r: Option<
        RasterPipelineBuilder,
    >)
        ensures
            r is Some <==> self.shader.stages is Some,
            r matches Some(p) ==> {
                &&& p.stages@ == self.source_stages(masked)
                &&& p.force_hq_pipeline == self.force_hq_pipeline
                &&& p.dest_type == dest_type
                &&& p.src_type == src_type
                &&& p.uniform_color == self.shader.uniform_color()
            },
    {
        let mut p = RasterPipelineBuilder::new(dest_type, src_type);
        p.set_force_hq_pipeline(self.force_hq_pipeline);
        if !self.shader.push_stages(&mut p) {
            return None;
        }
        assert(p.stages@ =~= self.source_stages(false));
        if masked {
            p.push(Stage::MaskU8);
        }
        Some(p)
    }

    /// Puts the pipeline together that draws with a coverage.
    fn coverage_pipeline(
        &self,
        masked: bool,
        mode: BlendMode,
        scale: Stage,
        lerp: Stage,
        dest_type: PixelType,
        src_type: PixelType,
    ) -> (r: Option<RasterPipeline>)
        requires
            mode == self.reduced_mode(masked),
        ensures
            r is Some <==> self.shader.stages is Some,
            r matches Some(p) ==> p.is(
                self.coverage_stages(masked, scale, lerp),
                self.force_hq_pipeline,
                dest_type,
                src_type,
                self.shader.uniform_color(),
            ),
    {
        let mut p = self.start_pipeline(masked, dest_type, src_type)?;
        if mode.should_pre_scale_coverage() {
            p.push(scale);
            p.push(Stage::LoadDestination);
            p.push_any(self.colorspace.expand_dest_stage());
            p.push_any(mode.to_stage());
        } else {
            p.push(Stage::LoadDestination);
            p.push_any(self.colorspace.expand_dest_stage());
            p.push_any(mode.to_stage());
            p.push(lerp);
        }
        p.push_any(self.colorspace.compress_stage());
        p.push(Stage::Store);
        Some(p.compile())
    }

    /// Puts the pipeline together that draws where everything is covered.
    fn rect_pipeline(
        &self,
        masked: bool,
        mode: BlendMode,
        dest_type: PixelType,
        src_type: PixelType,
    ) -> (r: Option<RasterPipeline>)
        requires
            mode == self.reduced_mode(masked),
        ensures
            r is Some <==> self.shader.stages is Some,
            r matches Some(p) ==> p.is(
                self.rect_stages(masked),
                self.force_hq_pipeline,
                dest_type,
                src_type,
                self.shader.uniform_color(),
            ),
    {
        let mut p = self.start_pipeline(masked, dest_type, src_type)?;
        if mode == BlendMode::SourceOver && !masked {
            p.push_any(self.colorspace.compress_stage());
            p.push(Stage::SourceOverRgba);
        } else {
            if mode != BlendMode::Source {
                p.push(Stage::LoadDestination);
                if let Some(blend_stage) = mode.to_stage() {
                    p.push_any(self.colorspace.expand_dest_stage());
                    p.push(blend_stage);
                }
            }
            p.push_any(self.colorspace.compress_stage());
            p.push(Stage::Store);
        }
        assert(p.stages@ =~= self.rect_stages(masked));
        Some(p.compile())
    }
}

/// Draws with the pipelines that a paint asks for.
///
/// A pipeline is run by whoever holds the blitter: where one is needed, the methods
/// return which one to run, and on what.
pub struct RasterPipelineBlitter<'a, 'b> {
    pub mask: Option<SubMaskRef<'a>>,
    pub pixmap_src: PixmapRef<'a>,
    pub dest: PipelineDest<'a, 'b>,
    /// The color that a rectangle is simply set to, where no pipeline is needed.
    pub memset2d_color: Option<PremultipliedColorU8>,
    pub blit_anti_h_rp: RasterPipeline,
    pub blit_rect_rp: RasterPipeline,
    pub blit_mask_rp: RasterPipeline,
}

/// Returns a pixmap for a pipeline that reads none.
fn dummy_source<'a>() -> (r: PixmapRef<'a>)
    ensures
        r@.valid(),
        r@ == blank(1, 1, 4, PixelType::Rgba8U),
{
    let r = PixmapRef::from_bytes(&[0, 0, 0, 0], 1, 1).unwrap();
    assert(r@.bytes =~= blank(1, 1, 4, PixelType::Rgba8U).bytes);
    r
}

impl<'a, 'b> RasterPipelineBlitter<'a, 'b> {
    /// Whether the blitter is one that draws a paint through a mask, or without one, on
    /// pixels of a type.
    pub open spec fn prepared_for(
        self,
        paint: Paint<'a>,
        mask: Option<SubMaskRef<'a>>,
        dest_type: PixelType,
    ) -> bool {
        let masked = mask is Some;
        let src_type = self.pixmap_src@.pixel_type;
        let hq = paint.force_hq_pipeline;
        let color = paint.shader.uniform_color();
        &&& !paint.draws_nothing()
        &&& paint.shader.stages is Some
        &&& self.mask == mask
        &&& match paint.shader.kind {
            ShaderKind::Pattern(patt) => self.pixmap_src == patt,
            _ => self.pixmap_src@ == blank(1, 1, 4, PixelType::Rgba8U),
        }
        &&& self.memset2d_color == paint.memset_color(masked)
        &&& self.blit_anti_h_rp.is(
            paint.coverage_stages(masked, Stage::Scale1Float, Stage::Lerp1Float),
            hq,
            dest_type,
            src_type,
            color,
        )
        &&& self.blit_rect_rp.is(paint.rect_stages(masked), hq, dest_type, src_type, color)
        &&& self.blit_mask_rp.is(
            paint.coverage_stages(masked, Stage::ScaleU8, Stage::LerpU8),
            hq,
            dest_type,
            src_type,
            color,
        )
    }

    /// Prepares the drawing of a paint on a pixmap.
    ///
    /// Returns `None` where a mask is not of the pixmap's size, where nothing would be
    /// drawn, and where the paint's colors cannot be made.
    pub fn new(
        paint: &Paint<'a>,
        mask: Option<SubMaskRef<'a>>,
        pixmap: &'a mut PixmapMut<'b>,
    ) -> (r: Option<Self>)
        ensures
            r is Some <==> {
                &&& mask matches Some(mask) ==> mask.size.w() == old(pixmap)@.width && mask.size.h()
                    == old(pixmap)@.height
                &&& !paint.draws_nothing()
                &&& paint.shader.stages is Some
            },
            match r {
                Some(b) => {
                    let masked = mask is Some;
                    let dest_type = old(pixmap).pixel_type;
                    let src_type = b.pixmap_src@.pixel_type;
                    let hq = paint.force_hq_pipeline;
                    let color = paint.shader.uniform_color();
                    &&& b.mask == mask
                    &&& match paint.shader.kind {
                        ShaderKind::Pattern(patt) => b.pixmap_src == patt,
                        _ => b.pixmap_src@ == blank(1, 1, 4, PixelType::Rgba8U),
                    }
                    &&& b.dest matches PipelineDest::Pixmap(dest) && *dest == *old(pixmap)
                        && *final(dest) == *final(pixmap)
                    &&& b.memset2d_color == paint.memset_color(masked)
                    &&& b.blit_anti_h_rp.is(
                        paint.coverage_stages(masked, Stage::Scale1Float, Stage::Lerp1Float),
                        hq,
                        dest_type,
                        src_type,
                        color,
                    )
                    &&& b.blit_rect_rp.is(paint.rect_stages(masked), hq, dest_type, src_type, color)
                    &&& b.blit_mask_rp.is(
                        paint.coverage_stages(masked, Stage::ScaleU8, Stage::LerpU8),
                        hq,
                        dest_type,
                        src_type,
                        color,
                    )
                    &&& b.prepared_for(*paint, mask, dest_type)
                },
                None => *final(pixmap) == *old(pixmap),
            },
    {
        let masked = mask.is_some();

        // Make sure that `mask` has the same size as `pixmap`.
        if let Some(mask) = mask {
            if mask.size.width() != pixmap.size().width() || mask.size.height()
                != pixmap.size().height() {
                return None;
            }
        }

        // Fast-reject.
        match paint.blend_mode {
            // `Destination` keep the pixmap unchanged. Nothing to do here.
            BlendMode::Destination => return None,
            BlendMode::DestinationIn => {
                if paint.shader.is_opaque() && paint.is_solid_color() {
                    return None;
                }
            },
            _ => {},
        }

        // We can strength-reduce SourceOver into Source when opaque.
        let mut blend_mode = paint.blend_mode;
        if paint.shader.is_opaque() && blend_mode == BlendMode::SourceOver && !masked {
            blend_mode = BlendMode::Source;
        }

        // When we're drawing a constant color in Source mode, we can sometimes just memset.
        let mut memset2d_color = None;
        if paint.is_solid_color() && blend_mode == BlendMode::Source && !masked {
            if let ShaderKind::SolidColor(color) = &paint.shader.kind {
                memset2d_color = Some(*color);
            }
        }

        // Clear is just a transparent color memset.
        if blend_mode == BlendMode::Clear && !paint.anti_alias && !masked {
            blend_mode = BlendMode::Source;
            memset2d_color = Some(PremultipliedColorU8::transparent());
        }

        let pixmap_src = match &paint.shader.kind {
            ShaderKind::Pattern(patt) => *patt,
            // Just a dummy one.
            _ => dummy_source(),
        };

        let (dest_type, src_type) = (pixmap.pixel_type(), pixmap_src.pixel_type());
        let blit_anti_h_rp = paint.coverage_pipeline(
            masked,
            blend_mode,
            Stage::Scale1Float,
            Stage::Lerp1Float,
            dest_type,
            src_type,
        )?;
        let blit_rect_rp = paint.rect_pipeline(masked, blend_mode, dest_type, src_type)?;
        let blit_mask_rp = paint.coverage_pipeline(
            masked,
            blend_mode,
            Stage::ScaleU8,
            Stage::LerpU8,
            dest_type,
            src_type,
        )?;

        Some(
            RasterPipelineBlitter {
                mask,
                pixmap_src,
                dest: PipelineDest::Pixmap(pixmap),
                memset2d_color,
                blit_anti_h_rp,
                blit_rect_rp,
                blit_mask_rp,
            },
        )
    }

    /// Prepares the drawing of full coverage on a mask.
    pub fn new_mask(mask: &'a mut SubMaskMut<'b>) -> (r: Option<Self>)
        ensures
            r matches Some(b) && {
                let white = PremultipliedColorU8 { r: 255, g: 255, b: 255, a: 255 };
                let rgba = PixelType::Rgba8U;
                &&& b.mask is None
                &&& b.pixmap_src@ == blank(1, 1, 4, rgba)
                &&& b.dest matches PipelineDest::Mask(dest) && *dest == *old(mask) && *final(dest)
                    == *final(mask)
                &&& b.memset2d_color == Some(white)
                &&& b.blit_anti_h_rp.is(
                    seq![
                        Stage::UniformColor,
                        Stage::LoadDestinationU8,
                        Stage::Lerp1Float,
                        Stage::StoreU8,
                    ],
                    false,
                    rgba,
                    rgba,
                    Some(white),
                )
                &&& b.blit_rect_rp.is(
                    seq![Stage::UniformColor, Stage::StoreU8],
                    false,
                    rgba,
                    rgba,
                    Some(white),
                )
                &&& b.blit_mask_rp.is(
                    seq![
                        Stage::UniformColor,
                        Stage::LoadDestinationU8,
                        Stage::LerpU8,
                        Stage::StoreU8,
                    ],
                    false,
                    rgba,
                    rgba,
                    Some(white),
                )
            },
    {
        let color = PremultipliedColorU8::from_rgba_unchecked(255, 255, 255, 255);

        let blit_anti_h_rp = {
            let mut p = RasterPipelineBuilder::new(PixelType::Rgba8U, PixelType::Rgba8U);
            p.push_uniform_color(color);
            p.push(Stage::LoadDestinationU8);
            p.push(Stage::Lerp1Float);
            p.push(Stage::StoreU8);
            assert(p.stages@ =~= seq![
                Stage::UniformColor,
                Stage::LoadDestinationU8,
                Stage::Lerp1Float,
                Stage::StoreU8,
            ]);
            p.compile()
        };

        let blit_rect_rp = {
            let mut p = RasterPipelineBuilder::new(PixelType::Rgba8U, PixelType::Rgba8U);
            p.push_uniform_color(color);
            p.push(Stage::StoreU8);
            assert(p.stages@ =~= seq![Stage::UniformColor, Stage::StoreU8]);
            p.compile()
        };

        let blit_mask_rp = {
            let mut p = RasterPipelineBuilder::new(PixelType::Rgba8U, PixelType::Rgba8U);
            p.push_uniform_color(color);
            p.push(Stage::LoadDestinationU8);
            p.push(Stage::LerpU8);
            p.push(Stage::StoreU8);
            assert(p.stages@ =~= seq![
                Stage::UniformColor,
                Stage::LoadDestinationU8,
                Stage::LerpU8,
                Stage::StoreU8,
            ]);
            p.compile()
        };

        Some(
            RasterPipelineBlitter {
                mask: None,
                pixmap_src: dummy_source(),
                dest: PipelineDest::Mask(mask),
                memset2d_color: Some(color),
                blit_anti_h_rp,
                blit_rect_rp,
                blit_mask_rp,
            },
        )
    }
}

/// Which of a blitter's pipelines is meant.
#[derive(Clone, Copy, Debug, PartialEq, Eq, Structural)]
pub enum PipelineKind {
    /// The one that draws with the same coverage everywhere.
    AntiH,
    /// The one that draws where everything is covered.
    Rect,
    /// The one that draws with a coverage that a mask gives.
    Mask,
}

/// A pipeline that has to be run, and what it has to be run on.
#[derive(Clone, Copy)]
pub struct PipelineRun<'a> {
    pub pipeline: PipelineKind,
    /// The coverage that [`PipelineKind::AntiH`] draws with, in parts of 255.
    pub coverage: Option<u8>,
    pub rect: ScreenIntRect,
    pub aa_mask_ctx: AAMaskCtx,
    pub mask_ctx: MaskCtx<'a>,
    pub pixmap_src: PixmapRef<'a>,
}

/// Pixels of a row that are drawn with the same alpha.
pub struct AlphaSpan {
    pub x: int,
    pub width: int,
    pub alpha: u8,
}

impl AlphaSpan {
    /// The pixels as a rectangle.
    pub open spec fn rect(self, y: u32) -> ScreenIntRect {
        ScreenIntRect { x: self.x as u32, y, width: self.width as u32, height: 1 }
    }
}

/// Whether runs can be walked from `at` on: every run is followed by another one or by
/// the end mark, and has an alpha.
pub open spec fn runs_ok(aa_len: nat, runs: Seq<Option<u16>>, at: int) -> bool
    decreases larger(runs.len() - at, 0),
{
    &&& 0 <= at < runs.len()
    &&& runs[at] matches Some(n) ==> n > 0 && at < aa_len && runs_ok(aa_len, runs, at + n)
}

/// The spans that runs stand for, from `at` on, where the first one starts at `x`.
pub open spec fn spans(x: int, aa: Seq<u8>, runs: Seq<Option<u16>>, at: int) -> Seq<AlphaSpan>
    decreases larger(runs.len() - at, 0),
{
    if 0 <= at < runs.len() {
        match runs[at] {
            Some(n) => if n > 0 {
                seq![AlphaSpan { x, width: n as int, alpha: aa[at] }] + spans(
                    x + n,
                    aa,
                    runs,
                    at + n,
                )
            } else {
                Seq::empty()
            },
            None => Seq::empty(),
        }
    } else {
        Seq::empty()
    }
}

/// The number of pixels that runs stand for, from `at` on.
pub open spec fn runs_width(runs: Seq<Option<u16>>, at: int) -> int
    decreases larger(runs.len() - at, 0),
{
    if 0 <= at < runs.len() {
        match runs[at] {
            Some(n) => if n > 0 {
                n + runs_width(runs, at + n)
            } else {
                0
            },
            None => 0,
        }
    } else {
        0
    }
}

proof fn lemma_runs_width(runs: Seq<Option<u16>>, at: int)
    ensures
        0 <= runs_width(runs, at),
    decreases larger(runs.len() - at, 0),
{
    if 0 <= at < runs.len() {
        if let Some(n) = runs[at] {
            if n > 0 {
                lemma_runs_width(runs, at + n);
            }
        }
    }
}

impl<'a, 'b> RasterPipelineBlitter<'a, 'b> {
    /// Whether everything but the bytes that are drawn on is the same.
    pub open spec fn same_setup(self, other: RasterPipelineBlitter<'a, 'b>) -> bool {
        &&& self.mask == other.mask
        &&& self.pixmap_src == other.pixmap_src
        &&& self.dest.same_layout(other.dest)
        &&& self.memset2d_color == other.memset2d_color
        &&& self.blit_anti_h_rp == other.blit_anti_h_rp
        &&& self.blit_rect_rp == other.blit_rect_rp
        &&& self.blit_mask_rp == other.blit_mask_rp
    }

    /// Whether a run is that of a pipeline on a rectangle, with the blitter's mask and
    /// source.
    pub open spec fn runs(
        self,
        run: PipelineRun<'a>,
        pipeline: PipelineKind,
        coverage: Option<u8>,
        rect: ScreenIntRect,
    ) -> bool {
        &&& run.pipeline == pipeline
        &&& run.coverage == coverage
        &&& run.rect == rect
        &&& run.mask_ctx.of(self.mask)
        &&& run.pixmap_src == self.pixmap_src
    }

    /// Whether a rectangle can be drawn: where it is simply set to a color, it has to lie
    /// in the memory.
    pub open spec fn can_blit(self, rect: ScreenIntRect) -> bool {
        self.memset2d_color is Some ==> self.dest.fits(rect)
    }

    /// Whether the opaque ones of a row's spans can be drawn.
    pub open spec fn can_blit_spans(self, spans: Seq<AlphaSpan>, y: u32) -> bool {
        forall|i: int|
            0 <= i < spans.len() && spans[i].alpha == ALPHA_U8_OPAQUE ==> self.can_blit(
                (#[trigger] spans[i]).rect(y),
            )
    }

    /// The bytes that are drawn on, after a rectangle has been drawn as far as no pipeline
    /// is needed for it.
    pub open spec fn rect_bytes(self, rect: ScreenIntRect) -> Seq<u8> {
        match self.memset2d_color {
            Some(color) => self.dest.filled(self.dest.bytes(), rect, color),
            None => self.dest.bytes(),
        }
    }

    /// Whether a pipeline has to be run for what is left of a rectangle, and which one.
    pub open spec fn rect_rest(self, run: Option<PipelineRun<'a>>, rect: ScreenIntRect) -> bool {
        match run {
            Some(run) => {
                &&& self.memset2d_color is None
                &&& self.runs(run, PipelineKind::Rect, None, rect)
                &&& run.aa_mask_ctx.none()
            },
            None => self.memset2d_color is Some,
        }
    }

    /// Whether a pipeline has to be run for a span. A transparent one is not drawn, and an
    /// opaque one may be simply set to a color.
    pub open spec fn needs_pipeline(self, span: AlphaSpan) -> bool {
        &&& span.alpha != ALPHA_U8_TRANSPARENT
        &&& span.alpha != ALPHA_U8_OPAQUE || self.memset2d_color is None
    }

    /// The spans that a pipeline has to be run for.
    pub open spec fn piped(self, spans: Seq<AlphaSpan>) -> Seq<AlphaSpan>
        decreases spans.len(),
    {
        if spans.len() == 0 {
            Seq::empty()
        } else if self.needs_pipeline(spans.last()) {
            self.piped(spans.drop_last()).push(spans.last())
        } else {
            self.piped(spans.drop_last())
        }
    }

    /// The bytes that are drawn on, after the spans of a row have been drawn as far as no
    /// pipeline is needed for them.
    pub open spec fn spans_bytes(self, spans: Seq<AlphaSpan>, y: u32) -> Seq<u8>
        decreases spans.len(),
    {
        if spans.len() == 0 {
            self.dest.bytes()
        } else {
            let bytes = self.spans_bytes(spans.drop_last(), y);
            match self.memset2d_color {
                Some(color) => if spans.last().alpha == ALPHA_U8_OPAQUE {
                    self.dest.filled(bytes, spans.last().rect(y), color)
                } else {
                    bytes
                },
                None => bytes,
            }
        }
    }

    /// Whether a run is that of the pipeline for a span.
    pub open spec fn span_run(self, run: PipelineRun<'a>, span: AlphaSpan, y: u32) -> bool {
        &&& if span.alpha == ALPHA_U8_OPAQUE {
            self.runs(run, PipelineKind::Rect, None, span.rect(y))
        } else {
            self.runs(run, PipelineKind::AntiH, Some(span.alpha), span.rect(y))
        }
        &&& run.aa_mask_ctx.none()
    }

    /// Whether runs are those of the pipelines that have to be run for the spans of a row.
    pub open spec fn spans_rest(
        self,
        todo: Seq<PipelineRun<'a>>,
        spans: Seq<AlphaSpan>,
        y: u32,
    ) -> bool {
        &&& todo.len() == self.piped(spans).len()
        &&& forall|i: int|
            0 <= i < todo.len() ==> self.span_run(#[trigger] todo[i], self.piped(spans)[i], y)
    }

    /// Returns how a pipeline finds the bytes of the mask.
    fn mask_ctx(&self) -> (r: MaskCtx<'a>)
        ensures
            r.of(self.mask),
    {
        match &self.mask {
            Some(mask) => mask.mask_ctx(),
            None => MaskCtx::default(),
        }
    }

    /// Draws a rectangle.
    ///
    /// Either sets it to a color, or returns the pipeline that has to be run for it.
    pub fn blit_rect(&mut self, rect: &ScreenIntRect) -> (r: Option<PipelineRun<'a>>)
        requires
            rect.valid(),
            old(self).can_blit(*rect),
        ensures
            old(self).rect_rest(r, *rect),
            final(self).dest.bytes() == old(self).rect_bytes(*rect),
            final(self).same_setup(*old(self)),
            // The borrows are still the same ones.
            match (old(self).dest, final(self).dest) {
                (PipelineDest::Mask(m), PipelineDest::Mask(n)) => {
                    &&& *final(n) == *final(m)
                    &&& final(n.data)@ == final(m.data)@
                },
                (PipelineDest::Pixmap(p), PipelineDest::Pixmap(q)) => {
                    &&& *final(q) == *final(p)
                    &&& final(q.data)@ == final(p.data)@
                },
                _ => false,
            },
    {
        if let Some(c) = self.memset2d_color {
            self.dest.memset(rect, c);
            return None;
        }
        Some(
            PipelineRun {
                pipeline: PipelineKind::Rect,
                coverage: None,
                rect: *rect,
                aa_mask_ctx: AAMaskCtx::default(),
                mask_ctx: self.mask_ctx(),
                pixmap_src: self.pixmap_src,
            },
        )
    }

    /// Draws a row of pixels.
    pub fn blit_h(&mut self, x: u32, y: u32, width: u32) -> (r: Option<PipelineRun<'a>>)
        requires
            width > 0,
            old(self).can_blit(ScreenIntRect { x, y, width, height: 1 }),
        ensures
            old(self).rect_rest(r, (ScreenIntRect { x, y, width, height: 1 })),
            final(self).dest.bytes() == old(self).rect_bytes(
                (ScreenIntRect { x, y, width, height: 1 }),
            ),
            final(self).same_setup(*old(self)),
            // The borrows are still the same ones.
            match (old(self).dest, final(self).dest) {
                (PipelineDest::Mask(m), PipelineDest::Mask(n)) => {
                    &&& *final(n) == *final(m)
                    &&& final(n.data)@ == final(m.data)@
                },
                (PipelineDest::Pixmap(p), PipelineDest::Pixmap(q)) => {
                    &&& *final(q) == *final(p)
                    &&& final(q.data)@ == final(p.data)@
                },
                _ => false,
            },
    {
        let r = ScreenIntRect::from_xywh_safe(x, y, width, 1);
        self.blit_rect(&r)
    }

    /// Draws a row of pixels with alphas that runs of pixels share.
    ///
    /// Opaque runs are set to a color where that is all that is needed. What is returned
    /// are the pipelines that have to be run for the others, from left to right; they
    /// have no pixel in common, neither with each other nor with what has been set.
    ///
    /// A run has the alpha at its own position in `aa`, and the next one follows at the
    /// position behind it. The last one is followed by `None`.
    pub fn blit_anti_h(&mut self, x: u32, y: u32, aa: &mut [u8], runs: &mut [Option<u16>]) -> (r:
        Vec<PipelineRun<'a>>)
        requires
            runs_ok(old(aa)@.len(), old(runs)@, 0),
            x + runs_width(old(runs)@, 0) <= u32::MAX,
            old(self).can_blit_spans(spans(x as int, old(aa)@, old(runs)@, 0), y),
        ensures
            ({
                let all = spans(x as int, old(aa)@, old(runs)@, 0);
                &&& r@.len() == old(self).piped(all).len()
                &&& forall|i: int|
                    0 <= i < r@.len() ==> old(self).span_run(
                        #[trigger] r@[i],
                        old(self).piped(all)[i],
                        y,
                    )
                &&& final(self).dest.bytes() == old(self).spans_bytes(all, y)
                &&& old(self).spans_rest(r@, all, y)
            }),
            final(self).same_setup(*old(self)),
            final(aa)@ == old(aa)@,
            final(runs)@ == old(runs)@,
            // The borrows are still the same ones.
            match (old(self).dest, final(self).dest) {
                (PipelineDest::Mask(m), PipelineDest::Mask(n)) => {
                    &&& *final(n) == *final(m)
                    &&& final(n.data)@ == final(m.data)@
                },
                (PipelineDest::Pixmap(p), PipelineDest::Pixmap(q)) => {
                    &&& *final(q) == *final(p)
                    &&& final(q.data)@ == final(p.data)@
                },
                _ => false,
            },
    {
        let ghost all = spans(x as int, aa@, runs@, 0);
        let ghost mut done: Seq<AlphaSpan> = Seq::empty();
        let mask_ctx = self.mask_ctx();
        let mut todo: Vec<PipelineRun<'a>> = Vec::new();
        let mut x: u32 = x;
        let mut offset: usize = 0;
        assert(runs@.len() == runs.len() && aa@.len() == aa.len());
        let mut run_opt: Option<u16> = runs[0];
        assert(all =~= done + spans(x as int, aa@, runs@, 0));
        while run_opt.is_some()
            invariant
                aa@ == old(aa)@,
                runs@ == old(runs)@,
                mask_ctx.of(old(self).mask),
                runs_ok(aa@.len(), runs@, offset as int),
                run_opt == runs@[offset as int],
                x + runs_width(runs@, offset as int) <= u32::MAX,
                all == done + spans(x as int, aa@, runs@, offset as int),
                old(self).can_blit_spans(all, y),
                todo@.len() == old(self).piped(done).len(),
                forall|i: int|
                    0 <= i < todo@.len() ==> old(self).span_run(
                        #[trigger] todo@[i],
                        old(self).piped(done)[i],
                        y,
                    ),
                self.dest.bytes() == old(self).spans_bytes(done, y),
                self.dest.bytes().len() == old(self).dest.bytes().len(),
                self.same_setup(*old(self)),
                match (old(self).dest, self.dest) {
                    (PipelineDest::Mask(m), PipelineDest::Mask(n)) => {
                        &&& *final(n) == *final(m)
                        &&& final(n.data)@ == final(m.data)@
                    },
                    (PipelineDest::Pixmap(p), PipelineDest::Pixmap(q)) => {
                        &&& *final(q) == *final(p)
                        &&& final(q.data)@ == final(p.data)@
                    },
                    _ => false,
                },
            decreases runs@.len() - offset,
        {
            let run: u16 = run_opt.unwrap();
            let width: u32 = run as u32;
            let ghost span = AlphaSpan { x: x as int, width: run as int, alpha: aa@[offset as int] };
            let ghost bytes = self.dest.bytes();
            proof {
                let rest = spans(x as int, aa@, runs@, offset as int);
                assert(rest[0] == span && all[done.len() as int] == span);
                assert(runs@.len() == runs.len() && aa@.len() == aa.len());
                assert(done.push(span).drop_last() =~= done);
                assert(done.push(span) + spans(x + run, aa@, runs@, offset + run) =~= done + rest);
                lemma_runs_width(runs@, offset + run);
                assert(runs_ok(aa@.len(), runs@, offset + run));
            }
            let alpha: u8 = aa[offset];
            if alpha == ALPHA_U8_TRANSPARENT {
            } else if alpha == ALPHA_U8_OPAQUE {
                let run = self.blit_h(x, y, width);
                proof {
                    let d = self.dest;
                    let rect = span.rect(y);
                    if let Some(c) = self.memset2d_color {
                        lemma_rows_filled_len(
                            bytes,
                            d.offset(rect.x as int, rect.y as int),
                            d.stride(),
                            1,
                            rect.width as int,
                            d.unit(c),
                        );
                    }
                }
                if let Some(run) = run {
                    todo.push(run);
                }
            } else {
                let rect = ScreenIntRect::from_xywh_safe(x, y, width, 1);
                todo.push(
                    PipelineRun {
                        pipeline: PipelineKind::AntiH,
                        coverage: Some(alpha),
                        rect,
                        aa_mask_ctx: AAMaskCtx::default(),
                        mask_ctx,
                        pixmap_src: self.pixmap_src,
                    },
                );
            }
            x = x + width;
            offset = offset + run as usize;
            proof {
                done = done.push(span);
            }
            run_opt = runs[offset];
        }
        assert(all =~= done);
        todo
    }

    /// Returns the pipeline that has to be run to draw with the coverage that a mask of
    /// one or two bytes gives.
    pub fn blit_mask(&mut self, mask: &Mask, clip: &ScreenIntRect) -> (r: PipelineRun<'a>)
        requires
            mask.bounds.x + mask.bounds.y * mask.row_bytes <= u32::MAX,
        ensures
            old(self).runs(r, PipelineKind::Mask, None, *clip),
            r.pipeline == PipelineKind::Mask && r.coverage is None && r.rect == *clip,
            r.aa_mask_ctx == (AAMaskCtx {
                pixels: mask.image,
                stride: mask.row_bytes,
                shift: (mask.bounds.x + mask.bounds.y * mask.row_bytes) as usize,
            }),
            *final(self) == *old(self),
    {
        assert(0 <= mask.bounds.y * mask.row_bytes) by (nonlinear_arith);
        let aa_mask_ctx = AAMaskCtx {
            pixels: mask.image,
            stride: mask.row_bytes,
            shift: (mask.bounds.x + mask.bounds.y * mask.row_bytes) as usize,
        };
        PipelineRun {
            pipeline: PipelineKind::Mask,
            coverage: None,
            rect: *clip,
            aa_mask_ctx,
            mask_ctx: self.mask_ctx(),
            pixmap_src: self.pixmap_src,
        }
    }

    /// Returns the pipeline that has to be run to draw a column of pixels with an alpha.
    pub fn blit_v(&mut self, x: u32, y: u32, height: u32, alpha: u8) -> (r: PipelineRun<'a>)
        requires
            height > 0,
        ensures
            old(self).runs(
                r,
                PipelineKind::Mask,
                None,
                (ScreenIntRect { x, y, width: 1, height }),
            ),
            r.aa_mask_ctx.pixels@ == seq![alpha, alpha],
            r.aa_mask_ctx.stride == 0,
            r.aa_mask_ctx.shift == x,
            forall|py: int| #[trigger] r.aa_mask_ctx.coverage(x as int, py) == alpha,
            *final(self) == *old(self),
    {
        let bounds = ScreenIntRect::from_xywh_safe(x, y, 1, height);
        let mask = Mask {
            image: [alpha, alpha],
            bounds,
            row_bytes: 0,  // so we reuse the 1 "row" for all of height
        };
        assert(mask.bounds.y * mask.row_bytes == 0) by (nonlinear_arith)
            requires
                mask.row_bytes == 0,
        ;
        assert forall|py: int| #[trigger] (py * mask.row_bytes) == 0 by {
            assert(py * mask.row_bytes == 0) by (nonlinear_arith)
                requires
                    mask.row_bytes == 0,
            ;
        }
        self.blit_mask(&mask, &bounds)
    }

    /// Returns the pipeline that has to be run to draw two pixels side by side.
    pub fn blit_anti_h2(&mut self, x: u32, y: u32, alpha0: u8, alpha1: u8) -> (r: PipelineRun<'a>)
        requires
            x <= i32::MAX,
            y <= i32::MAX,
            x + y * 2 <= u32::MAX,
        ensures
            old(self).runs(
                r,
                PipelineKind::Mask,
                None,
                (ScreenIntRect { x, y, width: 2, height: 1 }),
            ),
            r.aa_mask_ctx.pixels@ == seq![alpha0, alpha1],
            r.aa_mask_ctx.stride == 2,
            r.aa_mask_ctx.shift == x + y * 2,
            r.aa_mask_ctx.coverage(x as int, y as int) == alpha0,
            r.aa_mask_ctx.coverage(x + 1, y as int) == alpha1,
            *final(self) == *old(self),
    {
        let bounds = ScreenIntRect::from_xywh(x, y, 2, 1).unwrap();
        let mask = Mask { image: [alpha0, alpha1], bounds, row_bytes: 2 };
        self.blit_mask(&mask, &bounds)
    }

    /// Returns the pipeline that has to be run to draw two pixels, one above the other.
    pub fn blit_anti_v2(&mut self, x: u32, y: u32, alpha0: u8, alpha1: u8) -> (r: PipelineRun<'a>)
        requires
            x <= i32::MAX,
            y <= i32::MAX,
        ensures
            old(self).runs(
                r,
                PipelineKind::Mask,
                None,
                (ScreenIntRect { x, y, width: 1, height: 2 }),
            ),
            r.aa_mask_ctx.pixels@ == seq![alpha0, alpha1],
            r.aa_mask_ctx.stride == 1,
            r.aa_mask_ctx.shift == x + y,
            r.aa_mask_ctx.coverage(x as int, y as int) == alpha0,
            r.aa_mask_ctx.coverage(x as int, y + 1) == alpha1,
            *final(self) == *old(self),
    {
        let bounds = ScreenIntRect::from_xywh(x, y, 1, 2).unwrap();
        let mask = Mask { image: [alpha0, alpha1], bounds, row_bytes: 1 };
        assert(mask.bounds.y * mask.row_bytes == mask.bounds.y) by (nonlinear_arith)
            requires
                mask.row_bytes == 1,
        ;
        assert((y + 1) * mask.row_bytes == y + 1) by (nonlinear_arith)
            requires
                mask.row_bytes == 1,
        ;
        self.blit_mask(&mask, &bounds)
    }
}

/// Nothing is simply set to a color where there is a mask.
pub proof fn law_mask_needs_pipeline(paint: Paint)
    ensures
        paint.memset_color(true) is None,
{
}

/// Drawing opaque colors over what is there, without a mask, is replacing what is there.
pub proof fn law_opaque_source_over_is_source(paint: Paint, scale: Stage, lerp: Stage)
    requires
        paint.shader.opaque,
        paint.blend_mode == BlendMode::SourceOver,
    ensures
        ({
            let other = Paint { blend_mode: BlendMode::Source, ..paint };
            &&& paint.draws_nothing() == other.draws_nothing()
            &&& paint.memset_color(false) == other.memset_color(false)
            &&& paint.rect_stages(false) == other.rect_stages(false)
            &&& paint.coverage_stages(false, scale, lerp) == other.coverage_stages(
                false,
                scale,
                lerp,
            )
        }),
{
}

/// The last step of every pipeline stores what has been drawn.
pub proof fn law_pipelines_store(paint: Paint, masked: bool, scale: Stage, lerp: Stage)
    ensures
        paint.coverage_stages(masked, scale, lerp).last() == Stage::Store,
        paint.rect_stages(masked).last() == (if paint.reduced_mode(masked) == BlendMode::SourceOver
            && !masked {
            Stage::SourceOverRgba
        } else {
            Stage::Store
        }),
{
}

/// A pipeline that blends has what it blends with: the destination is loaded right after
/// the colors have been made, and scaled where they have to be. The one exception is the
/// pipeline whose last step does the loading itself.
pub proof fn law_destination_is_loaded(paint: Paint, masked: bool, scale: Stage, lerp: Stage)
    ensures
        ({
            let n = paint.source_stages(masked).len() as int;
            let mode = paint.reduced_mode(masked);
            let covered = paint.coverage_stages(masked, scale, lerp);
            &&& mode.pre_scales_coverage() ==> covered[n] == scale && covered[n + 1]
                == Stage::LoadDestination
            &&& !mode.pre_scales_coverage() ==> covered[n] == Stage::LoadDestination
            &&& mode != BlendMode::Source && (mode != BlendMode::SourceOver || masked)
                ==> paint.rect_stages(masked)[n] == Stage::LoadDestination
        }),
{
}

/// A rectangle of a pixmap that is simply set to a color is filled, as a pixmap is.
pub proof fn law_memset_is_fill(
    dest: PipelineDest,
    rect: ScreenIntRect,
    color: PremultipliedColorU8,
)
    requires
        dest is Pixmap,
    ensures
        dest matches PipelineDest::Pixmap(pixmap) && dest.filled(dest.bytes(), rect, color)
            == pixmap@.filled(
            rect.x as int,
            rect.y as int,
            rect.width as int,
            rect.height as int,
            color,
        ).bytes,
{
    let pixmap = dest->Pixmap_0;
    assert(dest.offset(rect.x as int, rect.y as int) == pixmap@.offset(
        rect.x as int,
        rect.y as int,
    )) by (nonlinear_arith)
        requires
            dest.offset(rect.x as int, rect.y as int) == rect.y * pixmap.stride
                + pixmap.pixel_type.bytes() * rect.x,
            pixmap@.offset(rect.x as int, rect.y as int) == rect.y * pixmap.stride + rect.x
                * pixmap.pixel_type.bytes(),
    ;
}

/// A rectangle of a pixmap that is simply set to a color has that color everywhere, and
/// no pixel outside of it changes.
pub proof fn law_memset_colors(
    dest: PipelineDest,
    rect: ScreenIntRect,
    color: PremultipliedColorU8,
    px: int,
    py: int,
)
    requires
        dest matches PipelineDest::Pixmap(pixmap) && {
            &&& pixmap@.valid()
            &&& rect.x + rect.width <= pixmap@.width
            &&& rect.y + rect.height <= pixmap@.height
            &&& pixmap@.contains(px, py)
        },
    ensures
        dest matches PipelineDest::Pixmap(pixmap) && {
            let after = Raster { bytes: dest.filled(dest.bytes(), rect, color), ..pixmap@ };
            &&& rect.valid() ==> dest.fits(rect)
            &&& after.color(px, py) == (if rect.x <= px < rect.x + rect.width && rect.y <= py
                < rect.y + rect.height {
                color
            } else {
                pixmap@.color(px, py)
            })
        },
{
    let r = dest->Pixmap_0@;
    law_memset_is_fill(dest, rect, color);
    law_filled_colors(
        r,
        rect.x as int,
        rect.y as int,
        rect.width as int,
        rect.height as int,
        color,
        px,
        py,
    );
    if rect.valid() {
        let last = rect.y + rect.height - 1;
        lemma_row_offset(last, r.height - 1, r.stride);
        assert(dest.pixel_size() * rect.x == 4 * rect.x && dest.pixel_size() * rect.width == 4
            * rect.width);
    }
}

/// A rectangle of a mask that is simply set to a color has the alpha of it everywhere, and
/// no byte outside of it changes.
pub proof fn law_mask_memset_bytes(
    dest: PipelineDest,
    rect: ScreenIntRect,
    color: PremultipliedColorU8,
    px: int,
    py: int,
)
    requires
        dest is Mask,
        rect.x + rect.width <= dest.stride(),
        0 <= px < dest.stride(),
        0 <= py,
        dest.offset(px, py) < dest.bytes().len(),
    ensures
        dest.filled(dest.bytes(), rect, color)[dest.offset(px, py)] == (if rect.x <= px < rect.x
            + rect.width && rect.y <= py < rect.y + rect.height {
            color.a
        } else {
            dest.bytes()[dest.offset(px, py)]
        }),
{
    let s = dest.stride();
    let (x, y, w, h) = (rect.x as int, rect.y as int, rect.width as int, rect.height as int);
    let start = dest.offset(x, y);
    let i = dest.offset(px, py);
    let unit = dest.unit(color);
    assert(dest.pixel_size() * x == x && dest.pixel_size() * px == px && w * unit.len() == w)
        by (nonlinear_arith)
        requires
            dest.pixel_size() == 1,
            unit.len() == 1,
    ;
    assert(0 <= py * s) by (nonlinear_arith)
        requires
            0 <= py,
            0 <= s,
    ;
    law_rows_filled_bytes(dest.bytes(), start, s, h as nat, w, unit, i);
    assert(i - start == (py - y) * s + (px - x)) by (nonlinear_arith)
        requires
            i == py * s + px,
            start == y * s + x,
    ;
    if py < y {
        assert((py - y) * s <= -s) by (nonlinear_arith)
            requires
                py - y <= -1,
                0 <= s,
        ;
    } else if px < x {
        assert(((py - y) * s) == (py - y - 1) * s + s) by (nonlinear_arith);
        vstd::arithmetic::div_mod::lemma_fundamental_div_mod_converse(
            i - start,
            s,
            py - y - 1,
            s + (px - x),
        );
    } else {
        assert(0 <= (py - y) * s) by (nonlinear_arith)
            requires
                0 <= py - y,
                0 <= s,
        ;
        vstd::arithmetic::div_mod::lemma_fundamental_div_mod_converse(
            i - start,
            s,
            py - y,
            px - x,
        );
        assert((px - x) % 1 == 0);
    }
}

/// Whether every span starts where the one before it ends.
pub open spec fn contiguous(spans: Seq<AlphaSpan>) -> bool {
    forall|i: int, j: int|
        0 <= i && j == i + 1 && j < spans.len() ==> (#[trigger] spans[j]).x == (
        #[trigger] spans[i]).x + spans[i].width
}

/// The spans of a row lie one behind another without a gap: the first one starts where
/// the row does, and the last one ends behind as many pixels as there are in all runs.
pub proof fn law_spans_are_contiguous(x: int, aa: Seq<u8>, runs: Seq<Option<u16>>, at: int)
    requires
        runs_ok(aa.len(), runs, at),
    ensures
        ({
            let all = spans(x, aa, runs, at);
            &&& forall|i: int| 0 <= i < all.len() ==> (#[trigger] all[i]).width > 0
            &&& contiguous(all)
            &&& all.len() > 0 ==> all[0].x == x
            &&& all.len() > 0 ==> all.last().x + all.last().width == x + runs_width(runs, at)
            &&& all.len() == 0 ==> runs_width(runs, at) == 0
        }),
    decreases larger(runs.len() - at, 0),
{
    if let Some(n) = runs[at] {
        law_spans_are_contiguous(x + n, aa, runs, at + n);
        let rest = spans(x + n, aa, runs, at + n);
        let all = spans(x, aa, runs, at);
        assert(all.len() == rest.len() + 1);
        assert forall|i: int| 0 < i < all.len() implies #[trigger] all[i] == rest[i - 1] by {}
        assert forall|i: int, j: int| 0 <= i && j == i + 1 && j < all.len() implies (
        #[trigger] all[j]).x == (#[trigger] all[i]).x + all[i].width by {
            assert(all[j] == rest[j - 1]);
            if i > 0 {
                assert(all[i] == rest[i - 1]);
            }
        }
        if rest.len() > 0 {
            assert(all.last() == rest.last());
        }
    }
}

/// Drawing a rectangle is drawing its rows, from top to bottom.
pub proof fn law_rect_is_its_rows(
    dest: PipelineDest,
    bytes: Seq<u8>,
    rect: ScreenIntRect,
    color: PremultipliedColorU8,
)
    requires
        rect.height > 1,
        rect.y + rect.height - 1 <= u32::MAX,
    ensures
        ({
            let above = ScreenIntRect { height: (rect.height - 1) as u32, ..rect };
            let last = ScreenIntRect { y: (rect.y + rect.height - 1) as u32, height: 1, ..rect };
            dest.filled(bytes, rect, color) == dest.filled(
                dest.filled(bytes, above, color),
                last,
                color,
            )
        }),
{
    let s = dest.stride();
    let (y, h) = (rect.y as int, rect.height as int);
    assert((y + h - 1) * s == y * s + (h - 1) * s) by (nonlinear_arith);
    assert(0 * s == 0) by (nonlinear_arith);
    lemma_one_row(
        rows_filled(
            bytes,
            dest.offset(rect.x as int, y),
            s,
            (h - 1) as nat,
            rect.width as int,
            dest.unit(color),
        ),
        dest.offset(rect.x as int, y + h - 1),
        s,
        rect.width as int,
        dest.unit(color),
    );
}

proof fn lemma_one_row(b: Seq<u8>, start: int, stride: int, count: int, unit: Seq<u8>)
    ensures
        rows_filled(b, start, stride, 1, count, unit) == span_filled(b, start, count, unit),
{
    reveal_with_fuel(rows_filled, 2);
    assert(0 * stride == 0) by (nonlinear_arith);
}

proof fn lemma_spans_join(b: Seq<u8>, start: int, n: int, m: int, unit: Seq<u8>)
    requires
        0 < unit.len(),
        0 <= n,
        0 <= m,
    ensures
        span_filled(span_filled(b, start, n, unit), start + n * unit.len(), m, unit) == span_filled(
            b,
            start,
            n + m,
            unit,
        ),
{
    let u = unit.len() as int;
    assert((n + m) * u == n * u + m * u && 0 <= n * u && 0 <= m * u) by (nonlinear_arith)
        requires
            0 <= n,
            0 <= m,
            0 < u,
    ;
    assert forall|i: int| start + n * u <= i < start + n * u + m * u implies #[trigger] ((i - (start
        + n * u)) % u) == (i - start) % u by {
        assert(n * u == u * n) by (nonlinear_arith);
        vstd::arithmetic::div_mod::lemma_mod_multiples_vanish(n, i - (start + n * u), u);
    }
    assert(span_filled(span_filled(b, start, n, unit), start + n * u, m, unit) =~= span_filled(
        b,
        start,
        n + m,
        unit,
    ));
}

proof fn lemma_opaque_prefix<'a, 'b>(
    blitter: RasterPipelineBlitter<'a, 'b>,
    all: Seq<AlphaSpan>,
    y: u32,
    k: int,
)
    requires
        blitter.memset2d_color is Some,
        0 < k <= all.len(),
        0 <= all[0].x,
        all.last().x + all.last().width <= u32::MAX,
        forall|i: int| 0 <= i < all.len() ==> (#[trigger] all[i]).width > 0,
        forall|i: int| 0 <= i < all.len() ==> (#[trigger] all[i]).alpha == ALPHA_U8_OPAQUE,
        contiguous(all),
    ensures
        all[0].x < all[k - 1].x + all[k - 1].width <= u32::MAX,
        blitter.piped(all.take(k)).len() == 0,
        blitter.spans_bytes(all.take(k), y) == span_filled(
            blitter.dest.bytes(),
            blitter.dest.offset(all[0].x, y as int),
            all[k - 1].x + all[k - 1].width - all[0].x,
            blitter.dest.unit(blitter.memset2d_color->0),
        ),
    decreases k,
{
    let d = blitter.dest;
    let u = d.unit(blitter.memset2d_color->0);
    let last = all[k - 1];
    lemma_span_ends(all, k - 1);
    assert(all.take(k).last() == last);
    assert(all.take(k).drop_last() =~= all.take(k - 1));
    if k == 1 {
        assert(all.take(0) =~= Seq::<AlphaSpan>::empty());
        assert(blitter.piped(all.take(0)).len() == 0);
        lemma_one_row(d.bytes(), d.offset(last.x, y as int), d.stride(), last.width, u);
    } else {
        let n = last.x - all[0].x;
        lemma_opaque_prefix(blitter, all, y, k - 1);
        let before = blitter.spans_bytes(all.take(k - 1), y);
        lemma_one_row(before, d.offset(last.x, y as int), d.stride(), last.width, u);
        assert(d.offset(last.x, y as int) == d.offset(all[0].x, y as int) + n * u.len())
            by (nonlinear_arith)
            requires
                d.offset(last.x, y as int) == y * d.stride() + d.pixel_size() * last.x,
                d.offset(all[0].x, y as int) == y * d.stride() + d.pixel_size() * all[0].x,
                n == last.x - all[0].x,
                u.len() == d.pixel_size(),
        ;
        lemma_spans_join(d.bytes(), d.offset(all[0].x, y as int), n, last.width, u);
    }
}

pub(crate) proof fn lemma_span_ends(all: Seq<AlphaSpan>, k: int)
    requires
        0 <= k < all.len(),
        forall|i: int| 0 <= i < all.len() ==> (#[trigger] all[i]).width > 0,
        contiguous(all),
    ensures
        all[0].x <= all[k].x,
        all[k].x + all[k].width <= all.last().x + all.last().width,
{
    lemma_span_starts(all, 0, k);
    lemma_span_starts(all, k, all.len() - 1);
}

pub(crate) proof fn lemma_span_starts(all: Seq<AlphaSpan>, j: int, k: int)
    requires
        0 <= j <= k < all.len(),
        forall|i: int| 0 <= i < all.len() ==> (#[trigger] all[i]).width > 0,
        contiguous(all),
    ensures
        all[j].x <= all[k].x,
        all[j].x + all[j].width <= all[k].x + all[k].width,
    decreases k - j,
{
    if j < k {
        lemma_span_starts(all, j, k - 1);
        assert(all[k].x == all[k - 1].x + all[k - 1].width);
    }
}

/// Where a row is simply set to a color, drawing it in opaque runs is drawing it at once.
pub proof fn law_opaque_runs_are_a_row<'a, 'b>(
    blitter: RasterPipelineBlitter<'a, 'b>,
    x: u32,
    y: u32,
    aa: Seq<u8>,
    runs: Seq<Option<u16>>,
)
    requires
        blitter.memset2d_color is Some,
        runs_ok(aa.len(), runs, 0),
        runs_width(runs, 0) > 0,
        x + runs_width(runs, 0) <= u32::MAX,
        forall|i: int|
            0 <= i < spans(x as int, aa, runs, 0).len() ==> (#[trigger] spans(
                x as int,
                aa,
                runs,
                0,
            )[i]).alpha == ALPHA_U8_OPAQUE,
    ensures
        blitter.piped(spans(x as int, aa, runs, 0)).len() == 0,
        blitter.spans_bytes(spans(x as int, aa, runs, 0), y) == blitter.rect_bytes(
            (ScreenIntRect { x, y, width: runs_width(runs, 0) as u32, height: 1 }),
        ),
{
    let all = spans(x as int, aa, runs, 0);
    let d = blitter.dest;
    law_spans_are_contiguous(x as int, aa, runs, 0);
    lemma_opaque_prefix(blitter, all, y, all.len() as int);
    assert(all.take(all.len() as int) =~= all);
    lemma_one_row(
        d.bytes(),
        d.offset(x as int, y as int),
        d.stride(),
        runs_width(runs, 0),
        d.unit(blitter.memset2d_color->0),
    );
}

impl<'a, 'b> PipelineDest<'a, 'b> {
    /// Whether a byte belongs to a span of a row.
    pub open spec fn in_span(self, span: AlphaSpan, y: u32, i: int) -> bool {
        let start = self.offset(span.x, y as int);
        start <= i < start + self.pixel_size() * span.width
    }
}

proof fn lemma_span_bytes<'a, 'b>(
    blitter: RasterPipelineBlitter<'a, 'b>,
    all: Seq<AlphaSpan>,
    y: u32,
    n: int,
    i: int,
)
    requires
        0 <= n <= all.len(),
        0 <= i < blitter.dest.bytes().len(),
        all.len() > 0 ==> 0 <= all[0].x && all.last().x + all.last().width <= u32::MAX,
        forall|k: int| 0 <= k < all.len() ==> (#[trigger] all[k]).width > 0,
        contiguous(all),
    ensures
        blitter.spans_bytes(all.take(n), y).len() == blitter.dest.bytes().len(),
        forall|k: int|
            0 <= k < n && (#[trigger] all[k]).alpha == ALPHA_U8_OPAQUE && blitter.dest.in_span(
                all[k],
                y,
                i,
            ) ==> blitter.spans_bytes(all.take(n), y)[i] == blitter.rect_bytes(all[k].rect(y))[i],
        (forall|k: int|
            0 <= k < n && blitter.dest.in_span(#[trigger] all[k], y, i) ==> all[k].alpha
                != ALPHA_U8_OPAQUE) ==> blitter.spans_bytes(all.take(n), y)[i]
            == blitter.dest.bytes()[i],
    decreases n,
{
    let d = blitter.dest;
    if n == 0 {
        assert(all.take(0) =~= Seq::<AlphaSpan>::empty());
    } else {
        let last = all[n - 1];
        let before = blitter.spans_bytes(all.take(n - 1), y);
        let after = blitter.spans_bytes(all.take(n), y);
        lemma_span_bytes(blitter, all, y, n - 1, i);
        lemma_span_ends(all, n - 1);
        assert(all.take(n).last() == last);
        assert(all.take(n).drop_last() =~= all.take(n - 1));
        if blitter.memset2d_color is Some && last.alpha == ALPHA_U8_OPAQUE {
            let u = d.unit(blitter.memset2d_color->0);
            let start = d.offset(last.x, y as int);
            assert(last.width * u.len() == d.pixel_size() * last.width) by (nonlinear_arith)
                requires
                    u.len() == d.pixel_size(),
            ;
            lemma_one_row(before, start, d.stride(), last.width, u);
            lemma_one_row(d.bytes(), start, d.stride(), last.width, u);
            assert forall|k: int| 0 <= k < n - 1 implies d.offset(all[k].x, y as int)
                + d.pixel_size() * (#[trigger] all[k]).width <= start by {
                lemma_span_starts(all, k, n - 2);
                assert(all[n - 1].x == all[n - 2].x + all[n - 2].width);
                assert(d.pixel_size() * all[k].x + d.pixel_size() * all[k].width <= d.pixel_size()
                    * last.x) by (nonlinear_arith)
                    requires
                        all[k].x + all[k].width <= last.x,
                        0 < d.pixel_size(),
                ;
            }
        }
    }
}

/// What drawing a row in runs leaves in memory, as far as no pipeline is needed for it.
/// A byte of an opaque run is what drawing that run by itself leaves there. Every other
/// byte, of a run or of none, on the row or off it, stays.
pub proof fn law_runs_draw_opaque_spans<'a, 'b>(
    blitter: RasterPipelineBlitter<'a, 'b>,
    x: u32,
    y: u32,
    aa: Seq<u8>,
    runs: Seq<Option<u16>>,
    i: int,
)
    requires
        runs_ok(aa.len(), runs, 0),
        x + runs_width(runs, 0) <= u32::MAX,
        0 <= i < blitter.dest.bytes().len(),
    ensures
        ({
            let all = spans(x as int, aa, runs, 0);
            let after = blitter.spans_bytes(all, y);
            &&& after.len() == blitter.dest.bytes().len()
            &&& forall|k: int|
                0 <= k < all.len() && (#[trigger] all[k]).alpha == ALPHA_U8_OPAQUE
                    && blitter.dest.in_span(all[k], y, i) ==> after[i] == blitter.rect_bytes(
                    all[k].rect(y),
                )[i]
            &&& (forall|k: int|
                0 <= k < all.len() && blitter.dest.in_span(#[trigger] all[k], y, i)
                    ==> all[k].alpha != ALPHA_U8_OPAQUE) ==> after[i] == blitter.dest.bytes()[i]
        }),
{
    let all = spans(x as int, aa, runs, 0);
    law_spans_are_contiguous(x as int, aa, runs, 0);
    lemma_span_bytes(blitter, all, y, all.len() as int, i);
    assert(all.take(all.len() as int) =~= all);
}

} // verus!
