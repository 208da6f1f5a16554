//! Pipelines that pixels are drawn with: what they are made of, and which ones a paint
//! asks for.
pub mod blitter;
pub mod laws;

use vstd::prelude::*;

use crate::color::PremultipliedColorU8;
use crate::geom::IntSize;
use crate::mask::SubMaskMut;
use crate::pixmap::PixelType;
use crate::pixmap::PixmapMut;
use crate::pixmap::PixmapRef;

verus! {

/// A step of a pipeline.
#[derive(Clone, Copy, Debug, PartialEq, Eq, Structural)]
pub enum Stage {
    MoveSourceToDestination,
    MoveDestinationToSource,
    Clamp0,
    ClampA,
    Premultiply,
    UniformColor,
    SeedShader,
    LoadDestination,
    Store,
    LoadDestinationU8,
    StoreU8,
    Gather,
    LoadMaskU8,
    MaskU8,
    ScaleU8,
    LerpU8,
    Scale1Float,
    Lerp1Float,
    DestinationAtop,
    DestinationIn,
    DestinationOut,
    DestinationOver,
    SourceAtop,
    SourceIn,
    SourceOut,
    SourceOver,
    Clear,
    Modulate,
    Multiply,
    Plus,
    Screen,
    Xor,
    ColorBurn,
    ColorDodge,
    Darken,
    Difference,
    Exclusion,
    HardLight,
    Lighten,
    Overlay,
    SoftLight,
    Hue,
    Saturation,
    Color,
    Luminosity,
    SourceOverRgba,
    Transform,
    Reflect,
    Repeat,
    Bilinear,
    Bicubic,
    PadX1,
    ReflectX1,
    RepeatX1,
    Gradient,
    EvenlySpaced2StopGradient,
    XYToRadius,
    GammaExpand2,
    GammaExpandDestination2,
    GammaCompress2,
    GammaExpand22,
    GammaExpandDestination22,
    GammaCompress22,
    GammaExpandSrgb,
    GammaExpandDestinationSrgb,
    GammaCompressSrgb,
}

/// How a drawn color and the one below it become one.
#[derive(Clone, Copy, Debug, PartialEq, Eq, Structural)]
pub enum BlendMode {
    /// Replaces destination with zero: fully transparent.
    Clear,
    /// Replaces destination.
    Source,
    /// Preserves destination.
    Destination,
    /// Source over destination.
    SourceOver,
    /// Destination over source.
    DestinationOver,
    /// Source trimmed inside destination.
    SourceIn,
    /// Destination trimmed by source.
    DestinationIn,
    /// Source trimmed outside destination.
    SourceOut,
    /// Destination trimmed outside source.
    DestinationOut,
    /// Source inside destination blended with destination.
    SourceAtop,
    /// Destination inside source blended with source.
    DestinationAtop,
    /// Each of source and destination trimmed outside the other.
    Xor,
    /// Sum of colors.
    Plus,
    /// Product of premultiplied colors; darkens destination.
    Modulate,
    /// Multiply inverse of pixels, inverting result; brightens destination.
    Screen,
    /// Multiply or screen, depending on destination.
    Overlay,
    /// Darker of source and destination.
    Darken,
    /// Lighter of source and destination.
    Lighten,
    /// Brighten destination to reflect source.
    ColorDodge,
    /// Darken destination to reflect source.
    ColorBurn,
    /// Multiply or screen, depending on source.
    HardLight,
    /// Lighten or darken, depending on source.
    SoftLight,
    /// Subtract darker from lighter with higher contrast.
    Difference,
    /// Subtract darker from lighter with lower contrast.
    Exclusion,
    /// Multiply source with destination, darkening image.
    Multiply,
    /// Hue of source with saturation and luminosity of destination.
    Hue,
    /// Saturation of source with hue and luminosity of destination.
    Saturation,
    /// Hue and saturation of source with luminosity of destination.
    Color,
    /// Luminosity of source with hue and saturation of destination.
    Luminosity,
}

impl BlendMode {
    /// Whether the source may be scaled by its coverage before it is blended.
    pub open spec fn pre_scales_coverage(self) -> bool {
        ||| self == BlendMode::Destination
        ||| self == BlendMode::DestinationOver
        ||| self == BlendMode::Plus
        ||| self == BlendMode::DestinationOut
        ||| self == BlendMode::SourceAtop
        ||| self == BlendMode::SourceOver
        ||| self == BlendMode::Xor
    }

    /// Returns whether the source may be scaled by its coverage before it is blended.
    pub fn should_pre_scale_coverage(self) -> (r: bool)
        ensures
            r == self.pre_scales_coverage(),
    {
        match self {
            BlendMode::Destination
            | BlendMode::DestinationOver
            | BlendMode::Plus
            | BlendMode::DestinationOut
            | BlendMode::SourceAtop
            | BlendMode::SourceOver
            | BlendMode::Xor => true,
            _ => false,
        }
    }

    /// The step that blends, unless the source is the result as it is.
    pub open spec fn stage(self) -> Option<Stage> {
        match self {
            BlendMode::Clear => Some(Stage::Clear),
            BlendMode::Source => None,
            BlendMode::Destination => Some(Stage::MoveDestinationToSource),
            BlendMode::SourceOver => Some(Stage::SourceOver),
            BlendMode::DestinationOver => Some(Stage::DestinationOver),
            BlendMode::SourceIn => Some(Stage::SourceIn),
            BlendMode::DestinationIn => Some(Stage::DestinationIn),
            BlendMode::SourceOut => Some(Stage::SourceOut),
            BlendMode::DestinationOut => Some(Stage::DestinationOut),
            BlendMode::SourceAtop => Some(Stage::SourceAtop),
            BlendMode::DestinationAtop => Some(Stage::DestinationAtop),
            BlendMode::Xor => Some(Stage::Xor),
            BlendMode::Plus => Some(Stage::Plus),
            BlendMode::Modulate => Some(Stage::Modulate),
            BlendMode::Screen => Some(Stage::Screen),
            BlendMode::Overlay => Some(Stage::Overlay),
            BlendMode::Darken => Some(Stage::Darken),
            BlendMode::Lighten => Some(Stage::Lighten),
            BlendMode::ColorDodge => Some(Stage::ColorDodge),
            BlendMode::ColorBurn => Some(Stage::ColorBurn),
            BlendMode::HardLight => Some(Stage::HardLight),
            BlendMode::SoftLight => Some(Stage::SoftLight),
            BlendMode::Difference => Some(Stage::Difference),
            BlendMode::Exclusion => Some(Stage::Exclusion),
            BlendMode::Multiply => Some(Stage::Multiply),
            BlendMode::Hue => Some(Stage::Hue),
            BlendMode::Saturation => Some(Stage::Saturation),
            BlendMode::Color => Some(Stage::Color),
            BlendMode::Luminosity => Some(Stage::Luminosity),
        }
    }

    /// Returns the step that blends, unless the source is the result as it is.
    pub fn to_stage(self) -> (r: Option<Stage>)
        ensures
            r == self.stage(),
    {
        match self {
            BlendMode::Clear => Some(Stage::Clear),
            BlendMode::Source => None,
            BlendMode::Destination => Some(Stage::MoveDestinationToSource),
            BlendMode::SourceOver => Some(Stage::SourceOver),
            BlendMode::DestinationOver => Some(Stage::DestinationOver),
            BlendMode::SourceIn => Some(Stage::SourceIn),
            BlendMode::DestinationIn => Some(Stage::DestinationIn),
            BlendMode::SourceOut => Some(Stage::SourceOut),
            BlendMode::DestinationOut => Some(Stage::DestinationOut),
            BlendMode::SourceAtop => Some(Stage::SourceAtop),
            BlendMode::DestinationAtop => Some(Stage::DestinationAtop),
            BlendMode::Xor => Some(Stage::Xor),
            BlendMode::Plus => Some(Stage::Plus),
            BlendMode::Modulate => Some(Stage::Modulate),
            BlendMode::Screen => Some(Stage::Screen),
            BlendMode::Overlay => Some(Stage::Overlay),
            BlendMode::Darken => Some(Stage::Darken),
            BlendMode::Lighten => Some(Stage::Lighten),
            BlendMode::ColorDodge => Some(Stage::ColorDodge),
            BlendMode::ColorBurn => Some(Stage::ColorBurn),
            BlendMode::HardLight => Some(Stage::HardLight),
            BlendMode::SoftLight => Some(Stage::SoftLight),
            BlendMode::Difference => Some(Stage::Difference),
            BlendMode::Exclusion => Some(Stage::Exclusion),
            BlendMode::Multiply => Some(Stage::Multiply),
            BlendMode::Hue => Some(Stage::Hue),
            BlendMode::Saturation => Some(Stage::Saturation),
            BlendMode::Color => Some(Stage::Color),
            BlendMode::Luminosity => Some(Stage::Luminosity),
        }
    }
}

/// The steps that bring colors in and out of the space in which they are blended.
#[derive(Clone, Copy, Debug, PartialEq, Eq, Structural)]
pub struct ColorSpace {
    /// Brings the destination in, where it has to be brought.
    pub expand_dest: Option<Stage>,
    /// Brings the result out, where it has to be brought.
    pub compress: Option<Stage>,
}

impl Default for ColorSpace {
    /// Colors are blended as they are.
    fn default() -> (r: Self)
        ensures
            r == (ColorSpace { expand_dest: None, compress: None }),
    {
        ColorSpace { expand_dest: None, compress: None }
    }
}

impl ColorSpace {
    /// Returns the step that brings the destination in.
    pub fn expand_dest_stage(&self) -> (r: Option<Stage>)
        ensures
            r == self.expand_dest,
    {
        self.expand_dest
    }

    /// Returns the step that brings the result out.
    pub fn compress_stage(&self) -> (r: Option<Stage>)
        ensures
            r == self.compress,
    {
        self.compress
    }
}

/// Where the colors of a paint come from.
pub enum ShaderKind<'a> {
    /// They are all the same.
    SolidColor(PremultipliedColorU8),
    /// They are read from a pixmap.
    Pattern(PixmapRef<'a>),
    /// They are computed.
    Gradient,
}

/// The source of a paint's colors.
pub struct Shader<'a> {
    pub kind: ShaderKind<'a>,
    /// Whether none of the colors lets anything through.
    pub opaque: bool,
    /// The steps that make the colors in the paint's color space, unless there are none
    /// that can.
    pub stages: Option<Vec<Stage>>,
}

impl<'a> Shader<'a> {
    /// Returns whether none of the colors lets anything through.
    pub fn is_opaque(&self) -> (r: bool)
        ensures
            r == self.opaque,
    {
        self.opaque
    }

    /// The color that all of them are, where they are all the same.
    pub open spec fn uniform_color(self) -> Option<PremultipliedColorU8> {
        match self.kind {
            ShaderKind::SolidColor(color) => Some(color),
            _ => None,
        }
    }

    /// Adds the steps that make the colors to a pipeline, and the color that all of them
    /// are, where they are all the same. Returns `false`, and adds nothing, where there are
    /// no steps that can.
    pub fn push_stages(&self, p: &mut RasterPipelineBuilder) -> (r: bool)
        ensures
            r == self.stages is Some,
            final(p).same_setup(
                (RasterPipelineBuilder {
                    uniform_color: if self.stages is Some && self.kind is SolidColor {
                        self.uniform_color()
                    } else {
                        old(p).uniform_color
                    },
                    ..*old(p)
                }),
            ),
            final(p).stages@ == old(p).stages@ + (match self.stages {
                Some(stages) => stages@,
                None => Seq::<Stage>::empty(),
            }),
    {
        match &self.stages {
            Some(stages) => {
                let ghost before = p.stages@;
                let n: usize = stages.len();
                let mut i: usize = 0;
                assert(p.stages@ =~= before + stages@.take(0));
                while i < n
                    invariant
                        i <= n,
                        n == stages@.len(),
                        p.same_setup(*old(p)),
                        p.stages@ == before + stages@.take(i as int),
                    decreases n - i,
                {
                    p.push(stages[i]);
                    i = i + 1;
                    assert(p.stages@ =~= before + stages@.take(i as int));
                }
                assert(stages@.take(n as int) =~= stages@);
                if let ShaderKind::SolidColor(color) = &self.kind {
                    p.uniform_color = Some(*color);
                }
                true
            },
            None => {
                assert(p.stages@ =~= p.stages@ + Seq::<Stage>::empty());
                false
            },
        }
    }
}

/// What to draw with.
pub struct Paint<'a> {
    pub shader: Shader<'a>,
    pub blend_mode: BlendMode,
    pub anti_alias: bool,
    pub colorspace: ColorSpace,
    /// Whether the pipelines have to be those of a high quality.
    pub force_hq_pipeline: bool,
}

impl<'a> Paint<'a> {
    /// Returns whether all of the colors are the same.
    pub fn is_solid_color(&self) -> (r: bool)
        ensures
            r == self.shader.kind is SolidColor,
    {
        match self.shader.kind {
            ShaderKind::SolidColor(_) => true,
            _ => false,
        }
    }
}

/// A pipeline that is being put together.
pub struct RasterPipelineBuilder {
    pub stages: Vec<Stage>,
    pub force_hq_pipeline: bool,
    pub dest_type: PixelType,
    pub src_type: PixelType,
    /// The color that [`Stage::UniformColor`] makes.
    pub uniform_color: Option<PremultipliedColorU8>,
}

/// A pipeline that pixels can be drawn with.
pub struct RasterPipeline {
    pub stages: Vec<Stage>,
    pub force_hq_pipeline: bool,
    pub dest_type: PixelType,
    pub src_type: PixelType,
    /// The color that [`Stage::UniformColor`] makes.
    pub uniform_color: Option<PremultipliedColorU8>,
}

impl RasterPipeline {
    /// Whether these are the pipeline's steps and settings.
    pub open spec fn is(
        self,
        stages: Seq<Stage>,
        force_hq_pipeline: bool,
        dest_type: PixelType,
        src_type: PixelType,
        uniform_color: Option<PremultipliedColorU8>,
    ) -> bool {
        &&& self.stages@ == stages
        &&& self.force_hq_pipeline == force_hq_pipeline
        &&& self.dest_type == dest_type
        &&& self.src_type == src_type
        &&& self.uniform_color == uniform_color
    }
}

/// What a pipeline draws on.
pub struct GenericPixmapMut<'c> {
    pub data: &'c mut [u8],
    pub size: IntSize,
    /// The number of bytes between the starts of two rows.
    pub stride: usize,
    /// How a pixel is encoded. A mask has a byte per pixel in place of it.
    pub pixel_type: Option<PixelType>,
}

impl<'c> GenericPixmapMut<'c> {
    /// Draws on a mask.
    pub fn from_mask<'b>(mask: &'c mut SubMaskMut<'b>) -> (r: Self)
        ensures
            r.data@ == old(mask).data@,
            r.size == old(mask).size,
            r.stride == old(mask).real_width,
            r.pixel_type is None,
            final(mask).data@ == final(r.data)@,
            final(mask).size == old(mask).size,
            final(mask).real_width == old(mask).real_width,
            final(final(mask).data)@ == final(old(mask).data)@,
    {
        let (size, stride) = (mask.size, mask.real_width);
        GenericPixmapMut { data: mask.data, size, stride, pixel_type: None }
    }

    /// Draws on a pixmap.
    pub fn from_pixmap<'b>(pixmap: &'c mut PixmapMut<'b>) -> (r: Self)
        ensures
            r.data@ == old(pixmap).data@,
            r.size == old(pixmap).size,
            r.stride == old(pixmap).stride,
            r.pixel_type == Some(old(pixmap).pixel_type),
            final(pixmap).data@ == final(r.data)@,
            final(pixmap).size == old(pixmap).size,
            final(pixmap).stride == old(pixmap).stride,
            final(pixmap).pixel_type == old(pixmap).pixel_type,
            final(final(pixmap).data)@ == final(old(pixmap).data)@,
    {
        let (size, stride, pixel_type) = (pixmap.size, pixmap.stride, pixmap.pixel_type);
        GenericPixmapMut { data: pixmap.data, size, stride, pixel_type: Some(pixel_type) }
    }
}

/// A step, if there is one.
pub open spec fn if_any(stage: Option<Stage>) -> Seq<Stage> {
    match stage {
        Some(stage) => seq![stage],
        None => Seq::empty(),
    }
}

impl RasterPipelineBuilder {
    /// Whether everything but the steps is the same.
    pub open spec fn same_setup(self, other: RasterPipelineBuilder) -> bool {
        &&& self.force_hq_pipeline == other.force_hq_pipeline
        &&& self.dest_type == other.dest_type
        &&& self.src_type == other.src_type
        &&& self.uniform_color == other.uniform_color
    }

    /// Starts a pipeline without steps.
    pub fn new(dest_type: PixelType, src_type: PixelType) -> (r: Self)
        ensures
            r.stages@ == Seq::<Stage>::empty(),
            !r.force_hq_pipeline,
            r.dest_type == dest_type,
            r.src_type == src_type,
            r.uniform_color is None,
    {
        RasterPipelineBuilder {
            stages: Vec::new(),
            force_hq_pipeline: false,
            dest_type,
            src_type,
            uniform_color: None,
        }
    }

    /// Sets whether the pipeline has to be one of a high quality.
    pub fn set_force_hq_pipeline(&mut self, hq: bool)
        ensures
            *final(self) == (RasterPipelineBuilder { force_hq_pipeline: hq, ..*old(self) }),
    {
        self.force_hq_pipeline = hq;
    }

    /// Adds a step.
    pub fn push(&mut self, stage: Stage)
        ensures
            final(self).same_setup(*old(self)),
            final(self).stages@ == old(self).stages@.push(stage),
    {
        self.stages.push(stage);
    }

    /// Adds a step, if there is one.
    pub fn push_any(&mut self, stage: Option<Stage>)
        ensures
            final(self).same_setup(*old(self)),
            final(self).stages@ == old(self).stages@ + if_any(stage),
    {
        match stage {
            Some(stage) => {
                self.push(stage);
                assert(self.stages@ =~= old(self).stages@ + if_any(Some(stage)));
            },
            None => {
                assert(self.stages@ =~= old(self).stages@ + if_any(None));
            },
        }
    }

    /// Adds a step that makes a color.
    pub fn push_uniform_color(&mut self, color: PremultipliedColorU8)
        ensures
            final(self).same_setup(
                RasterPipelineBuilder { uniform_color: Some(color), ..*old(self) },
            ),
            final(self).stages@ == old(self).stages@.push(Stage::UniformColor),
    {
        self.stages.push(Stage::UniformColor);
        self.uniform_color = Some(color);
    }

    /// Finishes the pipeline.
    pub fn compile(self) -> (r: RasterPipeline)
        ensures
            r.is(
                self.stages@,
                self.force_hq_pipeline,
                self.dest_type,
                self.src_type,
                self.uniform_color,
            ),
    {
        RasterPipeline {
            stages: self.stages,
            force_hq_pipeline: self.force_hq_pipeline,
            dest_type: self.dest_type,
            src_type: self.src_type,
            uniform_color: self.uniform_color,
        }
    }
}

} // verus!
