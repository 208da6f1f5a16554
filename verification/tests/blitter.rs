use tiny_skia::color::PremultipliedColorU8;
use tiny_skia::geom::IntSize;
use tiny_skia::geom::ScreenIntRect;
use tiny_skia::mask::Mask;
use tiny_skia::mask::SubMaskMut;
use tiny_skia::mask::SubMaskRef;
use tiny_skia::pipeline::blitter::PipelineDest;
use tiny_skia::pipeline::blitter::PipelineKind;
use tiny_skia::pipeline::blitter::RasterPipelineBlitter;
use tiny_skia::pipeline::BlendMode;
use tiny_skia::pipeline::ColorSpace;
use tiny_skia::pipeline::Paint;
use tiny_skia::pipeline::Shader;
use tiny_skia::pipeline::ShaderKind;
use tiny_skia::pipeline::Stage;
use tiny_skia::pixmap::PixelType;
use tiny_skia::pixmap::Pixmap;

fn color(r: u8, g: u8, b: u8, a: u8) -> PremultipliedColorU8 {
    PremultipliedColorU8::from_rgba_unchecked(r, g, b, a)
}

fn solid<'a>(c: PremultipliedColorU8, blend_mode: BlendMode) -> Paint<'a> {
    Paint {
        shader: Shader {
            kind: ShaderKind::SolidColor(c),
            opaque: c.alpha() == 255,
            stages: Some(vec![Stage::UniformColor]),
        },
        blend_mode,
        anti_alias: true,
        colorspace: ColorSpace::default(),
        force_hq_pipeline: false,
    }
}

fn gradient<'a>(blend_mode: BlendMode) -> Paint<'a> {
    Paint {
        shader: Shader {
            kind: ShaderKind::Gradient,
            opaque: false,
            stages: Some(vec![Stage::SeedShader, Stage::Gradient]),
        },
        blend_mode,
        anti_alias: true,
        colorspace: ColorSpace {
            expand_dest: Some(Stage::GammaExpandDestination2),
            compress: Some(Stage::GammaCompress2),
        },
        force_hq_pipeline: true,
    }
}

fn rect(x: u32, y: u32, width: u32, height: u32) -> ScreenIntRect {
    ScreenIntRect::from_xywh(x, y, width, height).unwrap()
}

fn mask_of(data: &[u8], width: u32, height: u32) -> SubMaskRef<'_> {
    SubMaskRef {
        data,
        size: IntSize::from_wh(width, height).unwrap(),
        real_width: width as usize,
    }
}

#[test]
fn masks_of_another_size_are_refused() {
    let coverage = [255; 20];
    let paint = gradient(BlendMode::SourceOver);
    let tries = [(4, 5, true), (5, 4, false), (4, 4, false), (5, 5, false)];
    for (width, height, fits) in tries {
        let mut pixmap = Pixmap::new(4, 5).unwrap();
        let mut dest = pixmap.as_mut();
        let mask = mask_of(&coverage, width, height);
        let blitter = RasterPipelineBlitter::new(&paint, Some(mask), &mut dest);
        assert_eq!(blitter.is_some(), fits);
    }
}

#[test]
fn paints_that_draw_nothing_are_refused() {
    let opaque = color(1, 2, 3, 255);
    let faint = color(1, 2, 3, 4);
    let mut blank = gradient(BlendMode::SourceOver);
    blank.shader.stages = None;
    let tries = [
        (solid(opaque, BlendMode::Destination), false),
        (gradient(BlendMode::Destination), false),
        (solid(opaque, BlendMode::DestinationIn), false),
        (solid(faint, BlendMode::DestinationIn), true),
        (gradient(BlendMode::DestinationIn), true),
        (blank, false),
    ];
    for (paint, draws) in tries {
        let mut pixmap = Pixmap::new(4, 5).unwrap();
        let mut dest = pixmap.as_mut();
        let blitter = RasterPipelineBlitter::new(&paint, None, &mut dest);
        assert_eq!(blitter.is_some(), draws);
    }
}

#[test]
fn pipelines_of_a_mode_that_scales_its_source() {
    let mut pixmap = Pixmap::new(2, 2).unwrap();
    let mut dest = pixmap.as_mut();
    let paint = gradient(BlendMode::SourceOver);
    let b = RasterPipelineBlitter::new(&paint, None, &mut dest).unwrap();
    assert_eq!(b.memset2d_color, None);
    assert_eq!(
        b.blit_anti_h_rp.stages,
        vec![
            Stage::SeedShader,
            Stage::Gradient,
            Stage::Scale1Float,
            Stage::LoadDestination,
            Stage::GammaExpandDestination2,
            Stage::SourceOver,
            Stage::GammaCompress2,
            Stage::Store,
        ]
    );
    assert_eq!(
        b.blit_rect_rp.stages,
        vec![
            Stage::SeedShader,
            Stage::Gradient,
            Stage::GammaCompress2,
            Stage::SourceOverRgba,
        ]
    );
    assert_eq!(
        b.blit_mask_rp.stages,
        vec![
            Stage::SeedShader,
            Stage::Gradient,
            Stage::ScaleU8,
            Stage::LoadDestination,
            Stage::GammaExpandDestination2,
            Stage::SourceOver,
            Stage::GammaCompress2,
            Stage::Store,
        ]
    );
    assert!(b.blit_mask_rp.force_hq_pipeline);
    assert_eq!(b.blit_rect_rp.dest_type, PixelType::Rgba8U);
    assert_eq!(b.blit_rect_rp.src_type, PixelType::Rgba8U);
    assert_eq!((b.pixmap_src.width(), b.pixmap_src.height()), (1, 1));
    assert_eq!(b.pixmap_src.data(), &[0, 0, 0, 0]);
}

#[test]
fn pipelines_of_a_mode_that_weighs_its_result() {
    let coverage = [255; 4];
    let mut pixmap = Pixmap::new(2, 2).unwrap();
    let mut dest = pixmap.as_mut();
    let paint = gradient(BlendMode::Modulate);
    let mask = mask_of(&coverage, 2, 2);
    let b = RasterPipelineBlitter::new(&paint, Some(mask), &mut dest).unwrap();
    assert_eq!(
        b.blit_anti_h_rp.stages,
        vec![
            Stage::SeedShader,
            Stage::Gradient,
            Stage::MaskU8,
            Stage::LoadDestination,
            Stage::GammaExpandDestination2,
            Stage::Modulate,
            Stage::Lerp1Float,
            Stage::GammaCompress2,
            Stage::Store,
        ]
    );
    assert_eq!(
        b.blit_rect_rp.stages,
        vec![
            Stage::SeedShader,
            Stage::Gradient,
            Stage::MaskU8,
            Stage::LoadDestination,
            Stage::GammaExpandDestination2,
            Stage::Modulate,
            Stage::GammaCompress2,
            Stage::Store,
        ]
    );
    assert_eq!(b.blit_mask_rp.stages[6], Stage::LerpU8);
}

#[test]
fn source_needs_no_blending() {
    let mut pixmap = Pixmap::new(2, 2).unwrap();
    let mut dest = pixmap.as_mut();
    let paint = gradient(BlendMode::Source);
    let b = RasterPipelineBlitter::new(&paint, None, &mut dest).unwrap();
    assert_eq!(
        b.blit_rect_rp.stages,
        vec![
            Stage::SeedShader,
            Stage::Gradient,
            Stage::GammaCompress2,
            Stage::Store,
        ]
    );
    assert_eq!(
        b.blit_anti_h_rp.stages,
        vec![
            Stage::SeedShader,
            Stage::Gradient,
            Stage::LoadDestination,
            Stage::GammaExpandDestination2,
            Stage::Lerp1Float,
            Stage::GammaCompress2,
            Stage::Store,
        ]
    );
    assert_eq!(b.memset2d_color, None);
}

#[test]
fn when_a_color_is_simply_set() {
    let coverage = [255; 4];
    let opaque = color(1, 2, 3, 255);
    let faint = color(1, 2, 3, 4);
    let mut clear = gradient(BlendMode::Clear);
    clear.anti_alias = false;
    let mut masked_clear = gradient(BlendMode::Clear);
    masked_clear.anti_alias = false;
    let none = None;
    let tries = [
        (solid(opaque, BlendMode::SourceOver), false, Some(opaque)),
        (solid(opaque, BlendMode::SourceOver), true, none),
        (solid(faint, BlendMode::SourceOver), false, none),
        (solid(faint, BlendMode::Source), false, Some(faint)),
        (solid(faint, BlendMode::Source), true, none),
        (gradient(BlendMode::Clear), false, none),
        (clear, false, Some(PremultipliedColorU8::transparent())),
        (masked_clear, true, none),
    ];
    for (paint, masked, want) in tries {
        let mut pixmap = Pixmap::new(2, 2).unwrap();
        let mut dest = pixmap.as_mut();
        let mask = if masked { Some(mask_of(&coverage, 2, 2)) } else { None };
        let b = RasterPipelineBlitter::new(&paint, mask, &mut dest).unwrap();
        assert_eq!(b.memset2d_color, want);
        assert_eq!(b.mask.is_some(), masked);
    }
}

#[test]
fn patterns_are_the_source() {
    let mut tile = Pixmap::new(3, 1).unwrap();
    tile.fill(color(9, 9, 9, 9));
    let mut paint = gradient(BlendMode::SourceOver);
    paint.shader.kind = ShaderKind::Pattern(tile.as_ref());
    let mut pixmap = Pixmap::new(2, 2).unwrap();
    let mut dest = pixmap.as_mut();
    let mut b = RasterPipelineBlitter::new(&paint, None, &mut dest).unwrap();
    let run = b.blit_rect(&rect(0, 0, 2, 2)).unwrap();
    assert!(run.pixmap_src == tile.as_ref());
}

#[test]
fn rect_is_simply_set() {
    let mut pixmap = Pixmap::new_with_type(4, 4, 18, PixelType::Rgba8U).unwrap();
    let c = color(1, 2, 3, 255);
    let mut dest = pixmap.as_mut();
    let paint = solid(c, BlendMode::SourceOver);
    let mut b = RasterPipelineBlitter::new(&paint, None, &mut dest).unwrap();
    assert!(b.blit_rect(&rect(1, 2, 2, 2)).is_none());
    assert!(b.blit_h(3, 0, 1).is_none());
    for y in 0..4 {
        for x in 0..4 {
            let inside = x >= 1 && x < 3 && y >= 2 || x == 3 && y == 0;
            let want = if inside { c } else { PremultipliedColorU8::transparent() };
            assert_eq!(pixmap.pixel(x, y), Some(want));
        }
    }
    assert_eq!(pixmap.data().iter().filter(|b| **b != 0).count(), 5 * 4);
}

#[test]
fn clear_sets_transparent_black() {
    let mut pixmap = Pixmap::new(3, 2).unwrap();
    pixmap.fill(color(9, 9, 9, 9));
    let mut paint = gradient(BlendMode::Clear);
    paint.anti_alias = false;
    let mut dest = pixmap.as_mut();
    let mut b = RasterPipelineBlitter::new(&paint, None, &mut dest).unwrap();
    assert!(b.blit_h(1, 1, 2).is_none());
    assert_eq!(pixmap.pixel(0, 1), Some(color(9, 9, 9, 9)));
    assert_eq!(pixmap.pixel(1, 1), Some(color(0, 0, 0, 0)));
    assert_eq!(pixmap.pixel(2, 1), Some(color(0, 0, 0, 0)));
    assert_eq!(pixmap.pixel(2, 0), Some(color(9, 9, 9, 9)));
}

#[test]
fn mask_rect_is_simply_set() {
    let mut data = [7; 12];
    let mut mask = SubMaskMut {
        data: &mut data,
        size: IntSize::from_wh(3, 3).unwrap(),
        real_width: 4,
    };
    let mut b = RasterPipelineBlitter::new_mask(&mut mask).unwrap();
    assert_eq!(b.memset2d_color, Some(color(255, 255, 255, 255)));
    assert_eq!(
        b.blit_anti_h_rp.stages,
        vec![
            Stage::UniformColor,
            Stage::LoadDestinationU8,
            Stage::Lerp1Float,
            Stage::StoreU8,
        ]
    );
    assert_eq!(b.blit_rect_rp.stages, vec![Stage::UniformColor, Stage::StoreU8]);
    assert_eq!(
        b.blit_mask_rp.stages,
        vec![
            Stage::UniformColor,
            Stage::LoadDestinationU8,
            Stage::LerpU8,
            Stage::StoreU8,
        ]
    );
    assert_eq!(b.blit_rect_rp.uniform_color, Some(color(255, 255, 255, 255)));
    assert!(b.blit_rect(&rect(1, 1, 2, 2)).is_none());
    let run = b.blit_v(0, 0, 3, 99);
    assert_eq!(run.mask_ctx.data.len(), 0);
    assert_eq!(data, [7, 7, 7, 7, 7, 255, 255, 7, 7, 255, 255, 7]);
}

#[test]
fn rect_that_needs_a_pipeline() {
    let coverage = [1, 2, 3, 4];
    let mut pixmap = Pixmap::new(2, 2).unwrap();
    let mut dest = pixmap.as_mut();
    let paint = gradient(BlendMode::SourceOver);
    let mask = mask_of(&coverage, 2, 2);
    let mut b = RasterPipelineBlitter::new(&paint, Some(mask), &mut dest).unwrap();
    let run = b.blit_rect(&rect(0, 1, 2, 1)).unwrap();
    assert_eq!(run.pipeline, PipelineKind::Rect);
    assert_eq!(run.coverage, None);
    assert_eq!(run.rect, rect(0, 1, 2, 1));
    assert_eq!(run.aa_mask_ctx.pixels, [0, 0]);
    assert_eq!((run.aa_mask_ctx.stride, run.aa_mask_ctx.shift), (0, 0));
    assert_eq!(run.mask_ctx.data, &coverage);
    assert_eq!(run.mask_ctx.real_width, 2);
    assert_eq!(pixmap.data(), &[0; 16]);
}

#[test]
fn columns_and_pairs() {
    let mut pixmap = Pixmap::new(9, 9).unwrap();
    let mut dest = pixmap.as_mut();
    let paint = gradient(BlendMode::SourceOver);
    let mut b = RasterPipelineBlitter::new(&paint, None, &mut dest).unwrap();

    let run = b.blit_v(3, 4, 5, 99);
    assert_eq!(run.pipeline, PipelineKind::Mask);
    assert_eq!(run.rect, rect(3, 4, 1, 5));
    assert_eq!(run.aa_mask_ctx.pixels, [99, 99]);
    assert_eq!((run.aa_mask_ctx.stride, run.aa_mask_ctx.shift), (0, 3));

    let run = b.blit_anti_h2(3, 4, 10, 20);
    assert_eq!(run.rect, rect(3, 4, 2, 1));
    assert_eq!(run.aa_mask_ctx.pixels, [10, 20]);
    assert_eq!((run.aa_mask_ctx.stride, run.aa_mask_ctx.shift), (2, 11));

    let run = b.blit_anti_v2(3, 4, 30, 40);
    assert_eq!(run.rect, rect(3, 4, 1, 2));
    assert_eq!(run.aa_mask_ctx.pixels, [30, 40]);
    assert_eq!((run.aa_mask_ctx.stride, run.aa_mask_ctx.shift), (1, 7));

    let mask = Mask { image: [5, 6], bounds: rect(1, 2, 2, 1), row_bytes: 2 };
    let run = b.blit_mask(&mask, &rect(2, 2, 1, 1));
    assert_eq!(run.rect, rect(2, 2, 1, 1));
    assert_eq!(run.aa_mask_ctx.shift, 5);
    assert_eq!(run.coverage, None);
}

#[test]
fn runs_of_alpha() {
    let mut pixmap = Pixmap::new(12, 4).unwrap();
    let mut dest = pixmap.as_mut();
    let paint = gradient(BlendMode::SourceOver);
    let mut b = RasterPipelineBlitter::new(&paint, None, &mut dest).unwrap();
    let mut aa = [255, 1, 7, 0, 1, 9, 1];
    let mut runs = [Some(2), Some(9), Some(1), Some(2), None, Some(1), None];
    let todo = b.blit_anti_h(5, 3, &mut aa, &mut runs);
    assert_eq!(todo.len(), 3);
    assert_eq!(todo[0].pipeline, PipelineKind::Rect);
    assert_eq!((todo[0].rect, todo[0].coverage), (rect(5, 3, 2, 1), None));
    assert_eq!(todo[1].pipeline, PipelineKind::AntiH);
    assert_eq!((todo[1].rect, todo[1].coverage), (rect(7, 3, 1, 1), Some(7)));
    assert_eq!(todo[2].pipeline, PipelineKind::AntiH);
    assert_eq!((todo[2].rect, todo[2].coverage), (rect(10, 3, 1, 1), Some(9)));
    assert_eq!(aa, [255, 1, 7, 0, 1, 9, 1]);
}

#[test]
fn opaque_runs_are_simply_set() {
    let c = color(1, 2, 3, 255);
    let paint = solid(c, BlendMode::Source);
    let mut in_runs = Pixmap::new(8, 2).unwrap();
    let mut at_once = Pixmap::new(8, 2).unwrap();

    let mut dest = in_runs.as_mut();
    let mut b = RasterPipelineBlitter::new(&paint, None, &mut dest).unwrap();
    let mut aa = [255, 0, 255, 0, 0, 0];
    let mut runs = [Some(2), None, Some(3), None, None, None];
    assert_eq!(b.blit_anti_h(1, 1, &mut aa, &mut runs).len(), 0);

    let mut dest = at_once.as_mut();
    let mut b = RasterPipelineBlitter::new(&paint, None, &mut dest).unwrap();
    assert!(b.blit_h(1, 1, 5).is_none());

    assert_eq!(in_runs, at_once);
    assert_eq!(in_runs.pixel(5, 1), Some(c));
    assert_eq!(in_runs.pixel(6, 1), Some(color(0, 0, 0, 0)));
}

#[test]
fn no_runs_draw_nothing() {
    let mut pixmap = Pixmap::new(2, 2).unwrap();
    let mut dest = pixmap.as_mut();
    let paint = solid(color(1, 2, 3, 255), BlendMode::Source);
    let mut b = RasterPipelineBlitter::new(&paint, None, &mut dest).unwrap();
    assert_eq!(b.blit_anti_h(0, 0, &mut [], &mut [None]).len(), 0);
    assert_eq!(pixmap.data(), &[0; 16]);
}

#[test]
fn what_pipelines_draw_on() {
    let mut pixmap = Pixmap::new_with_type(2, 1, 11, PixelType::Rgba8U).unwrap();
    let mut view = pixmap.as_mut();
    let mut dest = PipelineDest::Pixmap(&mut view);
    let generic = dest.to_generic_pixmap();
    assert_eq!(generic.stride, 11);
    assert_eq!(generic.size, IntSize::from_wh(2, 1).unwrap());
    assert_eq!(generic.pixel_type, Some(PixelType::Rgba8U));
    generic.data[0] = 200;
    assert_eq!(pixmap.data()[0], 200);

    let mut data = [0; 6];
    let mut mask = SubMaskMut {
        data: &mut data,
        size: IntSize::from_wh(2, 2).unwrap(),
        real_width: 3,
    };
    let mut dest = PipelineDest::Mask(&mut mask);
    let generic = dest.to_generic_pixmap();
    assert_eq!((generic.stride, generic.pixel_type), (3, None));
    generic.data[5] = 100;
    assert_eq!(data[5], 100);
}

#[test]
fn blend_modes_and_their_stages() {
    assert_eq!(BlendMode::Source.to_stage(), None);
    assert_eq!(BlendMode::Destination.to_stage(), Some(Stage::MoveDestinationToSource));
    assert_eq!(BlendMode::Xor.to_stage(), Some(Stage::Xor));
    assert_eq!(BlendMode::Luminosity.to_stage(), Some(Stage::Luminosity));
    assert!(BlendMode::Plus.should_pre_scale_coverage());
    assert!(BlendMode::SourceAtop.should_pre_scale_coverage());
    assert!(!BlendMode::Source.should_pre_scale_coverage());
    assert!(!BlendMode::Clear.should_pre_scale_coverage());
    assert!(!BlendMode::Modulate.should_pre_scale_coverage());
}

#[test]
fn opaque_source_over_is_source() {
    let c = color(1, 2, 3, 255);
    let mut pixmap = Pixmap::new(2, 2).unwrap();
    let mut other = Pixmap::new(2, 2).unwrap();
    let (mut dest, mut other_dest) = (pixmap.as_mut(), other.as_mut());
    let over = solid(c, BlendMode::SourceOver);
    let source = solid(c, BlendMode::Source);
    let a = RasterPipelineBlitter::new(&over, None, &mut dest).unwrap();
    let b = RasterPipelineBlitter::new(&source, None, &mut other_dest).unwrap();
    assert_eq!(a.memset2d_color, b.memset2d_color);
    assert_eq!(a.blit_rect_rp.stages, b.blit_rect_rp.stages);
    assert_eq!(a.blit_mask_rp.stages, b.blit_mask_rp.stages);
    assert_eq!(a.blit_anti_h_rp.stages, b.blit_anti_h_rp.stages);
}

#[test]
fn rect_is_its_rows_and_a_fill() {
    let c = color(5, 6, 7, 8);
    let paint = solid(c, BlendMode::Source);
    let mut at_once = Pixmap::new(6, 5).unwrap();
    let mut by_rows = Pixmap::new(6, 5).unwrap();
    let mut filled = Pixmap::new(6, 5).unwrap();

    let mut dest = at_once.as_mut();
    let mut b = RasterPipelineBlitter::new(&paint, None, &mut dest).unwrap();
    assert!(b.blit_rect(&rect(1, 2, 4, 3)).is_none());

    let mut dest = by_rows.as_mut();
    let mut b = RasterPipelineBlitter::new(&paint, None, &mut dest).unwrap();
    for y in 2..5 {
        assert!(b.blit_h(1, y, 4).is_none());
    }

    let area = tiny_skia::IntRect::from_xywh(1, 2, 4, 3).unwrap();
    filled.as_mut().subpixmap(area).unwrap().fill(c);

    assert_eq!(at_once, by_rows);
    assert_eq!(at_once, filled);
}

#[test]
fn solid_colors_are_in_the_pipelines() {
    for c in [color(1, 2, 3, 4), color(5, 6, 7, 80)] {
        let mut pixmap = Pixmap::new(2, 2).unwrap();
        let mut dest = pixmap.as_mut();
        let paint = solid(c, BlendMode::SourceOver);
        let b = RasterPipelineBlitter::new(&paint, None, &mut dest).unwrap();
        assert_eq!(b.memset2d_color, None);
        assert_eq!(b.blit_rect_rp.stages, vec![Stage::UniformColor, Stage::SourceOverRgba]);
        assert_eq!(b.blit_rect_rp.uniform_color, Some(c));
        assert_eq!(b.blit_mask_rp.uniform_color, Some(c));
        assert_eq!(b.blit_anti_h_rp.uniform_color, Some(c));
    }
    let mut pixmap = Pixmap::new(2, 2).unwrap();
    let mut dest = pixmap.as_mut();
    let paint = gradient(BlendMode::SourceOver);
    let b = RasterPipelineBlitter::new(&paint, None, &mut dest).unwrap();
    assert_eq!(b.blit_rect_rp.uniform_color, None);
}

#[test]
fn mixed_runs_set_only_the_opaque_ones() {
    let c = color(1, 2, 3, 255);
    let paint = solid(c, BlendMode::Source);
    let mut pixmap = Pixmap::new(8, 3).unwrap();
    pixmap.fill(color(9, 9, 9, 9));
    let mut dest = pixmap.as_mut();
    let mut b = RasterPipelineBlitter::new(&paint, None, &mut dest).unwrap();
    let mut aa = [255, 0, 0, 128, 255, 0];
    let mut runs = [Some(2), None, Some(1), Some(1), Some(1), None];
    let todo = b.blit_anti_h(1, 1, &mut aa, &mut runs);
    assert_eq!(todo.len(), 1);
    assert_eq!((todo[0].rect, todo[0].coverage), (rect(4, 1, 1, 1), Some(128)));
    for y in 0..3 {
        for x in 0..8 {
            let set = y == 1 && (x == 1 || x == 2 || x == 5);
            let want = if set { c } else { color(9, 9, 9, 9) };
            assert_eq!(pixmap.pixel(x, y), Some(want));
        }
    }
}
