use hayro_raster::context::{
    EncodedPaint, FillRule, LineCap, LineJoin, Mask, Opacity, Outline, Paint, PaintType,
    RenderContext, Stage, StrokeStyle, Transform, OPAQUE_BITS,
};
use kurbo::{Affine, BezPath, Rect, Stroke};

type Context = RenderContext<&'static str, u32, u64>;

fn line(x: f64) -> BezPath {
    let mut path = BezPath::new();
    path.move_to((0.0, 0.0));
    path.line_to((x, 1.0));
    path
}

fn name(stage: &Stage<&'static str>) -> &'static str {
    match stage {
        Stage::FlattenFill { .. } => "flatten fill",
        Stage::FlattenStroke { .. } => "flatten stroke",
        Stage::MakeTiles { .. } => "make tiles",
        Stage::SortTiles => "sort tiles",
        Stage::RenderStrips { .. } => "render strips",
        Stage::Generate { .. } => "generate",
        Stage::PushLayer { .. } => "push",
        Stage::PopLayer => "pop",
    }
}

fn names(ctx: &Context) -> Vec<&'static str> {
    ctx.stages.iter().map(name).collect()
}

fn mask(width: u16, height: u16) -> Mask {
    Mask { width, height, data: vec![0; width as usize * height as usize] }
}

#[test]
fn a_new_context_has_its_defaults() {
    let ctx = Context::new(30, 40, Some(3));
    assert_eq!((ctx.width, ctx.height), (30, 40));
    assert!(ctx.stages.is_empty());
    assert!(ctx.encoded_paints.is_empty());
    assert!(ctx.paint_clip_path.is_none());
    assert!(ctx.anti_aliasing);
    assert!(!ctx.has_layers());
    assert_eq!(ctx.fill_rule, FillRule::NonZero);
    assert!(matches!(ctx.transform, Transform::Identity));
    assert!(matches!(
        ctx.stroke,
        StrokeStyle::Plain {
            width: 1,
            join: LineJoin::Bevel,
            start_cap: LineCap::Butt,
            end_cap: LineCap::Butt,
        }
    ));
    assert_eq!(ctx.thread_limit(), Some(3));
    assert_eq!(Context::new(1, 1, Some(0)).thread_limit(), None);
    assert_eq!(Context::new(1, 1, None).thread_limit(), None);
}

#[test]
fn a_path_is_filled_with_a_color() {
    let mut ctx = Context::new(30, 40, None);
    ctx.set_fill_rule(FillRule::EvenOdd);
    ctx.set_transform(Affine::translate((1.0, 2.0)));
    ctx.set_anti_aliasing(false);
    ctx.fill_path(&line(3.0), PaintType::Solid("red"), Some(mask(2, 2)));
    assert_eq!(
        names(&ctx),
        vec!["flatten fill", "make tiles", "sort tiles", "render strips", "generate"]
    );
    match &ctx.stages[0] {
        Stage::FlattenFill { outline: Outline::Path(path), transform: Transform::Affine(t) } => {
            assert_eq!(*path, line(3.0));
            assert_eq!(*t, Affine::translate((1.0, 2.0)));
        }
        _ => panic!("not a filled path"),
    }
    assert!(matches!(ctx.stages[1], Stage::MakeTiles { width: 30, height: 40 }));
    assert!(matches!(
        ctx.stages[3],
        Stage::RenderStrips { fill_rule: FillRule::EvenOdd, anti_aliasing: false }
    ));
    match &ctx.stages[4] {
        Stage::Generate { fill_rule, paint: Paint::Solid(color), mask: Some(mask) } => {
            assert_eq!(*fill_rule, FillRule::EvenOdd);
            assert_eq!(*color, "red");
            assert_eq!((mask.width, mask.height), (2, 2));
        }
        _ => panic!("not a color behind a mask"),
    }
    assert!(ctx.encoded_paints.is_empty());
}

#[test]
fn a_path_is_stroked_by_the_nonzero_rule() {
    let mut ctx = Context::new(30, 40, None);
    ctx.set_fill_rule(FillRule::EvenOdd);
    ctx.set_stroke(Stroke::new(5.0));
    ctx.stroke_path(&line(3.0), PaintType::Image(11), None);
    match &ctx.stages[0] {
        Stage::FlattenStroke { path, stroke: StrokeStyle::Custom(stroke), transform } => {
            assert_eq!(*path, line(3.0));
            assert_eq!(*stroke, Stroke::new(5.0));
            assert!(matches!(transform, Transform::Identity));
        }
        _ => panic!("not a stroked path"),
    }
    assert!(matches!(
        ctx.stages[3],
        Stage::RenderStrips { fill_rule: FillRule::NonZero, anti_aliasing: true }
    ));
    assert!(matches!(
        ctx.stages[4],
        Stage::Generate { fill_rule: FillRule::NonZero, paint: Paint::Indexed(0), mask: None }
    ));
    assert!(matches!(ctx.encoded_paints[0], EncodedPaint::Image(11)));
}

#[test]
fn a_rectangle_is_filled() {
    let mut ctx = Context::new(3, 4, None);
    let rect = Rect::new(0.0, 1.0, 2.0, 3.0);
    ctx.fill_rect(&rect, PaintType::Solid("blue"), None);
    match &ctx.stages[0] {
        Stage::FlattenFill { outline: Outline::Rect(r), transform: Transform::Identity } => {
            assert_eq!(*r, rect);
        }
        _ => panic!("not a filled rectangle"),
    }
    assert_eq!(ctx.stages.len(), 5);
}

#[test]
fn a_clipped_shading_is_drawn_in_a_layer() {
    let mut ctx = Context::new(3, 4, None);
    ctx.set_transform(Affine::scale(2.0));
    ctx.fill_path(&line(1.0), PaintType::Image(5), None);
    ctx.fill_path(
        &line(2.0),
        PaintType::ShadingPattern { shading: 6, clip_path: Some(line(9.0)) },
        None,
    );
    assert_eq!(
        names(&ctx)[5..],
        [
            "flatten fill",
            "make tiles",
            "sort tiles",
            "render strips",
            "push",
            "flatten fill",
            "make tiles",
            "sort tiles",
            "render strips",
            "generate",
            "pop",
        ]
    );
    match &ctx.stages[5] {
        Stage::FlattenFill { outline: Outline::Path(path), transform: Transform::Identity } => {
            assert_eq!(*path, line(9.0));
        }
        _ => panic!("not the clip path"),
    }
    assert!(matches!(
        ctx.stages[9],
        Stage::PushLayer {
            clip: Some(FillRule::NonZero),
            mask: None,
            opacity: Opacity { bits: OPAQUE_BITS },
        }
    ));
    assert!(matches!(ctx.stages[14], Stage::Generate { paint: Paint::Indexed(1), .. }));
    assert!(matches!(ctx.encoded_paints[1], EncodedPaint::Shading(6)));
    assert!(!ctx.has_layers());
    assert_eq!(ctx.paint_clip_path, Some(line(9.0)));

    ctx.stroke_path(&line(2.0), PaintType::Solid("red"), None);
    assert!(ctx.paint_clip_path.is_none());
}

#[test]
fn an_unclipped_shading_needs_no_layer() {
    let mut ctx = Context::new(3, 4, None);
    ctx.fill_path(
        &line(2.0),
        PaintType::ShadingPattern { shading: 6, clip_path: None },
        None,
    );
    assert_eq!(ctx.stages.len(), 5);
    assert!(matches!(ctx.encoded_paints[0], EncodedPaint::Shading(6)));
}

#[test]
fn a_layer_is_opened_and_closed() {
    let mut ctx = Context::new(3, 4, None);
    ctx.push_layer(None, Some(Opacity { bits: 0.5f32.to_bits() }), Some(mask(3, 4)));
    assert!(ctx.has_layers());
    match &ctx.stages[0] {
        Stage::PushLayer { clip: None, mask: Some(mask), opacity } => {
            assert_eq!((mask.width, mask.height), (3, 4));
            assert_eq!(f32::from_bits(opacity.bits), 0.5);
        }
        _ => panic!("not a masked layer"),
    }
    ctx.push_layer(Some(&line(1.0)), None, None);
    assert_eq!(ctx.layers, 2);
    ctx.pop_layer();
    ctx.pop_layer();
    assert!(!ctx.has_layers());
    assert_eq!(f32::from_bits(OPAQUE_BITS), 1.0);
}

#[test]
fn a_mask_of_another_size_is_ignored() {
    for (width, height) in [(2, 4), (3, 5), (4, 3)] {
        let mut ctx = Context::new(3, 4, None);
        ctx.push_layer(None, None, Some(mask(width, height)));
        assert!(matches!(ctx.stages[0], Stage::PushLayer { mask: None, .. }));
    }
}

#[test]
fn settings_replace_each_other() {
    let mut ctx = Context::new(3, 4, None);
    ctx.set_anti_aliasing(false);
    ctx.set_anti_aliasing(true);
    assert!(ctx.anti_aliasing);
    ctx.set_fill_rule(FillRule::EvenOdd);
    ctx.set_fill_rule(FillRule::NonZero);
    assert_eq!(ctx.fill_rule, FillRule::NonZero);
    ctx.set_transform(Affine::scale(2.0));
    ctx.set_transform(Affine::scale(3.0));
    match ctx.transform {
        Transform::Affine(t) => assert_eq!(t, Affine::scale(3.0)),
        Transform::Identity => panic!("no transform"),
    }
}

#[test]
fn layers_ignore_the_transform() {
    let mut ctx = Context::new(3, 4, None);
    ctx.set_transform(Affine::scale(2.0));
    ctx.push_layer(Some(&line(7.0)), None, Some(mask(3, 4)));
    match &ctx.stages[0] {
        Stage::FlattenFill { outline: Outline::Path(path), transform: Transform::Identity } => {
            assert_eq!(*path, line(7.0));
        }
        _ => panic!("not the clip path as it is"),
    }
    assert!(matches!(ctx.stages[4], Stage::PushLayer { mask: Some(_), .. }));
}

#[test]
fn an_earlier_clip_path_does_not_survive() {
    let mut ctx = Context::new(3, 4, None);
    for paint in [PaintType::Solid("red"), PaintType::Image(1)] {
        let shading = PaintType::ShadingPattern { shading: 6, clip_path: Some(line(9.0)) };
        ctx.fill_path(&line(2.0), shading, None);
        assert_eq!(ctx.paint_clip_path, Some(line(9.0)));
        let steps = ctx.stages.len();
        ctx.fill_path(&line(2.0), paint, None);
        assert!(ctx.paint_clip_path.is_none());
        assert_eq!(ctx.stages.len(), steps + 5);
    }
}

#[test]
fn filling_a_rectangle_is_filling_its_path() {
    let rect = Rect::new(0.0, 1.0, 2.0, 3.0);
    for clip_path in [None, Some(line(9.0))] {
        let mut filled = Context::new(3, 4, None);
        let mut drawn = Context::new(3, 4, None);
        for ctx in [&mut filled, &mut drawn] {
            ctx.set_fill_rule(FillRule::EvenOdd);
            ctx.set_transform(Affine::scale(2.0));
        }
        let at = if clip_path.is_some() { 5 } else { 0 };
        let shading = PaintType::ShadingPattern { shading: 6, clip_path: clip_path.clone() };
        filled.fill_rect(&rect, shading, None);
        let shading = PaintType::ShadingPattern { shading: 6, clip_path };
        drawn.fill_path(&line(5.0), shading, None);
        assert_eq!(names(&filled), names(&drawn));
        assert_eq!(filled.paint_clip_path, drawn.paint_clip_path);
        assert_eq!(filled.encoded_paints.len(), drawn.encoded_paints.len());
        assert!(!filled.has_layers());
        match (&filled.stages[at], &drawn.stages[at]) {
            (
                Stage::FlattenFill { outline: Outline::Rect(r), transform: Transform::Affine(a) },
                Stage::FlattenFill { outline: Outline::Path(p), transform: Transform::Affine(b) },
            ) => {
                assert_eq!(*r, rect);
                assert_eq!(*p, line(5.0));
                assert_eq!(a, b);
            }
            _ => panic!("not flattened alike"),
        }
        assert!(matches!(
            filled.stages[at + 4],
            Stage::Generate { fill_rule: FillRule::EvenOdd, .. }
        ));
    }
}

#[test]
fn encoding_a_paint_replaces_the_clip_path() {
    let mut ctx = Context::new(3, 4, None);
    let shading = PaintType::ShadingPattern { shading: 6, clip_path: Some(line(9.0)) };
    assert!(matches!(ctx.encode_paint(shading), Paint::Indexed(0)));
    assert_eq!(ctx.paint_clip_path, Some(line(9.0)));
    assert!(matches!(ctx.encode_paint(PaintType::Solid("red")), Paint::Solid("red")));
    assert!(ctx.paint_clip_path.is_none());
    assert!(matches!(ctx.encode_paint(PaintType::Image(4)), Paint::Indexed(1)));
    assert_eq!(ctx.encoded_paints.len(), 2);
    assert!(ctx.stages.is_empty());
}
