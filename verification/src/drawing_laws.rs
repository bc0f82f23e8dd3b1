use crate::context::{
    EncodedPaint, FillRule, LineCap, LineJoin, Mask, Opacity, Outline, Paint, PaintType,
    RenderContext, Stage, StrokeStyle, Transform,
};
use kurbo::{Affine, BezPath, Rect, Stroke};
use vstd::prelude::*;

verus! {

/// A path is filled by the fill rule and under the transform of the context: five steps turn it
/// into drawing commands. Nothing else of the context changes but that a paint that is no color is
/// encoded.
pub proof fn law_fill_path_draws_in_five_steps<C, I, S>(
    ctx: &mut RenderContext<C, I, S>,
    n: int,
    path: BezPath,
    paint_type: PaintType<C, I, S>,
    mask: Option<Mask>,
)
    requires
        call_ensures(RenderContext::<C, I, S>::fill_path, (ctx, &path, paint_type, mask), ()),
        old(ctx).wf(),
        n == old(ctx).stages@.len(),
        paint_type matches PaintType::ShadingPattern { clip_path, .. } ==> clip_path is None,
    ensures
        final(ctx).stages@.len() == n + 5,
        final(ctx).stages@[n] == (Stage::<C>::FlattenFill {
            outline: Outline::Path(path),
            transform: old(ctx).transform,
        }),
        final(ctx).stages@[n + 1] == (Stage::<C>::MakeTiles {
            width: old(ctx).width,
            height: old(ctx).height,
        }),
        final(ctx).stages@[n + 2] is SortTiles,
        final(ctx).stages@[n + 3] == (Stage::<C>::RenderStrips {
            fill_rule: old(ctx).fill_rule,
            anti_aliasing: old(ctx).anti_aliasing,
        }),
        final(ctx).stages@[n + 4] matches Stage::Generate { fill_rule, paint, mask: m } && {
            &&& fill_rule == old(ctx).fill_rule
            &&& m == mask
            &&& match paint_type {
                PaintType::Solid(color) => paint == Paint::Solid(color),
                _ => paint matches Paint::Indexed(i) && i == old(ctx).encoded_paints@.len(),
            }
        },
        final(ctx).stages@.subrange(0, n) == old(ctx).stages@,
        final(ctx).encoded_paints@ == (match paint_type {
            PaintType::Solid(_) => old(ctx).encoded_paints@,
            PaintType::Image(image) => old(ctx).encoded_paints@.push(EncodedPaint::Image(image)),
            PaintType::ShadingPattern { shading, .. } => old(ctx).encoded_paints@.push(
                EncodedPaint::Shading(shading),
            ),
        }),
        final(ctx).paint_clip_path == None::<BezPath>,
        final(ctx).width == old(ctx).width,
        final(ctx).height == old(ctx).height,
        final(ctx).layers == old(ctx).layers,
        final(ctx).stroke == old(ctx).stroke,
        final(ctx).transform == old(ctx).transform,
        final(ctx).fill_rule == old(ctx).fill_rule,
        final(ctx).anti_aliasing == old(ctx).anti_aliasing,
        final(ctx).thread_limit == old(ctx).thread_limit,
{
    assert(old(ctx).encoded_paints.len() == old(ctx).encoded_paints@.len());
    assert(final(ctx).stages@.subrange(0, n) =~= old(ctx).stages@);
}

/// A path is filled by the fill rule and under the transform of the context, with a shading that is
/// clipped, in a layer of its own: it is opened, clipped to the shading's path as it is by the fill
/// rule of the context, fully opaque and without a mask, and it is closed again.
pub proof fn law_fill_path_with_a_clipped_shading<C, I, S>(
    ctx: &mut RenderContext<C, I, S>,
    n: int,
    path: BezPath,
    paint_type: PaintType<C, I, S>,
    clip: BezPath,
    mask: Option<Mask>,
)
    requires
        call_ensures(RenderContext::<C, I, S>::fill_path, (ctx, &path, paint_type, mask), ()),
        old(ctx).wf(),
        n == old(ctx).stages@.len(),
        paint_type matches PaintType::ShadingPattern { clip_path, .. } && clip_path == Some(clip),
    ensures
        final(ctx).stages@.len() == n + 11,
        final(ctx).stages@[n + 5] == (Stage::<C>::FlattenFill {
            outline: Outline::Path(path),
            transform: old(ctx).transform,
        }),
        final(ctx).stages@[n + 5 + 1] == (Stage::<C>::MakeTiles {
            width: old(ctx).width,
            height: old(ctx).height,
        }),
        final(ctx).stages@[n + 5 + 2] is SortTiles,
        final(ctx).stages@[n + 5 + 3] == (Stage::<C>::RenderStrips {
            fill_rule: old(ctx).fill_rule,
            anti_aliasing: old(ctx).anti_aliasing,
        }),
        final(ctx).stages@[n + 5 + 4] matches Stage::Generate { fill_rule, paint, mask: m } && {
            &&& fill_rule == old(ctx).fill_rule
            &&& m == mask
            &&& match paint_type {
                PaintType::Solid(color) => paint == Paint::Solid(color),
                _ => paint matches Paint::Indexed(i) && i == old(ctx).encoded_paints@.len(),
            }
        },
        final(ctx).stages@[n] == (Stage::<C>::FlattenFill {
            outline: Outline::Path(clip),
            transform: Transform::Identity,
        }),
        final(ctx).stages@[n + 1] == (Stage::<C>::MakeTiles {
            width: old(ctx).width,
            height: old(ctx).height,
        }),
        final(ctx).stages@[n + 2] is SortTiles,
        final(ctx).stages@[n + 3] == (Stage::<C>::RenderStrips {
            fill_rule: old(ctx).fill_rule,
            anti_aliasing: old(ctx).anti_aliasing,
        }),
        final(ctx).stages@[n + 4] matches Stage::PushLayer { clip: rule, mask: m, opacity } && {
            &&& rule == Some(old(ctx).fill_rule)
            &&& m is None
            &&& opacity.bits == 0x3f80_0000
        },
        final(ctx).stages@[n + 10] is PopLayer,
        final(ctx).stages@.subrange(0, n) == old(ctx).stages@,
        final(ctx).encoded_paints@ == (match paint_type {
            PaintType::Solid(_) => old(ctx).encoded_paints@,
            PaintType::Image(image) => old(ctx).encoded_paints@.push(EncodedPaint::Image(image)),
            PaintType::ShadingPattern { shading, .. } => old(ctx).encoded_paints@.push(
                EncodedPaint::Shading(shading),
            ),
        }),
        final(ctx).paint_clip_path == Some(clip),
        final(ctx).width == old(ctx).width,
        final(ctx).height == old(ctx).height,
        final(ctx).layers == old(ctx).layers,
        final(ctx).stroke == old(ctx).stroke,
        final(ctx).transform == old(ctx).transform,
        final(ctx).fill_rule == old(ctx).fill_rule,
        final(ctx).anti_aliasing == old(ctx).anti_aliasing,
        final(ctx).thread_limit == old(ctx).thread_limit,
{
    assert(old(ctx).encoded_paints.len() == old(ctx).encoded_paints@.len());
    assert(final(ctx).stages@.subrange(0, n) =~= old(ctx).stages@);
}

/// A path is stroked with the stroke and under the transform of the context, by the nonzero rule:
/// five steps turn it into drawing commands. Nothing else of the context changes but that a paint
/// that is no color is encoded.
pub proof fn law_stroke_path_draws_in_five_steps<C, I, S>(
    ctx: &mut RenderContext<C, I, S>,
    n: int,
    path: BezPath,
    paint_type: PaintType<C, I, S>,
    mask: Option<Mask>,
)
    requires
        call_ensures(RenderContext::<C, I, S>::stroke_path, (ctx, &path, paint_type, mask), ()),
        old(ctx).wf(),
        n == old(ctx).stages@.len(),
        paint_type matches PaintType::ShadingPattern { clip_path, .. } ==> clip_path is None,
    ensures
        final(ctx).stages@.len() == n + 5,
        final(ctx).stages@[n] == (Stage::<C>::FlattenStroke {
            path,
            stroke: old(ctx).stroke,
            transform: old(ctx).transform,
        }),
        final(ctx).stages@[n + 1] == (Stage::<C>::MakeTiles {
            width: old(ctx).width,
            height: old(ctx).height,
        }),
        final(ctx).stages@[n + 2] is SortTiles,
        final(ctx).stages@[n + 3] == (Stage::<C>::RenderStrips {
            fill_rule: FillRule::NonZero,
            anti_aliasing: old(ctx).anti_aliasing,
        }),
        final(ctx).stages@[n + 4] matches Stage::Generate { fill_rule, paint, mask: m } && {
            &&& fill_rule == FillRule::NonZero
            &&& m == mask
            &&& match paint_type {
                PaintType::Solid(color) => paint == Paint::Solid(color),
                _ => paint matches Paint::Indexed(i) && i == old(ctx).encoded_paints@.len(),
            }
        },
        final(ctx).stages@.subrange(0, n) == old(ctx).stages@,
        final(ctx).encoded_paints@ == (match paint_type {
            PaintType::Solid(_) => old(ctx).encoded_paints@,
            PaintType::Image(image) => old(ctx).encoded_paints@.push(EncodedPaint::Image(image)),
            PaintType::ShadingPattern { shading, .. } => old(ctx).encoded_paints@.push(
                EncodedPaint::Shading(shading),
            ),
        }),
        final(ctx).paint_clip_path == None::<BezPath>,
        final(ctx).width == old(ctx).width,
        final(ctx).height == old(ctx).height,
        final(ctx).layers == old(ctx).layers,
        final(ctx).stroke == old(ctx).stroke,
        final(ctx).transform == old(ctx).transform,
        final(ctx).fill_rule == old(ctx).fill_rule,
        final(ctx).anti_aliasing == old(ctx).anti_aliasing,
        final(ctx).thread_limit == old(ctx).thread_limit,
{
    assert(old(ctx).encoded_paints.len() == old(ctx).encoded_paints@.len());
    assert(final(ctx).stages@.subrange(0, n) =~= old(ctx).stages@);
}

/// A path is stroked with the stroke and under the transform of the context, by the nonzero rule,
/// with a shading that is clipped, in a layer of its own: it is opened, clipped to the shading's
/// path as it is by the fill rule of the context, fully opaque and without a mask, and it is closed
/// again.
pub proof fn law_stroke_path_with_a_clipped_shading<C, I, S>(
    ctx: &mut RenderContext<C, I, S>,
    n: int,
    path: BezPath,
    paint_type: PaintType<C, I, S>,
    clip: BezPath,
    mask: Option<Mask>,
)
    requires
        call_ensures(RenderContext::<C, I, S>::stroke_path, (ctx, &path, paint_type, mask), ()),
        old(ctx).wf(),
        n == old(ctx).stages@.len(),
        paint_type matches PaintType::ShadingPattern { clip_path, .. } && clip_path == Some(clip),
    ensures
        final(ctx).stages@.len() == n + 11,
        final(ctx).stages@[n + 5] == (Stage::<C>::FlattenStroke {
            path,
            stroke: old(ctx).stroke,
            transform: old(ctx).transform,
        }),
        final(ctx).stages@[n + 5 + 1] == (Stage::<C>::MakeTiles {
            width: old(ctx).width,
            height: old(ctx).height,
        }),
        final(ctx).stages@[n + 5 + 2] is SortTiles,
        final(ctx).stages@[n + 5 + 3] == (Stage::<C>::RenderStrips {
            fill_rule: FillRule::NonZero,
            anti_aliasing: old(ctx).anti_aliasing,
        }),
        final(ctx).stages@[n + 5 + 4] matches Stage::Generate { fill_rule, paint, mask: m } && {
            &&& fill_rule == FillRule::NonZero
            &&& m == mask
            &&& match paint_type {
                PaintType::Solid(color) => paint == Paint::Solid(color),
                _ => paint matches Paint::Indexed(i) && i == old(ctx).encoded_paints@.len(),
            }
        },
        final(ctx).stages@[n] == (Stage::<C>::FlattenFill {
            outline: Outline::Path(clip),
            transform: Transform::Identity,
        }),
        final(ctx).stages@[n + 1] == (Stage::<C>::MakeTiles {
            width: old(ctx).width,
            height: old(ctx).height,
        }),
        final(ctx).stages@[n + 2] is SortTiles,
        final(ctx).stages@[n + 3] == (Stage::<C>::RenderStrips {
            fill_rule: old(ctx).fill_rule,
            anti_aliasing: old(ctx).anti_aliasing,
        }),
        final(ctx).stages@[n + 4] matches Stage::PushLayer { clip: rule, mask: m, opacity } && {
            &&& rule == Some(old(ctx).fill_rule)
            &&& m is None
            &&& opacity.bits == 0x3f80_0000
        },
        final(ctx).stages@[n + 10] is PopLayer,
        final(ctx).stages@.subrange(0, n) == old(ctx).stages@,
        final(ctx).encoded_paints@ == (match paint_type {
            PaintType::Solid(_) => old(ctx).encoded_paints@,
            PaintType::Image(image) => old(ctx).encoded_paints@.push(EncodedPaint::Image(image)),
            PaintType::ShadingPattern { shading, .. } => old(ctx).encoded_paints@.push(
                EncodedPaint::Shading(shading),
            ),
        }),
        final(ctx).paint_clip_path == Some(clip),
        final(ctx).width == old(ctx).width,
        final(ctx).height == old(ctx).height,
        final(ctx).layers == old(ctx).layers,
        final(ctx).stroke == old(ctx).stroke,
        final(ctx).transform == old(ctx).transform,
        final(ctx).fill_rule == old(ctx).fill_rule,
        final(ctx).anti_aliasing == old(ctx).anti_aliasing,
        final(ctx).thread_limit == old(ctx).thread_limit,
{
    assert(old(ctx).encoded_paints.len() == old(ctx).encoded_paints@.len());
    assert(final(ctx).stages@.subrange(0, n) =~= old(ctx).stages@);
}

/// A rectangle is filled by the fill rule and under the transform of the context: five steps turn
/// it into drawing commands. Nothing else of the context changes but that a paint that is no color
/// is encoded.
pub proof fn law_fill_rect_draws_in_five_steps<C, I, S>(
    ctx: &mut RenderContext<C, I, S>,
    n: int,
    rect: Rect,
    paint_type: PaintType<C, I, S>,
    mask: Option<Mask>,
)
    requires
        call_ensures(RenderContext::<C, I, S>::fill_rect, (ctx, &rect, paint_type, mask), ()),
        old(ctx).wf(),
        n == old(ctx).stages@.len(),
        paint_type matches PaintType::ShadingPattern { clip_path, .. } ==> clip_path is None,
    ensures
        final(ctx).stages@.len() == n + 5,
        final(ctx).stages@[n] == (Stage::<C>::FlattenFill {
            outline: Outline::Rect(rect),
            transform: old(ctx).transform,
        }),
        final(ctx).stages@[n + 1] == (Stage::<C>::MakeTiles {
            width: old(ctx).width,
            height: old(ctx).height,
        }),
        final(ctx).stages@[n + 2] is SortTiles,
        final(ctx).stages@[n + 3] == (Stage::<C>::RenderStrips {
            fill_rule: old(ctx).fill_rule,
            anti_aliasing: old(ctx).anti_aliasing,
        }),
        final(ctx).stages@[n + 4] matches Stage::Generate { fill_rule, paint, mask: m } && {
            &&& fill_rule == old(ctx).fill_rule
            &&& m == mask
            &&& match paint_type {
                PaintType::Solid(color) => paint == Paint::Solid(color),
                _ => paint matches Paint::Indexed(i) && i == old(ctx).encoded_paints@.len(),
            }
        },
        final(ctx).stages@.subrange(0, n) == old(ctx).stages@,
        final(ctx).encoded_paints@ == (match paint_type {
            PaintType::Solid(_) => old(ctx).encoded_paints@,
            PaintType::Image(image) => old(ctx).encoded_paints@.push(EncodedPaint::Image(image)),
            PaintType::ShadingPattern { shading, .. } => old(ctx).encoded_paints@.push(
                EncodedPaint::Shading(shading),
            ),
        }),
        final(ctx).paint_clip_path == None::<BezPath>,
        final(ctx).width == old(ctx).width,
        final(ctx).height == old(ctx).height,
        final(ctx).layers == old(ctx).layers,
        final(ctx).stroke == old(ctx).stroke,
        final(ctx).transform == old(ctx).transform,
        final(ctx).fill_rule == old(ctx).fill_rule,
        final(ctx).anti_aliasing == old(ctx).anti_aliasing,
        final(ctx).thread_limit == old(ctx).thread_limit,
{
    assert(old(ctx).encoded_paints.len() == old(ctx).encoded_paints@.len());
    assert(final(ctx).stages@.subrange(0, n) =~= old(ctx).stages@);
}

/// A rectangle is filled by the fill rule and under the transform of the context, with a shading
/// that is clipped, in a layer of its own: it is opened, clipped to the shading's path as it is by
/// the fill rule of the context, fully opaque and without a mask, and it is closed again.
pub proof fn law_fill_rect_with_a_clipped_shading<C, I, S>(
    ctx: &mut RenderContext<C, I, S>,
    n: int,
    rect: Rect,
    paint_type: PaintType<C, I, S>,
    clip: BezPath,
    mask: Option<Mask>,
)
    requires
        call_ensures(RenderContext::<C, I, S>::fill_rect, (ctx, &rect, paint_type, mask), ()),
        old(ctx).wf(),
        n == old(ctx).stages@.len(),
        paint_type matches PaintType::ShadingPattern { clip_path, .. } && clip_path == Some(clip),
    ensures
        final(ctx).stages@.len() == n + 11,
        final(ctx).stages@[n + 5] == (Stage::<C>::FlattenFill {
            outline: Outline::Rect(rect),
            transform: old(ctx).transform,
        }),
        final(ctx).stages@[n + 5 + 1] == (Stage::<C>::MakeTiles {
            width: old(ctx).width,
            height: old(ctx).height,
        }),
        final(ctx).stages@[n + 5 + 2] is SortTiles,
        final(ctx).stages@[n + 5 + 3] == (Stage::<C>::RenderStrips {
            fill_rule: old(ctx).fill_rule,
            anti_aliasing: old(ctx).anti_aliasing,
        }),
        final(ctx).stages@[n + 5 + 4] matches Stage::Generate { fill_rule, paint, mask: m } && {
            &&& fill_rule == old(ctx).fill_rule
            &&& m == mask
            &&& match paint_type {
                PaintType::Solid(color) => paint == Paint::Solid(color),
                _ => paint matches Paint::Indexed(i) && i == old(ctx).encoded_paints@.len(),
            }
        },
        final(ctx).stages@[n] == (Stage::<C>::FlattenFill {
            outline: Outline::Path(clip),
            transform: Transform::Identity,
        }),
        final(ctx).stages@[n + 1] == (Stage::<C>::MakeTiles {
            width: old(ctx).width,
            height: old(ctx).height,
        }),
        final(ctx).stages@[n + 2] is SortTiles,
        final(ctx).stages@[n + 3] == (Stage::<C>::RenderStrips {
            fill_rule: old(ctx).fill_rule,
            anti_aliasing: old(ctx).anti_aliasing,
        }),
        final(ctx).stages@[n + 4] matches Stage::PushLayer { clip: rule, mask: m, opacity } && {
            &&& rule == Some(old(ctx).fill_rule)
            &&& m is None
            &&& opacity.bits == 0x3f80_0000
        },
        final(ctx).stages@[n + 10] is PopLayer,
        final(ctx).stages@.subrange(0, n) == old(ctx).stages@,
        final(ctx).encoded_paints@ == (match paint_type {
            PaintType::Solid(_) => old(ctx).encoded_paints@,
            PaintType::Image(image) => old(ctx).encoded_paints@.push(EncodedPaint::Image(image)),
            PaintType::ShadingPattern { shading, .. } => old(ctx).encoded_paints@.push(
                EncodedPaint::Shading(shading),
            ),
        }),
        final(ctx).paint_clip_path == Some(clip),
        final(ctx).width == old(ctx).width,
        final(ctx).height == old(ctx).height,
        final(ctx).layers == old(ctx).layers,
        final(ctx).stroke == old(ctx).stroke,
        final(ctx).transform == old(ctx).transform,
        final(ctx).fill_rule == old(ctx).fill_rule,
        final(ctx).anti_aliasing == old(ctx).anti_aliasing,
        final(ctx).thread_limit == old(ctx).thread_limit,
{
    assert(old(ctx).encoded_paints.len() == old(ctx).encoded_paints@.len());
    assert(final(ctx).stages@.subrange(0, n) =~= old(ctx).stages@);
}

/// A layer that is clipped is clipped by the fill rule that is set, to the path as it is: the last
/// step opens the layer by that rule, and the step before it renders the path to strips by that
/// rule. Its opacity is the one given, or else it is opaque, and its mask is the one given if it
/// has the size of the context.
pub proof fn law_layer_is_clipped_by_the_fill_rule<C, I, S>(
    set: &mut RenderContext<C, I, S>,
    ctx: &mut RenderContext<C, I, S>,
    rule: FillRule,
    path: BezPath,
    opacity: Option<Opacity>,
    mask: Option<Mask>,
)
    requires
        call_ensures(RenderContext::<C, I, S>::set_fill_rule, (set, rule), ()),
        *old(ctx) == *final(set),
        old(ctx).wf(),
        call_ensures(RenderContext::<C, I, S>::push_layer, (ctx, Some(&path), opacity, mask), ()),
    ensures
        final(ctx).stages@.len() == old(set).stages@.len() + 5,
        final(ctx).stages@.last() matches Stage::PushLayer { clip, mask: m, opacity: o } && {
            &&& clip == Some(rule)
            &&& m == (match mask {
                Some(given) if given.width == old(set).width && given.height
                    == old(set).height => Some(given),
                _ => None,
            })
            &&& opacity matches Some(given) ==> o == given
            &&& opacity is None ==> o.bits == 0x3f80_0000
        },
        final(ctx).stages@[final(ctx).stages@.len() - 2] == (Stage::<C>::RenderStrips {
            fill_rule: rule,
            anti_aliasing: old(set).anti_aliasing,
        }),
        final(ctx).stages@[final(ctx).stages@.len() - 3] is SortTiles,
        final(ctx).stages@[final(ctx).stages@.len() - 4] == (Stage::<C>::MakeTiles {
            width: old(set).width,
            height: old(set).height,
        }),
        final(ctx).stages@[final(ctx).stages@.len() - 5] == (Stage::<C>::FlattenFill {
            outline: Outline::Path(path),
            transform: Transform::Identity,
        }),
        final(ctx).stages@.subrange(0, old(set).stages@.len() as int) == old(set).stages@,
        final(ctx).layers == old(set).layers + 1,
        final(ctx).fill_rule == rule,
        final(ctx).transform == old(set).transform,
        final(ctx).stroke == old(set).stroke,
        final(ctx).width == old(set).width,
        final(ctx).height == old(set).height,
        final(ctx).anti_aliasing == old(set).anti_aliasing,
        final(ctx).thread_limit == old(set).thread_limit,
        final(ctx).paint_clip_path == old(set).paint_clip_path,
        final(ctx).encoded_paints@ == old(set).encoded_paints@,
{
    let pushed = old(ctx).push_stages(Some(path), opacity, mask);
    assert(pushed.len() == 5);
    old(ctx).lemma_push_depth(Some(path), opacity, mask);
    crate::context::lemma_layer_depth_concat(old(ctx).stages@, pushed);
    assert(final(ctx).stages@.subrange(0, old(ctx).stages@.len() as int) =~= old(ctx).stages@);
}

/// A layer without a clip path is opened in one step, with its opacity or else opaque, and with
/// its mask if that has the size of the context.
pub proof fn law_layer_without_a_clip_path<C, I, S>(
    ctx: &mut RenderContext<C, I, S>,
    opacity: Option<Opacity>,
    mask: Option<Mask>,
)
    requires
        call_ensures(RenderContext::<C, I, S>::push_layer, (ctx, None, opacity, mask), ()),
        old(ctx).wf(),
    ensures
        final(ctx).stages@.len() == old(ctx).stages@.len() + 1,
        final(ctx).stages@.last() matches Stage::PushLayer { clip, mask: m, opacity: o } && {
            &&& clip is None
            &&& m == (match mask {
                Some(given) if given.width == old(ctx).width && given.height
                    == old(ctx).height => Some(given),
                _ => None,
            })
            &&& opacity matches Some(given) ==> o == given
            &&& opacity is None ==> o.bits == 0x3f80_0000
        },
        final(ctx).stages@.drop_last() == old(ctx).stages@,
        final(ctx).layers == old(ctx).layers + 1,
        *final(ctx) == (RenderContext {
            stages: final(ctx).stages,
            layers: final(ctx).layers,
            encoded_paints: final(ctx).encoded_paints,
            ..*old(ctx)
        }),
        final(ctx).encoded_paints@ == old(ctx).encoded_paints@,
{
    let pushed = old(ctx).push_stages(None, opacity, mask);
    old(ctx).lemma_push_depth(None, opacity, mask);
    crate::context::lemma_layer_depth_concat(old(ctx).stages@, pushed);
    assert(final(ctx).stages@.drop_last() =~= old(ctx).stages@);
}

/// Closing a layer adds one step, and one layer fewer is open.
pub proof fn law_layer_is_closed_in_one_step<C, I, S>(ctx: &mut RenderContext<C, I, S>)
    requires
        call_ensures(RenderContext::<C, I, S>::pop_layer, (ctx,), ()),
        old(ctx).wf(),
    ensures
        final(ctx).stages@ == old(ctx).stages@.push(Stage::PopLayer),
        final(ctx).layers == old(ctx).layers - 1,
        *final(ctx) == (RenderContext {
            stages: final(ctx).stages,
            layers: final(ctx).layers,
            encoded_paints: final(ctx).encoded_paints,
            ..*old(ctx)
        }),
        final(ctx).encoded_paints@ == old(ctx).encoded_paints@,
{
    crate::context::lemma_layer_depth_push(old(ctx).stages@, Stage::PopLayer);
    assert(final(ctx).stages@ =~= old(ctx).stages@.push(Stage::PopLayer));
}

/// A context has layers exactly while more have been opened than closed: one step more opens one,
/// closes one, or leaves them as they are.
pub proof fn law_layers_are_counted<C, I, S>(
    ctx: &RenderContext<C, I, S>,
    b: bool,
    stages: Seq<Stage<C>>,
    stage: Stage<C>,
)
    requires
        call_ensures(RenderContext::<C, I, S>::has_layers, (ctx,), b),
        ctx.wf(),
    ensures
        b <==> ctx.layers > 0,
        ctx.stages@.len() == 0 ==> !b,
        crate::context::layer_depth(Seq::<Stage<C>>::empty()) == 0,
        crate::context::layer_depth(stages.push(stage)) - crate::context::layer_depth(stages) == (
        match stage {
            Stage::PushLayer { .. } => 1int,
            Stage::PopLayer => -1int,
            _ => 0int,
        }),
{
    crate::context::lemma_layer_depth_push(stages, stage);
}

/// Encoding a paint gives the paint back: a color as it is, and an image or a shading by the
/// position at which it is then found, behind all earlier paints. The clip path is the shading's,
/// or none.
pub proof fn law_encoded_paint_is_found_again<C, I, S>(
    ctx: &mut RenderContext<C, I, S>,
    paint_type: PaintType<C, I, S>,
    paint: Paint<C>,
)
    requires
        call_ensures(RenderContext::<C, I, S>::encode_paint, (ctx, paint_type), paint),
    ensures
        match paint_type {
            PaintType::Solid(color) => {
                &&& paint == Paint::Solid(color)
                &&& final(ctx).encoded_paints@ == old(ctx).encoded_paints@
                &&& final(ctx).paint_clip_path is None
            },
            PaintType::Image(image) => {
                &&& paint matches Paint::Indexed(i) && i == old(ctx).encoded_paints@.len()
                    && final(ctx).encoded_paints@[i as int] == EncodedPaint::<I, S>::Image(image)
                &&& final(ctx).encoded_paints@.drop_last() == old(ctx).encoded_paints@
                &&& final(ctx).paint_clip_path is None
            },
            PaintType::ShadingPattern { shading, clip_path } => {
                &&& paint matches Paint::Indexed(i) && i == old(ctx).encoded_paints@.len()
                    && final(ctx).encoded_paints@[i as int] == EncodedPaint::<I, S>::Shading(
                    shading,
                )
                &&& final(ctx).encoded_paints@.drop_last() == old(ctx).encoded_paints@
                &&& final(ctx).paint_clip_path == clip_path
            },
        },
        final(ctx).stages@ == old(ctx).stages@,
        final(ctx).fill_rule == old(ctx).fill_rule,
        final(ctx).transform == old(ctx).transform,
        final(ctx).stroke == old(ctx).stroke,
        final(ctx).width == old(ctx).width,
        final(ctx).height == old(ctx).height,
        final(ctx).anti_aliasing == old(ctx).anti_aliasing,
        final(ctx).thread_limit == old(ctx).thread_limit,
{
    assert(old(ctx).encoded_paints.len() == old(ctx).encoded_paints@.len());
    if !(paint_type is Solid) {
        assert(final(ctx).encoded_paints@.drop_last() =~= old(ctx).encoded_paints@);
    }
}

/// A new context has the size that was asked for and draws nothing yet. It fills by the nonzero
/// rule, without a transform, with anti-aliasing, and strokes a pixel wide with bevelled joins and
/// butt caps. Its limit on the number of threads is the one given, unless that is zero.
pub proof fn law_new_context<C, I, S>(
    width: u16,
    height: u16,
    thread_limit: Option<usize>,
    ctx: RenderContext<C, I, S>,
    limit: Option<usize>,
)
    requires
        call_ensures(RenderContext::<C, I, S>::new, (width, height, thread_limit), ctx),
        call_ensures(RenderContext::<C, I, S>::thread_limit, (&ctx,), limit),
    ensures
        ctx.width == width,
        ctx.height == height,
        ctx.stages@.len() == 0,
        ctx.encoded_paints@.len() == 0,
        ctx.layers == 0,
        ctx.paint_clip_path is None,
        ctx.fill_rule == FillRule::NonZero,
        ctx.transform is Identity,
        ctx.anti_aliasing,
        ctx.stroke matches StrokeStyle::Plain { width: 1, join, start_cap, end_cap } && join
            == LineJoin::Bevel && start_cap == LineCap::Butt && end_cap == LineCap::Butt,
        limit is Some <==> (thread_limit matches Some(n) && n > 0),
        limit is Some ==> limit == thread_limit,
{
}

/// Setting a rule, a stroke, a transform or anti-aliasing sets that and nothing else.
pub proof fn law_settings_are_independent<C, I, S>(
    a: &mut RenderContext<C, I, S>,
    rule: FillRule,
    b: &mut RenderContext<C, I, S>,
    stroke: Stroke,
    c: &mut RenderContext<C, I, S>,
    transform: Affine,
    d: &mut RenderContext<C, I, S>,
    val: bool,
)
    requires
        call_ensures(RenderContext::<C, I, S>::set_fill_rule, (a, rule), ()),
        call_ensures(RenderContext::<C, I, S>::set_stroke, (b, stroke), ()),
        call_ensures(RenderContext::<C, I, S>::set_transform, (c, transform), ()),
        call_ensures(RenderContext::<C, I, S>::set_anti_aliasing, (d, val), ()),
    ensures
        final(a).fill_rule == rule,
        *final(a) == (RenderContext { fill_rule: final(a).fill_rule, ..*old(a) }),
        final(b).stroke == StrokeStyle::Custom(stroke),
        *final(b) == (RenderContext { stroke: final(b).stroke, ..*old(b) }),
        final(c).transform == Transform::Affine(transform),
        *final(c) == (RenderContext { transform: final(c).transform, ..*old(c) }),
        final(d).anti_aliasing == val,
        *final(d) == (RenderContext { anti_aliasing: final(d).anti_aliasing, ..*old(d) }),
{
}

/// A copy of a stroke style is the style.
pub proof fn law_copy_of_a_style(style: &StrokeStyle, copy: StrokeStyle)
    requires
        call_ensures(StrokeStyle::copy, (style,), copy),
    ensures
        copy == *style,
{
}

} // verus!
