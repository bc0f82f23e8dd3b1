use crate::fine::{Rasterizer, Scene, Wide};
use crate::tiles::{render_tiles_parallel, render_tiles_sequential};
use kurbo::{Affine, BezPath, Rect, Stroke};
use vstd::prelude::*;

verus! {

/// Which points lie inside a path.
#[derive(Clone, Copy, PartialEq, Eq, Structural, Debug)]
pub enum FillRule {
    NonZero,
    EvenOdd,
}

/// The shape of a stroke at a corner.
#[derive(Clone, Copy, PartialEq, Eq, Structural, Debug)]
pub enum LineJoin {
    Bevel,
    Miter,
    Round,
}

/// The shape of a stroke at an end.
#[derive(Clone, Copy, PartialEq, Eq, Structural, Debug)]
pub enum LineCap {
    Butt,
    Square,
    Round,
}

/// How paths are stroked.
pub enum StrokeStyle {
    /// An undashed stroke of a whole number of pixels.
    Plain { width: u32, join: LineJoin, start_cap: LineCap, end_cap: LineCap },
    /// Any other stroke.
    Custom(Stroke),
}

impl StrokeStyle {
    /// A copy of the style.
    pub fn copy(&self) -> (style: Self)
        ensures
            style == *self,
    {
        match self {
            StrokeStyle::Plain { width, join, start_cap, end_cap } => StrokeStyle::Plain {
                width: *width,
                join: *join,
                start_cap: *start_cap,
                end_cap: *end_cap,
            },
            StrokeStyle::Custom(stroke) => StrokeStyle::Custom(stroke.clone()),
        }
    }
}

/// How paths are placed.
#[derive(Clone, Copy)]
pub enum Transform {
    /// As they are.
    Identity,
    /// Under a transform.
    Affine(Affine),
}

/// What is filled.
pub enum Outline {
    Path(BezPath),
    Rect(Rect),
}

/// How opaque a layer is, as the bits of a single-precision number between zero and one.
#[derive(Clone, Copy, PartialEq, Eq, Structural, Debug)]
pub struct Opacity {
    pub bits: u32,
}

/// The bits of the single-precision number one.
pub const OPAQUE_BITS: u32 = 0x3f80_0000;

/// A mask, one byte per pixel.
pub struct Mask {
    pub width: u16,
    pub height: u16,
    pub data: Vec<u8>,
}

/// What is painted with: a color, an image, or a shading, which may be clipped.
pub enum PaintType<C, I, S> {
    Solid(C),
    Image(I),
    ShadingPattern { shading: S, clip_path: Option<BezPath> },
}

/// A paint that has to be encoded before it is used.
pub enum EncodedPaint<I, S> {
    Image(I),
    Shading(S),
}

/// A paint as the drawing commands name it.
pub enum Paint<C> {
    Solid(C),
    /// The position of the paint among the encoded paints.
    Indexed(usize),
}

/// One step of the rasterization pipeline.
pub enum Stage<C> {
    /// Flattens a filled outline into lines, in place of the lines there were.
    FlattenFill { outline: Outline, transform: Transform },
    /// Flattens a stroked path into lines, in place of the lines there were.
    FlattenStroke { path: BezPath, stroke: StrokeStyle, transform: Transform },
    /// Makes the tiles that the lines touch.
    MakeTiles { width: u16, height: u16 },
    /// Sorts the tiles.
    SortTiles,
    /// Renders the tiles to strips.
    RenderStrips { fill_rule: FillRule, anti_aliasing: bool },
    /// Turns the strips into drawing commands.
    Generate { fill_rule: FillRule, paint: Paint<C>, mask: Option<Mask> },
    /// Opens a layer, clipped to the strips if there is a rule for them.
    PushLayer { clip: Option<FillRule>, mask: Option<Mask>, opacity: Opacity },
    /// Closes the layer that was opened last.
    PopLayer,
}

/// Layers that are open after a list of steps.
pub open spec fn layer_depth<C>(stages: Seq<Stage<C>>) -> int
    decreases stages.len(),
{
    if stages.len() == 0 {
        0
    } else {
        layer_depth(stages.drop_last()) + match stages.last() {
            Stage::PushLayer { .. } => 1int,
            Stage::PopLayer => -1int,
            _ => 0int,
        }
    }
}

pub proof fn lemma_layer_depth_push<C>(stages: Seq<Stage<C>>, stage: Stage<C>)
    ensures
        layer_depth(stages.push(stage)) == layer_depth(stages) + match stage {
            Stage::PushLayer { .. } => 1int,
            Stage::PopLayer => -1int,
            _ => 0int,
        },
{
    assert(stages.push(stage).drop_last() =~= stages);
}

proof fn lemma_layer_depth_bound<C>(stages: Seq<Stage<C>>)
    ensures
        layer_depth(stages) <= stages.len(),
    decreases stages.len(),
{
    if stages.len() > 0 {
        lemma_layer_depth_bound(stages.drop_last());
    }
}

pub proof fn lemma_layer_depth_concat<C>(a: Seq<Stage<C>>, b: Seq<Stage<C>>)
    ensures
        layer_depth(a + b) == layer_depth(a) + layer_depth(b),
    decreases b.len(),
{
    if b.len() == 0 {
        assert(a + b =~= a);
    } else {
        lemma_layer_depth_concat(a, b.drop_last());
        assert((a + b).drop_last() =~= a + b.drop_last());
    }
}

/// Steps that open and close no layer leave the number of open layers as it is.
proof fn lemma_layer_depth_flat<C>(stages: Seq<Stage<C>>)
    requires
        forall|i: int|
            0 <= i < stages.len() ==> !(#[trigger] stages[i] is PushLayer) && !(
            stages[i] is PopLayer),
    ensures
        layer_depth(stages) == 0,
    decreases stages.len(),
{
    if stages.len() > 0 {
        lemma_layer_depth_flat(stages.drop_last());
    }
}

/// A render context: it turns what is to be drawn into the steps of the rasterization pipeline.
pub struct RenderContext<C, I, S> {
    pub width: u16,
    pub height: u16,
    /// The steps so far.
    pub stages: Vec<Stage<C>>,
    /// Layers that are open.
    pub layers: usize,
    pub paint_clip_path: Option<BezPath>,
    pub stroke: StrokeStyle,
    pub transform: Transform,
    pub fill_rule: FillRule,
    /// The paints that the steps name by their positions.
    pub encoded_paints: Vec<EncodedPaint<I, S>>,
    pub anti_aliasing: bool,
    pub thread_limit: Option<usize>,
}

/// Whether a mask, if there is one, has the given size.
pub open spec fn mask_has_size(mask: Option<Mask>, width: u16, height: u16) -> bool {
    match mask {
        Some(m) => m.width == width && m.height == height,
        None => true,
    }
}

/// Whether a step may stand in a context of the given size with the given number of encoded
/// paints: paints are named by positions that exist, and layers are masked by masks of the size
/// of the context.
pub open spec fn stage_ok<C>(stage: Stage<C>, width: u16, height: u16, paints: int) -> bool {
    match stage {
        Stage::Generate { paint, .. } => match paint {
            Paint::Solid(_) => true,
            Paint::Indexed(i) => i < paints,
        },
        Stage::PushLayer { mask, .. } => mask_has_size(mask, width, height),
        _ => true,
    }
}

/// A mask of the size of the context; any other mask is ignored.
pub open spec fn fitting_mask(mask: Option<Mask>, width: u16, height: u16) -> Option<Mask> {
    if mask_has_size(mask, width, height) {
        mask
    } else {
        None
    }
}

/// The paint that a paint type becomes when `paints` paints are encoded already.
pub open spec fn paint_of<C, I, S>(paint_type: PaintType<C, I, S>, paints: nat) -> Paint<C> {
    match paint_type {
        PaintType::Solid(color) => Paint::Solid(color),
        _ => Paint::Indexed(paints as usize),
    }
}

/// The encoded paints once a paint type has been encoded.
pub open spec fn paints_with<C, I, S>(
    paints: Seq<EncodedPaint<I, S>>,
    paint_type: PaintType<C, I, S>,
) -> Seq<EncodedPaint<I, S>> {
    match paint_type {
        PaintType::Solid(_) => paints,
        PaintType::Image(image) => paints.push(EncodedPaint::Image(image)),
        PaintType::ShadingPattern { shading, .. } => paints.push(EncodedPaint::Shading(shading)),
    }
}

/// The path that a paint type is clipped to.
pub open spec fn clip_of<C, I, S>(paint_type: PaintType<C, I, S>) -> Option<BezPath> {
    match paint_type {
        PaintType::ShadingPattern { clip_path, .. } => clip_path,
        _ => None,
    }
}

impl<C, I, S> RenderContext<C, I, S> {
    /// The context counts its open layers, its steps are in order, and a limit on the number of
    /// threads is positive.
    pub open spec fn wf(self) -> bool {
        &&& self.layers == layer_depth(self.stages@)
        &&& forall|i: int|
            0 <= i < self.stages@.len() ==> stage_ok(
                #[trigger] self.stages@[i],
                self.width,
                self.height,
                self.encoded_paints@.len() as int,
            )
        &&& self.thread_limit != Some(0usize)
    }

    /// Whether two contexts have the same size and settings.
    pub open spec fn same_settings(self, other: Self) -> bool {
        &&& self.width == other.width
        &&& self.height == other.height
        &&& self.stroke == other.stroke
        &&& self.transform == other.transform
        &&& self.fill_rule == other.fill_rule
        &&& self.anti_aliasing == other.anti_aliasing
        &&& self.thread_limit == other.thread_limit
    }

    /// The steps that turn lines into strips.
    pub open spec fn strip_stages(self, fill_rule: FillRule) -> Seq<Stage<C>> {
        seq![
            Stage::MakeTiles { width: self.width, height: self.height },
            Stage::SortTiles,
            Stage::RenderStrips { fill_rule, anti_aliasing: self.anti_aliasing },
        ]
    }

    /// The steps that open a layer.
    pub open spec fn push_stages(
        self,
        clip_path: Option<BezPath>,
        opacity: Option<Opacity>,
        mask: Option<Mask>,
    ) -> Seq<Stage<C>> {
        let flatten = match clip_path {
            Some(path) => seq![
                Stage::FlattenFill {
                    outline: Outline::Path(path),
                    transform: Transform::Identity,
                },
            ] + self.strip_stages(self.fill_rule),
            None => seq![],
        };
        flatten.push(
            Stage::PushLayer {
                clip: match clip_path {
                    Some(_) => Some(self.fill_rule),
                    None => None,
                },
                mask: fitting_mask(mask, self.width, self.height),
                opacity: match opacity {
                    Some(opacity) => opacity,
                    None => Opacity { bits: OPAQUE_BITS },
                },
            },
        )
    }

    /// The steps that draw what `flatten` turns into lines. A paint that is clipped is drawn in
    /// a layer of its own.
    pub open spec fn draw_stages(
        self,
        flatten: Stage<C>,
        fill_rule: FillRule,
        paint_type: PaintType<C, I, S>,
        mask: Option<Mask>,
    ) -> Seq<Stage<C>> {
        let paint = paint_of(paint_type, self.encoded_paints@.len());
        let drawn = seq![flatten] + self.strip_stages(fill_rule) + seq![
            Stage::Generate { fill_rule, paint, mask },
        ];
        match clip_of(paint_type) {
            Some(path) => self.push_stages(Some(path), None, None) + drawn + seq![Stage::PopLayer],
            None => drawn,
        }
    }

    /// Whether `other` is this context with one thing more drawn: the steps that draw it are
    /// added, its paint is encoded, and as many layers are open as before.
    pub open spec fn with_drawing(
        self,
        flatten: Stage<C>,
        fill_rule: FillRule,
        paint_type: PaintType<C, I, S>,
        mask: Option<Mask>,
        other: Self,
    ) -> bool {
        &&& other.stages@ == self.stages@ + self.draw_stages(flatten, fill_rule, paint_type, mask)
        &&& other.paint_clip_path == clip_of(paint_type)
        &&& other.encoded_paints@ == paints_with(self.encoded_paints@, paint_type)
        &&& other.same_settings(self)
        &&& layer_depth(other.stages@) == layer_depth(self.stages@)
    }

    /// Whether `other` is this context with the given steps added.
    pub open spec fn with_stages(self, stages: Seq<Stage<C>>, other: Self) -> bool {
        &&& other.stages@ == self.stages@ + stages
        &&& other.same_settings(self)
        &&& other.paint_clip_path == self.paint_clip_path
        &&& other.encoded_paints@ == self.encoded_paints@
    }

    /// A new context for an image of the given size in pixels.
    ///
    /// A limit of zero threads is no limit.
    pub fn new(width: u16, height: u16, thread_limit: Option<usize>) -> (ctx: Self)
        ensures
            ctx.wf(),
            ctx.width == width,
            ctx.height == height,
            ctx.stages@ == Seq::<Stage<C>>::empty(),
            ctx.layers == 0,
            ctx.paint_clip_path == None::<BezPath>,
            ctx.stroke == (StrokeStyle::Plain {
                width: 1,
                join: LineJoin::Bevel,
                start_cap: LineCap::Butt,
                end_cap: LineCap::Butt,
            }),
            ctx.transform == Transform::Identity,
            ctx.fill_rule == FillRule::NonZero,
            ctx.encoded_paints@ == Seq::<EncodedPaint<I, S>>::empty(),
            ctx.anti_aliasing,
            ctx.thread_limit == (if thread_limit == Some(0usize) {
                None
            } else {
                thread_limit
            }),
    {
        let thread_limit: Option<usize> = match thread_limit {
            Some(n) => if n > 0 {
                Some(n)
            } else {
                None
            },
            None => None,
        };
        RenderContext {
            width,
            height,
            stages: Vec::new(),
            layers: 0,
            paint_clip_path: None,
            stroke: StrokeStyle::Plain {
                width: 1,
                join: LineJoin::Bevel,
                start_cap: LineCap::Butt,
                end_cap: LineCap::Butt,
            },
            transform: Transform::Identity,
            fill_rule: FillRule::NonZero,
            encoded_paints: Vec::new(),
            anti_aliasing: true,
            thread_limit,
        }
    }

    /// The limit on the number of threads.
    pub fn thread_limit(&self) -> (limit: Option<usize>)
        ensures
            limit == self.thread_limit,
    {
        self.thread_limit
    }

    /// Whether a layer is open.
    pub fn has_layers(&self) -> (b: bool)
        requires
            self.wf(),
        ensures
            b == (layer_depth(self.stages@) > 0),
    {
        self.layers > 0
    }

    /// Adds a step, and counts it if it opens or closes a layer.
    fn emit(&mut self, stage: Stage<C>)
        requires
            old(self).wf(),
            stage_ok(
                stage,
                old(self).width,
                old(self).height,
                old(self).encoded_paints@.len() as int,
            ),
            stage is PopLayer ==> layer_depth(old(self).stages@) > 0,
        ensures
            final(self).wf(),
            old(self).with_stages(seq![stage], *final(self)),
    {
        proof {
            lemma_layer_depth_push(self.stages@, stage);
            lemma_layer_depth_bound(self.stages@.push(stage));
        }
        let opens: bool = matches!(stage, Stage::PushLayer { .. });
        let closes: bool = matches!(stage, Stage::PopLayer);
        self.stages.push(stage);
        let len: usize = self.stages.len();
        if opens {
            assert(self.layers < len);
            self.layers = self.layers + 1;
        } else if closes {
            self.layers = self.layers - 1;
        }
        assert(self.stages@ =~= old(self).stages@ + seq![stage]);
    }

    /// Encodes a paint, and remembers the path that it is clipped to. One that an earlier paint
    /// was clipped to is forgotten.
    pub fn encode_paint(&mut self, paint_type: PaintType<C, I, S>) -> (paint: Paint<C>)
        requires
            old(self).wf(),
        ensures
            final(self).wf(),
            paint == paint_of(paint_type, old(self).encoded_paints@.len()),
            final(self).paint_clip_path == clip_of(paint_type),
            final(self).encoded_paints@ == paints_with(old(self).encoded_paints@, paint_type),
            final(self).stages@ == old(self).stages@,
            final(self).same_settings(*old(self)),
    {
        match paint_type {
            PaintType::Solid(color) => {
                self.paint_clip_path = None;
                Paint::Solid(color)
            },
            PaintType::Image(image) => {
                self.paint_clip_path = None;
                let index: usize = self.encoded_paints.len();
                self.encoded_paints.push(EncodedPaint::Image(image));
                Paint::Indexed(index)
            },
            PaintType::ShadingPattern { shading, clip_path } => {
                self.paint_clip_path = clip_path;
                let index: usize = self.encoded_paints.len();
                self.encoded_paints.push(EncodedPaint::Shading(shading));
                Paint::Indexed(index)
            },
        }
    }

    /// Turns the lines into strips.
    fn make_strips(&mut self, fill_rule: FillRule)
        requires
            old(self).wf(),
        ensures
            final(self).wf(),
            old(self).with_stages(old(self).strip_stages(fill_rule), *final(self)),
    {
        self.emit(Stage::MakeTiles { width: self.width, height: self.height });
        self.emit(Stage::SortTiles);
        self.emit(Stage::RenderStrips { fill_rule, anti_aliasing: self.anti_aliasing });
        assert(self.stages@ =~= old(self).stages@ + old(self).strip_stages(fill_rule));
    }

    /// Draws the lines with a paint.
    fn render_path(&mut self, fill_rule: FillRule, paint: Paint<C>, mask: Option<Mask>)
        requires
            old(self).wf(),
            paint matches Paint::Indexed(i) ==> i < old(self).encoded_paints@.len(),
        ensures
            final(self).wf(),
            old(self).with_stages(
                old(self).strip_stages(fill_rule) + seq![
                    Stage::Generate { fill_rule, paint, mask },
                ],
                *final(self),
            ),
    {
        self.make_strips(fill_rule);
        self.emit(Stage::Generate { fill_rule, paint, mask });
        assert(self.stages@ =~= old(self).stages@ + (old(self).strip_stages(fill_rule) + seq![
            Stage::Generate { fill_rule, paint, mask },
        ]));
    }

    /// Opens a layer, which is clipped, faded and masked as asked.
    ///
    /// A mask whose size is not that of the context is ignored. The clip path is not affected by
    /// the current transform.
    pub fn push_layer(
        &mut self,
        clip_path: Option<&BezPath>,
        opacity: Option<Opacity>,
        mask: Option<Mask>,
    )
        requires
            old(self).wf(),
        ensures
            final(self).wf(),
            old(self).with_stages(
                old(self).push_stages(
                    match clip_path {
                        Some(path) => Some(*path),
                        None => None,
                    },
                    opacity,
                    mask,
                ),
                *final(self),
            ),
    {
        let ghost opacity_arg = opacity;
        let ghost mask_arg = mask;
        let fill_rule: FillRule = self.fill_rule;
        let clip: Option<FillRule> = match clip_path {
            Some(path) => {
                self.emit(
                    Stage::FlattenFill {
                        outline: Outline::Path(path.clone()),
                        transform: Transform::Identity,
                    },
                );
                self.make_strips(fill_rule);
                Some(fill_rule)
            },
            None => None,
        };
        let mask: Option<Mask> = match mask {
            Some(m) => if m.width != self.width || m.height != self.height {
                None
            } else {
                Some(m)
            },
            None => None,
        };
        let opacity: Opacity = match opacity {
            Some(opacity) => opacity,
            None => Opacity { bits: OPAQUE_BITS },
        };
        self.emit(Stage::PushLayer { clip, mask, opacity });
        assert(self.stages@ =~= old(self).stages@ + old(self).push_stages(
            match clip_path {
                Some(path) => Some(*path),
                None => None,
            },
            opacity_arg,
            mask_arg,
        ));
    }

    /// Closes the layer that was opened last.
    pub fn pop_layer(&mut self)
        requires
            old(self).wf(),
            layer_depth(old(self).stages@) > 0,
        ensures
            final(self).wf(),
            old(self).with_stages(seq![Stage::PopLayer], *final(self)),
    {
        self.emit(Stage::PopLayer);
    }

    /// Opens a layer that clips to the path of the current paint, if it has one.
    fn apply_paint_bbox(&mut self)
        requires
            old(self).wf(),
        ensures
            final(self).wf(),
            old(self).with_stages(
                match old(self).paint_clip_path {
                    Some(path) => old(self).push_stages(Some(path), None, None),
                    None => seq![],
                },
                *final(self),
            ),
    {
        let clip_path: Option<BezPath> = match &self.paint_clip_path {
            Some(path) => Some(path.clone()),
            None => None,
        };
        if let Some(path) = clip_path {
            self.push_layer(Some(&path), None, None);
        }
        assert(self.paint_clip_path is None ==> self.stages@ =~= old(self).stages@ + seq![]);
    }

    /// Closes the layer that clips to the path of the current paint, if it has one.
    fn unapply_paint_bbox(&mut self)
        requires
            old(self).wf(),
            old(self).paint_clip_path is Some ==> layer_depth(old(self).stages@) > 0,
        ensures
            final(self).wf(),
            old(self).with_stages(
                match old(self).paint_clip_path {
                    Some(_) => seq![Stage::PopLayer],
                    None => seq![],
                },
                *final(self),
            ),
    {
        if self.paint_clip_path.is_some() {
            self.pop_layer();
        }
        assert(self.paint_clip_path is None ==> self.stages@ =~= old(self).stages@ + seq![]);
    }

    /// Opening a layer opens one.
    pub proof fn lemma_push_depth(
        self,
        clip_path: Option<BezPath>,
        opacity: Option<Opacity>,
        mask: Option<Mask>,
    )
        ensures
            layer_depth(self.push_stages(clip_path, opacity, mask)) == 1,
    {
        let stages = self.push_stages(clip_path, opacity, mask);
        lemma_layer_depth_flat(stages.drop_last());
    }

    /// What the parts of a drawing add up to: `applied` are the steps up to the layer of the
    /// paint, `drawn` those up to the drawing itself.
    proof fn lemma_drawing(
        self,
        flatten: Stage<C>,
        fill_rule: FillRule,
        paint_type: PaintType<C, I, S>,
        mask: Option<Mask>,
        applied: Seq<Stage<C>>,
        drawn: Seq<Stage<C>>,
    )
        requires
            flatten is FlattenFill || flatten is FlattenStroke,
            applied == self.stages@ + match clip_of(paint_type) {
                Some(path) => self.push_stages(Some(path), None, None),
                None => seq![],
            },
            drawn == applied + seq![flatten] + (self.strip_stages(fill_rule) + seq![
                Stage::Generate {
                    fill_rule,
                    paint: paint_of(paint_type, self.encoded_paints@.len()),
                    mask,
                },
            ]),
        ensures
            ({
                let all = drawn + match clip_of(paint_type) {
                    Some(_) => seq![Stage::PopLayer],
                    None => seq![],
                };
                &&& all == self.stages@ + self.draw_stages(flatten, fill_rule, paint_type, mask)
                &&& layer_depth(all) == layer_depth(self.stages@)
            }),
            layer_depth(drawn) == layer_depth(self.stages@) + match clip_of(paint_type) {
                Some(_) => 1int,
                None => 0int,
            },
    {
        let lines = seq![flatten] + self.strip_stages(fill_rule) + seq![
            Stage::Generate {
                fill_rule,
                paint: paint_of(paint_type, self.encoded_paints@.len()),
                mask,
            },
        ];
        assert(drawn =~= applied + lines);
        lemma_layer_depth_flat(lines);
        lemma_layer_depth_concat(applied, lines);
        match clip_of(paint_type) {
            Some(path) => {
                let pushed = self.push_stages(Some(path), None, None);
                self.lemma_push_depth(Some(path), None, None);
                lemma_layer_depth_concat(self.stages@, pushed);
                lemma_layer_depth_push(drawn, Stage::PopLayer);
                assert(drawn + seq![Stage::PopLayer] =~= drawn.push(Stage::PopLayer));
                assert(drawn + seq![Stage::PopLayer] =~= self.stages@ + (pushed + lines + seq![
                    Stage::PopLayer,
                ]));
            },
            None => {
                assert(applied =~= self.stages@);
                assert(drawn + seq![] =~= self.stages@ + lines);
                assert(drawn + seq![] =~= drawn);
            },
        }
    }

    /// Draws what `flatten` turns into lines.
    fn draw(
        &mut self,
        flatten: Stage<C>,
        fill_rule: FillRule,
        paint_type: PaintType<C, I, S>,
        mask: Option<Mask>,
    )
        requires
            old(self).wf(),
            flatten is FlattenFill || flatten is FlattenStroke,
        ensures
            final(self).wf(),
            old(self).with_drawing(
                flatten,
                fill_rule,
                paint_type,
                mask,
                *final(self),
            ),
    {
        let ghost start = *self;
        let paint: Paint<C> = self.encode_paint(paint_type);
        self.apply_paint_bbox();
        let ghost applied = self.stages@;
        self.emit(flatten);
        self.render_path(fill_rule, paint, mask);
        proof {
            start.lemma_drawing(flatten, fill_rule, paint_type, mask, applied, self.stages@);
        }
        self.unapply_paint_bbox();
    }

    /// Fills a path.
    pub fn fill_path(
        &mut self,
        path: &BezPath,
        paint_type: PaintType<C, I, S>,
        mask: Option<Mask>,
    )
        requires
            old(self).wf(),
        ensures
            final(self).wf(),
            old(self).with_drawing(
                Stage::FlattenFill {
                    outline: Outline::Path(*path),
                    transform: old(self).transform,
                },
                old(self).fill_rule,
                paint_type,
                mask,
                *final(self),
            ),
    {
        let flatten: Stage<C> = Stage::FlattenFill {
            outline: Outline::Path(path.clone()),
            transform: self.transform,
        };
        self.draw(flatten, self.fill_rule, paint_type, mask);
    }

    /// Strokes a path.
    pub fn stroke_path(
        &mut self,
        path: &BezPath,
        paint_type: PaintType<C, I, S>,
        mask: Option<Mask>,
    )
        requires
            old(self).wf(),
        ensures
            final(self).wf(),
            old(self).with_drawing(
                Stage::FlattenStroke {
                    path: *path,
                    stroke: old(self).stroke,
                    transform: old(self).transform,
                },
                FillRule::NonZero,
                paint_type,
                mask,
                *final(self),
            ),
    {
        let flatten: Stage<C> = Stage::FlattenStroke {
            path: path.clone(),
            stroke: self.stroke.copy(),
            transform: self.transform,
        };
        self.draw(flatten, FillRule::NonZero, paint_type, mask);
    }

    /// Fills a rectangle.
    pub fn fill_rect(&mut self, rect: &Rect, paint_type: PaintType<C, I, S>, mask: Option<Mask>)
        requires
            old(self).wf(),
        ensures
            final(self).wf(),
            old(self).with_drawing(
                Stage::FlattenFill {
                    outline: Outline::Rect(*rect),
                    transform: old(self).transform,
                },
                old(self).fill_rule,
                paint_type,
                mask,
                *final(self),
            ),
    {
        let flatten: Stage<C> = Stage::FlattenFill {
            outline: Outline::Rect(*rect),
            transform: self.transform,
        };
        self.draw(flatten, self.fill_rule, paint_type, mask);
    }

    /// Sets the stroke style.
    pub fn set_stroke(&mut self, stroke: Stroke)
        ensures
            *final(self) == (RenderContext { stroke: StrokeStyle::Custom(stroke), ..*old(self) }),
    {
        self.stroke = StrokeStyle::Custom(stroke);
    }

    /// Sets the fill rule.
    pub fn set_fill_rule(&mut self, fill_rule: FillRule)
        ensures
            *final(self) == (RenderContext { fill_rule, ..*old(self) }),
    {
        self.fill_rule = fill_rule;
    }

    /// Sets the transform.
    pub fn set_transform(&mut self, transform: Affine)
        ensures
            *final(self) == (RenderContext {
                transform: Transform::Affine(transform),
                ..*old(self)
            }),
    {
        self.transform = Transform::Affine(transform);
    }

    /// Turns anti-aliasing on or off.
    pub fn set_anti_aliasing(&mut self, val: bool)
        ensures
            *final(self) == (RenderContext { anti_aliasing: val, ..*old(self) }),
    {
        self.anti_aliasing = val;
    }

    /// Columns of wide tiles that cover the context.
    pub open spec fn spec_width_tiles(self) -> int {
        (self.width + 255) / 256
    }

    /// Rows of tiles that cover the context.
    pub open spec fn spec_height_tiles(self) -> int {
        (self.height + 3) / 4
    }

    /// Columns of wide tiles that cover the context.
    pub fn width_tiles(&self) -> (n: u16)
        ensures
            n == self.spec_width_tiles(),
    {
        ((self.width as u32 + 255) / 256) as u16
    }

    /// Rows of tiles that cover the context.
    pub fn height_tiles(&self) -> (n: u16)
        ensures
            n == self.spec_height_tiles(),
    {
        ((self.height as u32 + 3) / 4) as u16
    }

    /// How the context is rendered, if `configured` threads are configured: not at all if it has
    /// no tiles, on the calling thread if there is to be one thread, and else in parallel. The
    /// limit of the context takes precedence over the configured number.
    pub open spec fn mode(self, configured: Option<usize>) -> RenderMode {
        let threads = match self.thread_limit {
            Some(n) => Some(n),
            None => configured,
        };
        if self.spec_width_tiles() == 0 || self.spec_height_tiles() == 0 {
            RenderMode::Nothing
        } else {
            match threads {
                Some(n) => if n <= 1 {
                    RenderMode::Sequential
                } else {
                    RenderMode::Parallel { install: Some(n) }
                },
                None => RenderMode::Parallel { install: None },
            }
        }
    }

    /// How the context is rendered, if `configured` threads are configured.
    pub fn render_mode(&self, configured: Option<usize>) -> (mode: RenderMode)
        ensures
            mode == self.mode(configured),
    {
        let width_tiles: u16 = self.width_tiles();
        let height_tiles: u16 = self.height_tiles();
        if width_tiles == 0 || height_tiles == 0 {
            return RenderMode::Nothing;
        }
        let effective_threads: Option<usize> = match self.thread_limit {
            Some(n) => Some(n),
            None => configured,
        };
        match effective_threads {
            Some(threads) => if threads <= 1 {
                RenderMode::Sequential
            } else {
                RenderMode::Parallel { install: Some(threads) }
            },
            None => RenderMode::Parallel { install: None },
        }
    }

    /// Whether the context can be rendered in the given way to an image of the given size. The
    /// tiles must not begin beyond the image, and in parallel they must reach its last row.
    pub open spec fn fits_image(self, mode: RenderMode, width: u16, height: u16) -> bool {
        match mode {
            RenderMode::Nothing => true,
            RenderMode::Sequential => {
                &&& (self.spec_width_tiles() - 1) * 256 <= width
                &&& (self.spec_height_tiles() - 1) * 4 <= height
            },
            RenderMode::Parallel { .. } => width > 0 && height > 0 ==> {
                &&& (self.spec_width_tiles() - 1) * 256 <= width
                &&& height <= self.spec_height_tiles() * 4
            },
        }
    }

    /// Whether an image's tiles are those of a context of this size.
    pub open spec fn covered_by<F: Rasterizer>(self, wide: Wide<F>) -> bool {
        &&& wide.wf()
        &&& wide.width_tiles == self.spec_width_tiles()
        &&& wide.height_tiles == self.spec_height_tiles()
    }

    /// Whether the context can be rendered to an image of the given size, if `configured` threads
    /// are configured.
    pub fn can_render_to(&self, configured: Option<usize>, width: u16, height: u16) -> (b: bool)
        ensures
            b == self.fits_image(self.mode(configured), width, height),
    {
        let width_tiles: u32 = self.width_tiles() as u32;
        let height_tiles: u32 = self.height_tiles() as u32;
        let width: u32 = width as u32;
        let height: u32 = height as u32;
        match self.render_mode(configured) {
            RenderMode::Nothing => true,
            RenderMode::Sequential => (width_tiles - 1) * 256 <= width && (height_tiles - 1) * 4
                <= height,
            RenderMode::Parallel { .. } => width == 0 || height == 0 || ((width_tiles - 1) * 256
                <= width && height <= height_tiles * 4),
        }
    }

    /// Whether an image's tiles are those of a context of this size.
    pub fn is_covered_by<F: Rasterizer>(&self, wide: &Wide<F>) -> (b: bool)
        ensures
            b == self.covered_by(*wide),
    {
        proof {
            assert(0 <= wide.height_tiles * wide.width_tiles <= 0xffff * 0xffff)
                by (nonlinear_arith)
                requires
                    0 <= wide.height_tiles <= 0xffff,
                    0 <= wide.width_tiles <= 0xffff,
            ;
        }
        let tiles: usize = wide.tiles.len();
        tiles as u64 == wide.height_tiles as u64 * wide.width_tiles as u64 && wide.width_tiles
            == self.width_tiles() && wide.height_tiles == self.height_tiles()
    }

    /// What rendering the context to an image of the given size does, if `configured` threads are
    /// configured: to the buffer, and to the rasterizers at hand.
    ///
    /// On the calling thread, one rasterizer that is made for the image draws all tile rows in
    /// turn, and those at hand stay as they are. In parallel, those at hand draw, and new ones
    /// where there are fewer than workers.
    pub open spec fn rendered<F: Rasterizer<Paint = EncodedPaint<I, S>>>(
        self,
        configured: Option<usize>,
        workers: int,
        wide: Wide<F>,
        width: u16,
        height: u16,
        pool_before: Seq<F>,
        pool_after: Seq<F>,
        before: Seq<u8>,
        after: Seq<u8>,
    ) -> bool {
        match self.mode(configured) {
            RenderMode::Nothing => after == before && pool_after == pool_before,
            RenderMode::Sequential => {
                &&& crate::tiles::drawn_in_turn(
                    wide,
                    self.encoded_paints@,
                    width,
                    height,
                    self.spec_width_tiles(),
                    self.spec_height_tiles(),
                    after,
                )
                &&& crate::tiles::rows_rendered(
                    Scene::of(wide, self.encoded_paints@, width, height, Seq::empty()),
                    before,
                    after,
                    self.spec_width_tiles(),
                    0,
                    self.spec_height_tiles(),
                    0,
                )
                &&& pool_after == pool_before
            },
            RenderMode::Parallel { .. } => crate::tiles::strip_rendered(
                Scene::of(wide, self.encoded_paints@, width, height, pool_before),
                pool_after,
                before,
                after,
                self.spec_width_tiles(),
                0,
                self.spec_height_tiles(),
                0,
                workers,
            ),
        }
    }

    /// Renders the context into a buffer of premultiplied RGBA8 pixels of `width` by `height`.
    ///
    /// `wide` holds the tiles that the steps of the context make. Where the context is rendered
    /// in parallel, it is rendered by the given number of workers, and the rasterizers come from
    /// the pool and go back to it.
    pub fn render_to_buffer<F: Rasterizer<Paint = EncodedPaint<I, S>> + Send>(
        &self,
        buffer: &mut [u8],
        width: u16,
        height: u16,
        configured: Option<usize>,
        workers: usize,
        wide: &Wide<F>,
        pool: &mut Vec<F>,
    )
        where
            F::Color: Sync,
            F::Command: Sync,
            I: Sync,
            S: Sync,
        requires
            self.wf(),
            layer_depth(self.stages@) == 0,
            old(buffer)@.len() == width * height * 4,
            self.fits_image(self.mode(configured), width, height),
            self.covered_by(*wide),
        ensures
            self.rendered(
                configured,
                workers as int,
                *wide,
                width,
                height,
                old(pool)@,
                final(pool)@,
                old(buffer)@,
                final(buffer)@,
            ),
            !(self.mode(configured) is Parallel) ==> final(pool)@ == old(pool)@,
    {
        let width_tiles: usize = self.width_tiles() as usize;
        let height_tiles: usize = self.height_tiles() as usize;
        let paints: &[EncodedPaint<I, S>] = self.encoded_paints.as_slice();
        match self.render_mode(configured) {
            RenderMode::Nothing => {},
            RenderMode::Sequential => {
                render_tiles_sequential(
                    wide,
                    paints,
                    width,
                    height,
                    width_tiles,
                    height_tiles,
                    buffer,
                );
            },
            RenderMode::Parallel { .. } => {
                proof {
                    assert(width * height * 4 > 0 ==> width > 0 && height > 0) by (nonlinear_arith)
                        requires
                            0 <= width,
                            0 <= height,
                    ;
                }
                render_tiles_parallel(
                    wide,
                    paints,
                    width,
                    height,
                    width_tiles,
                    height_tiles,
                    buffer,
                    workers,
                    pool,
                );
            },
        }
    }

    /// Renders the context into a pixmap.
    pub fn render_to_pixmap<F: Rasterizer<Paint = EncodedPaint<I, S>> + Send>(
        &self,
        pixmap: &mut Pixmap,
        configured: Option<usize>,
        workers: usize,
        wide: &Wide<F>,
        pool: &mut Vec<F>,
    )
        where
            F::Color: Sync,
            F::Command: Sync,
            I: Sync,
            S: Sync,
        requires
            self.wf(),
            layer_depth(self.stages@) == 0,
            old(pixmap).wf(),
            self.fits_image(self.mode(configured), old(pixmap).width, old(pixmap).height),
            self.covered_by(*wide),
        ensures
            final(pixmap).wf(),
            final(pixmap).width == old(pixmap).width,
            final(pixmap).height == old(pixmap).height,
            self.rendered(
                configured,
                workers as int,
                *wide,
                old(pixmap).width,
                old(pixmap).height,
                old(pool)@,
                final(pool)@,
                old(pixmap).data@,
                final(pixmap).data@,
            ),
    {
        let width: u16 = pixmap.width;
        let height: u16 = pixmap.height;
        self.render_to_buffer(&mut pixmap.data, width, height, configured, workers, wide, pool);
    }
}

/// How a context is rendered.
#[derive(Clone, Copy, PartialEq, Eq, Structural, Debug)]
pub enum RenderMode {
    /// There is nothing to render.
    Nothing,
    /// On the calling thread.
    Sequential,
    /// In parallel, on a global thread pool of the given size if one is given.
    Parallel { install: Option<usize> },
}

/// An image of premultiplied RGBA8 pixels, row by row.
pub struct Pixmap {
    pub width: u16,
    pub height: u16,
    pub data: Vec<u8>,
}

impl Pixmap {
    /// The pixmap holds four bytes for each pixel.
    pub open spec fn wf(self) -> bool {
        self.data@.len() == self.width * self.height * 4
    }
}

/// A context can be rendered to an image of its own size, however many threads there are.
pub proof fn law_own_size_fits<C, I, S>(ctx: RenderContext<C, I, S>, configured: Option<usize>)
    ensures
        ctx.fits_image(ctx.mode(configured), ctx.width, ctx.height),
{
}

/// Whether two contexts differ at most in their limits on the number of threads.
pub open spec fn same_but_for_threads<C, I, S>(
    a: RenderContext<C, I, S>,
    b: RenderContext<C, I, S>,
) -> bool {
    a == (RenderContext { thread_limit: a.thread_limit, ..b })
}

/// Rendered on one thread or on many, an image of the context's own size is painted.
proof fn lemma_rendered_rows<C, I, S, F: Rasterizer<Paint = EncodedPaint<I, S>>>(
    ctx: RenderContext<C, I, S>,
    configured: Option<usize>,
    workers: int,
    wide: Wide<F>,
    pool_before: Seq<F>,
    pool_after: Seq<F>,
    before: Seq<u8>,
    after: Seq<u8>,
)
    requires
        before.len() == ctx.width * ctx.height * 4,
        ctx.rendered(
            configured,
            workers,
            wide,
            ctx.width,
            ctx.height,
            pool_before,
            pool_after,
            before,
            after,
        ),
    ensures
        after.len() == before.len(),
        before.len() > 0 ==> crate::tiles::rows_rendered(
            Scene::of(wide, ctx.encoded_paints@, ctx.width, ctx.height, pool_before),
            before,
            after,
            ctx.spec_width_tiles(),
            0,
            ctx.spec_height_tiles(),
            0,
        ),
{
    let w = ctx.width as int;
    let h = ctx.height as int;
    assert(w * h * 4 > 0 ==> w > 0 && h > 0) by (nonlinear_arith)
        requires
            0 <= w,
            0 <= h,
    ;
    if ctx.mode(configured) is Sequential {
        crate::tiles::lemma_rows_rendered_widen(
            Scene::of(wide, ctx.encoded_paints@, ctx.width, ctx.height, Seq::empty()),
            Scene::of(wide, ctx.encoded_paints@, ctx.width, ctx.height, pool_before),
            before,
            after,
            ctx.spec_width_tiles(),
            0,
            ctx.spec_height_tiles(),
            0,
        );
    }
}

/// Neither the number of threads nor the rasterizers show, and nothing remains of what a buffer
/// held before: two renderings of contexts that differ at most in their limits on the number of
/// threads, to images of their own size, agree in every byte, provided that the rasterizers draw
/// alike. So rendering a context again gives the same bytes.
pub proof fn law_threads_do_not_show<C, I, S, F: Rasterizer<Paint = EncodedPaint<I, S>>>(
    a: RenderContext<C, I, S>,
    b: RenderContext<C, I, S>,
    wide: Wide<F>,
    configured_a: Option<usize>,
    workers_a: int,
    pool_a: Seq<F>,
    pool_after_a: Seq<F>,
    before_a: Seq<u8>,
    after_a: Seq<u8>,
    configured_b: Option<usize>,
    workers_b: int,
    pool_b: Seq<F>,
    pool_after_b: Seq<F>,
    before_b: Seq<u8>,
    after_b: Seq<u8>,
)
    requires
        same_but_for_threads(a, b),
        before_a.len() == a.width * a.height * 4,
        before_b.len() == a.width * a.height * 4,
        crate::fine::agreeing(
            Scene::of(wide, a.encoded_paints@, a.width, a.height, pool_a),
            Scene::of(wide, a.encoded_paints@, a.width, a.height, pool_b),
        ),
        a.rendered(
            configured_a,
            workers_a,
            wide,
            a.width,
            a.height,
            pool_a,
            pool_after_a,
            before_a,
            after_a,
        ),
        b.rendered(
            configured_b,
            workers_b,
            wide,
            b.width,
            b.height,
            pool_b,
            pool_after_b,
            before_b,
            after_b,
        ),
    ensures
        after_a == after_b,
{
    let w = a.width as int;
    let h = a.height as int;
    lemma_rendered_rows(
        a,
        configured_a,
        workers_a,
        wide,
        pool_a,
        pool_after_a,
        before_a,
        after_a,
    );
    lemma_rendered_rows(
        b,
        configured_b,
        workers_b,
        wide,
        pool_b,
        pool_after_b,
        before_b,
        after_b,
    );
    if before_a.len() == 0 {
        assert(after_a =~= after_b);
    } else {
        assert(w * h * 4 == h * w * 4) by (nonlinear_arith);
        crate::tiles::law_rendering_is_determined(
            Scene::of(wide, a.encoded_paints@, a.width, a.height, pool_a),
            Scene::of(wide, a.encoded_paints@, a.width, a.height, pool_b),
            before_a,
            after_a,
            before_b,
            after_b,
            a.spec_width_tiles(),
            0,
            a.spec_height_tiles(),
            0,
            h,
        );
    }
}

/// A pixmap of the size of the context holds what a buffer would: rendering to the pixmap and
/// rendering to a buffer of as many bytes leave the same bytes, provided that the rasterizers
/// draw alike.
pub proof fn law_pixmap_holds_what_a_buffer_would<
    C,
    I,
    S,
    F: Rasterizer<Paint = EncodedPaint<I, S>>,
>(
    ctx: RenderContext<C, I, S>,
    wide: Wide<F>,
    configured: Option<usize>,
    workers: int,
    pool: Seq<F>,
    pixmap_pool_after: Seq<F>,
    pixmap_before: Pixmap,
    pixmap_after: Pixmap,
    buffer_pool_after: Seq<F>,
    buffer_before: Seq<u8>,
    buffer_after: Seq<u8>,
)
    requires
        pixmap_before.wf(),
        pixmap_before.width == ctx.width,
        pixmap_before.height == ctx.height,
        buffer_before.len() == ctx.width * ctx.height * 4,
        crate::fine::agreeing(
            Scene::of(wide, ctx.encoded_paints@, ctx.width, ctx.height, pool),
            Scene::of(wide, ctx.encoded_paints@, ctx.width, ctx.height, pool),
        ),
        ctx.rendered(
            configured,
            workers,
            wide,
            pixmap_before.width,
            pixmap_before.height,
            pool,
            pixmap_pool_after,
            pixmap_before.data@,
            pixmap_after.data@,
        ),
        ctx.rendered(
            configured,
            workers,
            wide,
            pixmap_before.width,
            pixmap_before.height,
            pool,
            buffer_pool_after,
            buffer_before,
            buffer_after,
        ),
    ensures
        pixmap_after.data@ == buffer_after,
{
    law_threads_do_not_show(
        ctx,
        ctx,
        wide,
        configured,
        workers,
        pool,
        pixmap_pool_after,
        pixmap_before.data@,
        pixmap_after.data@,
        configured,
        workers,
        pool,
        buffer_pool_after,
        buffer_before,
        buffer_after,
    );
}

/// A clip path that an earlier paint left never survives: after a drawing the context has the
/// clip path of the paint that was drawn with, if it is a shading, and none if it is a color or
/// an image. Nor does the earlier one show in the drawing.
pub proof fn law_earlier_clip_path_does_not_survive<C, I, S>(
    ctx: RenderContext<C, I, S>,
    earlier: Option<BezPath>,
    flatten: Stage<C>,
    fill_rule: FillRule,
    paint_type: PaintType<C, I, S>,
    mask: Option<Mask>,
    after: RenderContext<C, I, S>,
)
    requires
        ctx.with_drawing(flatten, fill_rule, paint_type, mask, after),
    ensures
        after.paint_clip_path == (match paint_type {
            PaintType::Solid(_) => None,
            PaintType::Image(_) => None,
            PaintType::ShadingPattern { clip_path, .. } => clip_path,
        }),
        (RenderContext { paint_clip_path: earlier, ..ctx }).with_drawing(
            flatten,
            fill_rule,
            paint_type,
            mask,
            after,
        ),
{
}

/// Closing a layer undoes opening it: as many layers are open as before.
pub proof fn law_pop_undoes_push<C, I, S>(
    start: RenderContext<C, I, S>,
    clip_path: Option<BezPath>,
    opacity: Option<Opacity>,
    mask: Option<Mask>,
    pushed: RenderContext<C, I, S>,
    popped: RenderContext<C, I, S>,
)
    requires
        start.with_stages(start.push_stages(clip_path, opacity, mask), pushed),
        pushed.with_stages(seq![Stage::PopLayer], popped),
    ensures
        layer_depth(pushed.stages@) == layer_depth(start.stages@) + 1,
        layer_depth(popped.stages@) == layer_depth(start.stages@),
{
    start.lemma_push_depth(clip_path, opacity, mask);
    lemma_layer_depth_concat(start.stages@, start.push_stages(clip_path, opacity, mask));
    lemma_layer_depth_push(pushed.stages@, Stage::PopLayer);
    assert(popped.stages@ =~= pushed.stages@.push(Stage::PopLayer));
}

/// A mask whose size is not that of the context is ignored: the layer is the one that is opened
/// without a mask.
pub proof fn law_mask_of_another_size_is_ignored<C, I, S>(
    ctx: RenderContext<C, I, S>,
    clip_path: Option<BezPath>,
    opacity: Option<Opacity>,
    mask: Mask,
)
    requires
        mask.width != ctx.width || mask.height != ctx.height,
    ensures
        ctx.push_stages(clip_path, opacity, Some(mask)) == ctx.push_stages(
            clip_path,
            opacity,
            None,
        ),
{
}

/// Neither the clip path nor the mask of a layer is affected by the current transform.
pub proof fn law_layers_ignore_the_transform<C, I, S>(
    ctx: RenderContext<C, I, S>,
    transform: Transform,
    clip_path: Option<BezPath>,
    opacity: Option<Opacity>,
    mask: Option<Mask>,
)
    ensures
        ctx.push_stages(clip_path, opacity, mask) == (RenderContext {
            transform,
            ..ctx
        }).push_stages(clip_path, opacity, mask),
{
}

/// The position of the step that turns what is drawn into lines, among the steps that draw it.
pub open spec fn flatten_position<C, I, S>(
    ctx: RenderContext<C, I, S>,
    paint_type: PaintType<C, I, S>,
) -> int {
    match clip_of(paint_type) {
        Some(path) => ctx.push_stages(Some(path), None, None).len() as int,
        None => 0,
    }
}

/// Filling a rectangle is filling its path: the steps are those that fill the path, under the
/// transform and by the fill rule of the context, but for the one that flattens the outline. All
/// else of the context ends alike, and as many layers are open as before.
pub proof fn law_filling_a_rectangle_is_filling_its_path<C, I, S>(
    ctx: RenderContext<C, I, S>,
    rect: Rect,
    path: BezPath,
    paint_type: PaintType<C, I, S>,
    mask: Option<Mask>,
    after_rect: RenderContext<C, I, S>,
    after_path: RenderContext<C, I, S>,
)
    requires
        ctx.with_drawing(
            Stage::FlattenFill { outline: Outline::Rect(rect), transform: ctx.transform },
            ctx.fill_rule,
            paint_type,
            mask,
            after_rect,
        ),
        ctx.with_drawing(
            Stage::FlattenFill { outline: Outline::Path(path), transform: ctx.transform },
            ctx.fill_rule,
            paint_type,
            mask,
            after_path,
        ),
    ensures
        ({
            let at = ctx.stages@.len() + flatten_position(ctx, paint_type);
            &&& 0 <= at < after_path.stages@.len()
            &&& after_path.stages@[at] == (Stage::FlattenFill::<C> {
                outline: Outline::Path(path),
                transform: ctx.transform,
            })
            &&& after_rect.stages@ == after_path.stages@.update(
                at,
                Stage::FlattenFill { outline: Outline::Rect(rect), transform: ctx.transform },
            )
        }),
        after_rect.same_settings(after_path),
        after_rect.paint_clip_path == after_path.paint_clip_path,
        after_rect.encoded_paints@ == after_path.encoded_paints@,
        layer_depth(after_rect.stages@) == layer_depth(ctx.stages@),
        layer_depth(after_path.stages@) == layer_depth(ctx.stages@),
{
    let at = ctx.stages@.len() + flatten_position(ctx, paint_type);
    let filled = Stage::<C>::FlattenFill {
        outline: Outline::Rect(rect),
        transform: ctx.transform,
    };
    assert(after_rect.stages@ =~= after_path.stages@.update(at, filled));
}

/// Drawing never closes a layer that it has not opened: at no point on the way are fewer layers
/// open than before, and in the end there are as many.
pub proof fn law_drawing_keeps_open_layers<C, I, S>(
    ctx: RenderContext<C, I, S>,
    flatten: Stage<C>,
    fill_rule: FillRule,
    paint_type: PaintType<C, I, S>,
    mask: Option<Mask>,
    steps: int,
)
    requires
        flatten is FlattenFill || flatten is FlattenStroke,
        0 <= steps <= ctx.draw_stages(flatten, fill_rule, paint_type, mask).len(),
    ensures
        layer_depth(ctx.draw_stages(flatten, fill_rule, paint_type, mask).take(steps)) >= 0,
        layer_depth(ctx.draw_stages(flatten, fill_rule, paint_type, mask)) == 0,
{
    let all = ctx.draw_stages(flatten, fill_rule, paint_type, mask);
    let drawn = seq![flatten] + ctx.strip_stages(fill_rule) + seq![
        Stage::Generate {
            fill_rule,
            paint: paint_of(paint_type, ctx.encoded_paints@.len()),
            mask,
        },
    ];
    match clip_of(paint_type) {
        Some(path) => {
            let pushed = ctx.push_stages(Some(path), None, None);
            ctx.lemma_push_depth(Some(path), None, None);
            lemma_layer_depth_flat(drawn);
            lemma_layer_depth_concat(pushed, drawn);
            lemma_layer_depth_push(pushed + drawn, Stage::PopLayer);
            assert(all =~= (pushed + drawn).push(Stage::PopLayer));
            if steps < pushed.len() {
                assert(all.take(steps) =~= pushed.drop_last().take(steps));
                lemma_layer_depth_flat(all.take(steps));
            } else if steps < all.len() {
                let part = drawn.take(steps - pushed.len());
                assert(all.take(steps) =~= pushed + part);
                lemma_layer_depth_flat(part);
                lemma_layer_depth_concat(pushed, part);
            } else {
                assert(all.take(steps) =~= all);
            }
        },
        None => {
            lemma_layer_depth_flat(all);
            lemma_layer_depth_flat(all.take(steps));
        },
    }
}

} // verus!
