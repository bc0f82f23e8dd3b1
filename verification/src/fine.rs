use crate::tiles::TileBlock;
use vstd::prelude::*;

verus! {

/// A fine rasterizer: it draws one wide tile at a time, by running the tile's commands.
///
/// Each step takes the rasterizer and gives it back in its new state.
pub trait Rasterizer: Sized {
    /// The color that a tile is cleared to.
    type Color;

    /// A drawing command of a tile.
    type Command;

    /// An encoded paint, which commands name by its position.
    type Paint;

    /// A rasterizer for an image of the given size.
    fn new(width: u16, height: u16) -> Self;

    /// Forgets what was drawn.
    fn reset(self) -> Self;

    /// Moves to the tile in column `x` and row `y`.
    fn set_coords(self, x: u16, y: u16) -> Self;

    /// Fills the tile with one color.
    fn clear(self, bg: &Self::Color) -> Self;

    /// Runs one command, with the coverage values and the paints that it may name.
    fn run_cmd(self, cmd: &Self::Command, alphas: &[u8], paints: &[Self::Paint]) -> Self;

    /// The pixels of the topmost blend buffer.
    fn top_block(&self) -> TileBlock;
}

/// What is to be drawn in one wide tile.
pub struct WideTile<F: Rasterizer> {
    /// The background.
    pub bg: F::Color,
    /// The commands, in the order in which they run.
    pub cmds: Vec<F::Command>,
}

/// The wide tiles of an image, row by row.
pub struct Wide<F: Rasterizer> {
    pub width_tiles: u16,
    pub height_tiles: u16,
    pub tiles: Vec<WideTile<F>>,
    /// The coverage values that the commands of the tiles name.
    pub alphas: Vec<u8>,
}

impl<F: Rasterizer> Wide<F> {
    /// There is a tile for each column of each row.
    pub open spec fn wf(self) -> bool {
        self.tiles@.len() == self.height_tiles * self.width_tiles
    }

    /// The tile in column `x` and row `y`.
    pub open spec fn tile(self, x: int, y: int) -> WideTile<F> {
        self.tiles@[y * self.width_tiles + x]
    }

    /// The tile in column `x` and row `y`.
    pub fn get(&self, x: u16, y: u16) -> (tile: &WideTile<F>)
        requires
            self.wf(),
            x < self.width_tiles,
            y < self.height_tiles,
        ensures
            *tile == self.tile(x as int, y as int),
            *tile == self.tiles@[y * self.width_tiles + x],
    {
        let len: usize = self.tiles.len();
        proof {
            let w = self.width_tiles as int;
            let h = self.height_tiles as int;
            assert(0 <= y * w) by (nonlinear_arith)
                requires
                    0 <= y,
                    0 <= w,
            ;
            assert(y * w + w <= h * w) by (nonlinear_arith)
                requires
                    y + 1 <= h,
                    0 <= w,
            ;
        }
        &self.tiles[y as usize * self.width_tiles as usize + x as usize]
    }
}

/// Whether running one command may take a rasterizer from state `a` to state `b`.
pub open spec fn command_run<F: Rasterizer>(
    cmd: F::Command,
    alphas: Seq<u8>,
    paints: Seq<F::Paint>,
    a: F,
    b: F,
) -> bool {
    exists|al: &[u8], pa: &[F::Paint]|
        al@ == alphas && pa@ == paints && #[trigger] call_ensures(F::run_cmd, (a, &cmd, al, pa), b)
}

/// Whether running the commands in order may take a rasterizer from state `a` to state `b`.
pub open spec fn commands_run<F: Rasterizer>(
    cmds: Seq<F::Command>,
    alphas: Seq<u8>,
    paints: Seq<F::Paint>,
    a: F,
    b: F,
) -> bool
    decreases cmds.len(),
{
    if cmds.len() == 0 {
        a == b
    } else {
        exists|mid: F|
            commands_run(cmds.drop_last(), alphas, paints, a, mid) && #[trigger] command_run(
                cmds.last(),
                alphas,
                paints,
                mid,
                b,
            )
    }
}

/// Whether drawing a tile may take a rasterizer from state `a` to state `b` and give `block`:
/// the rasterizer is reset, moved to the tile, and cleared to the tile's background, then the
/// tile's commands run, and `block` is what the topmost blend buffer then holds.
pub open spec fn tile_drawn<F: Rasterizer>(
    tile: WideTile<F>,
    alphas: Seq<u8>,
    paints: Seq<F::Paint>,
    x_tile: u16,
    y_tile: u16,
    a: F,
    b: F,
    block: TileBlock,
) -> bool {
    exists|blank: F, placed: F, cleared: F|
        {
            &&& #[trigger] call_ensures(F::reset, (a,), blank)
            &&& #[trigger] call_ensures(F::set_coords, (blank, x_tile, y_tile), placed)
            &&& #[trigger] call_ensures(F::clear, (placed, &tile.bg), cleared)
            &&& commands_run(tile.cmds@, alphas, paints, cleared, b)
            &&& call_ensures(F::top_block, (&b,), block)
        }
}

/// Draws one tile and returns its pixels, and the rasterizer for the next tile.
pub fn draw_tile<F: Rasterizer>(
    fine: F,
    tile: &WideTile<F>,
    alphas: &[u8],
    paints: &[F::Paint],
    x_tile: u16,
    y_tile: u16,
) -> (drawn: (F, TileBlock))
    ensures
        tile_drawn(*tile, alphas@, paints@, x_tile, y_tile, fine, drawn.0, drawn.1),
{
    let blank: F = fine.reset();
    let placed: F = blank.set_coords(x_tile, y_tile);
    let mut fine: F = placed.clear(&tile.bg);
    let ghost cleared = fine;
    let mut i: usize = 0;
    while i < tile.cmds.len()
        invariant
            i <= tile.cmds@.len(),
            commands_run(tile.cmds@.take(i as int), alphas@, paints@, cleared, fine),
        decreases tile.cmds@.len() - i,
    {
        let ghost prev = fine;
        fine = fine.run_cmd(&tile.cmds[i], alphas, paints);
        proof {
            let done = tile.cmds@.take(i + 1);
            assert(done.drop_last() =~= tile.cmds@.take(i as int));
            assert(done.last() == tile.cmds@[i as int]);
            assert(call_ensures(F::run_cmd, (prev, &done.last(), alphas, paints), fine));
            assert(command_run(done.last(), alphas@, paints@, prev, fine));
        }
        i = i + 1;
    }
    assert(tile.cmds@.take(i as int) =~= tile.cmds@);
    let block: TileBlock = fine.top_block();
    (fine, block)
}

/// Whether drawing tile (`x`, `y`) of an image may take a rasterizer from state `a` to state `b`
/// and give `block`.
pub open spec fn drawn_at<F: Rasterizer>(
    wide: Wide<F>,
    paints: Seq<F::Paint>,
    x: int,
    y: int,
    a: F,
    b: F,
    block: TileBlock,
) -> bool {
    tile_drawn(wide.tile(x, y), wide.alphas@, paints, x as u16, y as u16, a, b, block)
}

/// Whether drawing the first tiles of tile row `y`, from left to right, may take a rasterizer
/// from state `a` to state `b` and give `blocks`.
pub open spec fn row_run<F: Rasterizer>(
    wide: Wide<F>,
    paints: Seq<F::Paint>,
    y: int,
    blocks: Seq<TileBlock>,
    a: F,
    b: F,
) -> bool
    decreases blocks.len(),
{
    if blocks.len() == 0 {
        a == b
    } else {
        exists|mid: F|
            row_run(wide, paints, y, blocks.drop_last(), a, mid) && #[trigger] drawn_at(
                wide,
                paints,
                blocks.len() - 1,
                y,
                mid,
                b,
                blocks.last(),
            )
    }
}

/// What an image is rendered from: its tiles and its paints, its size in pixels, and the
/// rasterizers at hand.
pub ghost struct Scene<F: Rasterizer> {
    pub wide: Wide<F>,
    pub paints: Seq<F::Paint>,
    pub width: u16,
    pub height: u16,
    pub pool: Seq<F>,
}

impl<F: Rasterizer> Scene<F> {
    /// The scene of the given parts.
    pub open spec fn of(
        wide: Wide<F>,
        paints: Seq<F::Paint>,
        width: u16,
        height: u16,
        pool: Seq<F>,
    ) -> Self {
        Scene { wide, paints, width, height, pool }
    }

    /// The scene with other rasterizers at hand.
    pub open spec fn with_pool(self, pool: Seq<F>) -> Self {
        Scene { pool, ..self }
    }

    /// Whether two scenes show the same image, perhaps with other rasterizers at hand.
    pub open spec fn same_image(self, other: Self) -> bool {
        self.with_pool(other.pool) == other
    }

    /// Whether one step may take a rasterizer from state `a` to state `b`: a reset, or drawing
    /// a tile.
    pub open spec fn stepped(self, a: F, b: F) -> bool {
        ||| call_ensures(F::reset, (a,), b)
        ||| exists|x: int, y: int, block: TileBlock| #[trigger]
            drawn_at(self.wide, self.paints, x, y, a, b, block)
    }

    /// Whether a rasterizer that is at hand, or that is made for the size of the image, may be in
    /// state `fine` after the given number of steps.
    pub open spec fn reached(self, fine: F, steps: nat) -> bool
        decreases steps,
    {
        if steps == 0 {
            self.pool.contains(fine) || call_ensures(F::new, (self.width, self.height), fine)
        } else {
            exists|prev: F|
                self.reached(prev, (steps - 1) as nat) && #[trigger] self.stepped(prev, fine)
        }
    }

    /// Whether a rasterizer may be in state `fine` while the scene is rendered.
    pub open spec fn ready(self, fine: F) -> bool {
        exists|steps: nat| #[trigger] self.reached(fine, steps)
    }

    /// Whether drawing tile (`x`, `y`) may give `block`, with a rasterizer that is at hand or one
    /// that is made for the size of the image.
    pub open spec fn block_of(self, x: int, y: int, block: TileBlock) -> bool {
        exists|a: F, b: F|
            self.ready(a) && #[trigger] drawn_at(self.wide, self.paints, x, y, a, b, block)
    }
}

/// A step leads from one possible state to another.
pub proof fn lemma_ready_step<F: Rasterizer>(scene: Scene<F>, a: F, b: F)
    requires
        scene.ready(a),
        scene.stepped(a, b),
    ensures
        scene.ready(b),
{
    let steps = choose|steps: nat| #[trigger] scene.reached(a, steps);
    assert(scene.reached(b, steps + 1));
}

/// Rasterizers at hand, and those that are made for the image, are in possible states.
pub proof fn lemma_ready_at_first<F: Rasterizer>(scene: Scene<F>, fine: F)
    requires
        scene.pool.contains(fine) || call_ensures(F::new, (scene.width, scene.height), fine),
    ensures
        scene.ready(fine),
{
    assert(scene.reached(fine, 0));
}

/// A tile row that is drawn with a possible rasterizer leaves it in a possible state, and its
/// blocks are possible blocks.
pub proof fn lemma_row_run_ready<F: Rasterizer>(
    scene: Scene<F>,
    y: int,
    blocks: Seq<TileBlock>,
    a: F,
    b: F,
)
    requires
        scene.ready(a),
        row_run(scene.wide, scene.paints, y, blocks, a, b),
    ensures
        scene.ready(b),
        forall|x: int| 0 <= x < blocks.len() ==> scene.block_of(x, y, #[trigger] blocks[x]),
    decreases blocks.len(),
{
    if blocks.len() > 0 {
        let last = blocks.len() - 1;
        let mid = choose|mid: F|
            row_run(scene.wide, scene.paints, y, blocks.drop_last(), a, mid)
                && #[trigger] drawn_at(
                scene.wide,
                scene.paints,
                last,
                y,
                mid,
                b,
                blocks.last(),
            );
        lemma_row_run_ready(scene, y, blocks.drop_last(), a, mid);
        lemma_ready_step(scene, mid, b);
        assert forall|x: int| 0 <= x < blocks.len() implies scene.block_of(
            x,
            y,
            #[trigger] blocks[x],
        ) by {
            if x < last {
                assert(blocks[x] == blocks.drop_last()[x]);
            }
        }
    }
}

/// If the rasterizers of one scene are in states that are possible in another scene of the same
/// image, then so they are later on.
proof fn lemma_reached_widen<F: Rasterizer>(scene: Scene<F>, wider: Scene<F>, fine: F, steps: nat)
    requires
        scene.same_image(wider),
        forall|i: int| 0 <= i < scene.pool.len() ==> wider.ready(#[trigger] scene.pool[i]),
        scene.reached(fine, steps),
    ensures
        wider.ready(fine),
    decreases steps,
{
    if steps == 0 {
        if scene.pool.contains(fine) {
            let i = choose|i: int| 0 <= i < scene.pool.len() && scene.pool[i] == fine;
            assert(wider.ready(scene.pool[i]));
        } else {
            lemma_ready_at_first(wider, fine);
        }
    } else {
        let prev = choose|prev: F|
            scene.reached(prev, (steps - 1) as nat) && #[trigger] scene.stepped(prev, fine);
        lemma_reached_widen(scene, wider, prev, (steps - 1) as nat);
        if !call_ensures(F::reset, (prev,), fine) {
            let (x, y, block) = choose|x: int, y: int, block: TileBlock| #[trigger]
                drawn_at(scene.wide, scene.paints, x, y, prev, fine, block);
            assert(drawn_at(wider.wide, wider.paints, x, y, prev, fine, block));
        }
        lemma_ready_step(wider, prev, fine);
    }
}

/// What is possible in one scene is possible in another of the same image, if the rasterizers at
/// hand are.
pub proof fn lemma_ready_widen<F: Rasterizer>(scene: Scene<F>, wider: Scene<F>)
    requires
        scene.same_image(wider),
        forall|i: int| 0 <= i < scene.pool.len() ==> wider.ready(#[trigger] scene.pool[i]),
    ensures
        forall|fine: F| #[trigger] scene.ready(fine) ==> wider.ready(fine),
        forall|x: int, y: int, block: TileBlock| #[trigger]
            scene.block_of(x, y, block) ==> wider.block_of(x, y, block),
{
    assert forall|fine: F| #[trigger] scene.ready(fine) implies wider.ready(fine) by {
        let steps = choose|steps: nat| #[trigger] scene.reached(fine, steps);
        lemma_reached_widen(scene, wider, fine, steps);
    }
    assert forall|x: int, y: int, block: TileBlock| #[trigger]
        scene.block_of(x, y, block) implies wider.block_of(x, y, block) by {
        let (a, b) = choose|a: F, b: F|
            scene.ready(a) && #[trigger] drawn_at(scene.wide, scene.paints, x, y, a, b, block);
        assert(drawn_at(wider.wide, wider.paints, x, y, a, b, block));
    }
}

/// Whether `fine` is what a pool may lend: the rasterizer that came in last, or else a new one.
pub open spec fn lent<F: Rasterizer>(pool: Seq<F>, width: u16, height: u16, fine: F) -> bool {
    if pool.len() > 0 {
        fine == pool.last()
    } else {
        call_ensures(F::new, (width, height), fine)
    }
}

/// What a pool holds while one of its rasterizers is lent.
pub open spec fn rest_of_pool<F: Rasterizer>(pool: Seq<F>) -> Seq<F> {
    if pool.len() > 0 {
        pool.drop_last()
    } else {
        pool
    }
}

/// Whether a rasterizer may be fresh from a reset.
pub open spec fn is_reset<F: Rasterizer>(fine: F) -> bool {
    exists|a: F| #[trigger] call_ensures(F::reset, (a,), fine)
}

/// The larger of two sizes of a pool.
pub open spec fn larger(a: int, b: int) -> int {
    if a < b {
        b
    } else {
        a
    }
}

/// Whether `after` is what may become of the rasterizers at hand while tiles are drawn by the
/// given number of workers: none is lost, and there are more only where there were fewer than
/// workers. All are in states that drawing leads to, and if all were reset then all are.
pub open spec fn pool_kept<F: Rasterizer>(scene: Scene<F>, after: Seq<F>, workers: int) -> bool {
    &&& scene.pool.len() <= after.len() <= larger(scene.pool.len() as int, workers)
    &&& forall|i: int| 0 <= i < after.len() ==> scene.ready(#[trigger] after[i])
    &&& (forall|i: int| 0 <= i < scene.pool.len() ==> is_reset(#[trigger] scene.pool[i])) ==> (
    forall|i: int| 0 <= i < after.len() ==> is_reset(#[trigger] after[i]))
}

/// Lends a rasterizer of the pool to `op`, a new one if the pool is empty. What `op` gives back
/// is reset and put into the pool.
pub fn with_thread_fine<F: Rasterizer, R, O: FnOnce(F) -> (F, R)>(
    pool: &mut Vec<F>,
    width: u16,
    height: u16,
    op: O,
) -> (result: R)
    requires
        forall|fine: F|
            #[trigger] lent(old(pool)@, width, height, fine) ==> call_requires(op, (fine,)),
    ensures
        exists|fine: F, used: F, back: F|
            {
                &&& lent(old(pool)@, width, height, fine)
                &&& #[trigger] call_ensures(op, (fine,), (used, result))
                &&& #[trigger] call_ensures(F::reset, (used,), back)
                &&& final(pool)@ == rest_of_pool(old(pool)@).push(back)
            },
        old(pool)@.len() > 0 ==> exists|used: F, back: F|
            {
                &&& #[trigger] call_ensures(op, (old(pool)@.last(),), (used, result))
                &&& #[trigger] call_ensures(F::reset, (used,), back)
                &&& final(pool)@ == old(pool)@.update(old(pool)@.len() - 1, back)
            },
        old(pool)@.len() == 0 ==> exists|fine: F, used: F, back: F|
            {
                &&& #[trigger] call_ensures(F::new, (width, height), fine)
                &&& #[trigger] call_ensures(op, (fine,), (used, result))
                &&& #[trigger] call_ensures(F::reset, (used,), back)
                &&& final(pool)@ == seq![back]
            },
{
    let fine: F = match pool.pop() {
        Some(fine) => fine,
        None => F::new(width, height),
    };
    assert(lent(old(pool)@, width, height, fine));
    let (used, result) = op(fine);
    let back: F = used.reset();
    pool.push(back);
    assert(pool@ =~= rest_of_pool(old(pool)@).push(back));
    proof {
        if old(pool)@.len() > 0 {
            assert(pool@ =~= old(pool)@.update(old(pool)@.len() - 1, back));
        } else {
            assert(pool@ =~= seq![back]);
        }
    }
    result
}

/// Draws the first `width_tiles` tiles of a tile row, from left to right.
pub fn draw_row<F: Rasterizer>(
    fine: F,
    wide: &Wide<F>,
    paints: &[F::Paint],
    y_tile: u16,
    width_tiles: u16,
) -> (drawn: (F, Vec<TileBlock>))
    requires
        wide.wf(),
        width_tiles <= wide.width_tiles,
        y_tile < wide.height_tiles,
    ensures
        drawn.1@.len() == width_tiles,
        row_run(*wide, paints@, y_tile as int, drawn.1@, fine, drawn.0),
{
    let ghost start = fine;
    let mut fine: F = fine;
    let mut blocks: Vec<TileBlock> = Vec::new();
    let mut x_tile: u16 = 0;
    while x_tile < width_tiles
        invariant
            wide.wf(),
            x_tile <= width_tiles <= wide.width_tiles,
            y_tile < wide.height_tiles,
            blocks@.len() == x_tile,
            row_run(*wide, paints@, y_tile as int, blocks@, start, fine),
        decreases width_tiles - x_tile,
    {
        let ghost before = fine;
        let ghost shown = blocks@;
        let (next, block) = draw_tile(
            fine,
            wide.get(x_tile, y_tile),
            wide.alphas.as_slice(),
            paints,
            x_tile,
            y_tile,
        );
        fine = next;
        blocks.push(block);
        proof {
            assert(blocks@.drop_last() =~= shown);
            assert(drawn_at(
                *wide,
                paints@,
                blocks@.len() - 1,
                y_tile as int,
                before,
                next,
                blocks@.last(),
            ));
        }
        x_tile = x_tile + 1;
    }
    (fine, blocks)
}

/// Whether the rasterizers of two scenes draw alike: any two blocks that may be drawn for a tile
/// that shows have the same bytes.
pub open spec fn agreeing<F: Rasterizer>(s: Scene<F>, t: Scene<F>) -> bool {
    forall|x: int, y: int, p: TileBlock, q: TileBlock|
        0 <= x && x * 256 < s.width && 0 <= y && y * 4 < s.height && #[trigger] s.block_of(x, y, p)
            && #[trigger] t.block_of(x, y, q) ==> p@ == q@
}

/// Whether rasterizers of two scenes are alike once they have been reset, whatever they drew
/// before: alike rasterizers stay alike while they do the same, and then show the same pixels.
/// What `alike` compares is left open. It need not be the whole state.
pub open spec fn forgetful<F: Rasterizer>(
    s: Scene<F>,
    t: Scene<F>,
    alike: spec_fn(F, F) -> bool,
) -> bool {
    &&& forall|a: F, b: F, p: F, q: F|
        s.ready(a) && t.ready(b) && #[trigger] call_ensures(F::reset, (a,), p)
            && #[trigger] call_ensures(F::reset, (b,), q) ==> alike(p, q)
    &&& forall|a: F, b: F, x: u16, y: u16, p: F, q: F|
        alike(a, b) && #[trigger] call_ensures(F::set_coords, (a, x, y), p)
            && #[trigger] call_ensures(F::set_coords, (b, x, y), q) ==> alike(p, q)
    &&& forall|a: F, b: F, bg: &F::Color, p: F, q: F|
        alike(a, b) && #[trigger] call_ensures(F::clear, (a, bg), p) && #[trigger] call_ensures(
            F::clear,
            (b, bg),
            q,
        ) ==> alike(p, q)
    &&& forall|a: F, b: F, cmd: F::Command, p: F, q: F|
        alike(a, b) && #[trigger] command_run(cmd, s.wide.alphas@, s.paints, a, p)
            && #[trigger] command_run(cmd, s.wide.alphas@, s.paints, b, q) ==> alike(p, q)
    &&& forall|a: &F, b: &F, p: TileBlock, q: TileBlock|
        alike(*a, *b) && #[trigger] call_ensures(F::top_block, (a,), p) && #[trigger] call_ensures(
            F::top_block,
            (b,),
            q,
        ) ==> p@ == q@
}

proof fn lemma_commands_alike<F: Rasterizer>(
    s: Scene<F>,
    t: Scene<F>,
    alike: spec_fn(F, F) -> bool,
    cmds: Seq<F::Command>,
    a: F,
    after_a: F,
    b: F,
    after_b: F,
)
    requires
        forgetful(s, t, alike),
        alike(a, b),
        commands_run(cmds, s.wide.alphas@, s.paints, a, after_a),
        commands_run(cmds, s.wide.alphas@, s.paints, b, after_b),
    ensures
        alike(after_a, after_b),
    decreases cmds.len(),
{
    if cmds.len() > 0 {
        let alphas = s.wide.alphas@;
        let m = choose|mid: F|
            commands_run(cmds.drop_last(), alphas, s.paints, a, mid) && #[trigger] command_run(
                cmds.last(),
                alphas,
                s.paints,
                mid,
                after_a,
            );
        let n = choose|mid: F|
            commands_run(cmds.drop_last(), alphas, s.paints, b, mid) && #[trigger] command_run(
                cmds.last(),
                alphas,
                s.paints,
                mid,
                after_b,
            );
        lemma_commands_alike(s, t, alike, cmds.drop_last(), a, m, b, n);
    }
}

/// It does not matter which rasterizer draws a tile, nor what it drew before: if rasterizers
/// forget when they are reset, the pixels are the same.
pub proof fn law_tile_does_not_depend_on_the_rasterizer<F: Rasterizer>(
    s: Scene<F>,
    t: Scene<F>,
    alike: spec_fn(F, F) -> bool,
    x: int,
    y: int,
    a: F,
    after_a: F,
    block_a: TileBlock,
    b: F,
    after_b: F,
    block_b: TileBlock,
)
    requires
        s.same_image(t),
        forgetful(s, t, alike),
        s.ready(a),
        drawn_at(s.wide, s.paints, x, y, a, after_a, block_a),
        t.ready(b),
        drawn_at(t.wide, t.paints, x, y, b, after_b, block_b),
    ensures
        alike(after_a, after_b),
        block_a@ == block_b@,
{
    let tile = s.wide.tile(x, y);
    let (blank_a, placed_a, cleared_a) = choose|blank: F, placed: F, cleared: F|
        {
            &&& #[trigger] call_ensures(F::reset, (a,), blank)
            &&& #[trigger] call_ensures(F::set_coords, (blank, x as u16, y as u16), placed)
            &&& #[trigger] call_ensures(F::clear, (placed, &tile.bg), cleared)
            &&& commands_run(tile.cmds@, s.wide.alphas@, s.paints, cleared, after_a)
            &&& call_ensures(F::top_block, (&after_a,), block_a)
        };
    let (blank_b, placed_b, cleared_b) = choose|blank: F, placed: F, cleared: F|
        {
            &&& #[trigger] call_ensures(F::reset, (b,), blank)
            &&& #[trigger] call_ensures(F::set_coords, (blank, x as u16, y as u16), placed)
            &&& #[trigger] call_ensures(F::clear, (placed, &tile.bg), cleared)
            &&& commands_run(tile.cmds@, s.wide.alphas@, s.paints, cleared, after_b)
            &&& call_ensures(F::top_block, (&after_b,), block_b)
        };
    assert(alike(blank_a, blank_b));
    assert(alike(placed_a, placed_b));
    assert(alike(cleared_a, cleared_b));
    lemma_commands_alike(s, t, alike, tile.cmds@, cleared_a, after_a, cleared_b, after_b);
}

/// Rasterizers that forget when they are reset draw alike.
pub proof fn law_forgetful_rasterizers_agree<F: Rasterizer>(
    s: Scene<F>,
    t: Scene<F>,
    alike: spec_fn(F, F) -> bool,
)
    requires
        s.same_image(t),
        forgetful(s, t, alike),
    ensures
        agreeing(s, t),
{
    assert forall|x: int, y: int, p: TileBlock, q: TileBlock|
        0 <= x && x * 256 < s.width && 0 <= y && y * 4 < s.height && #[trigger] s.block_of(x, y, p)
            && #[trigger] t.block_of(x, y, q) implies p@ == q@ by {
        let (a, after_a) = choose|a: F, b: F|
            s.ready(a) && #[trigger] drawn_at(s.wide, s.paints, x, y, a, b, p);
        let (b, after_b) = choose|a: F, b: F|
            t.ready(a) && #[trigger] drawn_at(t.wide, t.paints, x, y, a, b, q);
        law_tile_does_not_depend_on_the_rasterizer(
            s,
            t,
            alike,
            x,
            y,
            a,
            after_a,
            p,
            b,
            after_b,
            q,
        );
    }
}

} // verus!
