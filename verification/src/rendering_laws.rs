use crate::context::{EncodedPaint, Pixmap, RenderContext, RenderMode};
use crate::fine::{draw_row, draw_tile, with_thread_fine, Rasterizer, Scene, Wide, WideTile};
use crate::tiles::{
    render_single_tile_row, render_tile_rows_recursive, render_tiles_parallel,
    render_tiles_sequential, TileBlock,
};
use vstd::prelude::*;

verus! {

/// The states that a rasterizer goes through while it runs commands in order.
proof fn lemma_command_states<F: Rasterizer>(
    cmds: Seq<F::Command>,
    alphas: Seq<u8>,
    paints: Seq<F::Paint>,
    a: F,
    b: F,
) -> (states: Seq<F>)
    requires
        crate::fine::commands_run(cmds, alphas, paints, a, b),
    ensures
        states.len() == cmds.len() + 1,
        states[0] == a,
        states.last() == b,
        forall|i: int|
            0 <= i < cmds.len() ==> crate::fine::command_run(
                #[trigger] cmds[i],
                alphas,
                paints,
                states[i],
                states[i + 1],
            ),
    decreases cmds.len(),
{
    if cmds.len() == 0 {
        seq![a]
    } else {
        let mid = choose|mid: F|
            crate::fine::commands_run(cmds.drop_last(), alphas, paints, a, mid)
                && #[trigger] crate::fine::command_run(cmds.last(), alphas, paints, mid, b);
        let first = lemma_command_states(cmds.drop_last(), alphas, paints, a, mid);
        let states = first.push(b);
        assert forall|i: int| 0 <= i < cmds.len() implies crate::fine::command_run(
            #[trigger] cmds[i],
            alphas,
            paints,
            states[i],
            states[i + 1],
        ) by {
            if i < cmds.len() - 1 {
                assert(cmds.drop_last()[i] == cmds[i]);
                assert(states[i] == first[i] && states[i + 1] == first[i + 1]);
            }
        }
        states
    }
}

/// A command is run with all coverage values and all paints.
pub proof fn law_command_is_run_with_all_values<'a, F: Rasterizer>(
    cmd: F::Command,
    alphas: Seq<u8>,
    paints: Seq<F::Paint>,
    a: F,
    b: F,
) -> (given: (&'a [u8], &'a [F::Paint]))
    requires
        crate::fine::command_run(cmd, alphas, paints, a, b),
    ensures
        given.0@ == alphas,
        given.1@ == paints,
        call_ensures(F::run_cmd, (a, &cmd, given.0, given.1), b),
{
    choose|al: &'a [u8], pa: &'a [F::Paint]|
        al@ == alphas && pa@ == paints && #[trigger] call_ensures(F::run_cmd, (a, &cmd, al, pa), b)
}

/// What drawing a tile does, step by step.
proof fn lemma_tile_steps<F: Rasterizer>(
    tile: WideTile<F>,
    alphas: Seq<u8>,
    paints: Seq<F::Paint>,
    x: u16,
    y: u16,
    a: F,
    b: F,
    block: TileBlock,
) -> (drawn: (TileBlock, F, F, F, Seq<F>))
    requires
        crate::fine::tile_drawn(tile, alphas, paints, x, y, a, b, block),
    ensures
        drawn.0 == block,
        drawn.1 == a,
        drawn.4.last() == b,
        call_ensures(F::reset, (drawn.1,), drawn.2),
        call_ensures(F::set_coords, (drawn.2, x, y), drawn.3),
        call_ensures(
            F::clear,
            (drawn.3, &tile.bg),
            drawn.4[0],
        ),
        drawn.4.len() == tile.cmds@.len() + 1,
        forall|i: int|
            0 <= i < tile.cmds@.len() ==> crate::fine::command_run(
                #[trigger] tile.cmds@[i],
                alphas,
                paints,
                drawn.4[i],
                drawn.4[i + 1],
            ),
        call_ensures(F::top_block, (&drawn.4.last(),), drawn.0),
        tile.cmds@.len() == 0 ==> exists|cleared: F|
            #[trigger] call_ensures(
                F::clear,
                (drawn.3, &tile.bg),
                cleared,
            ) && call_ensures(F::top_block, (&cleared,), drawn.0),
{
    let (blank, placed, cleared) = choose|blank: F, placed: F, cleared: F|
        {
            &&& #[trigger] call_ensures(F::reset, (a,), blank)
            &&& #[trigger] call_ensures(F::set_coords, (blank, x, y), placed)
            &&& #[trigger] call_ensures(F::clear, (placed, &tile.bg), cleared)
            &&& crate::fine::commands_run(tile.cmds@, alphas, paints, cleared, b)
            &&& call_ensures(F::top_block, (&b,), block)
        };
    let states = lemma_command_states(tile.cmds@, alphas, paints, cleared, b);
    (block, a, blank, placed, states)
}

/// Drawing a tile resets the rasterizer, moves it to the tile, clears it to the tile's background,
/// and runs all of the tile's commands in order, with all coverage values and paints. What is
/// given back is the topmost block of the state in which that leaves the rasterizer, and the
/// rasterizer in that state. A tile without commands shows its background.
///
/// The states are returned: those before and after the reset, after the move, and from the clear
/// on after each command.
pub proof fn law_tile_is_cleared_and_its_commands_run<F: Rasterizer>(
    fine: F,
    tile: &WideTile<F>,
    alphas: &[u8],
    paints: &[F::Paint],
    x: u16,
    y: u16,
    result: (F, TileBlock),
) -> (drawn: (TileBlock, F, F, F, Seq<F>))
    requires
        call_ensures(draw_tile::<F>, (fine, tile, alphas, paints, x, y), result),
    ensures
        drawn.0 == result.1,
        drawn.1 == fine,
        drawn.4.last() == result.0,
        call_ensures(F::reset, (drawn.1,), drawn.2),
        call_ensures(F::set_coords, (drawn.2, x, y), drawn.3),
        call_ensures(
            F::clear,
            (drawn.3, &tile.bg),
            drawn.4[0],
        ),
        drawn.4.len() == tile.cmds@.len() + 1,
        forall|i: int|
            0 <= i < tile.cmds@.len() ==> crate::fine::command_run(
                #[trigger] tile.cmds@[i],
                alphas@,
                paints@,
                drawn.4[i],
                drawn.4[i + 1],
            ),
        call_ensures(F::top_block, (&drawn.4.last(),), drawn.0),
        tile.cmds@.len() == 0 ==> exists|cleared: F|
            #[trigger] call_ensures(
                F::clear,
                (drawn.3, &tile.bg),
                cleared,
            ) && call_ensures(F::top_block, (&cleared,), drawn.0),
{
    lemma_tile_steps(*tile, alphas@, paints@, x, y, fine, result.0, result.1)
}

/// The same of a tile of an image, by its place among the tiles.
pub proof fn law_tile_of_an_image_is_cleared_and_its_commands_run<F: Rasterizer>(
    wide: Wide<F>,
    paints: Seq<F::Paint>,
    x: int,
    y: int,
    a: F,
    b: F,
    block: TileBlock,
) -> (drawn: (TileBlock, F, F, F, Seq<F>))
    requires
        crate::fine::drawn_at(wide, paints, x, y, a, b, block),
    ensures
        drawn.0 == block,
        drawn.1 == a,
        drawn.4.last() == b,
        call_ensures(F::reset, (drawn.1,), drawn.2),
        call_ensures(F::set_coords, (drawn.2, x as u16, y as u16), drawn.3),
        call_ensures(
            F::clear,
            (drawn.3, &wide.tiles@[y * wide.width_tiles + x].bg),
            drawn.4[0],
        ),
        drawn.4.len() == wide.tiles@[y * wide.width_tiles + x].cmds@.len() + 1,
        forall|i: int|
            0 <= i < wide.tiles@[y * wide.width_tiles + x].cmds@.len() ==> crate::fine::command_run(
                #[trigger] wide.tiles@[y * wide.width_tiles + x].cmds@[i],
                wide.alphas@,
                paints,
                drawn.4[i],
                drawn.4[i + 1],
            ),
        call_ensures(F::top_block, (&drawn.4.last(),), drawn.0),
        wide.tiles@[y * wide.width_tiles + x].cmds@.len() == 0 ==> exists|cleared: F|
            #[trigger] call_ensures(
                F::clear,
                (drawn.3, &wide.tiles@[y * wide.width_tiles + x].bg),
                cleared,
            ) && call_ensures(F::top_block, (&cleared,), drawn.0),
{
    lemma_tile_steps(
        wide.tiles@[y * wide.width_tiles + x],
        wide.alphas@,
        paints,
        x as u16,
        y as u16,
        a,
        b,
        block,
    )
}

/// A pixel that is rendered shows its tile: each of its bytes is that of the pixel at its place
/// in the block that drawing the tile gives, column by column, and the tile is drawn as every tile
/// is, by a rasterizer that is at hand or made for the image.
pub proof fn law_pixel_shows_its_tile<F: Rasterizer>(
    scene: Scene<F>,
    before: Seq<u8>,
    after: Seq<u8>,
    width_tiles: int,
    y_start: int,
    y_end: int,
    origin: int,
    row: int,
    col: int,
) -> (drawn: (TileBlock, F, F, F, Seq<F>))
    requires
        crate::tiles::rows_rendered(scene, before, after, width_tiles, y_start, y_end, origin),
        y_start * 4 <= row < y_end * 4,
        0 <= row < scene.height,
        0 <= col < scene.width,
        col < width_tiles * 256,
    ensures
        scene.ready(drawn.1),
        after[((row - origin) * scene.width + col) * 4 + 0] == drawn.0@[(col % 256 * 4 + row % 4) * 4 + 0],
        after[((row - origin) * scene.width + col) * 4 + 1] == drawn.0@[(col % 256 * 4 + row % 4) * 4 + 1],
        after[((row - origin) * scene.width + col) * 4 + 2] == drawn.0@[(col % 256 * 4 + row % 4) * 4 + 2],
        after[((row - origin) * scene.width + col) * 4 + 3] == drawn.0@[(col % 256 * 4 + row % 4) * 4 + 3],
        call_ensures(F::reset, (drawn.1,), drawn.2),
        call_ensures(F::set_coords, (drawn.2, (col / 256) as u16, (row / 4) as u16), drawn.3),
        call_ensures(
            F::clear,
            (drawn.3, &scene.wide.tiles@[row / 4 * scene.wide.width_tiles + col / 256].bg),
            drawn.4[0],
        ),
        drawn.4.len() == scene.wide.tiles@[row / 4 * scene.wide.width_tiles + col / 256].cmds@.len() + 1,
        forall|i: int|
            0 <= i < scene.wide.tiles@[row / 4 * scene.wide.width_tiles + col / 256].cmds@.len() ==> crate::fine::command_run(
                #[trigger] scene.wide.tiles@[row / 4 * scene.wide.width_tiles + col / 256].cmds@[i],
                scene.wide.alphas@,
                scene.paints,
                drawn.4[i],
                drawn.4[i + 1],
            ),
        call_ensures(F::top_block, (&drawn.4.last(),), drawn.0),
        scene.wide.tiles@[row / 4 * scene.wide.width_tiles + col / 256].cmds@.len() == 0 ==> exists|cleared: F|
            #[trigger] call_ensures(
                F::clear,
                (drawn.3, &scene.wide.tiles@[row / 4 * scene.wide.width_tiles + col / 256].bg),
                cleared,
            ) && call_ensures(F::top_block, (&cleared,), drawn.0),
{
    let x = col / 256;
    let y = row / 4;
    let width = scene.width as int;
    let rows = crate::tiles::visible_rows(scene.height as int, y);
    assert(crate::tiles::tile_in_place(scene, after, origin, x, y));
    let block = choose|block: TileBlock| #[trigger]
        scene.block_of(x, y, block) && crate::tiles::tile_shown(
            after,
            block@,
            width,
            y * 4 - origin,
            rows,
            x,
        );
    let (a, b) = choose|a: F, b: F|
        scene.ready(a) && #[trigger] crate::fine::drawn_at(
            scene.wide,
            scene.paints,
            x,
            y,
            a,
            b,
            block,
        );
    assert(row - origin - (y * 4 - origin) == row % 4);
    assert(col - x * 256 == col % 256);
    assert(crate::tiles::sample(after, width, row - origin, col, 0) == crate::tiles::block_sample(
        block@,
        row - origin - (y * 4 - origin),
        col - x * 256,
        0,
    ));
    assert(crate::tiles::sample(after, width, row - origin, col, 1) == crate::tiles::block_sample(
        block@,
        row - origin - (y * 4 - origin),
        col - x * 256,
        1,
    ));
    assert(crate::tiles::sample(after, width, row - origin, col, 2) == crate::tiles::block_sample(
        block@,
        row - origin - (y * 4 - origin),
        col - x * 256,
        2,
    ));
    assert(crate::tiles::sample(after, width, row - origin, col, 3) == crate::tiles::block_sample(
        block@,
        row - origin - (y * 4 - origin),
        col - x * 256,
        3,
    ));
    law_tile_of_an_image_is_cleared_and_its_commands_run(
        scene.wide,
        scene.paints,
        x,
        y,
        a,
        b,
        block,
    )
}

/// A byte that no rendered tile covers stays as it was: those of columns to the right of the tiles
/// and of rows above and below them.
pub proof fn law_other_pixels_stay<F: Rasterizer>(
    scene: Scene<F>,
    before: Seq<u8>,
    after: Seq<u8>,
    width_tiles: int,
    y_start: int,
    y_end: int,
    origin: int,
    r: int,
    col: int,
    c: int,
)
    requires
        crate::tiles::rows_rendered(scene, before, after, width_tiles, y_start, y_end, origin),
        0 <= r,
        0 <= col < scene.width,
        0 <= c < 4,
        (r * scene.width + col) * 4 + c < before.len(),
        col >= width_tiles * 256 || r + origin < y_start * 4 || r + origin >= y_end * 4,
    ensures
        after.len() == before.len(),
        after[(r * scene.width + col) * 4 + c] == before[(r * scene.width + col) * 4 + c],
{
    let width = scene.width as int;
    assert(crate::tiles::in_buffer(before.len() as int, width, r, col, c));
    assert(crate::tiles::sample(after, width, r, col, c) == crate::tiles::sample(
        before,
        width,
        r,
        col,
        c,
    ));
}

/// Rendering in turn shows every tile at its place, and leaves all other bytes as they were. The
/// rasterizer that draws is one made for an image of the given size.
pub proof fn law_rendering_in_turn_shows_each_tile<F: Rasterizer>(
    wide: &Wide<F>,
    paints: &[F::Paint],
    width: u16,
    height: u16,
    width_tiles: usize,
    height_tiles: usize,
    buffer: &mut [u8],
    after: Seq<u8>,
    row: int,
    col: int,
) -> (drawn: (TileBlock, F, F, F, Seq<F>))
    requires
        after == final(buffer)@,
        call_ensures(
            render_tiles_sequential::<F>,
            (wide, paints, width, height, width_tiles, height_tiles, buffer),
            (),
        ),
        0 <= row < height,
        row < height_tiles * 4,
        0 <= col < width,
        col < width_tiles * 256,
    ensures
        after.len() == old(buffer)@.len(),
        (Scene {
            wide: *wide,
            paints: paints@,
            width: width,
            height: height,
            pool: Seq::empty(),
        }).ready(drawn.1),
        after[(row * width + col) * 4 + 0] == drawn.0@[(col % 256 * 4 + row % 4) * 4 + 0],
        after[(row * width + col) * 4 + 1] == drawn.0@[(col % 256 * 4 + row % 4) * 4 + 1],
        after[(row * width + col) * 4 + 2] == drawn.0@[(col % 256 * 4 + row % 4) * 4 + 2],
        after[(row * width + col) * 4 + 3] == drawn.0@[(col % 256 * 4 + row % 4) * 4 + 3],
        call_ensures(F::reset, (drawn.1,), drawn.2),
        call_ensures(F::set_coords, (drawn.2, (col / 256) as u16, (row / 4) as u16), drawn.3),
        call_ensures(
            F::clear,
            (drawn.3, &wide.tiles@[row / 4 * wide.width_tiles + col / 256].bg),
            drawn.4[0],
        ),
        drawn.4.len() == wide.tiles@[row / 4 * wide.width_tiles + col / 256].cmds@.len() + 1,
        forall|i: int|
            0 <= i < wide.tiles@[row / 4 * wide.width_tiles + col / 256].cmds@.len() ==> crate::fine::command_run(
                #[trigger] wide.tiles@[row / 4 * wide.width_tiles + col / 256].cmds@[i],
                wide.alphas@,
                paints@,
                drawn.4[i],
                drawn.4[i + 1],
            ),
        call_ensures(F::top_block, (&drawn.4.last(),), drawn.0),
        wide.tiles@[row / 4 * wide.width_tiles + col / 256].cmds@.len() == 0 ==> exists|cleared: F|
            #[trigger] call_ensures(
                F::clear,
                (drawn.3, &wide.tiles@[row / 4 * wide.width_tiles + col / 256].bg),
                cleared,
            ) && call_ensures(F::top_block, (&cleared,), drawn.0),
{
    law_pixel_shows_its_tile(
        Scene::of(*wide, paints@, width, height, Seq::empty()),
        old(buffer)@,
        after,
        width_tiles as int,
        0,
        height_tiles as int,
        0,
        row,
        col,
    )
}

/// Rendering in parallel shows every tile at its place. The rasterizers that draw are those of the
/// pool and ones made for an image of the given size.
pub proof fn law_rendering_in_parallel_shows_each_tile<F: Rasterizer + Send>(
    wide: &Wide<F>,
    paints: &[F::Paint],
    width: u16,
    height: u16,
    width_tiles: usize,
    height_tiles: usize,
    buffer: &mut [u8],
    workers: usize,
    pool: &mut Vec<F>,
    after: Seq<u8>,
    row: int,
    col: int,
) -> (drawn: (TileBlock, F, F, F, Seq<F>))
    where
        F::Color: Sync,
        F::Command: Sync,
        F::Paint: Sync,
    requires
        after == final(buffer)@,
        call_ensures(
            render_tiles_parallel::<F>,
            (wide, paints, width, height, width_tiles, height_tiles, buffer, workers, pool),
            (),
        ),
        0 <= row < height,
        row < height_tiles * 4,
        0 <= col < width,
        col < width_tiles * 256,
    ensures
        after.len() == old(buffer)@.len(),
        (Scene {
            wide: *wide,
            paints: paints@,
            width: width,
            height: height,
            pool: old(pool)@,
        }).ready(drawn.1),
        after[(row * width + col) * 4 + 0] == drawn.0@[(col % 256 * 4 + row % 4) * 4 + 0],
        after[(row * width + col) * 4 + 1] == drawn.0@[(col % 256 * 4 + row % 4) * 4 + 1],
        after[(row * width + col) * 4 + 2] == drawn.0@[(col % 256 * 4 + row % 4) * 4 + 2],
        after[(row * width + col) * 4 + 3] == drawn.0@[(col % 256 * 4 + row % 4) * 4 + 3],
        call_ensures(F::reset, (drawn.1,), drawn.2),
        call_ensures(F::set_coords, (drawn.2, (col / 256) as u16, (row / 4) as u16), drawn.3),
        call_ensures(
            F::clear,
            (drawn.3, &wide.tiles@[row / 4 * wide.width_tiles + col / 256].bg),
            drawn.4[0],
        ),
        drawn.4.len() == wide.tiles@[row / 4 * wide.width_tiles + col / 256].cmds@.len() + 1,
        forall|i: int|
            0 <= i < wide.tiles@[row / 4 * wide.width_tiles + col / 256].cmds@.len() ==> crate::fine::command_run(
                #[trigger] wide.tiles@[row / 4 * wide.width_tiles + col / 256].cmds@[i],
                wide.alphas@,
                paints@,
                drawn.4[i],
                drawn.4[i + 1],
            ),
        call_ensures(F::top_block, (&drawn.4.last(),), drawn.0),
        wide.tiles@[row / 4 * wide.width_tiles + col / 256].cmds@.len() == 0 ==> exists|cleared: F|
            #[trigger] call_ensures(
                F::clear,
                (drawn.3, &wide.tiles@[row / 4 * wide.width_tiles + col / 256].bg),
                cleared,
            ) && call_ensures(F::top_block, (&cleared,), drawn.0),
{
    law_pixel_shows_its_tile(
        Scene::of(*wide, paints@, width, height, old(pool)@),
        old(buffer)@,
        after,
        width_tiles as int,
        0,
        height_tiles as int,
        0,
        row,
        col,
    )
}

/// Rendering tile rows of a strip shows every tile of theirs at its place in the strip, whose
/// first pixel row is `row_start_px`.
pub proof fn law_rendering_a_strip_shows_each_tile<F: Rasterizer + Send>(
    wide: &Wide<F>,
    paints: &[F::Paint],
    width: u16,
    height: u16,
    width_tiles: usize,
    buffer: &mut [u8],
    y_start: usize,
    y_end: usize,
    row_start_px: usize,
    workers: usize,
    pool: &mut Vec<F>,
    after: Seq<u8>,
    row: int,
    col: int,
) -> (drawn: (TileBlock, F, F, F, Seq<F>))
    where
        F::Color: Sync,
        F::Command: Sync,
        F::Paint: Sync,
    requires
        after == final(buffer)@,
        call_ensures(
            render_tile_rows_recursive::<F>,
            (
                wide,
                paints,
                width,
                height,
                width_tiles,
                buffer,
                y_start,
                y_end,
                row_start_px,
                workers,
                pool,
            ),
            (),
        ),
        old(buffer)@.len() > 0,
        y_start * 4 <= row < y_end * 4,
        0 <= row < height,
        0 <= col < width,
        col < width_tiles * 256,
    ensures
        after.len() == old(buffer)@.len(),
        (Scene {
            wide: *wide,
            paints: paints@,
            width: width,
            height: height,
            pool: old(pool)@,
        }).ready(drawn.1),
        after[((row - row_start_px) * width + col) * 4 + 0] == drawn.0@[(col % 256 * 4 + row % 4) * 4 + 0],
        after[((row - row_start_px) * width + col) * 4 + 1] == drawn.0@[(col % 256 * 4 + row % 4) * 4 + 1],
        after[((row - row_start_px) * width + col) * 4 + 2] == drawn.0@[(col % 256 * 4 + row % 4) * 4 + 2],
        after[((row - row_start_px) * width + col) * 4 + 3] == drawn.0@[(col % 256 * 4 + row % 4) * 4 + 3],
        call_ensures(F::reset, (drawn.1,), drawn.2),
        call_ensures(F::set_coords, (drawn.2, (col / 256) as u16, (row / 4) as u16), drawn.3),
        call_ensures(
            F::clear,
            (drawn.3, &wide.tiles@[row / 4 * wide.width_tiles + col / 256].bg),
            drawn.4[0],
        ),
        drawn.4.len() == wide.tiles@[row / 4 * wide.width_tiles + col / 256].cmds@.len() + 1,
        forall|i: int|
            0 <= i < wide.tiles@[row / 4 * wide.width_tiles + col / 256].cmds@.len() ==> crate::fine::command_run(
                #[trigger] wide.tiles@[row / 4 * wide.width_tiles + col / 256].cmds@[i],
                wide.alphas@,
                paints@,
                drawn.4[i],
                drawn.4[i + 1],
            ),
        call_ensures(F::top_block, (&drawn.4.last(),), drawn.0),
        wide.tiles@[row / 4 * wide.width_tiles + col / 256].cmds@.len() == 0 ==> exists|cleared: F|
            #[trigger] call_ensures(
                F::clear,
                (drawn.3, &wide.tiles@[row / 4 * wide.width_tiles + col / 256].bg),
                cleared,
            ) && call_ensures(F::top_block, (&cleared,), drawn.0),
{
    law_pixel_shows_its_tile(
        Scene::of(*wide, paints@, width, height, old(pool)@),
        old(buffer)@,
        after,
        width_tiles as int,
        y_start as int,
        y_end as int,
        row_start_px as int,
        row,
        col,
    )
}

/// Every pixel that a context's tiles cover shows its tile, whatever the size of the image and the
/// number of threads. At the context's own size these are all pixels. On the calling thread only a
/// rasterizer made for the image draws, and the pool stays as it is.
pub proof fn law_every_pixel_of_a_context_shows_its_tile<
    C,
    I,
    S,
    F: Rasterizer<Paint = EncodedPaint<I, S>> + Send,
>(
    ctx: &RenderContext<C, I, S>,
    buffer: &mut [u8],
    width: u16,
    height: u16,
    configured: Option<usize>,
    workers: usize,
    wide: &Wide<F>,
    pool: &mut Vec<F>,
    after: Seq<u8>,
    row: int,
    col: int,
) -> (drawn: (TileBlock, F, F, F, Seq<F>))
    where
        F::Color: Sync,
        F::Command: Sync,
        I: Sync,
        S: Sync,
    requires
        after == final(buffer)@,
        call_ensures(
            RenderContext::<C, I, S>::render_to_buffer::<F>,
            (ctx, buffer, width, height, configured, workers, wide, pool),
            (),
        ),
        old(buffer)@.len() == width * height * 4,
        ctx.width > 0,
        ctx.height > 0,
        0 <= row < height,
        row < ctx.height || row / 4 == (ctx.height - 1) / 4,
        0 <= col < width,
        col < ctx.width || col / 256 == (ctx.width - 1) / 256,
    ensures
        after.len() == old(buffer)@.len(),
        ctx.thread_limit == Some(1usize) ==> final(pool)@ == old(pool)@,
        ctx.thread_limit is None && configured == Some(1usize) ==> final(pool)@ == old(pool)@,
        (Scene {
            wide: *wide,
            paints: ctx.encoded_paints@,
            width: width,
            height: height,
            pool: old(pool)@,
        }).ready(drawn.1),
        ctx.thread_limit == Some(1usize) ==> (Scene {
            wide: *wide,
            paints: ctx.encoded_paints@,
            width: width,
            height: height,
            pool: Seq::empty(),
        }).ready(drawn.1),
        after[(row * width + col) * 4 + 0] == drawn.0@[(col % 256 * 4 + row % 4) * 4 + 0],
        after[(row * width + col) * 4 + 1] == drawn.0@[(col % 256 * 4 + row % 4) * 4 + 1],
        after[(row * width + col) * 4 + 2] == drawn.0@[(col % 256 * 4 + row % 4) * 4 + 2],
        after[(row * width + col) * 4 + 3] == drawn.0@[(col % 256 * 4 + row % 4) * 4 + 3],
        call_ensures(F::reset, (drawn.1,), drawn.2),
        call_ensures(F::set_coords, (drawn.2, (col / 256) as u16, (row / 4) as u16), drawn.3),
        call_ensures(
            F::clear,
            (drawn.3, &wide.tiles@[row / 4 * wide.width_tiles + col / 256].bg),
            drawn.4[0],
        ),
        drawn.4.len() == wide.tiles@[row / 4 * wide.width_tiles + col / 256].cmds@.len() + 1,
        forall|i: int|
            0 <= i < wide.tiles@[row / 4 * wide.width_tiles + col / 256].cmds@.len() ==> crate::fine::command_run(
                #[trigger] wide.tiles@[row / 4 * wide.width_tiles + col / 256].cmds@[i],
                wide.alphas@,
                ctx.encoded_paints@,
                drawn.4[i],
                drawn.4[i + 1],
            ),
        call_ensures(F::top_block, (&drawn.4.last(),), drawn.0),
        wide.tiles@[row / 4 * wide.width_tiles + col / 256].cmds@.len() == 0 ==> exists|cleared: F|
            #[trigger] call_ensures(
                F::clear,
                (drawn.3, &wide.tiles@[row / 4 * wide.width_tiles + col / 256].bg),
                cleared,
            ) && call_ensures(F::top_block, (&cleared,), drawn.0),
{
    let w = width as int;
    let h = height as int;
    assert(w * h * 4 > 0) by (nonlinear_arith)
        requires
            w > 0,
            h > 0,
    ;
    let scene = Scene::of(*wide, ctx.encoded_paints@, width, height, old(pool)@);
    let alone = Scene::of(*wide, ctx.encoded_paints@, width, height, Seq::empty());
    if ctx.mode(configured) is Sequential {
        crate::fine::lemma_ready_widen(alone, scene);
    }
    law_pixel_shows_its_tile(
        if ctx.mode(configured) is Sequential {
            alone
        } else {
            scene
        },
        old(buffer)@,
        after,
        ctx.spec_width_tiles(),
        0,
        ctx.spec_height_tiles(),
        0,
        row,
        col,
    )
}

/// The same of a pixmap.
pub proof fn law_every_pixel_of_a_pixmap_shows_its_tile<
    C,
    I,
    S,
    F: Rasterizer<Paint = EncodedPaint<I, S>> + Send,
>(
    ctx: &RenderContext<C, I, S>,
    pixmap: &mut Pixmap,
    width: u16,
    height: u16,
    configured: Option<usize>,
    workers: usize,
    wide: &Wide<F>,
    pool: &mut Vec<F>,
    after: Seq<u8>,
    row: int,
    col: int,
) -> (drawn: (TileBlock, F, F, F, Seq<F>))
    where
        F::Color: Sync,
        F::Command: Sync,
        I: Sync,
        S: Sync,
    requires
        after == final(pixmap).data@,
        call_ensures(
            RenderContext::<C, I, S>::render_to_pixmap::<F>,
            (ctx, pixmap, configured, workers, wide, pool),
            (),
        ),
        old(pixmap).width == width,
        old(pixmap).height == height,
        old(pixmap).data@.len() == width * height * 4,
        ctx.width > 0,
        ctx.height > 0,
        0 <= row < height,
        row < ctx.height || row / 4 == (ctx.height - 1) / 4,
        0 <= col < width,
        col < ctx.width || col / 256 == (ctx.width - 1) / 256,
    ensures
        final(pixmap).width == old(pixmap).width,
        final(pixmap).height == old(pixmap).height,
        after.len() == old(pixmap).data@.len(),
        (Scene {
            wide: *wide,
            paints: ctx.encoded_paints@,
            width: width,
            height: height,
            pool: old(pool)@,
        }).ready(drawn.1),
        after[(row * width + col) * 4 + 0] == drawn.0@[(col % 256 * 4 + row % 4) * 4 + 0],
        after[(row * width + col) * 4 + 1] == drawn.0@[(col % 256 * 4 + row % 4) * 4 + 1],
        after[(row * width + col) * 4 + 2] == drawn.0@[(col % 256 * 4 + row % 4) * 4 + 2],
        after[(row * width + col) * 4 + 3] == drawn.0@[(col % 256 * 4 + row % 4) * 4 + 3],
        call_ensures(F::reset, (drawn.1,), drawn.2),
        call_ensures(F::set_coords, (drawn.2, (col / 256) as u16, (row / 4) as u16), drawn.3),
        call_ensures(
            F::clear,
            (drawn.3, &wide.tiles@[row / 4 * wide.width_tiles + col / 256].bg),
            drawn.4[0],
        ),
        drawn.4.len() == wide.tiles@[row / 4 * wide.width_tiles + col / 256].cmds@.len() + 1,
        forall|i: int|
            0 <= i < wide.tiles@[row / 4 * wide.width_tiles + col / 256].cmds@.len() ==> crate::fine::command_run(
                #[trigger] wide.tiles@[row / 4 * wide.width_tiles + col / 256].cmds@[i],
                wide.alphas@,
                ctx.encoded_paints@,
                drawn.4[i],
                drawn.4[i + 1],
            ),
        call_ensures(F::top_block, (&drawn.4.last(),), drawn.0),
        wide.tiles@[row / 4 * wide.width_tiles + col / 256].cmds@.len() == 0 ==> exists|cleared: F|
            #[trigger] call_ensures(
                F::clear,
                (drawn.3, &wide.tiles@[row / 4 * wide.width_tiles + col / 256].bg),
                cleared,
            ) && call_ensures(F::top_block, (&cleared,), drawn.0),
{
    let w = width as int;
    let h = height as int;
    assert(w * h * 4 > 0) by (nonlinear_arith)
        requires
            w > 0,
            h > 0,
    ;
    let scene = Scene::of(*wide, ctx.encoded_paints@, width, height, old(pool)@);
    let alone = Scene::of(*wide, ctx.encoded_paints@, width, height, Seq::empty());
    if ctx.mode(configured) is Sequential {
        crate::fine::lemma_ready_widen(alone, scene);
    }
    law_pixel_shows_its_tile(
        if ctx.mode(configured) is Sequential {
            alone
        } else {
            scene
        },
        old(pixmap).data@,
        after,
        ctx.spec_width_tiles(),
        0,
        ctx.spec_height_tiles(),
        0,
        row,
        col,
    )
}

/// Whatever holds of the rasterizers at hand, and of those made for the size of the image, and
/// stays so when a rasterizer is reset or draws a tile of the image, holds of every rasterizer
/// that draws.
pub proof fn law_only_proper_rasterizers_draw<F: Rasterizer>(
    scene: Scene<F>,
    proper: spec_fn(F) -> bool,
    fine: F,
)
    requires
        scene.ready(fine),
        forall|i: int| 0 <= i < scene.pool.len() ==> proper(#[trigger] scene.pool[i]),
        forall|made: F| #[trigger]
            call_ensures(F::new, (scene.width, scene.height), made) ==> proper(made),
        forall|a: F, b: F| proper(a) && #[trigger] call_ensures(F::reset, (a,), b) ==> proper(b),
        forall|x: int, y: int, a: F, b: F, block: TileBlock|
            proper(a) && #[trigger] crate::fine::drawn_at(
                scene.wide,
                scene.paints,
                x,
                y,
                a,
                b,
                block,
            ) ==> proper(b),
    ensures
        proper(fine),
{
    let steps = choose|steps: nat| #[trigger] scene.reached(fine, steps);
    lemma_proper(scene, proper, fine, steps);
}

proof fn lemma_proper<F: Rasterizer>(
    scene: Scene<F>,
    proper: spec_fn(F) -> bool,
    fine: F,
    steps: nat,
)
    requires
        scene.reached(fine, steps),
        forall|i: int| 0 <= i < scene.pool.len() ==> proper(#[trigger] scene.pool[i]),
        forall|made: F| #[trigger]
            call_ensures(F::new, (scene.width, scene.height), made) ==> proper(made),
        forall|a: F, b: F| proper(a) && #[trigger] call_ensures(F::reset, (a,), b) ==> proper(b),
        forall|x: int, y: int, a: F, b: F, block: TileBlock|
            proper(a) && #[trigger] crate::fine::drawn_at(
                scene.wide,
                scene.paints,
                x,
                y,
                a,
                b,
                block,
            ) ==> proper(b),
    ensures
        proper(fine),
    decreases steps,
{
    if steps == 0 {
        if scene.pool.contains(fine) {
            let i = choose|i: int| 0 <= i < scene.pool.len() && scene.pool[i] == fine;
            assert(proper(scene.pool[i]));
        }
    } else {
        let prev = choose|prev: F|
            scene.reached(prev, (steps - 1) as nat) && #[trigger] scene.stepped(prev, fine);
        lemma_proper(scene, proper, prev, (steps - 1) as nat);
    }
}

/// The states of a rasterizer from tile to tile of a row.
proof fn lemma_row_states<F: Rasterizer>(
    wide: Wide<F>,
    paints: Seq<F::Paint>,
    y: int,
    blocks: Seq<TileBlock>,
    a: F,
    b: F,
) -> (states: Seq<F>)
    requires
        crate::fine::row_run(wide, paints, y, blocks, a, b),
    ensures
        states.len() == blocks.len() + 1,
        states[0] == a,
        states.last() == b,
        forall|x: int|
            0 <= x < blocks.len() ==> crate::fine::drawn_at(
                wide,
                paints,
                x,
                y,
                states[x],
                states[x + 1],
                #[trigger] blocks[x],
            ),
    decreases blocks.len(),
{
    if blocks.len() == 0 {
        seq![a]
    } else {
        let last = blocks.len() - 1;
        let mid = choose|mid: F|
            crate::fine::row_run(wide, paints, y, blocks.drop_last(), a, mid)
                && #[trigger] crate::fine::drawn_at(wide, paints, last, y, mid, b, blocks.last());
        let first = lemma_row_states(wide, paints, y, blocks.drop_last(), a, mid);
        let states = first.push(b);
        assert forall|x: int| 0 <= x < blocks.len() implies crate::fine::drawn_at(
            wide,
            paints,
            x,
            y,
            states[x],
            states[x + 1],
            #[trigger] blocks[x],
        ) by {
            if x < last {
                assert(blocks.drop_last()[x] == blocks[x]);
                assert(states[x] == first[x] && states[x + 1] == first[x + 1]);
            }
        }
        states
    }
}

/// Drawing a row draws its tiles from left to right, as many as asked for, each with the
/// rasterizer as the tile before left it. The states from tile to tile are returned.
pub proof fn law_row_is_drawn_from_left_to_right<F: Rasterizer>(
    fine: F,
    wide: &Wide<F>,
    paints: &[F::Paint],
    y: u16,
    width_tiles: u16,
    result: (F, Vec<TileBlock>),
) -> (states: Seq<F>)
    requires
        call_ensures(draw_row::<F>, (fine, wide, paints, y, width_tiles), result),
    ensures
        result.1@.len() == width_tiles,
        states.len() == width_tiles + 1,
        states[0] == fine,
        states.last() == result.0,
        forall|x: int|
            0 <= x < width_tiles ==> crate::fine::drawn_at(
                *wide,
                paints@,
                x,
                y as int,
                states[x],
                states[x + 1],
                #[trigger] result.1@[x],
            ),
{
    lemma_row_states(*wide, paints@, y as int, result.1@, fine, result.0)
}

/// One rasterizer, made for an image of the given size, draws all tiles of an image that is
/// rendered in turn, row by row: `fines` are its states from row to row, and `rows` what it draws,
/// which the buffer shows, each row at its place.
pub proof fn law_one_rasterizer_renders_in_turn<F: Rasterizer>(
    wide: &Wide<F>,
    paints: &[F::Paint],
    width: u16,
    height: u16,
    width_tiles: usize,
    height_tiles: usize,
    buffer: &mut [u8],
)
    requires
        call_ensures(
            render_tiles_sequential::<F>,
            (wide, paints, width, height, width_tiles, height_tiles, buffer),
            (),
        ),
    ensures
        exists|fines: Seq<F>, rows: Seq<Seq<TileBlock>>|
            {
                &&& fines.len() == height_tiles + 1
                &&& rows.len() == height_tiles
                &&& call_ensures(F::new, (width, height), fines[0])
                &&& forall|y: int|
                    0 <= y < height_tiles ==> (#[trigger] rows[y]).len() == width_tiles
                        && crate::fine::row_run(
                        *wide,
                        paints@,
                        y,
                        rows[y],
                        fines[y],
                        fines[y + 1],
                    )
                &&& #[trigger] crate::tiles::in_turn(
                    *wide,
                    paints@,
                    width,
                    height,
                    width_tiles as int,
                    fines,
                    rows,
                )
                &&& forall|y: int|
                    0 <= y < height_tiles ==> crate::tiles::row_shown(
                        final(buffer)@,
                        #[trigger] rows[y],
                        width as int,
                        y * 4,
                        if height - y * 4 < 4 {
                            height - y * 4
                        } else {
                            4
                        },
                    )
            },
{
    let (fines, rows) = choose|fines: Seq<F>, rows: Seq<Seq<TileBlock>>| #[trigger]
        crate::tiles::in_turn(
            *wide,
            paints@,
            width,
            height,
            width_tiles as int,
            fines,
            rows,
        ) && rows.len() == height_tiles && crate::tiles::all_rows_shown(
            final(buffer)@,
            rows,
            width as int,
            height as int,
        );
    assert(call_ensures(F::new, (width, height), fines[0]));
    assert forall|y: int| 0 <= y < height_tiles implies crate::tiles::row_shown(
        final(buffer)@,
        #[trigger] rows[y],
        width as int,
        y * 4,
        if height - y * 4 < 4 {
            height - y * 4
        } else {
            4
        },
    ) by {
        assert(crate::tiles::row_shown(
            final(buffer)@,
            rows[y],
            width as int,
            y * 4,
            crate::tiles::visible_rows(height as int, y),
        ));
    }
}

/// A pixel of a tile row that is shown is that of its block, column by column.
pub proof fn law_shown_row_shows_its_blocks(
    buf: Seq<u8>,
    blocks: Seq<TileBlock>,
    width: int,
    top: int,
    rows: int,
    row: int,
    col: int,
    c: int,
)
    requires
        crate::tiles::row_shown(buf, blocks, width, top, rows),
        0 <= row < rows,
        0 <= col < width,
        col < blocks.len() * 256,
        0 <= c < 4,
    ensures
        buf[((top + row) * width + col) * 4 + c] == blocks[col / 256]@[(col % 256 * 4 + row) * 4
            + c],
{
    let x = col / 256;
    assert(crate::tiles::tile_shown(buf, blocks[x]@, width, top, rows, x));
    assert(crate::tiles::sample(buf, width, top + row, col, c) == crate::tiles::block_sample(
        blocks[x]@,
        top + row - top,
        col - x * 256,
        c,
    ));
}

/// A pool lends the rasterizer that came in last, or a new one of the given size if it is empty.
/// What comes back is reset and put at the end, and the other rasterizers stay.
pub proof fn law_pool_lends_its_last_rasterizer<F: Rasterizer, R, O: FnOnce(F) -> (F, R)>(
    pool: &mut Vec<F>,
    width: u16,
    height: u16,
    op: O,
    result: R,
)
    requires
        call_ensures(with_thread_fine::<F, R, O>, (pool, width, height, op), result),
    ensures
        exists|fine: F, used: F, back: F|
            {
                &&& old(pool)@.len() > 0 ==> fine == old(pool)@[old(pool)@.len() - 1]
                &&& old(pool)@.len() == 0 ==> call_ensures(F::new, (width, height), fine)
                &&& #[trigger] call_ensures(op, (fine,), (used, result))
                &&& #[trigger] call_ensures(F::reset, (used,), back)
                &&& final(pool)@.last() == back
            },
        old(pool)@.len() > 0 ==> final(pool)@.len() == old(pool)@.len(),
        old(pool)@.len() == 0 ==> final(pool)@.len() == 1,
        forall|i: int|
            0 <= i < old(pool)@.len() - 1 ==> #[trigger] final(pool)@[i] == old(pool)@[i],
{
    let (fine, used, back) = choose|fine: F, used: F, back: F|
        {
            &&& crate::fine::lent(old(pool)@, width, height, fine)
            &&& #[trigger] call_ensures(op, (fine,), (used, result))
            &&& #[trigger] call_ensures(F::reset, (used,), back)
            &&& final(pool)@ == crate::fine::rest_of_pool(old(pool)@).push(back)
        };
    assert(final(pool)@.last() == back);
}

/// One tile row is drawn by the rasterizer that the pool lends, all its tiles from left to right,
/// and the rasterizer comes back reset. The buffer shows the rows asked for, four at most, and
/// without rows nothing happens.
pub proof fn law_tile_row_is_rendered_by_a_lent_rasterizer<F: Rasterizer>(
    wide: &Wide<F>,
    paints: &[F::Paint],
    width: u16,
    height: u16,
    width_tiles: usize,
    y_tile: u16,
    row_slice: &mut [u8],
    actual_rows: usize,
    pool: &mut Vec<F>,
)
    requires
        call_ensures(
            render_single_tile_row::<F>,
            (wide, paints, width, height, width_tiles, y_tile, row_slice, actual_rows, pool),
            (),
        ),
    ensures
        final(row_slice)@.len() == old(row_slice)@.len(),
        actual_rows == 0 ==> final(row_slice)@ == old(row_slice)@ && final(pool)@ == old(pool)@,
        actual_rows > 0 ==> exists|fine: F, used: F, back: F, blocks: Seq<TileBlock>|
            {
                &&& old(pool)@.len() > 0 ==> fine == old(pool)@.last() && final(pool)@
                    == old(pool)@.update(old(pool)@.len() - 1, back)
                &&& old(pool)@.len() == 0 ==> call_ensures(F::new, (width, height), fine)
                    && final(pool)@ == seq![back]
                &&& blocks.len() == width_tiles
                &&& #[trigger] crate::fine::row_run(
                    *wide,
                    paints@,
                    y_tile as int,
                    blocks,
                    fine,
                    used,
                )
                &&& #[trigger] call_ensures(F::reset, (used,), back)
                &&& crate::tiles::row_shown(
                    final(row_slice)@,
                    blocks,
                    width as int,
                    0,
                    if actual_rows < 4 {
                        actual_rows as int
                    } else {
                        4
                    },
                )
            },
{
    if actual_rows > 0 {
        let scene = Scene::of(*wide, paints@, width, height, old(pool)@);
        let rows = crate::tiles::visible_rows(actual_rows as int, 0);
        let (fine, used, back, blocks) = choose|fine: F, used: F, back: F, blocks: Seq<TileBlock>|
            {
                &&& crate::fine::lent(scene.pool, scene.width, scene.height, fine)
                &&& #[trigger] crate::fine::row_run(
                    scene.wide,
                    scene.paints,
                    y_tile as int,
                    blocks,
                    fine,
                    used,
                )
                &&& blocks.len() == width_tiles as int
                &&& #[trigger] call_ensures(F::reset, (used,), back)
                &&& final(pool)@ == crate::fine::rest_of_pool(scene.pool).push(back)
                &&& crate::tiles::row_shown(
                    final(row_slice)@,
                    blocks,
                    scene.width as int,
                    0,
                    rows,
                )
            };
        assert(crate::fine::row_run(*wide, paints@, y_tile as int, blocks, fine, used));
        if old(pool)@.len() > 0 {
            assert(final(pool)@ =~= old(pool)@.update(old(pool)@.len() - 1, back));
        } else {
            assert(final(pool)@ =~= seq![back]);
        }
    }
}

/// A parallel rendering loses no rasterizer, and makes one for each worker at most. If all
/// rasterizers of the pool were reset, all are again.
pub proof fn law_pool_grows_to_the_number_of_workers<F: Rasterizer + Send>(
    wide: &Wide<F>,
    paints: &[F::Paint],
    width: u16,
    height: u16,
    width_tiles: usize,
    height_tiles: usize,
    buffer: &mut [u8],
    workers: usize,
    pool: &mut Vec<F>,
)
    where
        F::Color: Sync,
        F::Command: Sync,
        F::Paint: Sync,
    requires
        call_ensures(
            render_tiles_parallel::<F>,
            (wide, paints, width, height, width_tiles, height_tiles, buffer, workers, pool),
            (),
        ),
    ensures
        final(pool)@.len() >= old(pool)@.len(),
        final(pool)@.len() <= old(pool)@.len() || final(pool)@.len() <= workers
            || final(pool)@.len() == 1,
        height_tiles > 0 && old(buffer)@.len() > 0 ==> final(pool)@.len() > 0,
        old(buffer)@.len() == 0 || height_tiles == 0 ==> final(pool)@ == old(pool)@
            && final(buffer)@ == old(buffer)@,
        (forall|i: int|
            0 <= i < old(pool)@.len() ==> exists|a: F| #[trigger]
                call_ensures(F::reset, (a,), #[trigger] old(pool)@[i])) ==> forall|i: int|
            0 <= i < final(pool)@.len() ==> crate::fine::is_reset(#[trigger] final(pool)@[i]),
{
    if forall|i: int|
        0 <= i < old(pool)@.len() ==> exists|a: F| #[trigger]
            call_ensures(F::reset, (a,), #[trigger] old(pool)@[i]) {
        assert forall|i: int| 0 <= i < old(pool)@.len() implies crate::fine::is_reset(
            #[trigger] old(pool)@[i],
        ) by {}
    }
}

/// How a context is rendered: not at all exactly if it has no pixels, on the calling thread if
/// there is to be one thread, and else in parallel. The context's limit wins over the configured
/// number, and a pool of that many threads is asked for.
pub proof fn law_threads_decide_how_to_render<C, I, S>(
    ctx: &RenderContext<C, I, S>,
    configured: Option<usize>,
    mode: RenderMode,
)
    requires
        call_ensures(RenderContext::<C, I, S>::render_mode, (ctx, configured), mode),
    ensures
        mode is Nothing <==> ctx.width == 0 || ctx.height == 0,
        mode !is Nothing ==> {
            &&& ctx.thread_limit matches Some(n) ==> (n <= 1 <==> mode is Sequential)
            &&& ctx.thread_limit is None ==> (mode is Sequential <==> (configured matches Some(n)
                && n <= 1))
            &&& mode matches RenderMode::Parallel { install } ==> {
                &&& ctx.thread_limit is Some ==> install == ctx.thread_limit
                &&& ctx.thread_limit is None ==> install == configured
            }
        },
{
}

/// Tiles cover a context, and none lies beyond it.
pub proof fn law_tiles_cover_a_context<C, I, S>(
    ctx: &RenderContext<C, I, S>,
    width_tiles: u16,
    height_tiles: u16,
)
    requires
        call_ensures(RenderContext::<C, I, S>::width_tiles, (ctx,), width_tiles),
        call_ensures(RenderContext::<C, I, S>::height_tiles, (ctx,), height_tiles),
    ensures
        ctx.width <= width_tiles * 256,
        width_tiles > 0 ==> (width_tiles - 1) * 256 < ctx.width,
        ctx.height <= height_tiles * 4,
        height_tiles > 0 ==> (height_tiles - 1) * 4 < ctx.height,
{
}

/// To which images a context can be rendered, if it has pixels: in turn, to those beyond whose
/// right and lower edge no tile begins; in parallel, to those without pixels and those beyond
/// whose right edge no tile begins and whose last row the tiles reach.
pub proof fn law_images_that_a_context_fits<C, I, S>(
    ctx: &RenderContext<C, I, S>,
    configured: Option<usize>,
    width: u16,
    height: u16,
    b: bool,
    mode: RenderMode,
    width_tiles: u16,
    height_tiles: u16,
)
    requires
        call_ensures(
            RenderContext::<C, I, S>::can_render_to,
            (ctx, configured, width, height),
            b,
        ),
        call_ensures(RenderContext::<C, I, S>::render_mode, (ctx, configured), mode),
        call_ensures(RenderContext::<C, I, S>::width_tiles, (ctx,), width_tiles),
        call_ensures(RenderContext::<C, I, S>::height_tiles, (ctx,), height_tiles),
    ensures
        ctx.width == width && ctx.height == height ==> b,
        mode is Nothing ==> b,
        mode is Sequential ==> (b <==> (width_tiles - 1) * 256 <= width && (height_tiles - 1) * 4
            <= height),
        mode is Parallel ==> (b <==> width == 0 || height == 0 || ((width_tiles - 1) * 256 <= width
            && height <= height_tiles * 4)),
{
}

/// An image's tiles are those of a context exactly if there are as many columns and rows of them
/// as cover the context, and a tile for each.
pub proof fn law_tiles_of_a_context<C, I, S, F: Rasterizer>(
    ctx: &RenderContext<C, I, S>,
    wide: &Wide<F>,
    b: bool,
    width_tiles: u16,
    height_tiles: u16,
)
    requires
        call_ensures(RenderContext::<C, I, S>::is_covered_by::<F>, (ctx, wide), b),
        call_ensures(RenderContext::<C, I, S>::width_tiles, (ctx,), width_tiles),
        call_ensures(RenderContext::<C, I, S>::height_tiles, (ctx,), height_tiles),
    ensures
        b <==> wide.width_tiles == width_tiles && wide.height_tiles == height_tiles
            && wide.tiles@.len() == width_tiles * height_tiles,
{
    assert(wide.height_tiles * wide.width_tiles == wide.width_tiles * wide.height_tiles)
        by (nonlinear_arith);
}

/// The tile in a column and a row is found row by row.
pub proof fn law_tiles_lie_row_by_row<F: Rasterizer>(
    wide: &Wide<F>,
    x: u16,
    y: u16,
    tile: &WideTile<F>,
)
    requires
        call_ensures(Wide::<F>::get, (wide, x, y), tile),
    ensures
        *tile == wide.tiles@[y * wide.width_tiles + x],
{
}

/// A context leaves the pixels that its tiles do not cover as they were, and if it has no pixels
/// it leaves everything as it was.
pub proof fn law_context_leaves_other_pixels<
    C,
    I,
    S,
    F: Rasterizer<Paint = EncodedPaint<I, S>> + Send,
>(
    ctx: &RenderContext<C, I, S>,
    buffer: &mut [u8],
    width: u16,
    height: u16,
    configured: Option<usize>,
    workers: usize,
    wide: &Wide<F>,
    pool: &mut Vec<F>,
    row: int,
    col: int,
    c: int,
)
    where
        F::Color: Sync,
        F::Command: Sync,
        I: Sync,
        S: Sync,
    requires
        call_ensures(
            RenderContext::<C, I, S>::render_to_buffer::<F>,
            (ctx, buffer, width, height, configured, workers, wide, pool),
            (),
        ),
        old(buffer)@.len() == width * height * 4,
        0 <= row < height,
        0 <= col < width,
        0 <= c < 4,
        row / 4 > (ctx.height - 1) / 4 || col / 256 > (ctx.width - 1) / 256 || ctx.height == 0
            || ctx.width == 0,
    ensures
        final(buffer)@.len() == old(buffer)@.len(),
        final(buffer)@[(row * width + col) * 4 + c] == old(buffer)@[(row * width + col) * 4 + c],
        ctx.width == 0 || ctx.height == 0 ==> final(buffer)@ == old(buffer)@ && final(pool)@
            == old(pool)@,
{
    let w = width as int;
    let h = height as int;
    assert(w * h * 4 > 0) by (nonlinear_arith)
        requires
            w > 0,
            h > 0,
    ;
    assert((row * w + col) * 4 + c < w * h * 4) by (nonlinear_arith)
        requires
            0 <= row < h,
            0 <= col < w,
            0 <= c < 4,
    ;
    if ctx.width > 0 && ctx.height > 0 {
        let pool_of = if ctx.mode(configured) is Sequential {
            Seq::empty()
        } else {
            old(pool)@
        };
        law_other_pixels_stay(
            Scene::of(*wide, ctx.encoded_paints@, width, height, pool_of),
            old(buffer)@,
            final(buffer)@,
            ctx.spec_width_tiles(),
            0,
            ctx.spec_height_tiles(),
            0,
            row,
            col,
            c,
        );
    }
}

/// Without tile rows, or without bytes, rendering a strip does nothing.
pub proof fn law_nothing_to_render<F: Rasterizer + Send>(
    wide: &Wide<F>,
    paints: &[F::Paint],
    width: u16,
    height: u16,
    width_tiles: usize,
    buffer: &mut [u8],
    y_start: usize,
    y_end: usize,
    row_start_px: usize,
    workers: usize,
    pool: &mut Vec<F>,
)
    where
        F::Color: Sync,
        F::Command: Sync,
        F::Paint: Sync,
    requires
        call_ensures(
            render_tile_rows_recursive::<F>,
            (
                wide,
                paints,
                width,
                height,
                width_tiles,
                buffer,
                y_start,
                y_end,
                row_start_px,
                workers,
                pool,
            ),
            (),
        ),
    ensures
        y_start >= y_end || old(buffer)@.len() == 0 ==> final(buffer)@ == old(buffer)@
            && final(pool)@ == old(pool)@,
        final(pool)@.len() >= old(pool)@.len(),
        final(pool)@.len() <= old(pool)@.len() || final(pool)@.len() <= workers
            || final(pool)@.len() == 1,
{
}

} // verus!
