use crate::fine::{draw_row, with_thread_fine, Rasterizer, Scene, Wide};
use vstd::prelude::*;

verus! {

/// Width of a wide tile, in pixels.
pub const WIDE_TILE_WIDTH: u16 = 256;

/// Height of a tile, and so of a row of wide tiles, in pixels.
pub const TILE_HEIGHT: u16 = 4;

/// Bytes per pixel of an RGBA8 buffer.
pub const COLOR_COMPONENTS: usize = 4;

/// Bytes in the pixels of one wide tile.
pub const BLOCK_LEN: usize = 4096;

/// The pixels of one wide tile, column by column: the four rows of the first column, then
/// those of the second, and so on, each pixel as four RGBA8 bytes.
pub type TileBlock = [u8; BLOCK_LEN];

/// Where byte `c` of the pixel in row `row` and column `col` lies in a row-major buffer.
pub open spec fn byte_index(width: int, row: int, col: int, c: int) -> int {
    (row * width + col) * 4 + c
}

/// Byte `c` of the pixel in row `row` and column `col` of a row-major buffer.
pub open spec fn sample(buf: Seq<u8>, width: int, row: int, col: int, c: int) -> u8 {
    buf[byte_index(width, row, col, c)]
}

/// Byte `c` of the pixel in row `row` and column `col` of a tile's block.
pub open spec fn block_sample(block: Seq<u8>, row: int, col: int, c: int) -> u8 {
    block[(col * 4 + row) * 4 + c]
}

/// Whether byte `c` of the pixel in row `row` and column `col` is one of a buffer of `len` bytes.
pub open spec fn in_buffer(len: int, width: int, row: int, col: int, c: int) -> bool {
    0 <= row && 0 <= col < width && 0 <= c < 4 && byte_index(width, row, col, c) < len
}

/// Different pixel positions have different byte positions.
proof fn lemma_byte_index_injective(
    width: int,
    row: int,
    col: int,
    c: int,
    row2: int,
    col2: int,
    c2: int,
)
    requires
        0 <= col < width,
        0 <= col2 < width,
        0 <= c < 4,
        0 <= c2 < 4,
        byte_index(width, row, col, c) == byte_index(width, row2, col2, c2),
    ensures
        row == row2,
        col == col2,
        c == c2,
{
    assert(row * width + col == row2 * width + col2);
    assert(row == row2) by (nonlinear_arith)
        requires
            0 <= col < width,
            0 <= col2 < width,
            row * width + col == row2 * width + col2,
    ;
}

/// The pixels of a row lie before those of the next row.
proof fn lemma_byte_index_bound(width: int, row: int, col: int, c: int, rows: int)
    requires
        0 <= row < rows,
        0 <= col < width,
        0 <= c < 4,
    ensures
        0 <= byte_index(width, row, col, c) < rows * width * 4,
{
    assert(0 <= row * width) by (nonlinear_arith)
        requires
            0 <= row,
            0 <= width,
    ;
    assert(row * width + width <= rows * width) by (nonlinear_arith)
        requires
            row + 1 <= rows,
            0 <= width,
    ;
    assert(rows * width * 4 == (rows * width) * 4);
}

/// Copies one pixel of a block into the buffer.
fn put_pixel(
    buffer: &mut [u8],
    block: &TileBlock,
    width: usize,
    row: usize,
    col: usize,
    tile_row: usize,
    tile_col: usize,
)
    requires
        col < width,
        tile_row < 4,
        tile_col < 256,
        byte_index(width as int, row as int, col as int, 3) < old(buffer)@.len(),
    ensures
        final(buffer)@.len() == old(buffer)@.len(),
        forall|r: int, q: int, c: int|
            in_buffer(old(buffer)@.len() as int, width as int, r, q, c)
                ==> #[trigger] sample(final(buffer)@, width as int, r, q, c) == (if r == row && q
                == col {
                block_sample(block@, tile_row as int, tile_col as int, c)
            } else {
                sample(old(buffer)@, width as int, r, q, c)
            }),
{
    let len: usize = buffer.len();
    proof {
        assert(0 <= row * width) by (nonlinear_arith)
            requires
                0 <= row,
                0 <= width,
        ;
        assert(byte_index(width as int, row as int, col as int, 3) < len);
    }
    let dest: usize = (row * width + col) * COLOR_COMPONENTS;
    let src: usize = (tile_col * 4 + tile_row) * COLOR_COMPONENTS;
    buffer[dest] = block[src];
    buffer[dest + 1] = block[src + 1];
    buffer[dest + 2] = block[src + 2];
    buffer[dest + 3] = block[src + 3];
    proof {
        assert forall|r: int, q: int, c: int|
            in_buffer(len as int, width as int, r, q, c) implies #[trigger] sample(
            buffer@,
            width as int,
            r,
            q,
            c,
        ) == (if r == row && q == col {
            block_sample(block@, tile_row as int, tile_col as int, c)
        } else {
            sample(old(buffer)@, width as int, r, q, c)
        }) by {
            let i = byte_index(width as int, r, q, c);
            if dest <= i < dest + 4 {
                lemma_byte_index_injective(
                    width as int,
                    r,
                    q,
                    c,
                    row as int,
                    col as int,
                    i - dest,
                );
            }
            assert(i >= 0) by {
                assert(0 <= r * width) by (nonlinear_arith)
                    requires
                        0 <= r,
                        0 <= width,
                ;
            }
        }
    }
}

/// What a buffer holds at a pixel once the first `rows` rows of a tile have been copied into
/// it, and of the next row the first `cols` columns. The tile's top left pixel is at row `top`
/// and column `left`, and it shows `tile_width` columns.
spec fn after_copy(
    before: Seq<u8>,
    block: Seq<u8>,
    width: int,
    top: int,
    left: int,
    tile_width: int,
    rows: int,
    cols: int,
    r: int,
    q: int,
    c: int,
) -> u8 {
    if left <= q < left + tile_width && (top <= r < top + rows || (r == top + rows && q < left
        + cols)) {
        block_sample(block, r - top, q - left, c)
    } else {
        sample(before, width, r, q, c)
    }
}

/// Copies the visible part of a tile's block to its place in a row-major buffer.
fn copy_tile(
    buffer: &mut [u8],
    block: &TileBlock,
    width: usize,
    top: usize,
    left: usize,
    tile_width: usize,
    tile_height: usize,
)
    requires
        tile_width <= 256,
        tile_height <= 4,
        left + tile_width <= width,
        (top + tile_height) * width * 4 <= old(buffer)@.len(),
    ensures
        final(buffer)@.len() == old(buffer)@.len(),
        forall|r: int, q: int, c: int|
            in_buffer(old(buffer)@.len() as int, width as int, r, q, c)
                ==> #[trigger] sample(final(buffer)@, width as int, r, q, c) == (if top <= r < top
                + tile_height && left <= q < left + tile_width {
                block_sample(block@, r - top, q - left, c)
            } else {
                sample(old(buffer)@, width as int, r, q, c)
            }),
{
    let ghost before = buffer@;
    let ghost w = width as int;
    let mut row: usize = 0;
    while row < tile_height
        invariant
            row <= tile_height <= 4,
            tile_width <= 256,
            left + tile_width <= width,
            w == width,
            (top + tile_height) * width * 4 <= before.len(),
            buffer@.len() == before.len(),
            forall|r: int, q: int, c: int|
                in_buffer(before.len() as int, w, r, q, c) ==> #[trigger] sample(buffer@, w, r, q, c)
                    == after_copy(before, block@, w, top as int, left as int, tile_width as int, row as int, 0, r, q, c),
        decreases tile_height - row,
    {
        let mut col: usize = 0;
        while col < tile_width
            invariant
                col <= tile_width <= 256,
                row < tile_height <= 4,
                left + tile_width <= width,
                w == width,
                (top + tile_height) * width * 4 <= before.len(),
                buffer@.len() == before.len(),
                forall|r: int, q: int, c: int|
                    in_buffer(before.len() as int, w, r, q, c) ==> #[trigger] sample(buffer@, w, r, q, c)
                        == after_copy(before, block@, w, top as int, left as int, tile_width as int, row as int, col as int, r, q, c),
            decreases tile_width - col,
        {
            let len: usize = buffer.len();
            proof {
                lemma_byte_index_bound(w, top + row, left + col, 3, (top + tile_height) as int);
                assert(top + row < len) by (nonlinear_arith)
                    requires
                        (top + tile_height) * width * 4 <= len,
                        row < tile_height,
                        1 <= width,
                        0 <= top,
                ;
            }
            put_pixel(buffer, block, width, top + row, left + col, row, col);
            col = col + 1;
        }
        row = row + 1;
    }
}

/// Rows that a tile of tile row `y` shows in an image of `height` rows.
pub open spec fn visible_rows(height: int, y: int) -> int {
    if height - y * 4 < 4 {
        height - y * 4
    } else {
        4
    }
}

/// Whether the buffer shows the block of the tile in tile column `x`, its first row at buffer
/// row `top` and `rows` of its rows in all. Columns beyond the buffer's width are not shown.
pub open spec fn tile_shown(
    buf: Seq<u8>,
    block: Seq<u8>,
    width: int,
    top: int,
    rows: int,
    x: int,
) -> bool {
    forall|r: int, q: int, c: int|
        top <= r < top + rows && x * 256 <= q < x * 256 + 256 && q < width && 0 <= c < 4
            ==> #[trigger] sample(buf, width, r, q, c) == block_sample(block, r - top, q - x * 256, c)
}

/// Whether the buffer shows the blocks of a tile row, their first row at buffer row `top` and
/// `rows` of their rows in all.
pub open spec fn row_shown(
    buf: Seq<u8>,
    blocks: Seq<TileBlock>,
    width: int,
    top: int,
    rows: int,
) -> bool {
    forall|x: int|
        0 <= x < blocks.len() ==> tile_shown(buf, (#[trigger] blocks[x])@, width, top, rows, x)
}

/// Whether the buffer shows a block that drawing gives for tile (`x`, `y`).
pub open spec fn tile_painted<F: Rasterizer>(
    scene: Scene<F>,
    buf: Seq<u8>,
    top: int,
    rows: int,
    x: int,
    y: int,
) -> bool {
    exists|block: TileBlock| #[trigger]
        scene.block_of(x, y, block) && tile_shown(
            buf,
            block@,
            scene.width as int,
            top,
            rows,
            x,
        )
}

/// Whether tile (`x`, `y`) is painted at its place in a buffer that begins with row `origin` of
/// the image.
pub open spec fn tile_in_place<F: Rasterizer>(
    scene: Scene<F>,
    buf: Seq<u8>,
    origin: int,
    x: int,
    y: int,
) -> bool {
    tile_painted(scene, buf, y * 4 - origin, visible_rows(scene.height as int, y), x, y)
}

/// Whether a buffer of rows of `width` pixels holds what it held before, outside the first `cols`
/// columns of the rows `top..bottom`.
pub open spec fn kept_outside(
    before: Seq<u8>,
    after: Seq<u8>,
    width: int,
    cols: int,
    top: int,
    bottom: int,
) -> bool {
    &&& after.len() == before.len()
    &&& forall|r: int, q: int, c: int|
        in_buffer(before.len() as int, width, r, q, c) && !(q < cols && top <= r < bottom)
            ==> #[trigger] sample(after, width, r, q, c) == sample(before, width, r, q, c)
}

/// What rendering tile rows `y_start..y_end` does to a buffer that begins with row `origin` of
/// the image: every visible tile of those rows is painted at its place, and every other byte
/// stays as it was.
pub open spec fn rows_rendered<F: Rasterizer>(
    scene: Scene<F>,
    before: Seq<u8>,
    after: Seq<u8>,
    width_tiles: int,
    y_start: int,
    y_end: int,
    origin: int,
) -> bool {
    &&& kept_outside(
        before,
        after,
        scene.width as int,
        width_tiles * 256,
        y_start * 4 - origin,
        y_end * 4 - origin,
    )
    &&& forall|x: int, y: int|
        0 <= x < width_tiles && y_start <= y < y_end && x * 256 < scene.width && y * 4
            < scene.height ==> #[trigger] tile_in_place(scene, after, origin, x, y)
}

/// Whether tile rows are drawn one after the other by one rasterizer, which is made for an image
/// of the given size: `fines` are the states that it goes through from row to row, and `rows`
/// the blocks of each row.
pub open spec fn in_turn<F: Rasterizer>(
    wide: Wide<F>,
    paints: Seq<F::Paint>,
    width: u16,
    height: u16,
    width_tiles: int,
    fines: Seq<F>,
    rows: Seq<Seq<TileBlock>>,
) -> bool {
    &&& fines.len() == rows.len() + 1
    &&& call_ensures(F::new, (width, height), fines[0])
    &&& forall|y: int|
        0 <= y < rows.len() ==> (#[trigger] rows[y]).len() == width_tiles && crate::fine::row_run(
            wide,
            paints,
            y,
            rows[y],
            fines[y],
            fines[y + 1],
        )
}

/// Whether the buffer shows each of the tile rows at its place in an image of the given size.
pub open spec fn all_rows_shown(
    buf: Seq<u8>,
    rows: Seq<Seq<TileBlock>>,
    width: int,
    height: int,
) -> bool {
    forall|y: int|
        0 <= y < rows.len() ==> row_shown(
            buf,
            #[trigger] rows[y],
            width,
            y * 4,
            visible_rows(height, y),
        )
}

/// Whether the buffer shows what one rasterizer, made for an image of the given size, draws when
/// it draws all tile rows one after the other.
pub open spec fn drawn_in_turn<F: Rasterizer>(
    wide: Wide<F>,
    paints: Seq<F::Paint>,
    width: u16,
    height: u16,
    width_tiles: int,
    height_tiles: int,
    buf: Seq<u8>,
) -> bool {
    exists|fines: Seq<F>, rows: Seq<Seq<TileBlock>>| #[trigger]
        in_turn(wide, paints, width, height, width_tiles, fines, rows) && rows.len() == height_tiles
            && all_rows_shown(buf, rows, width as int, height as int)
}

/// A tile row stays shown while the bytes that show it do.
proof fn lemma_row_shown_kept(
    before: Seq<u8>,
    after: Seq<u8>,
    blocks: Seq<TileBlock>,
    width: int,
    top: int,
    rows: int,
)
    requires
        row_shown(before, blocks, width, top, rows),
        forall|r: int, q: int, c: int|
            top <= r < top + rows && 0 <= q < width && 0 <= c < 4 ==> #[trigger] sample(
                after,
                width,
                r,
                q,
                c,
            ) == sample(before, width, r, q, c),
    ensures
        row_shown(after, blocks, width, top, rows),
{
    assert forall|x: int| 0 <= x < blocks.len() implies tile_shown(
        after,
        (#[trigger] blocks[x])@,
        width,
        top,
        rows,
        x,
    ) by {
        assert(tile_shown(before, blocks[x]@, width, top, rows, x));
        assert forall|r: int, q: int, c: int|
            top <= r < top + rows && x * 256 <= q < x * 256 + 256 && q < width && 0 <= c
                < 4 implies #[trigger] sample(after, width, r, q, c) == block_sample(
            blocks[x]@,
            r - top,
            q - x * 256,
            c,
        ) by {
            assert(sample(after, width, r, q, c) == sample(before, width, r, q, c));
        }
    }
}

/// A rasterizer that draws tile rows one after the other is in a possible state at each of them.
proof fn lemma_in_turn_ready<F: Rasterizer>(
    scene: Scene<F>,
    width_tiles: int,
    fines: Seq<F>,
    rows: Seq<Seq<TileBlock>>,
    y: int,
)
    requires
        in_turn(scene.wide, scene.paints, scene.width, scene.height, width_tiles, fines, rows),
        0 <= y <= rows.len(),
    ensures
        scene.ready(fines[y]),
        y < rows.len() ==> forall|x: int|
            0 <= x < width_tiles ==> scene.block_of(x, y, #[trigger] rows[y][x]),
    decreases y,
{
    if y == 0 {
        crate::fine::lemma_ready_at_first(scene, fines[0]);
    } else {
        lemma_in_turn_ready(scene, width_tiles, fines, rows, y - 1);
        assert(rows[y - 1].len() == width_tiles);
        crate::fine::lemma_row_run_ready(scene, y - 1, rows[y - 1], fines[y - 1], fines[y]);
    }
    if y < rows.len() {
        assert(rows[y].len() == width_tiles);
        crate::fine::lemma_row_run_ready(scene, y, rows[y], fines[y], fines[y + 1]);
    }
}

/// Copies the first `rows` rows of the blocks of a tile row into the buffer, from buffer row
/// `top` on.
fn copy_row(
    blocks: &Vec<TileBlock>,
    width: usize,
    buffer: &mut [u8],
    top: usize,
    rows: usize,
)
    requires
        blocks@.len() <= u16::MAX,
        blocks@.len() == 0 || (blocks@.len() - 1) * 256 <= width <= u16::MAX,
        rows <= 4,
        (top + rows) * width * 4 <= old(buffer)@.len(),
    ensures
        final(buffer)@.len() == old(buffer)@.len(),
        row_shown(final(buffer)@, blocks@, width as int, top as int, rows as int),
        forall|r: int, q: int, c: int|
            in_buffer(old(buffer)@.len() as int, width as int, r, q, c) && !(q < blocks@.len() * 256
                && top <= r < top + rows) ==> #[trigger] sample(
                final(buffer)@,
                width as int,
                r,
                q,
                c,
            ) == sample(old(buffer)@, width as int, r, q, c),
{
    let ghost before = buffer@;
    let ghost w = width as int;
    let mut x_tile: usize = 0;
    while x_tile < blocks.len()
        invariant
            x_tile <= blocks@.len() <= u16::MAX,
            blocks@.len() == 0 || (blocks@.len() - 1) * 256 <= width <= u16::MAX,
            rows <= 4,
            w == width,
            (top + rows) * width * 4 <= before.len(),
            buffer@.len() == before.len(),
            forall|x: int|
                0 <= x < x_tile ==> tile_shown(
                    buffer@,
                    (#[trigger] blocks@[x])@,
                    w,
                    top as int,
                    rows as int,
                    x,
                ),
            forall|r: int, q: int, c: int|
                in_buffer(before.len() as int, w, r, q, c) && !(q < x_tile * 256 && top <= r < top
                    + rows) ==> #[trigger] sample(buffer@, w, r, q, c) == sample(before, w, r, q, c),
        decreases blocks@.len() - x_tile,
    {
        assert(x_tile * 256 <= (blocks@.len() - 1) * 256);
        let left: usize = x_tile * WIDE_TILE_WIDTH as usize;
        let rest: usize = width - left;
        let tile_width: usize = if rest < WIDE_TILE_WIDTH as usize {
            rest
        } else {
            WIDE_TILE_WIDTH as usize
        };
        let ghost prev = buffer@;
        copy_tile(buffer, &blocks[x_tile], width, top, left, tile_width, rows);
        proof {
            assert forall|r: int, q: int, c: int|
                top <= r < top + rows && 0 <= q < w && 0 <= c < 4 implies in_buffer(
                before.len() as int,
                w,
                r,
                q,
                c,
            ) by {
                lemma_byte_index_bound(w, r, q, c, (top + rows) as int);
            }
            assert forall|x: int| 0 <= x < x_tile + 1 implies tile_shown(
                buffer@,
                (#[trigger] blocks@[x])@,
                w,
                top as int,
                rows as int,
                x,
            ) by {
                if x < x_tile {
                    assert(tile_shown(prev, blocks@[x]@, w, top as int, rows as int, x));
                    assert forall|r: int, q: int, c: int|
                        top <= r < top + rows && x * 256 <= q < x * 256 + 256 && q < w && 0 <= c
                            < 4 implies #[trigger] sample(buffer@, w, r, q, c) == block_sample(
                        blocks@[x]@,
                        r - top,
                        q - x * 256,
                        c,
                    ) by {
                        assert(sample(buffer@, w, r, q, c) == sample(prev, w, r, q, c));
                    }
                }
            }
        }
        x_tile = x_tile + 1;
    }
}

/// Renders every tile row in turn into a buffer of `width` by `height` pixels, with one rasterizer
/// that is made for an image of that size.
pub fn render_tiles_sequential<F: Rasterizer>(
    wide: &Wide<F>,
    paints: &[F::Paint],
    width: u16,
    height: u16,
    width_tiles: usize,
    height_tiles: usize,
    buffer: &mut [u8],
)
    requires
        wide.wf(),
        width_tiles <= wide.width_tiles,
        height_tiles <= wide.height_tiles,
        width_tiles == 0 || (width_tiles - 1) * 256 <= width,
        height_tiles == 0 || (height_tiles - 1) * 4 <= height,
        old(buffer)@.len() == width * height * 4,
    ensures
        drawn_in_turn(
            *wide,
            paints@,
            width,
            height,
            width_tiles as int,
            height_tiles as int,
            final(buffer)@,
        ),
        rows_rendered(
            Scene::of(*wide, paints@, width, height, Seq::empty()),
            old(buffer)@,
            final(buffer)@,
            width_tiles as int,
            0,
            height_tiles as int,
            0,
        ),
{
    let ghost before = buffer@;
    let ghost w = width as int;
    let ghost h = height as int;
    let ghost wt = width_tiles as int;
    let mut fine: F = F::new(width, height);
    let ghost mut fines: Seq<F> = seq![fine];
    let ghost mut rows: Seq<Seq<TileBlock>> = Seq::empty();
    let mut y_tile: u16 = 0;
    while (y_tile as usize) < height_tiles
        invariant
            wide.wf(),
            y_tile <= height_tiles <= wide.height_tiles,
            width_tiles <= wide.width_tiles,
            w == width,
            h == height,
            wt == width_tiles,
            width_tiles == 0 || (width_tiles - 1) * 256 <= width,
            height_tiles == 0 || (height_tiles - 1) * 4 <= height,
            before.len() == width * height * 4,
            rows.len() == y_tile,
            in_turn(*wide, paints@, width, height, wt, fines, rows),
            fines.last() == fine,
            all_rows_shown(buffer@, rows, w, h),
            kept_outside(before, buffer@, w, wt * 256, 0, y_tile * 4),
        decreases height_tiles - y_tile,
    {
        let top: usize = y_tile as usize * 4;
        let rest: usize = height as usize - top;
        let tile_height: usize = if rest < TILE_HEIGHT as usize {
            rest
        } else {
            TILE_HEIGHT as usize
        };
        let ghost prev = buffer@;
        let ghost prev_rows = rows;
        let ghost prev_fines = fines;
        proof {
            assert((top + tile_height) * w * 4 <= w * h * 4) by (nonlinear_arith)
                requires
                    0 <= w,
                    top + tile_height <= h,
            ;
        }
        let (next, blocks) = draw_row(fine, wide, paints, y_tile, width_tiles as u16);
        fine = next;
        copy_row(&blocks, width as usize, buffer, top, tile_height);
        proof {
            fines = fines.push(next);
            rows = rows.push(blocks@);
            assert forall|y: int| 0 <= y < rows.len() implies (#[trigger] rows[y]).len() == wt
                && crate::fine::row_run(*wide, paints@, y, rows[y], fines[y], fines[y + 1]) by {
                if y < y_tile {
                    assert(rows[y] == prev_rows[y]);
                    assert(fines[y] == prev_fines[y] && fines[y + 1] == prev_fines[y + 1]);
                }
            }
            assert forall|y: int| 0 <= y < rows.len() implies row_shown(
                buffer@,
                #[trigger] rows[y],
                w,
                y * 4,
                visible_rows(h, y),
            ) by {
                if y < y_tile {
                    assert(rows[y] == prev_rows[y]);
                    assert forall|r: int, q: int, c: int|
                        y * 4 <= r < y * 4 + visible_rows(h, y) && 0 <= q < w && 0 <= c
                            < 4 implies #[trigger] sample(buffer@, w, r, q, c) == sample(
                        prev,
                        w,
                        r,
                        q,
                        c,
                    ) by {
                        lemma_byte_index_bound(w, r, q, c, h);
                        assert(h * w * 4 == w * h * 4) by (nonlinear_arith);
                    }
                    lemma_row_shown_kept(prev, buffer@, rows[y], w, y * 4, visible_rows(h, y));
                }
            }
        }
        y_tile = y_tile + 1;
    }
    proof {
        let scene = Scene::of(*wide, paints@, width, height, Seq::empty());
        assert forall|x: int, y: int|
            0 <= x < wt && 0 <= y < height_tiles && x * 256 < w && y * 4
                < h implies #[trigger] tile_in_place(scene, buffer@, 0, x, y) by {
            lemma_in_turn_ready(scene, wt, fines, rows, y);
            assert(row_shown(buffer@, rows[y], w, y * 4, visible_rows(h, y)));
            assert(scene.block_of(x, y, rows[y][x]));
        }
    }
}

/// What rendering one tile row, with a rasterizer that is lent by the pool, does: the first
/// `width_tiles` tiles of the row are drawn from left to right, the rasterizer comes back reset,
/// and the buffer shows `rows` rows of the tiles.
pub open spec fn row_rendered<F: Rasterizer>(
    scene: Scene<F>,
    width_tiles: int,
    y: int,
    pool_after: Seq<F>,
    buf: Seq<u8>,
    rows: int,
) -> bool {
    exists|fine: F, used: F, back: F, blocks: Seq<TileBlock>|
        {
            &&& crate::fine::lent(scene.pool, scene.width, scene.height, fine)
            &&& #[trigger] crate::fine::row_run(scene.wide, scene.paints, y, blocks, fine, used)
            &&& blocks.len() == width_tiles
            &&& #[trigger] call_ensures(F::reset, (used,), back)
            &&& pool_after == crate::fine::rest_of_pool(scene.pool).push(back)
            &&& row_shown(buf, blocks, scene.width as int, 0, rows)
        }
}

/// Rendering one tile row paints its tiles and keeps the rasterizers at hand, with one more if
/// there was none.
proof fn lemma_row_rendered<F: Rasterizer>(
    scene: Scene<F>,
    width_tiles: int,
    y: int,
    pool_after: Seq<F>,
    buf: Seq<u8>,
    rows: int,
)
    requires
        row_rendered(scene, width_tiles, y, pool_after, buf, rows),
    ensures
        forall|x: int|
            0 <= x < width_tiles ==> #[trigger] tile_painted(scene, buf, 0, rows, x, y),
        pool_after.len() > 0,
        crate::fine::pool_kept(scene, pool_after, 1),
{
    let (fine, used, back, blocks) = choose|fine: F, used: F, back: F, blocks: Seq<TileBlock>|
        {
            &&& crate::fine::lent(scene.pool, scene.width, scene.height, fine)
            &&& #[trigger] crate::fine::row_run(scene.wide, scene.paints, y, blocks, fine, used)
            &&& blocks.len() == width_tiles
            &&& #[trigger] call_ensures(F::reset, (used,), back)
            &&& pool_after == crate::fine::rest_of_pool(scene.pool).push(back)
            &&& row_shown(buf, blocks, scene.width as int, 0, rows)
        };
    if scene.pool.len() > 0 {
        assert(scene.pool[scene.pool.len() - 1] == fine);
    }
    crate::fine::lemma_ready_at_first(scene, fine);
    crate::fine::lemma_row_run_ready(scene, y, blocks, fine, used);
    crate::fine::lemma_ready_step(scene, used, back);
    assert forall|x: int| 0 <= x < width_tiles implies #[trigger] tile_painted(
        scene,
        buf,
        0,
        rows,
        x,
        y,
    ) by {
        assert(scene.block_of(x, y, blocks[x]));
    }
    assert forall|i: int| 0 <= i < pool_after.len() implies scene.ready(
        #[trigger] pool_after[i],
    ) by {
        if i < pool_after.len() - 1 {
            assert(pool_after[i] == scene.pool[i]);
            crate::fine::lemma_ready_at_first(scene, pool_after[i]);
        }
    }
    if forall|i: int| 0 <= i < scene.pool.len() ==> crate::fine::is_reset(#[trigger] scene.pool[i]) {
        assert forall|i: int| 0 <= i < pool_after.len() implies crate::fine::is_reset(
            #[trigger] pool_after[i],
        ) by {
            if i < pool_after.len() - 1 {
                assert(pool_after[i] == scene.pool[i]);
            }
        }
    }
}

/// Renders one tile row into a buffer of its own, which holds `actual_rows` rows of pixels.
pub fn render_single_tile_row<F: Rasterizer>(
    wide: &Wide<F>,
    paints: &[F::Paint],
    width: u16,
    height: u16,
    width_tiles: usize,
    y_tile: u16,
    row_slice: &mut [u8],
    actual_rows: usize,
    pool: &mut Vec<F>,
)
    requires
        actual_rows > 0 ==> {
            &&& wide.wf()
            &&& width_tiles <= wide.width_tiles
            &&& y_tile < wide.height_tiles
            &&& width_tiles == 0 || (width_tiles - 1) * 256 <= width
            &&& old(row_slice)@.len() == actual_rows * width * 4
        },
    ensures
        actual_rows == 0 ==> final(row_slice)@ == old(row_slice)@ && final(pool)@ == old(pool)@,
        actual_rows > 0 ==> row_rendered(
            Scene::of(*wide, paints@, width, height, old(pool)@),
            width_tiles as int,
            y_tile as int,
            final(pool)@,
            final(row_slice)@,
            visible_rows(actual_rows as int, 0),
        ),
        kept_outside(
            old(row_slice)@,
            final(row_slice)@,
            width as int,
            width_tiles * 256,
            0,
            visible_rows(actual_rows as int, 0),
        ),
{
    if actual_rows == 0 {
        return ;
    }
    let tile_height: usize = if actual_rows < TILE_HEIGHT as usize {
        actual_rows
    } else {
        TILE_HEIGHT as usize
    };
    proof {
        assert((0 + tile_height) * width * 4 <= actual_rows * width * 4) by (nonlinear_arith)
            requires
                0 <= width,
                tile_height <= actual_rows,
        ;
    }
    let draw = |fine: F| -> (drawn: (F, Vec<TileBlock>))
        ensures
            drawn.1@.len() == width_tiles,
            crate::fine::row_run(*wide, paints@, y_tile as int, drawn.1@, fine, drawn.0),
        { draw_row(fine, wide, paints, y_tile, width_tiles as u16) };
    let blocks: Vec<TileBlock> = with_thread_fine(pool, width, height, draw);
    copy_row(&blocks, width as usize, row_slice, 0, tile_height);
    proof {
        let (fine, used, back) = choose|fine: F, used: F, back: F|
            {
                &&& crate::fine::lent(old(pool)@, width, height, fine)
                &&& #[trigger] call_ensures(draw, (fine,), (used, blocks))
                &&& #[trigger] call_ensures(F::reset, (used,), back)
                &&& pool@ == crate::fine::rest_of_pool(old(pool)@).push(back)
            };
        let scene = Scene::of(*wide, paints@, width, height, old(pool)@);
        assert(crate::fine::row_run(
            scene.wide,
            scene.paints,
            y_tile as int,
            blocks@,
            fine,
            used,
        ));
    }
}

/// Runs both operations, possibly on two threads, each on a buffer and a pool of its own.
///
/// Calls `rayon::join`, which runs each of the two closures that it is given exactly once and
/// returns when both have returned. The contract claims that each operation has then been run on
/// its buffer and its pool. It says nothing of the order or of the threads.
#[verifier::external_body]
fn join_on<F: Send, A, B>(
    oper_a: A,
    a: &mut [u8],
    pool_a: &mut Vec<F>,
    oper_b: B,
    b: &mut [u8],
    pool_b: &mut Vec<F>,
)
    where
        A: FnOnce(&mut [u8], &mut Vec<F>) + Send,
        B: FnOnce(&mut [u8], &mut Vec<F>) + Send,
    requires
        call_requires(oper_a, (a, pool_a)),
        call_requires(oper_b, (b, pool_b)),
    ensures
        call_ensures(oper_a, (a, pool_a), ()),
        call_ensures(oper_b, (b, pool_b), ()),
{
    rayon::join(|| oper_a(a, pool_a), || oper_b(b, pool_b));
}

/// First pixel row of tile row `y` in an image of `height` rows, or `height` if it lies below.
pub open spec fn first_row(height: int, y: int) -> int {
    if y * 4 < height {
        y * 4
    } else {
        height
    }
}

/// Whether a buffer of `len` bytes holds exactly the pixel rows of tile rows `y_start..y_end`.
pub open spec fn is_strip(
    len: int,
    width: int,
    height: int,
    y_start: int,
    y_end: int,
    row_start_px: int,
) -> bool {
    &&& row_start_px == first_row(height, y_start)
    &&& len == (first_row(height, y_end) - row_start_px) * width * 4
}

/// Two buffers, one after the other, hold the rows of the first and then those of the second.
proof fn lemma_sample_concat(
    a: Seq<u8>,
    b: Seq<u8>,
    width: int,
    rows: int,
    r: int,
    q: int,
    c: int,
)
    requires
        0 <= rows,
        a.len() == rows * width * 4,
        in_buffer((a + b).len() as int, width, r, q, c),
    ensures
        r < rows ==> in_buffer(a.len() as int, width, r, q, c) && sample(a + b, width, r, q, c)
            == sample(a, width, r, q, c),
        r >= rows ==> in_buffer(b.len() as int, width, r - rows, q, c) && sample(
            a + b,
            width,
            r,
            q,
            c,
        ) == sample(b, width, r - rows, q, c),
{
    if r < rows {
        lemma_byte_index_bound(width, r, q, c, rows);
    } else {
        assert((r - rows) * width == r * width - rows * width) by (nonlinear_arith);
        assert(0 <= (r - rows) * width) by (nonlinear_arith)
            requires
                0 <= width,
                rows <= r,
        ;
        assert(byte_index(width, r, q, c) == a.len() + byte_index(width, r - rows, q, c));
    }
}

/// Rendering the upper and the lower tile rows of a strip, each in its own part of the buffer,
/// is rendering the strip: in either order or at once, since the parts share no byte.
pub proof fn law_strip_is_rendered_in_parts<F: Rasterizer>(
    scene: Scene<F>,
    top_before: Seq<u8>,
    top_after: Seq<u8>,
    bottom_before: Seq<u8>,
    bottom_after: Seq<u8>,
    width_tiles: int,
    y_start: int,
    mid: int,
    y_end: int,
)
    requires
        0 <= y_start <= mid <= y_end,
        is_strip(
            top_before.len() as int,
            scene.width as int,
            scene.height as int,
            y_start,
            mid,
            first_row(scene.height as int, y_start),
        ),
        is_strip(
            bottom_before.len() as int,
            scene.width as int,
            scene.height as int,
            mid,
            y_end,
            first_row(scene.height as int, mid),
        ),
        rows_rendered(
            scene,
            top_before,
            top_after,
            width_tiles,
            y_start,
            mid,
            first_row(scene.height as int, y_start),
        ),
        rows_rendered(
            scene,
            bottom_before,
            bottom_after,
            width_tiles,
            mid,
            y_end,
            first_row(scene.height as int, mid),
        ),
    ensures
        is_strip(
            (top_before + bottom_before).len() as int,
            scene.width as int,
            scene.height as int,
            y_start,
            y_end,
            first_row(scene.height as int, y_start),
        ),
        rows_rendered(
            scene,
            top_before + bottom_before,
            top_after + bottom_after,
            width_tiles,
            y_start,
            y_end,
            first_row(scene.height as int, y_start),
        ),
{
    let width = scene.width as int;
    let height = scene.height as int;
    let before = top_before + bottom_before;
    let after = top_after + bottom_after;
    let origin = first_row(height, y_start);
    let split = first_row(height, mid);
    let rows = split - origin;
    let all_rows = first_row(height, y_end) - origin;
    assert(before.len() == all_rows * width * 4) by (nonlinear_arith)
        requires
            before.len() == rows * width * 4 + (all_rows - rows) * width * 4,
    ;
    assert forall|x: int, y: int|
        0 <= x < width_tiles && y_start <= y < y_end && x * 256 < width && y * 4
            < height implies #[trigger] tile_in_place(scene, after, origin, x, y) by {
        let part = if y < mid {
            top_after
        } else {
            bottom_after
        };
        let part_origin = if y < mid {
            origin
        } else {
            split
        };
        assert(tile_in_place(scene, part, part_origin, x, y));
        let block = choose|block: TileBlock| #[trigger]
            scene.block_of(x, y, block) && tile_shown(
                part,
                block@,
                width,
                y * 4 - part_origin,
                visible_rows(height, y),
                x,
            );
        let top = y * 4 - origin;
        assert forall|r: int, q: int, c: int|
            top <= r < top + visible_rows(height, y) && x * 256 <= q < x * 256 + 256 && q < width
                && 0 <= c < 4 implies #[trigger] sample(after, width, r, q, c) == block_sample(
            block@,
            r - top,
            q - x * 256,
            c,
        ) by {
            lemma_byte_index_bound(width, r, q, c, all_rows);
            lemma_sample_concat(top_after, bottom_after, width, rows, r, q, c);
            let pr = r + origin - part_origin;
            assert(sample(part, width, pr, q, c) == block_sample(
                block@,
                pr - (y * 4 - part_origin),
                q - x * 256,
                c,
            ));
        }
        assert(tile_shown(after, block@, width, top, visible_rows(height, y), x));
        assert(tile_painted(scene, after, top, visible_rows(height, y), x, y));
    }
    assert forall|r: int, q: int, c: int|
        in_buffer(before.len() as int, width, r, q, c) && !(q < width_tiles * 256 && y_start * 4
            - origin <= r < y_end * 4 - origin) implies #[trigger] sample(after, width, r, q, c)
        == sample(before, width, r, q, c) by {
        lemma_sample_concat(top_before, bottom_before, width, rows, r, q, c);
        lemma_sample_concat(top_after, bottom_after, width, rows, r, q, c);
        if r < rows {
            assert(sample(top_after, width, r, q, c) == sample(top_before, width, r, q, c));
        } else {
            assert(sample(bottom_after, width, r - rows, q, c) == sample(
                bottom_before,
                width,
                r - rows,
                q,
                c,
            ));
        }
    }
}

/// Nothing is left to do for tile rows whose pixel rows fill an empty buffer.
proof fn lemma_rows_rendered_empty<F: Rasterizer>(
    scene: Scene<F>,
    buf: Seq<u8>,
    width_tiles: int,
    y_start: int,
    y_end: int,
)
    requires
        0 <= y_start <= y_end,
        buf.len() == 0,
        is_strip(
            0,
            scene.width as int,
            scene.height as int,
            y_start,
            y_end,
            first_row(scene.height as int, y_start),
        ),
    ensures
        rows_rendered(
            scene,
            buf,
            buf,
            width_tiles,
            y_start,
            y_end,
            first_row(scene.height as int, y_start),
        ),
{
    let width = scene.width as int;
    let height = scene.height as int;
    assert forall|x: int, y: int|
        0 <= x < width_tiles && y_start <= y < y_end && x * 256 < width && y * 4
            < height implies #[trigger] tile_in_place(
        scene,
        buf,
        first_row(height, y_start),
        x,
        y,
    ) by {
        let rows = first_row(height, y_end) - first_row(height, y_start);
        assert(rows * width * 4 > 0) by (nonlinear_arith)
            requires
                rows > 0,
                width > 0,
        ;
    }
}

/// What is rendered of one scene is rendered of another of the same image, if the rasterizers at
/// hand are in states that are possible there.
pub proof fn lemma_rows_rendered_widen<F: Rasterizer>(
    scene: Scene<F>,
    wider: Scene<F>,
    before: Seq<u8>,
    after: Seq<u8>,
    width_tiles: int,
    y_start: int,
    y_end: int,
    origin: int,
)
    requires
        scene.same_image(wider),
        forall|i: int| 0 <= i < scene.pool.len() ==> wider.ready(#[trigger] scene.pool[i]),
        rows_rendered(scene, before, after, width_tiles, y_start, y_end, origin),
    ensures
        rows_rendered(wider, before, after, width_tiles, y_start, y_end, origin),
{
    crate::fine::lemma_ready_widen(scene, wider);
    assert forall|x: int, y: int|
        0 <= x < width_tiles && y_start <= y < y_end && x * 256 < wider.width && y * 4
            < wider.height implies #[trigger] tile_in_place(wider, after, origin, x, y) by {
        assert(tile_in_place(scene, after, origin, x, y));
        let top = y * 4 - origin;
        let rows = visible_rows(scene.height as int, y);
        let block = choose|block: TileBlock| #[trigger]
            scene.block_of(x, y, block) && tile_shown(
                after,
                block@,
                scene.width as int,
                top,
                rows,
                x,
            );
        assert(wider.block_of(x, y, block));
    }
}

/// Rasterizers that were not used are kept.
proof fn lemma_pool_kept_unused<F: Rasterizer>(scene: Scene<F>, workers: int)
    ensures
        crate::fine::pool_kept(scene, scene.pool, workers),
{
    assert forall|i: int| 0 <= i < scene.pool.len() implies scene.ready(
        #[trigger] scene.pool[i],
    ) by {
        crate::fine::lemma_ready_at_first(scene, scene.pool[i]);
    }
}

/// Rasterizers that are kept twice are kept.
proof fn lemma_pool_kept_again<F: Rasterizer>(
    scene: Scene<F>,
    between: Seq<F>,
    after: Seq<F>,
    workers: int,
)
    requires
        crate::fine::pool_kept(scene, between, workers),
        crate::fine::pool_kept(scene.with_pool(between), after, workers),
    ensures
        crate::fine::pool_kept(scene, after, workers),
{
    crate::fine::lemma_ready_widen(scene.with_pool(between), scene);
}

/// Two parts of the rasterizers at hand that are kept make a whole that is kept.
proof fn lemma_pool_kept_in_parts<F: Rasterizer>(
    scene: Scene<F>,
    a_before: Seq<F>,
    a_after: Seq<F>,
    a_workers: int,
    b_before: Seq<F>,
    b_after: Seq<F>,
    b_workers: int,
)
    requires
        scene.pool == a_before + b_before,
        0 <= a_workers,
        0 <= b_workers,
        if scene.pool.len() <= a_workers + b_workers {
            a_before.len() <= a_workers && b_before.len() <= b_workers
        } else {
            a_before.len() >= a_workers && b_before.len() >= b_workers
        },
        crate::fine::pool_kept(scene.with_pool(a_before), a_after, a_workers),
        crate::fine::pool_kept(scene.with_pool(b_before), b_after, b_workers),
    ensures
        crate::fine::pool_kept(scene, a_after + b_after, a_workers + b_workers),
{
    let after = a_after + b_after;
    lemma_pool_kept_unused(scene, 0);
    assert forall|i: int| 0 <= i < a_before.len() implies scene.ready(#[trigger] a_before[i]) by {
        assert(scene.pool[i] == a_before[i]);
    }
    assert forall|i: int| 0 <= i < b_before.len() implies scene.ready(#[trigger] b_before[i]) by {
        assert(scene.pool[i + a_before.len()] == b_before[i]);
    }
    crate::fine::lemma_ready_widen(scene.with_pool(a_before), scene);
    crate::fine::lemma_ready_widen(scene.with_pool(b_before), scene);
    assert forall|i: int| 0 <= i < after.len() implies scene.ready(#[trigger] after[i]) by {
        if i < a_after.len() {
            assert(after[i] == a_after[i]);
        } else {
            assert(after[i] == b_after[i - a_after.len()]);
        }
    }
    if forall|i: int| 0 <= i < scene.pool.len() ==> crate::fine::is_reset(#[trigger] scene.pool[i]) {
        assert forall|i: int| 0 <= i < a_before.len() implies crate::fine::is_reset(
            #[trigger] a_before[i],
        ) by {
            assert(scene.pool[i] == a_before[i]);
        }
        assert forall|i: int| 0 <= i < b_before.len() implies crate::fine::is_reset(
            #[trigger] b_before[i],
        ) by {
            assert(scene.pool[i + a_before.len()] == b_before[i]);
        }
        assert forall|i: int| 0 <= i < after.len() implies crate::fine::is_reset(
            #[trigger] after[i],
        ) by {
            if i < a_after.len() {
                assert(after[i] == a_after[i]);
            } else {
                assert(after[i] == b_after[i - a_after.len()]);
            }
        }
    }
}

/// What rendering tile rows `y_start..y_end` of a strip does, with at least one and at most the
/// given number of workers: nothing if there are no such rows or the buffer is empty, and else
/// the tile rows are rendered and the rasterizers are kept, of which there is one at least.
pub open spec fn strip_rendered<F: Rasterizer>(
    scene: Scene<F>,
    pool_after: Seq<F>,
    before: Seq<u8>,
    after: Seq<u8>,
    width_tiles: int,
    y_start: int,
    y_end: int,
    origin: int,
    workers: int,
) -> bool {
    if y_start < y_end && before.len() > 0 {
        &&& rows_rendered(scene, before, after, width_tiles, y_start, y_end, origin)
        &&& crate::fine::pool_kept(scene, pool_after, crate::fine::larger(workers, 1))
        &&& pool_after.len() > 0
    } else {
        after == before && pool_after == scene.pool
    }
}

/// A strip that is rendered or that is empty is rendered in any wider scene, and the rasterizers
/// are kept.
proof fn lemma_strip_rendered<F: Rasterizer>(
    scene: Scene<F>,
    wider: Scene<F>,
    pool_after: Seq<F>,
    before: Seq<u8>,
    after: Seq<u8>,
    width_tiles: int,
    y_start: int,
    y_end: int,
    workers: int,
)
    requires
        0 <= y_start < y_end,
        scene.same_image(wider),
        forall|i: int| 0 <= i < scene.pool.len() ==> wider.ready(#[trigger] scene.pool[i]),
        is_strip(
            before.len() as int,
            scene.width as int,
            scene.height as int,
            y_start,
            y_end,
            first_row(scene.height as int, y_start),
        ),
        strip_rendered(
            scene,
            pool_after,
            before,
            after,
            width_tiles,
            y_start,
            y_end,
            first_row(scene.height as int, y_start),
            workers,
        ),
    ensures
        rows_rendered(
            wider,
            before,
            after,
            width_tiles,
            y_start,
            y_end,
            first_row(scene.height as int, y_start),
        ),
        crate::fine::pool_kept(scene, pool_after, crate::fine::larger(workers, 1)),
        before.len() > 0 ==> pool_after.len() > 0,
{
    if before.len() > 0 {
        lemma_rows_rendered_widen(
            scene,
            wider,
            before,
            after,
            width_tiles,
            y_start,
            y_end,
            first_row(scene.height as int, y_start),
        );
    } else {
        lemma_rows_rendered_empty(wider, before, width_tiles, y_start, y_end);
        lemma_pool_kept_unused(scene, crate::fine::larger(workers, 1));
    }
}

/// Renders tile rows `y_start..y_end` into the buffer that holds their pixel rows: the upper half
/// of them and the lower half, in parallel as long as there are workers for both.
///
/// Does nothing if there are no such tile rows or the buffer is empty. Tile rows that lie below
/// the image are not looked at.
#[verifier::spinoff_prover]
#[verifier::rlimit(50)]
pub fn render_tile_rows_recursive<F: Rasterizer + Send>(
    wide: &Wide<F>,
    paints: &[F::Paint],
    width: u16,
    height: u16,
    width_tiles: usize,
    buffer: &mut [u8],
    y_start: usize,
    y_end: usize,
    row_start_px: usize,
    workers: usize,
    pool: &mut Vec<F>,
)
    where
        F::Color: Sync,
        F::Command: Sync,
        F::Paint: Sync,
    requires
        y_start < y_end && old(buffer)@.len() > 0 ==> {
            &&& wide.wf()
            &&& width_tiles <= wide.width_tiles
            &&& y_end <= wide.height_tiles || height <= wide.height_tiles * 4
            &&& width_tiles == 0 || (width_tiles - 1) * 256 <= width
            &&& y_start + y_end <= usize::MAX
            &&& is_strip(
                old(buffer)@.len() as int,
                width as int,
                height as int,
                y_start as int,
                y_end as int,
                row_start_px as int,
            )
        },
    ensures
        strip_rendered(
            Scene::of(*wide, paints@, width, height, old(pool)@),
            final(pool)@,
            old(buffer)@,
            final(buffer)@,
            width_tiles as int,
            y_start as int,
            y_end as int,
            row_start_px as int,
            workers as int,
        ),
    decreases y_end - y_start,
{
    if y_start >= y_end || buffer.is_empty() {
        return ;
    }
    let ghost before = buffer@;
    let ghost w = width as int;
    let ghost h = height as int;
    let ghost scene = Scene::of(*wide, paints@, width, height, pool@);
    let width_usize: usize = width as usize;
    let height_usize: usize = height as usize;
    proof {
        if row_start_px >= h {
            assert((first_row(h, y_end as int) - row_start_px) * w * 4 == 0) by (nonlinear_arith)
                requires
                    first_row(h, y_end as int) - row_start_px == 0,
            ;
        }
    }
    if y_end - y_start <= 1 {
        let y_tile: u16 = y_start as u16;
        let row_start: usize = if row_start_px < height_usize {
            row_start_px
        } else {
            height_usize
        };
        let row_end: usize = if row_start + 4 < height_usize {
            row_start + 4
        } else {
            height_usize
        };
        let actual_rows: usize = row_end - row_start;
        render_single_tile_row(
            wide,
            paints,
            width,
            height,
            width_tiles,
            y_tile,
            buffer,
            actual_rows,
            pool,
        );
        proof {
            let shown = visible_rows(actual_rows as int, 0);
            lemma_row_rendered(scene, width_tiles as int, y_tile as int, pool@, buffer@, shown);
            assert forall|x: int, y: int|
                0 <= x < width_tiles && y_start <= y < y_end && x * 256 < w && y * 4
                    < h implies #[trigger] tile_in_place(
                scene,
                buffer@,
                row_start_px as int,
                x,
                y,
            ) by {
                assert(tile_painted(scene, buffer@, 0, shown, x, y_tile as int));
            }
        }
    } else {
        let mid: usize = (y_start + y_end) / 2;
        let mid_pixel: usize = if mid <= height_usize / 4 {
            mid * 4
        } else {
            height_usize
        };
        let ghost rows = first_row(h, y_end as int) - row_start_px;
        proof {
            if w == 0 {
                assert(rows * w * 4 == 0) by (nonlinear_arith)
                    requires
                        w == 0,
                ;
            }
            assert((rows * w * 4) / (w * 4) == rows) by (nonlinear_arith)
                requires
                    w > 0,
            ;
        }
        let row_stride: usize = width_usize * COLOR_COMPONENTS;
        let rows_in_buffer: usize = buffer.len() / row_stride;
        let buffer_end_px: usize = row_start_px + rows_in_buffer;
        let clamped_mid_pixel: usize = if mid_pixel < row_start_px {
            row_start_px
        } else if mid_pixel > buffer_end_px {
            buffer_end_px
        } else {
            mid_pixel
        };
        let local_split_rows: usize = clamped_mid_pixel - row_start_px;
        proof {
            assert(local_split_rows * row_stride == local_split_rows * w * 4) by (nonlinear_arith)
                requires
                    row_stride == w * 4,
            ;
            assert(local_split_rows * w * 4 + (rows - local_split_rows) * w * 4 == rows * w * 4)
                by (nonlinear_arith);
            assert(0 <= local_split_rows * w * 4) by (nonlinear_arith)
                requires
                    0 <= local_split_rows,
                    0 <= w,
            ;
            assert(0 <= (rows - local_split_rows) * w * 4) by (nonlinear_arith)
                requires
                    local_split_rows <= rows,
                    0 <= w,
            ;
            if mid * 4 >= h {
                assert((first_row(h, y_end as int) - clamped_mid_pixel) * w * 4 == 0)
                    by (nonlinear_arith)
                    requires
                        first_row(h, y_end as int) - clamped_mid_pixel == 0,
                ;
            }
        }
        let split_index: usize = local_split_rows * row_stride;
        let ghost cut = split_index as int;
        let ghost top_before = before.subrange(0, cut);
        let ghost bottom_before = before.subrange(cut, before.len() as int);
        let (top, bottom) = buffer.split_at_mut(split_index);
        if workers <= 1 {
            render_tile_rows_recursive(
                wide,
                paints,
                width,
                height,
                width_tiles,
                top,
                y_start,
                mid,
                row_start_px,
                workers,
                pool,
            );
            let ghost between = pool@;
            render_tile_rows_recursive(
                wide,
                paints,
                width,
                height,
                width_tiles,
                bottom,
                mid,
                y_end,
                clamped_mid_pixel,
                workers,
                pool,
            );
            proof {
                lemma_pool_kept_unused(scene, 0);
                lemma_strip_rendered(
                    scene,
                    scene,
                    between,
                    top_before,
                    final(top)@,
                    width_tiles as int,
                    y_start as int,
                    mid as int,
                    workers as int,
                );
                lemma_strip_rendered(
                    scene.with_pool(between),
                    scene,
                    pool@,
                    bottom_before,
                    final(bottom)@,
                    width_tiles as int,
                    mid as int,
                    y_end as int,
                    workers as int,
                );
                lemma_pool_kept_again(scene, between, pool@, 1);
            }
        } else {
            let lower_workers: usize = workers / 2;
            let upper_workers: usize = workers - lower_workers;
            let at_hand: usize = pool.len();
            let upper_share: usize = if at_hand > workers {
                at_hand - lower_workers
            } else if at_hand < upper_workers {
                at_hand
            } else {
                upper_workers
            };
            let mut lower_pool: Vec<F> = pool.split_off(upper_share);
            let ghost upper_before = pool@;
            let ghost lower_before = lower_pool@;
            let upper = |part: &mut [u8], part_pool: &mut Vec<F>|
                requires
                    is_strip(
                        old(part)@.len() as int,
                        width as int,
                        height as int,
                        y_start as int,
                        mid as int,
                        row_start_px as int,
                    ),
                ensures
                    strip_rendered(
                        Scene::of(*wide, paints@, width, height, old(part_pool)@),
                        final(part_pool)@,
                        old(part)@,
                        final(part)@,
                        width_tiles as int,
                        y_start as int,
                        mid as int,
                        row_start_px as int,
                        upper_workers as int,
                    ),
                {
                    render_tile_rows_recursive(
                        wide,
                        paints,
                        width,
                        height,
                        width_tiles,
                        part,
                        y_start,
                        mid,
                        row_start_px,
                        upper_workers,
                        part_pool,
                    );
                };
            let lower = |part: &mut [u8], part_pool: &mut Vec<F>|
                requires
                    is_strip(
                        old(part)@.len() as int,
                        width as int,
                        height as int,
                        mid as int,
                        y_end as int,
                        clamped_mid_pixel as int,
                    ),
                    old(part)@.len() == bottom_before.len(),
                ensures
                    strip_rendered(
                        Scene::of(*wide, paints@, width, height, old(part_pool)@),
                        final(part_pool)@,
                        old(part)@,
                        final(part)@,
                        width_tiles as int,
                        mid as int,
                        y_end as int,
                        clamped_mid_pixel as int,
                        lower_workers as int,
                    ),
                {
                    render_tile_rows_recursive(
                        wide,
                        paints,
                        width,
                        height,
                        width_tiles,
                        part,
                        mid,
                        y_end,
                        clamped_mid_pixel,
                        lower_workers,
                        part_pool,
                    );
                };
            join_on(upper, top, pool, lower, bottom, &mut lower_pool);
            let ghost upper_after = pool@;
            let ghost lower_after = lower_pool@;
            pool.append(&mut lower_pool);
            proof {
                assert(scene.pool =~= upper_before + lower_before);
                assert(pool@ =~= upper_after + lower_after);
                lemma_pool_kept_unused(scene, 0);
                assert forall|i: int| 0 <= i < upper_before.len() implies scene.ready(
                    #[trigger] upper_before[i],
                ) by {
                    assert(scene.pool[i] == upper_before[i]);
                }
                assert forall|i: int| 0 <= i < lower_before.len() implies scene.ready(
                    #[trigger] lower_before[i],
                ) by {
                    assert(scene.pool[i + upper_before.len()] == lower_before[i]);
                }
                lemma_strip_rendered(
                    scene.with_pool(upper_before),
                    scene,
                    upper_after,
                    top_before,
                    final(top)@,
                    width_tiles as int,
                    y_start as int,
                    mid as int,
                    upper_workers as int,
                );
                lemma_strip_rendered(
                    scene.with_pool(lower_before),
                    scene,
                    lower_after,
                    bottom_before,
                    final(bottom)@,
                    width_tiles as int,
                    mid as int,
                    y_end as int,
                    lower_workers as int,
                );
                lemma_pool_kept_in_parts(
                    scene,
                    upper_before,
                    upper_after,
                    upper_workers as int,
                    lower_before,
                    lower_after,
                    lower_workers as int,
                );
            }
        }
        proof {
            let top_after = buffer@.subrange(0, cut);
            let bottom_after = buffer@.subrange(cut, buffer@.len() as int);
            assert(top_after =~= final(top)@);
            assert(bottom_after =~= final(bottom)@);
            assert(before =~= top_before + bottom_before);
            assert(buffer@ =~= top_after + bottom_after);
            law_strip_is_rendered_in_parts(
                scene,
                top_before,
                top_after,
                bottom_before,
                bottom_after,
                width_tiles as int,
                y_start as int,
                mid as int,
                y_end as int,
            );
        }
    }
}

/// Renders all tile rows into a buffer of `width` by `height` pixels, halves of them in parallel
/// as long as there are workers for both.
pub fn render_tiles_parallel<F: Rasterizer + Send>(
    wide: &Wide<F>,
    paints: &[F::Paint],
    width: u16,
    height: u16,
    width_tiles: usize,
    height_tiles: usize,
    buffer: &mut [u8],
    workers: usize,
    pool: &mut Vec<F>,
)
    where
        F::Color: Sync,
        F::Command: Sync,
        F::Paint: Sync,
    requires
        old(buffer)@.len() == width * height * 4,
        height_tiles > 0 && old(buffer)@.len() > 0 ==> {
            &&& wide.wf()
            &&& width_tiles <= wide.width_tiles
            &&& height_tiles <= wide.height_tiles || height <= wide.height_tiles * 4
            &&& width_tiles == 0 || (width_tiles - 1) * 256 <= width
            &&& height <= height_tiles * 4
        },
    ensures
        rows_rendered(
            Scene::of(*wide, paints@, width, height, old(pool)@),
            old(buffer)@,
            final(buffer)@,
            width_tiles as int,
            0,
            height_tiles as int,
            0,
        ),
        strip_rendered(
            Scene::of(*wide, paints@, width, height, old(pool)@),
            final(pool)@,
            old(buffer)@,
            final(buffer)@,
            width_tiles as int,
            0,
            height_tiles as int,
            0,
            workers as int,
        ),
{
    proof {
        let rows = first_row(height as int, height_tiles as int);
        assert((rows - 0) * width * 4 == width * rows * 4) by (nonlinear_arith);
        if width > 0 && height > 0 {
            assert(width * height * 4 > 0) by (nonlinear_arith)
                requires
                    width > 0,
                    height > 0,
            ;
        }
    }
    if buffer.is_empty() {
        return ;
    }
    render_tile_rows_recursive(
        wide,
        paints,
        width,
        height,
        width_tiles,
        buffer,
        0,
        height_tiles,
        0,
        workers,
        pool,
    );
}

/// Every byte of a buffer of whole rows is a byte of one of its pixels.
proof fn lemma_byte_position(width: int, height: int, i: int) -> (p: (int, int, int))
    requires
        0 <= width,
        0 <= height,
        0 <= i < width * height * 4,
    ensures
        0 <= p.0 < height,
        0 <= p.1 < width,
        0 <= p.2 < 4,
        byte_index(width, p.0, p.1, p.2) == i,
{
    assert(width > 0) by (nonlinear_arith)
        requires
            0 <= width,
            0 < width * height * 4,
    ;
    let pixel = i / 4;
    let row = pixel / width;
    let col = pixel % width;
    vstd::arithmetic::div_mod::lemma_fundamental_div_mod(pixel, width);
    assert(0 <= row < height && 0 <= col < width) by (nonlinear_arith)
        requires
            width > 0,
            0 <= pixel < width * height,
            pixel == width * row + col,
            row == pixel / width,
            col == pixel % width,
    ;
    assert(width * row == row * width) by (nonlinear_arith);
    (row, col, i % 4)
}

/// Two renderings of one image agree in every pixel that both paint, if their rasterizers draw
/// alike. They may begin with different rows of the image, and how the tile rows are shared out
/// among threads does not matter.
pub proof fn law_renderings_agree_in_each_pixel<F: Rasterizer>(
    s: Scene<F>,
    t: Scene<F>,
    before_a: Seq<u8>,
    after_a: Seq<u8>,
    y_start_a: int,
    y_end_a: int,
    origin_a: int,
    before_b: Seq<u8>,
    after_b: Seq<u8>,
    y_start_b: int,
    y_end_b: int,
    origin_b: int,
    width_tiles: int,
    row: int,
    col: int,
    c: int,
)
    requires
        s.same_image(t),
        crate::fine::agreeing(s, t),
        rows_rendered(s, before_a, after_a, width_tiles, y_start_a, y_end_a, origin_a),
        rows_rendered(t, before_b, after_b, width_tiles, y_start_b, y_end_b, origin_b),
        y_start_a * 4 <= row < y_end_a * 4,
        y_start_b * 4 <= row < y_end_b * 4,
        0 <= row < s.height,
        0 <= col < s.width,
        col < width_tiles * 256,
        0 <= c < 4,
    ensures
        sample(after_a, s.width as int, row - origin_a, col, c) == sample(
            after_b,
            s.width as int,
            row - origin_b,
            col,
            c,
        ),
{
    let width = s.width as int;
    let height = s.height as int;
    let x = col / 256;
    let y = row / 4;
    let rows = visible_rows(height, y);
    assert(tile_in_place(s, after_a, origin_a, x, y));
    assert(tile_in_place(t, after_b, origin_b, x, y));
    let p = choose|block: TileBlock| #[trigger]
        s.block_of(x, y, block) && tile_shown(after_a, block@, width, y * 4 - origin_a, rows, x);
    let q = choose|block: TileBlock| #[trigger]
        t.block_of(x, y, block) && tile_shown(after_b, block@, width, y * 4 - origin_b, rows, x);
    assert(p@ == q@);
    assert(sample(after_a, width, row - origin_a, col, c) == block_sample(
        p@,
        row - y * 4,
        col - x * 256,
        c,
    ));
    assert(sample(after_b, width, row - origin_b, col, c) == block_sample(
        q@,
        row - y * 4,
        col - x * 256,
        c,
    ));
}

/// Rendering leaves nothing to chance: if their rasterizers draw alike, two renderings of the
/// same tile rows to buffers of `rows` pixel rows agree in every byte, provided that they began
/// with equal buffers or that the tiles cover the buffers. In the latter case nothing remains of
/// what the buffers held before.
pub proof fn law_rendering_is_determined<F: Rasterizer>(
    s: Scene<F>,
    t: Scene<F>,
    before_a: Seq<u8>,
    after_a: Seq<u8>,
    before_b: Seq<u8>,
    after_b: Seq<u8>,
    width_tiles: int,
    y_start: int,
    y_end: int,
    origin: int,
    rows: int,
)
    requires
        s.same_image(t),
        crate::fine::agreeing(s, t),
        0 <= origin,
        0 <= rows,
        origin + rows <= s.height,
        before_a.len() == rows * s.width * 4,
        before_b.len() == rows * s.width * 4,
        rows_rendered(s, before_a, after_a, width_tiles, y_start, y_end, origin),
        rows_rendered(t, before_b, after_b, width_tiles, y_start, y_end, origin),
        before_a == before_b || (s.width <= width_tiles * 256 && y_start * 4 <= origin && origin
            + rows <= y_end * 4),
    ensures
        after_a == after_b,
{
    let width = s.width as int;
    assert(rows * width * 4 == width * rows * 4) by (nonlinear_arith);
    assert forall|i: int| 0 <= i < after_a.len() implies after_a[i] == after_b[i] by {
        let (r, q, c) = lemma_byte_position(width, rows, i);
        assert(in_buffer(before_a.len() as int, width, r, q, c));
        assert(after_a[i] == sample(after_a, width, r, q, c));
        assert(after_b[i] == sample(after_b, width, r, q, c));
        if q < width_tiles * 256 && y_start * 4 <= r + origin < y_end * 4 {
            law_renderings_agree_in_each_pixel(
                s,
                t,
                before_a,
                after_a,
                y_start,
                y_end,
                origin,
                before_b,
                after_b,
                y_start,
                y_end,
                origin,
                width_tiles,
                r + origin,
                q,
                c,
            );
        }
    }
    assert(after_a =~= after_b);
}

/// Rendering in parallel gives what rendering in turn gives, byte for byte, if the rasterizers
/// draw alike and the tiles cover the image, whatever the buffers held before and however many
/// workers there were.
pub proof fn law_parallel_rendering_gives_the_same<F: Rasterizer>(
    s: Scene<F>,
    pool_after: Seq<F>,
    workers: int,
    before_a: Seq<u8>,
    in_turn: Seq<u8>,
    before_b: Seq<u8>,
    parallel: Seq<u8>,
    width_tiles: int,
    height_tiles: int,
)
    requires
        crate::fine::agreeing(s.with_pool(Seq::empty()), s),
        width_tiles == (s.width + 255) / 256,
        height_tiles == (s.height + 3) / 4,
        before_a.len() == s.width * s.height * 4,
        before_b.len() == s.width * s.height * 4,
        rows_rendered(
            s.with_pool(Seq::empty()),
            before_a,
            in_turn,
            width_tiles,
            0,
            height_tiles,
            0,
        ),
        strip_rendered(
            s,
            pool_after,
            before_b,
            parallel,
            width_tiles,
            0,
            height_tiles,
            0,
            workers,
        ),
    ensures
        in_turn == parallel,
{
    let width = s.width as int;
    let height = s.height as int;
    assert(height * width * 4 == width * height * 4) by (nonlinear_arith);
    if before_b.len() == 0 {
        assert(in_turn =~= parallel);
    } else {
        assert(height > 0) by (nonlinear_arith)
            requires
                0 <= height,
                0 < height * width * 4,
        ;
        law_rendering_is_determined(
            s.with_pool(Seq::empty()),
            s,
            before_a,
            in_turn,
            before_b,
            parallel,
            width_tiles,
            0,
            height_tiles,
            0,
            height,
        );
    }
}

/// A strip that is rendered on its own holds exactly its pixel rows of the whole image, if the
/// rasterizers draw alike. How far its tile rows reach beyond the image does not matter.
pub proof fn law_strip_is_part_of_the_picture<F: Rasterizer>(
    s: Scene<F>,
    t: Scene<F>,
    before: Seq<u8>,
    picture: Seq<u8>,
    height_tiles: int,
    strip_before: Seq<u8>,
    strip: Seq<u8>,
    width_tiles: int,
    y_start: int,
    y_end: int,
)
    requires
        s.same_image(t),
        crate::fine::agreeing(s, t),
        s.width <= width_tiles * 256,
        s.height <= height_tiles * 4,
        0 <= y_start <= y_end,
        before.len() == s.width * s.height * 4,
        rows_rendered(s, before, picture, width_tiles, 0, height_tiles, 0),
        is_strip(
            strip_before.len() as int,
            s.width as int,
            s.height as int,
            y_start,
            y_end,
            first_row(s.height as int, y_start),
        ),
        rows_rendered(
            t,
            strip_before,
            strip,
            width_tiles,
            y_start,
            y_end,
            first_row(s.height as int, y_start),
        ),
    ensures
        strip == picture.subrange(
            first_row(s.height as int, y_start) * s.width * 4,
            first_row(s.height as int, y_end) * s.width * 4,
        ),
{
    let width = s.width as int;
    let height = s.height as int;
    let first = first_row(height, y_start);
    let end = first_row(height, y_end);
    let rows = end - first;
    assert(rows * width * 4 == end * width * 4 - first * width * 4) by (nonlinear_arith)
        requires
            rows == end - first,
    ;
    assert(0 <= first * width * 4 <= end * width * 4 <= width * height * 4) by (nonlinear_arith)
        requires
            0 <= first <= end <= height,
            0 <= width,
    ;
    assert(rows * width * 4 == width * rows * 4) by (nonlinear_arith);
    assert forall|i: int| 0 <= i < strip.len() implies strip[i] == picture[first * width * 4
        + i] by {
        let (r, q, c) = lemma_byte_position(width, rows, i);
        assert(byte_index(width, r + first, q, c) == first * width * 4 + i) by (nonlinear_arith)
            requires
                byte_index(width, r, q, c) == i,
                byte_index(width, r, q, c) == (r * width + q) * 4 + c,
                byte_index(width, r + first, q, c) == ((r + first) * width + q) * 4 + c,
        ;
        law_renderings_agree_in_each_pixel(
            s,
            t,
            before,
            picture,
            0,
            height_tiles,
            0,
            strip_before,
            strip,
            y_start,
            y_end,
            first,
            width_tiles,
            r + first,
            q,
            c,
        );
        assert(strip[i] == sample(strip, width, r, q, c));
        assert(picture[first * width * 4 + i] == sample(picture, width, r + first, q, c));
    }
    assert(strip =~= picture.subrange(first * width * 4, end * width * 4));
}

/// Rendering a strip leaves the same bytes as rendering its upper and its lower tile rows, each
/// in its own part of the buffer, if the rasterizers draw alike and the tiles cover the strip.
pub proof fn law_parts_of_a_strip_give_the_same<F: Rasterizer>(
    s: Scene<F>,
    t: Scene<F>,
    before: Seq<u8>,
    after: Seq<u8>,
    top_before: Seq<u8>,
    top_after: Seq<u8>,
    bottom_before: Seq<u8>,
    bottom_after: Seq<u8>,
    width_tiles: int,
    y_start: int,
    mid: int,
    y_end: int,
)
    requires
        s.same_image(t),
        crate::fine::agreeing(s, t),
        s.width <= width_tiles * 256,
        0 <= y_start <= mid <= y_end,
        before.len() == top_before.len() + bottom_before.len(),
        is_strip(
            top_before.len() as int,
            s.width as int,
            s.height as int,
            y_start,
            mid,
            first_row(s.height as int, y_start),
        ),
        is_strip(
            bottom_before.len() as int,
            s.width as int,
            s.height as int,
            mid,
            y_end,
            first_row(s.height as int, mid),
        ),
        rows_rendered(
            s,
            before,
            after,
            width_tiles,
            y_start,
            y_end,
            first_row(s.height as int, y_start),
        ),
        rows_rendered(
            t,
            top_before,
            top_after,
            width_tiles,
            y_start,
            mid,
            first_row(s.height as int, y_start),
        ),
        rows_rendered(
            t,
            bottom_before,
            bottom_after,
            width_tiles,
            mid,
            y_end,
            first_row(s.height as int, mid),
        ),
    ensures
        after == top_after + bottom_after,
{
    let height = s.height as int;
    let first = first_row(height, y_start);
    law_strip_is_rendered_in_parts(
        t,
        top_before,
        top_after,
        bottom_before,
        bottom_after,
        width_tiles,
        y_start,
        mid,
        y_end,
    );
    if first_row(height, y_end) == first {
        assert((first_row(height, y_end) - first) * s.width * 4 == 0) by (nonlinear_arith)
            requires
                first_row(height, y_end) == first,
        ;
        assert(after =~= top_after + bottom_after);
    } else {
        law_rendering_is_determined(
            s,
            t,
            before,
            after,
            top_before + bottom_before,
            top_after + bottom_after,
            width_tiles,
            y_start,
            y_end,
            first,
            first_row(height, y_end) - first,
        );
    }
}

} // verus!
