use hayro_raster::context::{EncodedPaint, PaintType, Pixmap, RenderContext, RenderMode};
use hayro_raster::fine::{draw_row, draw_tile, with_thread_fine, Rasterizer, Wide, WideTile};
use hayro_raster::tiles::{
    render_single_tile_row, render_tile_rows_recursive, render_tiles_parallel,
    render_tiles_sequential, TileBlock, BLOCK_LEN,
};

type Paint = EncodedPaint<u8, u8>;

const NO_PAINTS: &[Paint] = &[];

/// Adds the numbers that its commands give to a background, and remembers what was asked of it.
/// A command from 100 on names a coverage value, and one from 200 on a paint.
struct Summing {
    sum: u8,
    x: u16,
    y: u16,
    made_for: (u16, u16),
    log: Vec<String>,
}

impl Rasterizer for Summing {
    type Color = u8;
    type Command = u8;
    type Paint = Paint;

    fn new(width: u16, height: u16) -> Self {
        Summing { sum: 99, x: 0, y: 0, made_for: (width, height), log: vec![] }
    }

    fn reset(mut self) -> Self {
        self.sum = 0;
        self.log.push(format!("reset"));
        self
    }

    fn set_coords(mut self, x: u16, y: u16) -> Self {
        self.x = x;
        self.y = y;
        self.log.push(format!("coords {x} {y}"));
        self
    }

    fn clear(mut self, bg: &u8) -> Self {
        self.sum = *bg;
        self.log.push(format!("clear {bg}"));
        self
    }

    fn run_cmd(mut self, cmd: &u8, alphas: &[u8], paints: &[Paint]) -> Self {
        let value = match *cmd {
            200.. => match &paints[*cmd as usize - 200] {
                EncodedPaint::Image(value) => *value,
                EncodedPaint::Shading(value) => *value,
            },
            100.. => alphas[*cmd as usize - 100],
            value => value,
        };
        self.sum = self.sum.wrapping_add(value);
        self.log.push(format!("run {cmd}"));
        self
    }

    fn top_block(&self) -> TileBlock {
        let mut block = [0u8; BLOCK_LEN];
        for col in 0..256 {
            for row in 0..4 {
                let at = (col * 4 + row) * 4;
                block[at] = self.sum;
                block[at + 1] = col as u8;
                block[at + 2] = row as u8;
                block[at + 3] = (self.y as u8).wrapping_mul(16).wrapping_add(self.x as u8);
            }
        }
        block
    }
}

fn wide(width_tiles: u16, height_tiles: u16) -> Wide<Summing> {
    let mut tiles = vec![];
    for y in 0..height_tiles {
        for x in 0..width_tiles {
            tiles.push(WideTile { bg: x as u8, cmds: vec![10, y as u8] });
        }
    }
    Wide { width_tiles, height_tiles, tiles, alphas: vec![30, 31] }
}

fn pixel(buffer: &[u8], width: usize, x: usize, y: usize) -> [u8; 4] {
    let at = (y * width + x) * 4;
    [buffer[at], buffer[at + 1], buffer[at + 2], buffer[at + 3]]
}

fn expected(x: usize, y: usize) -> [u8; 4] {
    let (tx, ty) = (x / 256, y / 4);
    [
        (tx + 10 + ty) as u8,
        (x % 256) as u8,
        (y % 4) as u8,
        (ty * 16 + tx) as u8,
    ]
}

fn assert_image(buffer: &[u8], width: usize, height: usize) {
    assert_eq!(buffer.len(), width * height * 4);
    for y in 0..height {
        for x in 0..width {
            assert_eq!(pixel(buffer, width, x, y), expected(x, y), "at {x}, {y}");
        }
    }
}

#[test]
fn sequential_rendering_places_every_pixel() {
    let mut buffer = vec![0xee; 300 * 10 * 4];
    render_tiles_sequential(&wide(2, 3), NO_PAINTS, 300, 10, 2, 3, &mut buffer);
    assert_image(&buffer, 300, 10);
    assert_eq!(pixel(&buffer, 300, 0, 0), [10, 0, 0, 0]);
    assert_eq!(pixel(&buffer, 300, 255, 3), [10, 255, 3, 0]);
    assert_eq!(pixel(&buffer, 300, 256, 4), [12, 0, 0, 17]);
    assert_eq!(pixel(&buffer, 300, 299, 9), [13, 43, 1, 33]);
}

#[test]
fn parallel_rendering_places_every_pixel() {
    let mut pool = vec![];
    let mut buffer = vec![0xee; 300 * 10 * 4];
    render_tiles_parallel(&wide(2, 3), NO_PAINTS, 300, 10, 2, 3, &mut buffer, 4, &mut pool);
    assert_image(&buffer, 300, 10);
    assert!(pool.len() >= 1);
}

#[test]
fn parallel_and_sequential_rendering_agree() {
    for (width, height) in [(1, 1), (255, 3), (256, 4), (257, 5), (513, 37), (3, 64)] {
        let width_tiles = (width + 255) / 256;
        let height_tiles = (height + 3) / 4;
        let tiles = wide(width_tiles as u16, height_tiles as u16);
        let mut a = vec![1; width * height * 4];
        let mut b = vec![2; width * height * 4];
        let mut pool = vec![];
        render_tiles_sequential(
            &tiles,
            NO_PAINTS,
            width as u16,
            height as u16,
            width_tiles,
            height_tiles,
            &mut a,
        );
        render_tiles_parallel(
            &tiles,
            NO_PAINTS,
            width as u16,
            height as u16,
            width_tiles,
            height_tiles,
            &mut b,
            3,
            &mut pool,
        );
        assert_eq!(a, b);
        assert_image(&a, width, height);
    }
}

#[test]
fn bytes_beyond_the_tiles_stay() {
    let mut buffer = vec![0xee; 260 * 6 * 4];
    render_tiles_sequential(&wide(1, 1), NO_PAINTS, 260, 6, 1, 1, &mut buffer);
    assert_eq!(pixel(&buffer, 260, 255, 3), expected(255, 3));
    assert_eq!(pixel(&buffer, 260, 256, 0), [0xee; 4]);
    assert_eq!(pixel(&buffer, 260, 0, 4), [0xee; 4]);

    let mut pool = vec![];
    let mut buffer = vec![0xee; 260 * 3 * 4];
    render_tiles_parallel(&wide(1, 1), NO_PAINTS, 260, 3, 1, 1, &mut buffer, 4, &mut pool);
    assert_eq!(pixel(&buffer, 260, 255, 2), expected(255, 2));
    assert_eq!(pixel(&buffer, 260, 259, 2), [0xee; 4]);
}

#[test]
fn parallel_rendering_copes_with_a_short_image() {
    let mut pool = vec![];
    let mut buffer = vec![0xee; 2 * 5 * 4];
    render_tiles_parallel(&wide(1, 4), NO_PAINTS, 2, 5, 1, 4, &mut buffer, 4, &mut pool);
    assert_image(&buffer, 2, 5);
}

#[test]
fn empty_images_are_left_alone() {
    let mut pool: Vec<Summing> = vec![];
    let mut buffer: Vec<u8> = vec![];
    render_tiles_parallel(&wide(1, 1), NO_PAINTS, 0, 0, 1, 1, &mut buffer, 4, &mut pool);
    render_tiles_sequential(&wide(1, 1), NO_PAINTS, 0, 0, 1, 1, &mut buffer);
    assert!(buffer.is_empty());
    assert!(pool.is_empty());
}

#[test]
fn a_strip_of_tile_rows_is_rendered_into_its_own_buffer() {
    let mut pool = vec![];
    let mut buffer = vec![0xee; 7 * 6 * 4];
    render_tile_rows_recursive(
        &wide(1, 4),
        NO_PAINTS,
        7,
        14,
        1,
        &mut buffer,
        2,
        4,
        8,
        2,
        &mut pool,
    );
    for y in 0..6 {
        for x in 0..7 {
            assert_eq!(pixel(&buffer, 7, x, y), expected(x, y + 8));
        }
    }

    let mut untouched = vec![0xee; 8];
    render_tile_rows_recursive(
        &wide(1, 4),
        NO_PAINTS,
        7,
        14,
        1,
        &mut untouched,
        3,
        3,
        12,
        2,
        &mut pool,
    );
    assert_eq!(untouched, vec![0xee; 8]);
}

#[test]
fn a_tile_row_without_rows_is_skipped() {
    let mut pool: Vec<Summing> = vec![];
    let mut row = vec![0xee; 4];
    render_single_tile_row(&wide(1, 1), NO_PAINTS, 1, 1, 1, 0, &mut row, 0, &mut pool);
    assert_eq!(row, vec![0xee; 4]);
    assert!(pool.is_empty());

    render_single_tile_row(&wide(1, 1), NO_PAINTS, 1, 1, 1, 0, &mut row, 1, &mut pool);
    assert_eq!(row, vec![10, 0, 0, 0]);
    assert_eq!(pool.len(), 1);
}

#[test]
fn a_tile_is_drawn_in_order() {
    let tile: WideTile<Summing> = WideTile { bg: 5, cmds: vec![1, 2, 3] };
    let (fine, block) = draw_tile(Summing::new(8, 9), &tile, &[], NO_PAINTS, 4, 7);
    assert_eq!(
        fine.log,
        vec!["reset", "coords 4 7", "clear 5", "run 1", "run 2", "run 3"]
    );
    assert_eq!(fine.made_for, (8, 9));
    assert_eq!(block[0], 11);
}

#[test]
fn what_was_drawn_before_does_not_show() {
    let tile: WideTile<Summing> = WideTile { bg: 5, cmds: vec![1] };
    let (used, first) = draw_tile(Summing::new(1, 1), &tile, &[], NO_PAINTS, 0, 0);
    let (_, again) = draw_tile(used, &tile, &[], NO_PAINTS, 0, 0);
    assert!(first == again);
}

#[test]
fn a_tile_row_is_drawn_from_left_to_right() {
    let (fine, blocks) = draw_row(Summing::new(1, 1), &wide(3, 2), NO_PAINTS, 1, 2);
    assert_eq!(blocks.len(), 2);
    assert_eq!((blocks[0][0], blocks[1][0]), (11, 12));
    assert_eq!(fine.log[1], "coords 0 1");
    assert_eq!(fine.log[6], "coords 1 1");
}

#[test]
fn a_pool_lends_its_last_rasterizer() {
    let mut pool: Vec<Summing> = vec![];
    let sum = with_thread_fine(&mut pool, 3, 4, |mut fine: Summing| {
        let sum = fine.sum;
        fine.sum = 77;
        (fine, sum)
    });
    assert_eq!(sum, 99);
    assert_eq!(pool.len(), 1);
    assert_eq!(pool[0].made_for, (3, 4));
    assert_eq!(pool[0].sum, 0);

    pool.push(Summing::new(5, 6));
    let made_for = with_thread_fine(&mut pool, 7, 8, |fine: Summing| {
        let made_for = fine.made_for;
        (fine, made_for)
    });
    assert_eq!(made_for, (5, 6));
    assert_eq!(pool.len(), 2);
    assert_eq!(pool[0].made_for, (3, 4));
    assert_eq!(pool[1].made_for, (5, 6));
    assert_eq!(pool[1].sum, 0);
}

fn context(width: u16, height: u16, limit: Option<usize>) -> RenderContext<u8, u8, u8> {
    RenderContext::new(width, height, limit)
}

#[test]
fn the_number_of_threads_decides_how_to_render() {
    let sequential = RenderMode::Sequential;
    assert_eq!(context(1, 1, Some(1)).render_mode(None), sequential);
    assert_eq!(context(1, 1, Some(1)).render_mode(Some(8)), sequential);
    assert_eq!(context(1, 1, None).render_mode(Some(1)), sequential);
    assert_eq!(
        context(1, 1, Some(3)).render_mode(Some(1)),
        RenderMode::Parallel { install: Some(3) }
    );
    assert_eq!(
        context(1, 1, Some(0)).render_mode(Some(2)),
        RenderMode::Parallel { install: Some(2) }
    );
    assert_eq!(
        context(1, 1, None).render_mode(None),
        RenderMode::Parallel { install: None }
    );
    assert_eq!(context(0, 5, Some(4)).render_mode(None), RenderMode::Nothing);
    assert_eq!(context(5, 0, Some(4)).render_mode(None), RenderMode::Nothing);
}

#[test]
fn tiles_cover_the_context() {
    assert_eq!(context(0, 0, None).width_tiles(), 0);
    assert_eq!(context(256, 4, None).width_tiles(), 1);
    assert_eq!(context(257, 4, None).width_tiles(), 2);
    assert_eq!(context(65535, 4, None).width_tiles(), 256);
    assert_eq!(context(1, 4, None).height_tiles(), 1);
    assert_eq!(context(1, 5, None).height_tiles(), 2);
    assert_eq!(context(1, 65535, None).height_tiles(), 16384);
}

#[test]
fn threads_do_not_show_in_a_pixmap() {
    let mut images = vec![];
    for threads in [Some(1), Some(2), None] {
        let ctx = context(300, 21, threads);
        let mut pool = vec![];
        let mut pixmap = Pixmap { width: 300, height: 21, data: vec![7; 300 * 21 * 4] };
        ctx.render_to_pixmap(&mut pixmap, None, 3, &wide(2, 6), &mut pool);
        assert_eq!(pool.len(), if threads == Some(1) { 0 } else { 3 });
        assert_image(&pixmap.data, 300, 21);
        images.push(pixmap.data);
    }
    assert_eq!(images[0], images[1]);
    assert_eq!(images[1], images[2]);
}

#[test]
fn a_context_without_pixels_leaves_the_buffer_alone() {
    let ctx = context(0, 0, None);
    let mut pool: Vec<Summing> = vec![];
    let mut buffer = vec![0xee; 4];
    ctx.render_to_buffer(&mut buffer, 1, 1, None, 4, &wide(0, 0), &mut pool);
    assert_eq!(buffer, vec![0xee; 4]);
}

#[test]
fn a_context_fits_images_that_its_tiles_reach() {
    let alone = context(300, 9, Some(1));
    assert!(alone.can_render_to(None, 300, 9));
    assert!(alone.can_render_to(None, 256, 8));
    assert!(alone.can_render_to(None, 900, 90));
    assert!(!alone.can_render_to(None, 255, 9));
    assert!(!alone.can_render_to(None, 300, 7));

    let shared = context(300, 9, Some(2));
    assert!(shared.can_render_to(None, 300, 9));
    assert!(shared.can_render_to(None, 256, 1));
    assert!(shared.can_render_to(None, 900, 12));
    assert!(shared.can_render_to(None, 0, 90));
    assert!(!shared.can_render_to(None, 300, 13));
    assert!(!shared.can_render_to(None, 255, 9));

    assert!(context(0, 9, None).can_render_to(None, 1, 1));
    assert!(context(300, 9, None).can_render_to(Some(1), 300, 13));
    assert!(!context(300, 9, None).can_render_to(Some(4), 300, 13));
}

#[test]
fn a_context_is_covered_by_the_tiles_of_its_size() {
    let ctx = context(300, 9, None);
    assert!(ctx.is_covered_by(&wide(2, 3)));
    assert!(!ctx.is_covered_by(&wide(1, 3)));
    assert!(!ctx.is_covered_by(&wide(2, 2)));
    let mut short = wide(2, 3);
    short.tiles.pop();
    assert!(!ctx.is_covered_by(&short));
}

#[test]
fn commands_name_coverage_values_and_paints() {
    let tile: WideTile<Summing> = WideTile { bg: 1, cmds: vec![101, 200, 201] };
    let paints = [EncodedPaint::Image(5), EncodedPaint::Shading(6)];
    let (_, block) = draw_tile(Summing::new(1, 1), &tile, &[40, 50], &paints, 0, 0);
    assert_eq!(block[0], 1 + 50 + 5 + 6);
}

#[test]
fn the_paints_of_the_context_reach_the_picture() {
    for threads in [Some(1), Some(2)] {
        let mut ctx = context(1, 1, threads);
        ctx.fill_path(&kurbo::BezPath::new(), PaintType::Image(70), None);
        let shading = PaintType::ShadingPattern { shading: 80, clip_path: None };
        ctx.fill_path(&kurbo::BezPath::new(), shading, None);
        let mut tiles = wide(1, 1);
        tiles.tiles[0].cmds = vec![201, 100];
        let mut buffer = vec![0; 4];
        ctx.render_to_buffer(&mut buffer, 1, 1, None, 2, &tiles, &mut vec![]);
        assert_eq!(buffer[0], 80 + 30);
    }
}

#[test]
fn a_parallel_rendering_makes_at_most_one_rasterizer_per_worker() {
    for (workers, before, after) in [(0, 0, 1), (1, 0, 1), (3, 0, 3), (3, 2, 3), (3, 5, 5)] {
        let mut pool: Vec<Summing> = vec![];
        for _ in 0..before {
            pool.push(Summing::new(9, 9).reset());
        }
        let mut buffer = vec![0; 3 * 64 * 4];
        let tiles = wide(1, 16);
        render_tiles_parallel(&tiles, NO_PAINTS, 3, 64, 1, 16, &mut buffer, workers, &mut pool);
        assert_image(&buffer, 3, 64);
        assert_eq!(pool.len(), after);
        assert!(pool.iter().all(|fine| fine.sum == 0));
        let made = pool.iter().filter(|fine| fine.made_for == (3, 64)).count();
        assert_eq!(made, after - before);
    }
}

#[test]
fn tile_rows_below_the_image_are_not_looked_at() {
    for y_end in [3, 4, 100, usize::MAX - 1] {
        let mut pool = vec![];
        let mut buffer = vec![0xee; 5 * 6 * 4];
        render_tile_rows_recursive(
            &wide(1, 3),
            NO_PAINTS,
            5,
            10,
            1,
            &mut buffer,
            1,
            y_end,
            4,
            2,
            &mut pool,
        );
        for y in 0..6 {
            for x in 0..5 {
                assert_eq!(pixel(&buffer, 5, x, y), expected(x, y + 4));
            }
        }
    }
}

#[test]
fn a_strip_is_rendered_in_parts() {
    let mut pool = vec![];
    let tiles = wide(1, 4);
    let mut whole = vec![1; 5 * 14 * 4];
    render_tiles_sequential(&tiles, NO_PAINTS, 5, 14, 1, 4, &mut whole);
    let mut parts = vec![2; 5 * 14 * 4];
    let (top, bottom) = parts.split_at_mut(5 * 4 * 4);
    render_tile_rows_recursive(&tiles, NO_PAINTS, 5, 14, 1, bottom, 1, 4, 4, 2, &mut pool);
    render_tile_rows_recursive(&tiles, NO_PAINTS, 5, 14, 1, top, 0, 1, 0, 2, &mut pool);
    assert_eq!(whole, parts);
}

#[test]
fn rendering_in_turn_uses_a_rasterizer_of_its_own() {
    let ctx = context(3, 9, Some(1));
    let mut pool = vec![Summing::new(7, 7)];
    let mut buffer = vec![0; 3 * 9 * 4];
    ctx.render_to_buffer(&mut buffer, 3, 9, Some(8), 8, &wide(1, 3), &mut pool);
    assert_image(&buffer, 3, 9);
    assert_eq!(pool.len(), 1);
    assert!(pool[0].log.is_empty());
}
