use pokeget::sprites::{
    combine_sprites, resolve_terminal_width, Canvas, CanvasDimensions, Sprite, SpriteComposer,
    SpriteError, SpriteLayout,
};

fn sprite(width: u32, height: u32, value: u32) -> Sprite {
    Sprite { width, height, pixels: vec![value; (width * height) as usize] }
}

fn pixel(canvas: &Canvas, x: u32, y: u32) -> u32 {
    canvas.pixels[(y * canvas.width + x) as usize]
}

#[test]
fn scenario_three_sprites_wrap() {
    // widths 10, 10, 10 at terminal width 25: the first two share a row
    // (10 + 1 + 10 = 21 <= 25), the third would need 32, so it wraps.
    let sprites = vec![sprite(10, 5, 1), sprite(10, 5, 2), sprite(10, 5, 3)];
    let (dims, layout) = CanvasDimensions::calculate_for_wrapped(&sprites, 25).unwrap_or_else(
        |_| panic!("planner failed"),
    );
    assert_eq!(layout.rows, vec![vec![0usize, 1], vec![2usize]]);
    assert_eq!(dims.width, 21);
    assert_eq!(dims.height, 11); // 5 + 5 + 1 spacing
}

#[test]
fn scenario_oversized_sprite_alone() {
    // a sprite wider than the terminal is placed alone, not rejected
    let sprites = vec![sprite(50, 4, 7)];
    let (dims, layout) =
        CanvasDimensions::calculate_for_wrapped(&sprites, 25).unwrap_or_else(|_| panic!());
    assert_eq!(layout.rows, vec![vec![0usize]]);
    assert_eq!(dims.width, 50);
    assert_eq!(dims.height, 4);
}

#[test]
fn scenario_empty_input() {
    let sprites: Vec<Sprite> = Vec::new();
    let r = combine_sprites(&sprites, 80);
    assert!(matches!(r, Err(SpriteError::EmptyInput)));
}

#[test]
fn scenario_bottom_alignment() {
    // heights 30 and 50 in one row: the shorter sprite starts 20 below the
    // row top, sharing the bottom edge.
    let sprites = vec![sprite(3, 30, 1), sprite(3, 50, 2)];
    let canvas = match combine_sprites(&sprites, 80) {
        Ok(c) => c,
        Err(_) => panic!("composition failed"),
    };
    assert_eq!(canvas.height, 50);
    assert_eq!(canvas.width, 7); // 3 + 1 + 3
    // above the short sprite: transparent
    assert_eq!(pixel(&canvas, 0, 19), 0);
    // the short sprite's top edge is 20 below the row top
    assert_eq!(pixel(&canvas, 0, 20), 1);
    // its bottom edge is the row's bottom edge
    assert_eq!(pixel(&canvas, 0, 49), 1);
    // the tall sprite fills its column from the top
    assert_eq!(pixel(&canvas, 4, 0), 2);
    assert_eq!(pixel(&canvas, 4, 49), 2);
    // the spacing column stays transparent
    assert_eq!(pixel(&canvas, 3, 49), 0);
}

#[test]
fn layout_partitions_in_order() {
    let sprites = vec![
        sprite(30, 2, 1),
        sprite(30, 2, 2),
        sprite(30, 2, 3),
        sprite(30, 2, 4),
        sprite(5, 2, 5),
    ];
    let (_, layout) =
        CanvasDimensions::calculate_for_wrapped(&sprites, 70).unwrap_or_else(|_| panic!());
    let flattened: Vec<usize> = layout.rows.iter().flatten().copied().collect();
    assert_eq!(flattened, vec![0, 1, 2, 3, 4]);
    for row in &layout.rows {
        assert!(!row.is_empty());
        let row_width: u32 =
            row.iter().map(|&i| sprites[i].width).sum::<u32>() + (row.len() as u32 - 1);
        assert!(row_width <= 70 || row.len() == 1);
    }
}

#[test]
fn composition_is_deterministic() {
    let sprites = vec![sprite(4, 3, 9), sprite(2, 7, 4), sprite(6, 1, 5)];
    let c1 = match combine_sprites(&sprites, 41) {
        Ok(c) => c,
        Err(_) => panic!(),
    };
    let c2 = match combine_sprites(&sprites, 41) {
        Ok(c) => c,
        Err(_) => panic!(),
    };
    assert_eq!(c1.width, c2.width);
    assert_eq!(c1.height, c2.height);
    assert_eq!(c1.pixels, c2.pixels);
}

#[test]
fn every_pixel_lands_where_planned() {
    // two 2x2 sprites in one row: sprite 0 at (0,0), sprite 1 at (3,0)
    let sprites = vec![sprite(2, 2, 1), sprite(2, 2, 2)];
    let canvas = match combine_sprites(&sprites, 80) {
        Ok(c) => c,
        Err(_) => panic!(),
    };
    assert_eq!(canvas.width, 5);
    assert_eq!(canvas.height, 2);
    let expected = vec![
        1, 1, 0, 2, 2, //
        1, 1, 0, 2, 2,
    ];
    assert_eq!(canvas.pixels, expected);
}

#[test]
fn degenerate_sprite_keeps_floors() {
    // a 0x0 sprite still yields a 1x1 transparent canvas
    let sprites = vec![sprite(0, 0, 0)];
    let canvas = match combine_sprites(&sprites, 80) {
        Ok(c) => c,
        Err(_) => panic!(),
    };
    assert_eq!(canvas.width, 1);
    assert_eq!(canvas.height, 1);
    assert_eq!(canvas.pixels, vec![0]);
}

#[test]
fn malformed_sprite_buffer_fails_copy() {
    let bad = Sprite { width: 4, height: 4, pixels: vec![1, 2, 3] };
    let sprites = vec![sprite(2, 2, 1), bad];
    let r = combine_sprites(&sprites, 80);
    assert!(matches!(r, Err(SpriteError::CopyFailed { index: 1 })));
}

#[test]
fn inconsistent_dimensions_are_out_of_bounds() {
    // a canvas too small for the layout's sprite is rejected, not clipped
    let sprites = vec![sprite(10, 10, 1)];
    let dims = CanvasDimensions { width: 5, height: 5 };
    let layout = SpriteLayout { rows: vec![vec![0]] };
    let composer = SpriteComposer::new(&dims);
    let r = composer.compose_with_layout(&sprites, &layout);
    match r {
        Err(SpriteError::PositionOutOfBounds { x, y, width, height, canvas_width, canvas_height }) => {
            assert_eq!((x, y), (0, 0));
            assert_eq!((width, height), (10, 10));
            assert_eq!((canvas_width, canvas_height), (5, 5));
        },
        _ => panic!("expected a bounds violation"),
    }
}

#[test]
fn narrow_terminal_is_raised_to_minimum() {
    // a measured width of 10 resolves to the 40-column minimum:
    // 20 + 1 + 20 = 41 > 40, so the second sprite wraps
    let width = resolve_terminal_width(Some(10));
    assert_eq!(width, 40);
    let sprites = vec![sprite(20, 2, 1), sprite(20, 3, 2)];
    let (dims, layout) =
        CanvasDimensions::calculate_for_wrapped(&sprites, width).unwrap_or_else(|_| panic!());
    assert_eq!(layout.rows, vec![vec![0usize], vec![1usize]]);
    assert_eq!(dims.width, 20);
    assert_eq!(dims.height, 6); // 2 + 3 + 1 spacing
}

#[test]
fn unresolved_narrow_width_is_refused() {
    // combining below the configured minimum fails rather than guessing
    let sprites = vec![sprite(2, 2, 1)];
    let r = combine_sprites(&sprites, 25);
    assert!(matches!(r, Err(SpriteError::TerminalTooNarrow)));
}

#[test]
fn terminal_width_resolution() {
    assert_eq!(resolve_terminal_width(None), 40);
    assert_eq!(resolve_terminal_width(Some(10)), 40);
    assert_eq!(resolve_terminal_width(Some(40)), 40);
    assert_eq!(resolve_terminal_width(Some(120)), 120);
}
