use driller::{
    BlockColor, Cell, CellType, Game, Point, CELLS_X_LEN, CELLS_Y_LEN, CELLS_Y_MAX, FALL_FRAMES,
    SHAKE_FRAMES,
};

fn bare_game() -> Game {
    let mut game = Game::new(1);
    for y in 0..CELLS_Y_LEN {
        for x in 0..CELLS_X_LEN {
            game.put(Point::new(x, y), Cell::new());
        }
    }
    game
}

fn block(color: BlockColor) -> Cell {
    let mut cell = Cell::new();
    cell.cell_type = CellType::Block;
    cell.color = color;
    cell
}

fn air() -> Cell {
    let mut cell = Cell::new();
    cell.cell_type = CellType::Air;
    cell
}

fn ripe(mut cell: Cell) -> Cell {
    cell.shaking_frames = SHAKE_FRAMES + 1;
    cell.falling_frames = FALL_FRAMES + 1;
    cell
}

fn held(game: &Game) -> usize {
    let mut count = 0;
    for y in 0..CELLS_Y_LEN {
        for x in 0..CELLS_X_LEN {
            if game.cell(Point::new(x, y)).cell_type != CellType::Empty {
                count += 1;
            }
        }
    }
    count
}

#[test]
fn loose_block_in_two_row_grid_comes_down() {
    // The two bottom rows stand for a grid of two rows: a red block in the
    // upper one, nothing below it.
    let mut game = bare_game();
    let top = Point::new(0, CELLS_Y_MAX - 1);
    let bottom = Point::new(0, CELLS_Y_MAX);
    game.put(top, block(BlockColor::Red));

    // One frame starts the shaking and SHAKE_FRAMES + 1 frames count it
    // out; one frame starts the fall and FALL_FRAMES + 1 count it out.
    let waiting = SHAKE_FRAMES + FALL_FRAMES + 4;
    assert_eq!(waiting, 50);
    for _ in 0..waiting {
        game.fall_ungrounded_blocks();
        assert_eq!(game.cell(top).cell_type, CellType::Block);
        assert_eq!(game.cell(bottom).cell_type, CellType::Empty);
    }
    assert_eq!(game.cell(top).shaking_frames, SHAKE_FRAMES + 1);
    assert_eq!(game.cell(top).falling_frames, FALL_FRAMES + 1);

    game.fall_ungrounded_blocks();
    assert_eq!(game.cell(top).cell_type, CellType::Empty);
    assert_eq!(game.cell(bottom).cell_type, CellType::Block);
    assert_eq!(game.cell(bottom).color, BlockColor::Red);
    assert!(game.cell(bottom).fell);
    assert_eq!(held(&game), 1);
}

#[test]
fn loose_block_at_the_top_comes_down_to_the_second_row() {
    let mut game = bare_game();
    game.put(Point::new(0, 0), block(BlockColor::Red));
    for _ in 0..SHAKE_FRAMES + FALL_FRAMES + 5 {
        game.fall_ungrounded_blocks();
    }
    assert_eq!(game.cell(Point::new(0, 0)).cell_type, CellType::Empty);
    assert_eq!(game.cell(Point::new(0, 1)).cell_type, CellType::Block);
    assert_eq!(game.cell(Point::new(0, 1)).color, BlockColor::Red);
    assert_eq!(held(&game), 1);
}

#[test]
fn timers_run_through_shaking_then_falling() {
    let mut game = bare_game();
    let p = Point::new(2, 40);
    game.put(p, block(BlockColor::Blue));

    game.fall_ungrounded_blocks();
    assert_eq!(game.cell(p).shaking_frames, 0);
    assert_eq!(game.cell(p).falling_frames, -1);
    game.fall_ungrounded_blocks();
    assert_eq!(game.cell(p).shaking_frames, 1);
    for _ in 0..SHAKE_FRAMES {
        game.fall_ungrounded_blocks();
    }
    assert_eq!(game.cell(p).shaking_frames, 44);
    assert_eq!(game.cell(p).falling_frames, -1);
    game.fall_ungrounded_blocks();
    assert_eq!(game.cell(p).shaking_frames, 44);
    assert_eq!(game.cell(p).falling_frames, 0);
    game.fall_ungrounded_blocks();
    assert_eq!(game.cell(p).falling_frames, 1);
    for _ in 0..FALL_FRAMES {
        game.fall_ungrounded_blocks();
    }
    assert_eq!(game.cell(p).falling_frames, 4);
    assert_eq!(game.cell(p).cell_type, CellType::Block);
    game.fall_ungrounded_blocks();
    assert_eq!(game.cell(p).cell_type, CellType::Empty);
    assert_eq!(game.cell(Point::new(2, 41)).cell_type, CellType::Block);
}

#[test]
fn supported_cell_stays_and_keeps_its_timers() {
    let mut game = bare_game();
    let p = Point::new(2, 40);
    let mut cell = ripe(block(BlockColor::Blue));
    cell.grounded = true;
    cell.fell = true;
    game.put(p, cell);
    game.fall_ungrounded_blocks();
    assert_eq!(game.cell(p).cell_type, CellType::Block);
    assert_eq!(game.cell(p).shaking_frames, SHAKE_FRAMES + 1);
    assert_eq!(game.cell(p).falling_frames, FALL_FRAMES + 1);
    assert!(!game.cell(p).fell);
    assert_eq!(game.cell(Point::new(2, 41)).cell_type, CellType::Empty);
}

#[test]
fn cell_comes_down_whole() {
    let mut game = bare_game();
    let p = Point::new(5, 20);
    let mut cell = ripe(block(BlockColor::Brown));
    cell.block_life = 50;
    cell.leader = Some(Point::new(1, 2));
    game.put(p, cell);
    game.fall_ungrounded_blocks();

    let source = game.cell(p);
    assert_eq!(source.cell_type, CellType::Empty);
    let landed = game.cell(Point::new(5, 21));
    assert_eq!(landed.cell_type, CellType::Block);
    assert_eq!(landed.color, BlockColor::Brown);
    assert_eq!(landed.block_life, 50);
    assert_eq!(landed.leader, Some(Point::new(1, 2)));
    assert_eq!(landed.shaking_frames, SHAKE_FRAMES + 1);
    assert_eq!(landed.falling_frames, FALL_FRAMES + 1);
    assert!(!landed.grounded);
    assert!(landed.fell);
    assert_eq!(held(&game), 1);
}

#[test]
fn falling_cell_comes_down_one_row_in_every_pass() {
    let mut game = bare_game();
    game.put(Point::new(5, 20), ripe(block(BlockColor::Green)));
    game.fall_ungrounded_blocks();
    game.fall_ungrounded_blocks();
    game.fall_ungrounded_blocks();
    assert_eq!(game.cell(Point::new(5, 23)).cell_type, CellType::Block);
    assert!(game.cell(Point::new(5, 23)).fell);
    assert_eq!(game.cell(Point::new(5, 22)).cell_type, CellType::Empty);
    assert!(!game.cell(Point::new(5, 22)).fell);
    assert_eq!(held(&game), 1);
}

#[test]
fn capsule_two_rows_down_bursts() {
    let mut game = bare_game();
    game.put(Point::new(3, 30), ripe(block(BlockColor::Red)));
    let mut capsule = air();
    capsule.grounded = true;
    game.put(Point::new(3, 32), capsule);
    assert_eq!(held(&game), 2);
    game.fall_ungrounded_blocks();
    assert_eq!(game.cell(Point::new(3, 30)).cell_type, CellType::Empty);
    assert_eq!(game.cell(Point::new(3, 31)).cell_type, CellType::Block);
    assert_eq!(game.cell(Point::new(3, 32)).cell_type, CellType::Empty);
    assert_eq!(held(&game), 1);
}

#[test]
fn block_two_rows_down_is_not_burst() {
    let mut game = bare_game();
    game.put(Point::new(3, 30), ripe(block(BlockColor::Red)));
    let mut below = block(BlockColor::Blue);
    below.grounded = true;
    game.put(Point::new(3, 32), below);
    game.fall_ungrounded_blocks();
    assert_eq!(game.cell(Point::new(3, 31)).cell_type, CellType::Block);
    assert_eq!(game.cell(Point::new(3, 32)).cell_type, CellType::Block);
    assert_eq!(game.cell(Point::new(3, 32)).color, BlockColor::Blue);
    assert_eq!(held(&game), 2);
}

#[test]
fn stacked_loose_cells_come_down_together() {
    let mut game = bare_game();
    game.put(Point::new(3, 30), ripe(block(BlockColor::Red)));
    game.put(Point::new(3, 31), ripe(block(BlockColor::Blue)));
    game.fall_ungrounded_blocks();
    assert_eq!(game.cell(Point::new(3, 30)).cell_type, CellType::Empty);
    assert_eq!(game.cell(Point::new(3, 31)).color, BlockColor::Red);
    assert_eq!(game.cell(Point::new(3, 31)).cell_type, CellType::Block);
    assert_eq!(game.cell(Point::new(3, 32)).color, BlockColor::Blue);
    assert_eq!(game.cell(Point::new(3, 32)).cell_type, CellType::Block);
    assert_eq!(held(&game), 2);
}

#[test]
fn pass_never_adds_cells() {
    let mut game = Game::new(12);
    // Nothing is marked as supported yet, so the whole field starts to
    // shake; the floor has no row to fall to and must be held.
    for x in 0..CELLS_X_LEN {
        game.cells[CELLS_Y_MAX as usize][x as usize].grounded = true;
    }
    let start = held(&game);
    assert_eq!(start, 9 * 107);
    // A capsule bursts when the cell above it comes down and something
    // comes down two rows above: here that is every capsule below the
    // first row of the field.
    let mut bursting = 0;
    for y in 7..106 {
        for x in 0..CELLS_X_LEN {
            if game.cell(Point::new(x, y)).cell_type == CellType::Air {
                bursting += 1;
            }
        }
    }
    assert!(bursting == 4 || bursting == 5);
    let mut before = start;
    for _ in 0..SHAKE_FRAMES + FALL_FRAMES + 5 {
        game.fall_ungrounded_blocks();
        let after = held(&game);
        assert!(after <= before);
        before = after;
    }
    // Every loose cell has come down one row, the lowest of them onto the
    // bottom row, whose cells they have replaced.
    for x in 0..CELLS_X_LEN {
        assert_eq!(game.cell(Point::new(x, 6)).cell_type, CellType::Empty);
        assert_ne!(game.cell(Point::new(x, 7)).cell_type, CellType::Empty);
    }
    assert_eq!(before, start - 9 - bursting);
}

#[test]
fn cells_fall_one_by_one_not_as_a_group() {
    let mut game = bare_game();
    // Two red blocks side by side: one is ripe, its neighbour is held.
    game.put(Point::new(3, 30), ripe(block(BlockColor::Red)));
    let mut neighbour = block(BlockColor::Red);
    neighbour.grounded = true;
    game.put(Point::new(4, 30), neighbour);
    game.fall_ungrounded_blocks();
    assert_eq!(game.cell(Point::new(3, 31)).cell_type, CellType::Block);
    assert_eq!(game.cell(Point::new(4, 30)).cell_type, CellType::Block);
    assert_eq!(game.cell(Point::new(4, 31)).cell_type, CellType::Empty);
}
