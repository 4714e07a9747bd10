use driller::{BlockColor, Cell, CellType, Game, Point, CELLS_X_LEN, CELLS_Y_LEN, CELLS_Y_MAX};

fn bare_game() -> Game {
    let mut game = Game::new(1);
    for y in 0..CELLS_Y_LEN {
        for x in 0..CELLS_X_LEN {
            game.put(Point::new(x, y), Cell::new());
        }
    }
    game
}

fn block(color: BlockColor) -> Cell {
    let mut cell = Cell::new();
    cell.cell_type = CellType::Block;
    cell.color = color;
    cell.shaking_frames = 7;
    cell.falling_frames = 2;
    cell
}

fn air() -> Cell {
    let mut cell = Cell::new();
    cell.cell_type = CellType::Air;
    cell.shaking_frames = 7;
    cell.falling_frames = 2;
    cell
}

fn grounded(game: &Game, x: i32, y: i32) -> bool {
    game.cell(Point::new(x, y)).grounded
}

#[test]
fn bottom_row_is_always_supported() {
    let mut game = bare_game();
    game.put(Point::new(0, CELLS_Y_MAX), block(BlockColor::Red));
    game.put(Point::new(1, CELLS_Y_MAX), air());
    game.put(Point::new(3, CELLS_Y_MAX), block(BlockColor::Clear));
    game.set_leaders();
    game.update_grounded();
    assert!(grounded(&game, 0, CELLS_Y_MAX));
    assert!(grounded(&game, 1, CELLS_Y_MAX));
    assert!(grounded(&game, 3, CELLS_Y_MAX));
    // An empty cell is never supported, not even in the bottom row.
    assert!(!grounded(&game, 2, CELLS_Y_MAX));
}

#[test]
fn floor_of_a_new_stage_holds_the_whole_field() {
    let mut game = Game::new(8);
    game.set_leaders();
    game.update_grounded();
    for y in 0..CELLS_Y_LEN {
        for x in 0..CELLS_X_LEN {
            assert_eq!(grounded(&game, x, y), y >= 6);
        }
    }
}

#[test]
fn support_passes_up_a_column() {
    let mut game = bare_game();
    game.put(Point::new(2, 112), block(BlockColor::Red));
    game.put(Point::new(2, 111), block(BlockColor::Blue));
    game.put(Point::new(2, 110), air());
    game.put(Point::new(2, 109), block(BlockColor::Green));
    // A gap, then a block with nothing beneath it.
    game.put(Point::new(2, 107), block(BlockColor::Green));
    game.set_leaders();
    game.update_grounded();
    assert!(grounded(&game, 2, 112));
    assert!(grounded(&game, 2, 111));
    assert!(grounded(&game, 2, 110));
    assert!(grounded(&game, 2, 109));
    assert!(!grounded(&game, 2, 108));
    assert!(!grounded(&game, 2, 107));
}

#[test]
fn support_calls_off_shaking_and_falling_of_blocks() {
    let mut game = bare_game();
    game.put(Point::new(2, 112), block(BlockColor::Red));
    game.put(Point::new(2, 111), air());
    game.put(Point::new(5, 50), block(BlockColor::Red));
    game.put(Point::new(6, 50), air());
    game.set_leaders();
    game.update_grounded();
    // A supported block neither shakes nor falls.
    assert_eq!(game.cell(Point::new(2, 112)).shaking_frames, -1);
    assert_eq!(game.cell(Point::new(2, 112)).falling_frames, -1);
    // A capsule keeps its timers, supported or not.
    assert!(grounded(&game, 2, 111));
    assert_eq!(game.cell(Point::new(2, 111)).shaking_frames, 7);
    assert_eq!(game.cell(Point::new(2, 111)).falling_frames, 2);
    // What is not supported keeps its timers.
    assert!(!grounded(&game, 5, 50));
    assert_eq!(game.cell(Point::new(5, 50)).shaking_frames, 7);
    assert_eq!(game.cell(Point::new(5, 50)).falling_frames, 2);
    assert!(!grounded(&game, 6, 50));
}

#[test]
fn group_is_held_as_one() {
    // A red bar one of whose ends rests on a blue pillar; the rest of it
    // hangs over nothing.
    //   R R R R
    //   . . . B
    //   . . . B
    let mut game = bare_game();
    for x in 0..4 {
        game.put(Point::new(x, 110), block(BlockColor::Red));
    }
    game.put(Point::new(3, 111), block(BlockColor::Blue));
    game.put(Point::new(3, 112), block(BlockColor::Blue));
    game.set_leaders();
    game.update_grounded();
    for x in 0..4 {
        assert!(grounded(&game, x, 110));
        assert_eq!(game.cell(Point::new(x, 110)).shaking_frames, -1);
        assert_eq!(game.cell(Point::new(x, 110)).falling_frames, -1);
    }
}

#[test]
fn blocks_of_another_colour_are_not_held_by_a_neighbour() {
    //   Y R R
    //   . . B
    let mut game = bare_game();
    game.put(Point::new(0, 111), block(BlockColor::Yellow));
    game.put(Point::new(1, 111), block(BlockColor::Red));
    game.put(Point::new(2, 111), block(BlockColor::Red));
    game.put(Point::new(2, 112), block(BlockColor::Blue));
    game.set_leaders();
    game.update_grounded();
    assert!(grounded(&game, 1, 111));
    assert!(grounded(&game, 2, 111));
    assert!(!grounded(&game, 0, 111));
}

#[test]
fn capsule_holds_only_itself_and_what_lies_on_it() {
    let mut game = bare_game();
    game.put(Point::new(4, 112), air());
    game.put(Point::new(5, 112 - 1), air());
    game.put(Point::new(4, 111), block(BlockColor::Red));
    game.set_leaders();
    game.update_grounded();
    assert!(grounded(&game, 4, 112));
    assert!(grounded(&game, 4, 111));
    assert!(!grounded(&game, 5, 111));
}

#[test]
fn nothing_rests_on_an_empty_cell_that_was_marked() {
    let mut game = bare_game();
    let mut hollow = Cell::new();
    hollow.grounded = true;
    game.put(Point::new(4, 112), hollow);
    game.put(Point::new(4, 111), block(BlockColor::Red));
    game.set_leaders();
    game.update_grounded();
    assert!(!grounded(&game, 4, 112));
    assert!(!grounded(&game, 4, 111));
}

#[test]
fn old_marks_are_wiped() {
    let mut game = bare_game();
    let mut floating = block(BlockColor::Red);
    floating.grounded = true;
    game.put(Point::new(4, 40), floating);
    game.set_leaders();
    game.update_grounded();
    assert!(!grounded(&game, 4, 40));
}

#[test]
fn what_lies_on_a_hanging_limb_is_passed_by() {
    // A red group rests on a blue pillar with its upper end and hangs down
    // on the left. The green block lies on the hanging limb. The sweep
    // reaches the green block before it finds that the red group rests.
    //   . R R      row 109
    //   G R B      row 110
    //   R R B      row 111
    //   . . B      row 112
    let mut game = bare_game();
    game.put(Point::new(1, 109), block(BlockColor::Red));
    game.put(Point::new(2, 109), block(BlockColor::Red));
    game.put(Point::new(1, 110), block(BlockColor::Red));
    game.put(Point::new(1, 111), block(BlockColor::Red));
    game.put(Point::new(0, 111), block(BlockColor::Red));
    game.put(Point::new(0, 110), block(BlockColor::Green));
    game.put(Point::new(2, 110), block(BlockColor::Blue));
    game.put(Point::new(2, 111), block(BlockColor::Blue));
    game.put(Point::new(2, 112), block(BlockColor::Blue));
    game.set_leaders();
    game.update_grounded();
    assert!(grounded(&game, 2, 112));
    assert!(grounded(&game, 2, 110));
    for p in [
        Point::new(1, 109),
        Point::new(2, 109),
        Point::new(1, 110),
        Point::new(1, 111),
        Point::new(0, 111),
    ] {
        assert!(game.cell(p).grounded);
    }
    assert!(!grounded(&game, 0, 110));
}

#[test]
fn support_changes_nothing_but_marks_and_timers() {
    let mut game = Game::new(21);
    game.set_leaders();
    let before = game.cells;
    game.update_grounded();
    for y in 0..CELLS_Y_LEN {
        for x in 0..CELLS_X_LEN {
            let old = before[y as usize][x as usize];
            let new = game.cell(Point::new(x, y));
            assert_eq!(old.cell_type, new.cell_type);
            assert_eq!(old.color, new.color);
            assert_eq!(old.leader, new.leader);
            assert_eq!(old.block_life, new.block_life);
            assert_eq!(old.fell, new.fell);
        }
    }
}
