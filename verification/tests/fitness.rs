use driller::{
    BlockColor, Cell, CellType, Command, Direction, Game, Player, PlayerState, Point, AIR_MAX,
    FALL_FRAMES, SHAKE_FRAMES,
};

fn ripe_block() -> Cell {
    let mut cell = Cell::new();
    cell.cell_type = CellType::Block;
    cell.color = BlockColor::Red;
    cell.shaking_frames = SHAKE_FRAMES + 1;
    cell.falling_frames = FALL_FRAMES + 1;
    cell
}

#[test]
fn positions_off_the_grid_are_told_apart() {
    assert!(Point { x: 0, y: 0 }.is_valid());
    assert!(Point { x: 8, y: 112 }.is_valid());
    assert!(!Point { x: 9, y: 0 }.is_valid());
    assert!(!Point { x: -1, y: 0 }.is_valid());
    assert!(!Point { x: 0, y: 113 }.is_valid());
    assert!(!Point { x: 0, y: -1 }.is_valid());
}

#[test]
fn cell_is_due_only_when_loose_and_past_both_timers() {
    assert!(ripe_block().is_due_to_fall());
    let mut cell = ripe_block();
    cell.grounded = true;
    assert!(!cell.is_due_to_fall());
    let mut cell = ripe_block();
    cell.cell_type = CellType::Empty;
    assert!(!cell.is_due_to_fall());
    let mut cell = ripe_block();
    cell.cell_type = CellType::Air;
    assert!(cell.is_due_to_fall());
    let mut cell = ripe_block();
    cell.shaking_frames = SHAKE_FRAMES;
    assert!(!cell.is_due_to_fall());
    let mut cell = ripe_block();
    cell.falling_frames = FALL_FRAMES;
    assert!(!cell.is_due_to_fall());
    assert!(!Cell::new().is_due_to_fall());
}

#[test]
fn steady_player_is_on_the_grid_with_air_in_the_tank() {
    assert!(Player::new().is_steady());
    let mut player = Player::new();
    player.air = -1;
    assert!(!player.is_steady());
    player.air = AIR_MAX + 1;
    assert!(!player.is_steady());
    player.air = 0;
    assert!(player.is_steady());
    player.p = Point { x: 9, y: 5 };
    assert!(!player.is_steady());
}

#[test]
fn steady_player_can_finish_its_step() {
    let mut player = Player::new();
    player.state = PlayerState::Falling;
    player.p = Point { x: 4, y: 112 };
    assert!(!player.is_steady());
    player.p = Point { x: 4, y: 111 };
    assert!(player.is_steady());

    let mut player = Player::new();
    player.state = PlayerState::Walking;
    player.direction = Direction::Left;
    player.p = Point { x: 0, y: 5 };
    assert!(!player.is_steady());
    player.direction = Direction::Right;
    assert!(player.is_steady());
    player.p = Point { x: 8, y: 5 };
    assert!(!player.is_steady());
    player.direction = Direction::Left;
    assert!(player.is_steady());
}

#[test]
fn new_game_is_fit_for_a_frame_and_stays_so() {
    let mut game = Game::new(6);
    assert!(game.can_update());
    let commands = [
        Command::Down,
        Command::Idle,
        Command::Left,
        Command::Down,
        Command::Right,
        Command::Up,
        Command::Down,
        Command::Idle,
    ];
    for round in 0..400 {
        game.update(commands[round % commands.len()]);
        assert!(game.can_update());
        assert!(game.player.air <= AIR_MAX);
        assert!(game.player.air >= -1);
        assert_eq!(game.player.air <= 0, game.is_over && game.player.air <= 0);
        game.requested_sounds.clear();
    }
    assert_eq!(game.frame, 399);
    assert!(game.depth > 0);
}

#[test]
fn game_with_a_loose_cell_in_the_bottom_row_is_not_fit() {
    let mut game = Game::new(6);
    game.put(Point::new(2, 112), ripe_block());
    assert!(!game.can_update());
    // Once the game has ended nothing is asked of the grid any more.
    game.is_over = true;
    assert!(game.can_update());
}

#[test]
fn game_with_a_life_out_of_range_is_not_fit() {
    let mut game = Game::new(6);
    game.cells[50][3].cell_type = CellType::Block;
    game.cells[50][3].block_life = 101;
    assert!(!game.can_update());
    game.cells[50][3].block_life = -1;
    assert!(!game.can_update());
    game.cells[50][3].block_life = 0;
    assert!(game.can_update());
    // The life of a cell that holds no block is of no account.
    game.cells[2][3].block_life = -40;
    assert!(game.can_update());
}

#[test]
fn game_that_cannot_count_on_is_not_fit() {
    let mut game = Game::new(6);
    game.frame = i32::MAX;
    assert!(!game.can_update());
    game.frame = 0;
    game.depth = i32::MAX;
    assert!(!game.can_update());
    game.is_clear = true;
    assert!(game.can_update());
    game.player.air = -5;
    assert!(game.can_update());
    game.is_clear = false;
    assert!(!game.can_update());
}
