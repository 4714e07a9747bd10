use driller::{
    BlockColor, Cell, CellType, Direction, Game, Player, PlayerState, Point, AIR_MAX, CELLS_X_LEN,
    CELLS_Y_LEN, FALL_FRAMES, WALK_FRAMES,
};

fn bare_game() -> Game {
    let mut game = Game::new(1);
    for y in 0..CELLS_Y_LEN {
        for x in 0..CELLS_X_LEN {
            game.put(Point::new(x, y), Cell::new());
        }
    }
    game
}

fn block(color: BlockColor) -> Cell {
    let mut cell = Cell::new();
    cell.cell_type = CellType::Block;
    cell.color = color;
    cell
}

#[test]
fn new_player_stands_with_a_full_tank() {
    let player = Player::new();
    assert_eq!(player.p, Point::new(4, 5));
    assert_eq!(player.air, 3000);
    assert_eq!(player.state, PlayerState::Standing);
    assert_eq!(player.direction, Direction::Left);
    assert_eq!(player.walking_frames, 0);
    assert_eq!(player.falling_frames, 0);
}

#[test]
fn air_is_added_within_the_tank() {
    let mut player = Player::new();
    player.air = 1000;
    player.add_air(600);
    assert_eq!(player.air, 1600);
    player.add_air(600);
    player.add_air(600);
    assert_eq!(player.air, 2800);
    player.add_air(600);
    assert_eq!(player.air, AIR_MAX);
    player.add_air(-690);
    assert_eq!(player.air, 2310);
    player.air = 689;
    player.add_air(-690);
    assert_eq!(player.air, 0);
    player.add_air(0);
    assert_eq!(player.air, 0);
}

#[test]
fn player_on_a_block_stays() {
    let mut game = bare_game();
    game.player.p = Point::new(4, 50);
    game.put(Point::new(4, 51), block(BlockColor::Red));
    game.player_move();
    assert_eq!(game.player.state, PlayerState::Standing);
    assert_eq!(game.player.p, Point::new(4, 50));
    assert_eq!(game.depth, 0);
}

#[test]
fn player_on_the_bottom_row_stays() {
    let mut game = bare_game();
    game.player.p = Point::new(4, 112);
    for _ in 0..5 {
        game.player_move();
    }
    assert_eq!(game.player.state, PlayerState::Standing);
    assert_eq!(game.player.p, Point::new(4, 112));
    assert_eq!(game.depth, 0);
}

#[test]
fn player_without_footing_falls_one_row_in_three_frames() {
    assert_eq!(FALL_FRAMES, 3);
    let mut game = bare_game();
    game.player.p = Point::new(4, 50);
    game.put(Point::new(4, 52), block(BlockColor::Red));
    game.depth = 10;

    game.player_move();
    assert_eq!(game.player.state, PlayerState::Falling);
    assert_eq!(game.player.falling_frames, 1);
    assert_eq!(game.player.p, Point::new(4, 50));
    game.player_move();
    assert_eq!(game.player.state, PlayerState::Falling);
    assert_eq!(game.player.falling_frames, 2);
    assert_eq!(game.depth, 10);
    game.player_move();
    assert_eq!(game.player.state, PlayerState::Standing);
    assert_eq!(game.player.falling_frames, 0);
    assert_eq!(game.player.p, Point::new(4, 51));
    assert_eq!(game.depth, 11);

    // Now there is footing.
    game.player_move();
    assert_eq!(game.player.state, PlayerState::Standing);
    assert_eq!(game.player.p, Point::new(4, 51));
    assert_eq!(game.depth, 11);
}

#[test]
fn capsule_is_no_footing() {
    let mut game = bare_game();
    game.player.p = Point::new(4, 50);
    let mut capsule = Cell::new();
    capsule.cell_type = CellType::Air;
    game.put(Point::new(4, 51), capsule);
    game.player_move();
    assert_eq!(game.player.state, PlayerState::Falling);
}

#[test]
fn player_walks_one_column_in_three_frames() {
    assert_eq!(WALK_FRAMES, 3);
    for (direction, column) in [(Direction::Left, 3), (Direction::Right, 5)] {
        let mut game = bare_game();
        game.player.p = Point::new(4, 50);
        for x in 0..CELLS_X_LEN {
            game.put(Point::new(x, 51), block(BlockColor::Red));
        }
        game.dig_or_walk(direction);
        assert_eq!(game.player.state, PlayerState::Walking);

        game.player_move();
        assert_eq!(game.player.state, PlayerState::Walking);
        assert_eq!(game.player.walking_frames, 1);
        assert_eq!(game.player.p, Point::new(4, 50));
        game.player_move();
        assert_eq!(game.player.walking_frames, 2);
        assert_eq!(game.player.p, Point::new(4, 50));
        game.player_move();
        assert_eq!(game.player.state, PlayerState::Standing);
        assert_eq!(game.player.walking_frames, 3);
        assert_eq!(game.player.p, Point::new(column, 50));
        assert_eq!(game.player.direction, direction);
        assert_eq!(game.depth, 0);
    }
}

#[test]
fn walking_player_that_loses_its_footing_walks_on() {
    let mut game = bare_game();
    game.player.p = Point::new(4, 50);
    game.put(Point::new(4, 51), block(BlockColor::Red));
    game.depth = 3;
    game.dig_or_walk(Direction::Right);
    game.player_move();
    assert_eq!(game.player.state, PlayerState::Walking);
    assert_eq!(game.player.walking_frames, 1);
    // The block beneath is gone: the walk runs to its end all the same.
    game.put(Point::new(4, 51), Cell::new());
    game.player_move();
    assert_eq!(game.player.state, PlayerState::Walking);
    assert_eq!(game.player.walking_frames, 2);
    assert_eq!(game.player.falling_frames, 0);
    assert_eq!(game.player.p, Point::new(4, 50));
    assert_eq!(game.depth, 3);
    game.player_move();
    assert_eq!(game.player.state, PlayerState::Standing);
    assert_eq!(game.player.walking_frames, 3);
    assert_eq!(game.player.p, Point::new(5, 50));
    assert_eq!(game.depth, 3);
    // Arrived and standing over nothing, the player starts to fall.
    game.player_move();
    assert_eq!(game.player.state, PlayerState::Falling);
    assert_eq!(game.player.falling_frames, 1);
    assert_eq!(game.player.p, Point::new(5, 50));
}

#[test]
fn walk_over_a_capsule_runs_to_its_end() {
    let mut game = bare_game();
    game.player.p = Point::new(4, 50);
    let mut capsule = Cell::new();
    capsule.cell_type = CellType::Air;
    game.put(Point::new(4, 51), capsule);
    game.player.state = PlayerState::Walking;
    game.player.direction = Direction::Left;
    game.player.walking_frames = 0;
    game.player_move();
    assert_eq!(game.player.state, PlayerState::Walking);
    assert_eq!(game.player.walking_frames, 1);
    assert_eq!(game.player.p, Point::new(4, 50));
    assert_eq!(game.depth, 0);
}

#[test]
fn falling_player_lands_even_in_a_block() {
    let mut game = bare_game();
    game.player.p = Point::new(4, 50);
    game.player_move();
    assert_eq!(game.player.state, PlayerState::Falling);
    game.put(Point::new(4, 51), block(BlockColor::Red));
    game.player_move();
    game.player_move();
    assert_eq!(game.player.state, PlayerState::Standing);
    assert_eq!(game.player.p, Point::new(4, 51));
}
