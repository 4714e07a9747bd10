use driller::{
    clamp, Command, Direction, Game, Point, CELLS_X_LEN, CELLS_X_MAX, CELLS_Y_LEN, CELLS_Y_MAX,
};

#[test]
fn directions_come_in_exploring_order() {
    assert_eq!(
        Direction::all(),
        [Direction::Left, Direction::Right, Direction::Up, Direction::Down]
    );
}

#[test]
fn commands_name_their_direction() {
    assert_eq!(Direction::from_command(Command::Left), Direction::Left);
    assert_eq!(Direction::from_command(Command::Right), Direction::Right);
    assert_eq!(Direction::from_command(Command::Up), Direction::Up);
    assert_eq!(Direction::from_command(Command::Down), Direction::Down);
}

#[test]
fn point_keeps_its_coordinates() {
    let p = Point::new(8, 112);
    assert_eq!(p.x, 8);
    assert_eq!(p.y, 112);
    assert_eq!(p, Point { x: 8, y: 112 });
}

#[test]
fn grid_is_nine_wide_and_one_hundred_thirteen_high() {
    assert_eq!(CELLS_X_LEN, 9);
    assert_eq!(CELLS_X_MAX, 8);
    assert_eq!(CELLS_Y_LEN, 113);
    assert_eq!(CELLS_Y_MAX, 112);
}

#[test]
fn neighbor_steps_one_cell() {
    let game = Game::new(3);
    let p = Point::new(4, 50);
    assert_eq!(game.neighbor(p, Direction::Left), Some(Point::new(3, 50)));
    assert_eq!(game.neighbor(p, Direction::Right), Some(Point::new(5, 50)));
    assert_eq!(game.neighbor(p, Direction::Up), Some(Point::new(4, 49)));
    assert_eq!(game.neighbor(p, Direction::Down), Some(Point::new(4, 51)));
}

#[test]
fn neighbor_stops_at_every_edge() {
    let game = Game::new(3);
    assert_eq!(game.neighbor(Point::new(0, 7), Direction::Left), None);
    assert_eq!(game.neighbor(Point::new(8, 7), Direction::Right), None);
    assert_eq!(game.neighbor(Point::new(3, 0), Direction::Up), None);
    assert_eq!(game.neighbor(Point::new(3, 112), Direction::Down), None);
    // The corner has two neighbours, and they lie on the grid.
    assert_eq!(game.neighbor(Point::new(0, 0), Direction::Right), Some(Point::new(1, 0)));
    assert_eq!(game.neighbor(Point::new(0, 0), Direction::Down), Some(Point::new(0, 1)));
    assert_eq!(game.neighbor(Point::new(8, 112), Direction::Left), Some(Point::new(7, 112)));
    assert_eq!(game.neighbor(Point::new(8, 112), Direction::Up), Some(Point::new(8, 111)));
}

#[test]
fn clamp_keeps_what_lies_within() {
    assert_eq!(clamp(0, 5, 10), 5);
    assert_eq!(clamp(0, 0, 10), 0);
    assert_eq!(clamp(0, 10, 10), 10);
}

#[test]
fn clamp_stops_at_the_bounds() {
    assert_eq!(clamp(0, -5, 10), 0);
    assert_eq!(clamp(0, 15, 10), 10);
    assert_eq!(clamp(0, 3000 + 600, 3000), 3000);
    assert_eq!(clamp(0, 100 - 690, 3000), 0);
}

#[test]
fn clamp_takes_any_ordered_type() {
    assert_eq!(clamp('c', 'a', 'k'), 'c');
    assert_eq!(clamp('c', 'x', 'k'), 'k');
    assert_eq!(clamp("b", "m", "t"), "m");
    assert_eq!(clamp(1u8, 0u8, 9u8), 1);
}
