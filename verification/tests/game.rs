use raycaster::game::map::TileMap;
use raycaster::game::player::Player;
use raycaster::game::{Controls, Game, Tick};
use raycaster::utils::geometry::{Angle, Point};
use raycaster::window::event::{Event, Keycode};

fn angle(x: i64, y: i64) -> Angle {
    Angle::from_vector(x, y).unwrap()
}

/// Six rows of eleven tiles; the only wall is the last tile of the last row.
fn corridor() -> TileMap {
    TileMap::new("\n\n\n\n\n          R")
}

fn game_facing_east() -> Game {
    let player = Player { position: Point { x: 4_500_000, y: 5_500_000 }, direction: angle(1, 0) };
    Game::new(TileMap::new("\n\n\n\n\n     R"), player)
}

fn controls() -> Controls {
    // a fifth of a tile, and the angle whose tangent is a twentieth
    Controls { movement_speed: 200_000, rotation_speed: angle(20, 1) }
}

#[test]
fn new_game_holds_map_and_player() {
    let game = game_facing_east();
    assert_eq!(game.player.position, Point { x: 4_500_000, y: 5_500_000 });
    assert_eq!(game.player.direction, angle(1, 0));
    assert_eq!(game.map.max_distance(), 12);
}

#[test]
fn move_player_walks_on_empty_tiles() {
    let mut game = Game::new(
        corridor(),
        Player { position: Point { x: 4_500_000, y: 5_500_000 }, direction: angle(1, 0) },
    );
    game.move_player(200_000);
    assert_eq!(game.player.position, Point { x: 4_700_000, y: 5_500_000 });
    game.move_player(-500_000);
    assert_eq!(game.player.position, Point { x: 4_200_000, y: 5_500_000 });
    assert_eq!(game.player.direction, angle(1, 0));
}

#[test]
fn move_player_stops_before_a_wall() {
    let mut game = game_facing_east();
    game.move_player(200_000);
    assert_eq!(game.player.position, Point { x: 4_700_000, y: 5_500_000 });
    game.move_player(200_000);
    assert_eq!(game.player.position, Point { x: 4_900_000, y: 5_500_000 });
    for _ in 0..10 {
        game.move_player(200_000);
        assert_eq!(game.player.position, Point { x: 4_900_000, y: 5_500_000 });
        assert!(game.player.position.x < 5_000_000);
    }
    game.move_player(-200_000);
    assert_eq!(game.player.position, Point { x: 4_700_000, y: 5_500_000 });
}

#[test]
fn move_player_cannot_step_onto_the_wall_boundary() {
    let mut game = game_facing_east();
    game.move_player(500_000);
    assert_eq!(game.player.position, Point { x: 4_500_000, y: 5_500_000 });
    game.move_player(499_999);
    assert_eq!(game.player.position, Point { x: 4_999_999, y: 5_500_000 });
    game.move_player(1);
    assert_eq!(game.player.position, Point { x: 4_999_999, y: 5_500_000 });
}

#[test]
fn move_player_backward_onto_a_boundary_resolves_by_the_viewing_angle() {
    // The player looks west and walks backward, to the east, onto the boundary of the wall:
    // on the boundary the viewing angle decides, and it points away from the wall.
    let player = Player { position: Point { x: 4_500_000, y: 5_500_000 }, direction: angle(-1, 0) };
    let mut game = Game::new(TileMap::new("\n\n\n\n\n     R"), player);
    game.move_player(-500_000);
    assert_eq!(game.player.position, Point { x: 5_000_000, y: 5_500_000 });
    game.move_player(-1);
    assert_eq!(game.player.position, Point { x: 5_000_000, y: 5_500_000 });
}

#[test]
fn rotate_player_adds_the_angle() {
    let mut game = game_facing_east();
    game.rotate_player(&angle(0, 1));
    assert_eq!(game.player.direction, angle(0, 1));
    game.rotate_player(&angle(0, 1));
    assert_eq!(game.player.direction, angle(-1, 0));
    game.rotate_player(&angle(3, 4));
    assert_eq!(game.player.direction, angle(-3, -4));
    assert_eq!(game.player.position, Point { x: 4_500_000, y: 5_500_000 });
}

#[test]
fn press_moves_and_turns() {
    let mut game = game_facing_east();
    game.press(Keycode::Up, &controls());
    assert_eq!(game.player.position, Point { x: 4_700_000, y: 5_500_000 });
    game.press(Keycode::Down, &controls());
    game.press(Keycode::Down, &controls());
    assert_eq!(game.player.position, Point { x: 4_300_000, y: 5_500_000 });
    game.press(Keycode::Right, &controls());
    assert_eq!(game.player.direction, angle(20, 1));
    game.press(Keycode::Left, &controls());
    assert_eq!(game.player.direction, angle(1, 0));
    game.press(Keycode::Left, &controls());
    assert_eq!(game.player.direction, angle(20, -1));
}

#[test]
fn tick_quits_at_once() {
    let mut game = game_facing_east();
    let tick = game.tick(true, Some(Event::Quit), &vec![Keycode::Up], &controls());
    assert_eq!(tick, Tick::Quit);
    assert_eq!(game.player.position, Point { x: 4_500_000, y: 5_500_000 });
}

#[test]
fn tick_refreshes_on_first_run_resize_and_keys() {
    let mut game = game_facing_east();
    assert_eq!(game.tick(false, None, &vec![], &controls()), Tick::Idle);
    assert_eq!(game.tick(true, None, &vec![], &controls()), Tick::Refresh);
    assert_eq!(game.tick(false, Some(Event::Resize), &vec![], &controls()), Tick::Refresh);
    assert_eq!(game.player.position, Point { x: 4_500_000, y: 5_500_000 });
    assert_eq!(game.tick(false, None, &vec![Keycode::Up], &controls()), Tick::Refresh);
    assert_eq!(game.player.position, Point { x: 4_700_000, y: 5_500_000 });
}

#[test]
fn tick_applies_each_held_key_in_turn() {
    let mut game = game_facing_east();
    let keys = vec![Keycode::Down, Keycode::Right, Keycode::Down];
    assert_eq!(game.tick(false, None, &keys, &controls()), Tick::Refresh);
    assert_eq!(game.player.direction, angle(20, 1));
    // 0.2 back along the X axis, then 0.2 back under the new angle
    assert_eq!(game.player.position, Point { x: 4_100_250, y: 5_490_013 });
    // a blocked key still asks for a refresh
    let mut game = game_facing_east();
    let keys = vec![Keycode::Up, Keycode::Up, Keycode::Up];
    assert_eq!(game.tick(false, None, &keys, &controls()), Tick::Refresh);
    assert_eq!(game.player.position, Point { x: 4_900_000, y: 5_500_000 });
}
