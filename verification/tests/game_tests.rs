use snake::grid::Tile;
use snake::snake::Direction;
use snake::{direction_from_key, CollisionError, Game, Point};

fn count_tiles(g: &Game, t: Tile) -> usize {
    let mut n = 0;
    for y in 0..g.height() {
        for x in 0..g.width() {
            if g.tile(Point { x, y }) == t {
                n += 1;
            }
        }
    }
    n
}

fn snapshot(g: &Game) -> Vec<Tile> {
    let mut v = Vec::new();
    for y in 0..g.height() {
        for x in 0..g.width() {
            v.push(g.tile(Point { x, y }));
        }
    }
    v
}

#[test]
fn construction_walls_the_border_and_nothing_else() {
    let g = Game::new(7, 5, 1).unwrap();
    assert_eq!(g.width(), 7);
    assert_eq!(g.height(), 5);
    for y in 0..5 {
        for x in 0..7 {
            let on_border = x == 0 || x == 6 || y == 0 || y == 4;
            let t = g.tile(Point { x, y });
            if on_border {
                assert_eq!(t, Tile::Wall);
            } else {
                assert_ne!(t, Tile::Wall);
            }
        }
    }
    assert_eq!(count_tiles(&g, Tile::Snake), 1);
    assert_eq!(g.tile(Point { x: 3, y: 2 }), Tile::Snake);
    assert_eq!(count_tiles(&g, Tile::Apple), 1);
    assert_eq!(g.snake_len(), 1);
}

#[test]
fn construction_rejects_small_dimensions() {
    assert!(Game::new(2, 10, 1).is_err());
    assert!(Game::new(10, 1, 1).is_err());
    assert!(Game::new(20, 10, 5).is_ok());
}

#[test]
fn one_apple_exists_at_all_times_while_running() {
    let mut g = Game::new(20, 10, 3).unwrap();
    assert_eq!(count_tiles(&g, Tile::Apple), 1);
    for _ in 0..7 {
        if g.update(None).is_err() {
            break;
        }
        assert_eq!(count_tiles(&g, Tile::Apple), 1);
    }
}

#[test]
fn snake_length_never_decreases_across_ticks() {
    let mut g = Game::new(20, 10, 5).unwrap();
    let mut len = g.snake_len();
    loop {
        let r = g.update(None);
        let now = g.snake_len();
        assert!(now >= len);
        len = now;
        if r.is_err() {
            break;
        }
    }
}

#[test]
fn running_right_into_the_wall_ends_the_game() {
    let mut g = Game::new(20, 10, 5).unwrap();
    // the head starts at (10, 5); the wall column is x = 19
    for _ in 0..8 {
        assert_eq!(g.update(None), Ok(()));
    }
    assert_eq!(g.update(None), Err(CollisionError::Wall));
}

#[test]
fn after_a_collision_nothing_changes_any_more() {
    let mut g = Game::new(20, 10, 5).unwrap();
    let mut r = Ok(());
    while r.is_ok() {
        r = g.update(None);
    }
    assert_eq!(r, Err(CollisionError::Wall));
    let before = snapshot(&g);
    let len_before = g.snake_len();
    for _ in 0..3 {
        assert_eq!(g.update(None), Err(CollisionError::Wall));
        assert_eq!(snapshot(&g), before);
        assert_eq!(g.snake_len(), len_before);
    }
}

#[test]
fn eating_an_apple_grows_the_snake_and_respawns_it() {
    let mut g = Game::new(20, 10, 5).unwrap();
    // put the apple immediately to the right of the head at (10, 5)
    assert!(g.place_apple(Point { x: 11, y: 5 }));
    assert_eq!(g.tile(Point { x: 11, y: 5 }), Tile::Apple);
    assert_eq!(g.snake_len(), 5);
    assert_eq!(g.update(None), Ok(()));
    assert_eq!(g.snake_len(), 6);
    // the eaten cell now holds the head, and a new apple stands elsewhere,
    // never on a wall or snake cell
    assert_eq!(g.tile(Point { x: 11, y: 5 }), Tile::Snake);
    assert_eq!(count_tiles(&g, Tile::Apple), 1);
    for y in 0..10 {
        for x in 0..20 {
            if g.tile(Point { x, y }) == Tile::Apple {
                assert!(x >= 1 && x <= 18 && y >= 1 && y <= 8);
            }
        }
    }
}

#[test]
fn a_tick_without_apple_keeps_the_length() {
    let mut g = Game::new(20, 10, 5).unwrap();
    // park the apple far from the snake's straight path
    assert!(g.place_apple(Point { x: 1, y: 1 }));
    assert_eq!(g.update(None), Ok(()));
    assert_eq!(g.snake_len(), 5);
}

#[test]
fn reversal_request_is_ignored_during_update() {
    let mut g = Game::new(20, 10, 5).unwrap();
    assert!(g.place_apple(Point { x: 1, y: 1 }));
    // Left is the exact opposite of the starting heading Right
    assert_eq!(g.update(Some(Direction::Left)), Ok(()));
    assert_eq!(g.update(None), Ok(()));
    // the snake kept moving right
    assert_eq!(g.tile(Point { x: 11, y: 5 }), Tile::Snake);
    assert_eq!(g.tile(Point { x: 12, y: 5 }), Tile::Snake);
    assert_ne!(g.tile(Point { x: 9, y: 5 }), Tile::Snake);
    assert_ne!(g.tile(Point { x: 8, y: 5 }), Tile::Snake);
}

#[test]
fn a_turn_request_applies_during_update() {
    let mut g = Game::new(20, 10, 5).unwrap();
    assert!(g.place_apple(Point { x: 1, y: 8 }));
    assert_eq!(g.update(Some(Direction::Up)), Ok(()));
    assert_eq!(g.tile(Point { x: 10, y: 4 }), Tile::Snake);
}

#[test]
fn turning_into_the_own_body_ends_the_game() {
    let mut g = Game::new(20, 10, 5).unwrap();
    assert!(g.place_apple(Point { x: 1, y: 1 }));
    // unstack: after four ticks the body fills (10..=14, 5)
    for _ in 0..4 {
        assert_eq!(g.update(None), Ok(()));
    }
    // a tight half-turn lands the head on the body at (13, 5)
    assert_eq!(g.update(Some(Direction::Up)), Ok(()));
    assert_eq!(g.update(Some(Direction::Left)), Ok(()));
    assert_eq!(g.update(Some(Direction::Down)), Err(CollisionError::Tail));
}

#[test]
fn smallest_viable_board_constructs() {
    let g = Game::new(3, 4, 1).unwrap();
    // two interior cells: the snake holds one, the apple the other
    assert_eq!(count_tiles(&g, Tile::Snake), 1);
    assert_eq!(count_tiles(&g, Tile::Apple), 1);
    assert_eq!(count_tiles(&g, Tile::Empty), 0);
}

#[test]
fn place_apple_refuses_walls_and_snake_cells() {
    let mut g = Game::new(20, 10, 5).unwrap();
    let before = snapshot(&g);
    // a border wall and the snake's own cell are no apple targets
    assert!(!g.place_apple(Point { x: 0, y: 0 }));
    assert!(!g.place_apple(Point { x: 10, y: 5 }));
    assert_eq!(snapshot(&g), before);
    // a cell that already holds the apple is accepted and changes nothing
    let mut apple = None;
    for y in 0..10 {
        for x in 0..20 {
            if g.tile(Point { x, y }) == Tile::Apple {
                apple = Some(Point { x, y });
            }
        }
    }
    assert!(g.place_apple(apple.unwrap()));
    assert_eq!(snapshot(&g), before);
}

#[test]
fn direction_from_key_maps_wasd() {
    assert_eq!(direction_from_key('w'), Some(Direction::Up));
    assert_eq!(direction_from_key('s'), Some(Direction::Down));
    assert_eq!(direction_from_key('d'), Some(Direction::Right));
    assert_eq!(direction_from_key('a'), Some(Direction::Left));
}

#[test]
fn direction_from_key_rejects_everything_else() {
    for c in ['W', 'A', 'S', 'D', 'x', 'q', '1', '0', ' ', '\n', '?', 'é'] {
        assert_eq!(direction_from_key(c), None);
    }
}

#[test]
fn direction_from_key_is_deterministic() {
    for c in ['w', 'a', 's', 'd', 'x', ' '] {
        assert_eq!(direction_from_key(c), direction_from_key(c));
    }
}

#[test]
fn tile_to_char_renders_each_tile() {
    assert_eq!(snake::tile_to_char(&Tile::Empty), ' ');
    assert_eq!(snake::tile_to_char(&Tile::Wall), '#');
    assert_eq!(snake::tile_to_char(&Tile::Snake), '@');
    assert_eq!(snake::tile_to_char(&Tile::Apple), '$');
}
