use snake::grid::{Grid, Tile};
use snake::Point;

fn count_tiles(g: &Grid, t: Tile) -> usize {
    let mut n = 0;
    for y in 0..g.height() {
        for x in 0..g.width() {
            if g.tile(Point { x, y }) == t {
                n += 1;
            }
        }
    }
    n
}

#[test]
fn grid_new_starts_empty() {
    let g = Grid::new(5, 4).unwrap();
    assert_eq!(g.width(), 5);
    assert_eq!(g.height(), 4);
    for y in 0..4 {
        for x in 0..5 {
            assert_eq!(g.tile(Point { x, y }), Tile::Empty);
        }
    }
}

#[test]
fn grid_new_rejects_small_dimensions() {
    assert!(Grid::new(2, 5).is_err());
    assert!(Grid::new(5, 2).is_err());
    assert!(Grid::new(0, 0).is_err());
    assert!(Grid::new(3, 3).is_ok());
}

#[test]
fn create_border_walls_edges_only() {
    let mut g = Grid::new(6, 5).unwrap();
    g.create_border();
    for y in 0..5 {
        for x in 0..6 {
            let on_border = x == 0 || x == 5 || y == 0 || y == 4;
            let expected = if on_border { Tile::Wall } else { Tile::Empty };
            assert_eq!(g.tile(Point { x, y }), expected);
        }
    }
}

#[test]
fn create_border_is_idempotent() {
    let mut g = Grid::new(4, 4).unwrap();
    g.create_border();
    g.create_border();
    assert_eq!(g.tile(Point { x: 0, y: 0 }), Tile::Wall);
    assert_eq!(g.tile(Point { x: 1, y: 1 }), Tile::Empty);
}

#[test]
fn set_tile_then_tile_round_trips() {
    let mut g = Grid::new(5, 5).unwrap();
    g.set_tile(Point { x: 2, y: 3 }, Tile::Snake);
    assert_eq!(g.tile(Point { x: 2, y: 3 }), Tile::Snake);
    assert_eq!(g.tile(Point { x: 3, y: 2 }), Tile::Empty);
    g.set_tile(Point { x: 2, y: 3 }, Tile::Apple);
    assert_eq!(g.tile(Point { x: 2, y: 3 }), Tile::Apple);
}

#[test]
fn spawn_apple_lands_on_an_empty_interior_cell() {
    let mut g = Grid::new(6, 6).unwrap();
    g.create_border();
    g.spawn_apple();
    assert_eq!(count_tiles(&g, Tile::Apple), 1);
    for y in 0..6 {
        for x in 0..6 {
            if g.tile(Point { x, y }) == Tile::Apple {
                assert!(x >= 1 && x <= 4 && y >= 1 && y <= 4);
            }
        }
    }
}

#[test]
fn spawn_apple_avoids_occupied_cells() {
    // all interior cells but one hold snake segments: the apple must take
    // the remaining one
    let mut g = Grid::new(4, 4).unwrap();
    g.create_border();
    g.set_tile(Point { x: 1, y: 1 }, Tile::Snake);
    g.set_tile(Point { x: 2, y: 1 }, Tile::Snake);
    g.set_tile(Point { x: 1, y: 2 }, Tile::Snake);
    g.spawn_apple();
    assert_eq!(g.tile(Point { x: 2, y: 2 }), Tile::Apple);
}
