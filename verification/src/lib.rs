//! A terminal snake game core: a bordered tile grid, a growing snake, and a
//! single apple, advanced one discrete tick at a time under player input.
//!
//! The library holds the whole game-state model: the grid and its border
//! invariant, the snake's body and movement rule, collision detection, apple
//! placement, and the per-tick transition that ties them together. Rendering
//! and keyboard capture live outside, in the surrounding binary.

use vstd::prelude::*;

pub mod grid;
pub mod snake;

use crate::grid::{Grid, GridView, Tile, spawned_from};
use crate::snake::{
    Direction, Snake, SnakeView, can_step, moved_body, step_of,
};

verus! {

/// A grid position: `x` grows rightward, `y` grows downward, origin top-left.
#[derive(Clone, Copy, PartialEq, Eq, Structural, Debug)]
pub struct Point {
    pub x: usize,
    pub y: usize,
}

/// Rejected construction parameters: the requested grid is too small to hold
/// a border around an interior.
#[derive(Clone, Copy, PartialEq, Eq, Structural, Debug)]
pub struct ConfigError;

/// A collision that ends the game, carrying the kind of obstacle hit.
#[derive(Clone, Copy, PartialEq, Eq, Structural, Debug)]
pub enum CollisionError {
    /// The snake's head ran into a border wall.
    Wall,
    /// The snake's head ran into its own body.
    Tail,
}

/// Mathematical view of a [`Game`]: the grid, the snake, and whether a
/// collision has ended the game (and which one).
pub ghost struct GameView {
    pub grid: GridView,
    pub snake: SnakeView,
    pub over: Option<CollisionError>,
}

/// Every run of equal positions in `b` is contiguous: duplicates arise only
/// from the stacked start and from growth, both of which stack segments next
/// to each other.
pub open spec fn runs_contiguous(b: Seq<Point>) -> bool {
    forall|i: int, k: int, j: int|
        #![trigger b[i], b[k], b[j]]
        0 <= i <= k <= j < b.len() && b[i] == b[j] ==> b[k] == b[i]
}

impl GameView {
    /// No collision has happened yet.
    pub open spec fn running(self) -> bool {
        self.over is None
    }

    pub open spec fn head(self) -> Point {
        self.snake.body[0]
    }

    /// Every body segment lies on the grid.
    pub open spec fn body_in_bounds(self) -> bool {
        forall|i: int|
            0 <= i < self.snake.body.len() ==> self.grid.in_bounds(#[trigger] self.snake.body[i])
    }

    /// Every body segment's grid cell is marked as snake.
    pub open spec fn body_cells_marked(self) -> bool {
        forall|i: int|
            0 <= i < self.snake.body.len() ==> self.grid.tile_at(#[trigger] self.snake.body[i])
                == Tile::Snake
    }

    /// The state invariant: the grid is well formed with a walled border and
    /// walls nowhere else, exactly one apple exists, the snake's body lies on
    /// the grid, and — while the game is running — the head is strictly
    /// interior, the body's cells are marked on the grid, and duplicate
    /// segments stand next to each other.
    pub open spec fn inv(self) -> bool {
        &&& self.grid.wf()
        &&& self.snake.wf()
        &&& self.grid.border_walled()
        &&& self.grid.interior_wall_free()
        &&& self.grid.has_apple()
        &&& self.grid.at_most_one_apple()
        &&& self.body_in_bounds()
        &&& self.running() ==> self.grid.is_interior(self.head())
        &&& self.running() ==> self.body_cells_marked()
        &&& self.running() ==> runs_contiguous(self.snake.body)
    }
}

/// The heading after an input is applied: a request for the exact opposite
/// of the current heading is ignored.
pub open spec fn effective_heading(s: SnakeView, input: Option<Direction>) -> Direction {
    match input {
        Some(d) => if d == s.heading.opposite() {
            s.heading
        } else {
            d
        },
        None => s.heading,
    }
}

/// Where the head lands on this tick.
pub open spec fn next_head(g: GameView, input: Option<Direction>) -> Point {
    step_of(g.snake.body[0], effective_heading(g.snake, input))
}

/// The grid after a plain movement step: the new head cell is marked as
/// snake, and the vacated tail cell — if the tail did move — is cleared.
pub open spec fn stepped_grid(
    g: GridView,
    new_head: Point,
    new_tail: Point,
    prev_tail: Point,
) -> GridView {
    let g1 = g.with_tile(new_head, Tile::Snake);
    if new_tail != prev_tail {
        g1.with_tile(prev_tail, Tile::Empty)
    } else {
        g1
    }
}

/// The grid change on a growth tick: a fresh apple lands on the formerly
/// empty cell `p`, then the usual head and tail update follows.
pub open spec fn grid_after_growth(
    post: GridView,
    pre: GridView,
    new_head: Point,
    new_tail: Point,
    prev_tail: Point,
    p: Point,
) -> bool {
    &&& pre.in_bounds(p)
    &&& pre.tile_at(p) == Tile::Empty
    &&& post == stepped_grid(pre.with_tile(p, Tile::Apple), new_head, new_tail, prev_tail)
}

/// The one-tick transition relation from a running state `pre` under `input`
/// to `post` with result `r`: the input is applied to the heading, the snake
/// advances one cell, and the tile the head lands on decides the outcome.
pub open spec fn tick_transition(
    pre: GameView,
    input: Option<Direction>,
    post: GameView,
    r: Result<(), CollisionError>,
) -> bool {
    let d = effective_heading(pre.snake, input);
    let b1 = moved_body(pre.snake.body, d);
    let h2 = b1[0];
    let prev_tail = pre.snake.body.last();
    &&& post.snake.heading == d
    &&& match pre.grid.tile_at(h2) {
        Tile::Wall => {
            &&& r == Err::<(), CollisionError>(CollisionError::Wall)
            &&& post.over == Some(CollisionError::Wall)
            &&& post.snake.body == b1
            &&& post.grid == pre.grid
        },
        Tile::Snake => {
            &&& r == Err::<(), CollisionError>(CollisionError::Tail)
            &&& post.over == Some(CollisionError::Tail)
            &&& post.snake.body == b1
            &&& post.grid == pre.grid
        },
        Tile::Apple => {
            &&& r == Ok::<(), CollisionError>(())
            &&& post.over is None
            &&& post.snake.body == b1.push(b1.last())
            &&& exists|p: Point|
                grid_after_growth(post.grid, pre.grid, h2, b1.last(), prev_tail, p)
        },
        Tile::Empty => {
            &&& r == Ok::<(), CollisionError>(())
            &&& post.over is None
            &&& post.snake.body == b1
            &&& post.grid == stepped_grid(pre.grid, h2, b1.last(), prev_tail)
        },
    }
}

proof fn lemma_moved_runs(b: Seq<Point>, d: Direction)
    requires
        b.len() >= 1,
        runs_contiguous(b),
        forall|i: int| #![trigger b[i]] 0 <= i < b.len() ==> b[i] != step_of(b[0], d),
    ensures
        runs_contiguous(moved_body(b, d)),
{
    let m = moved_body(b, d);
    let h = step_of(b[0], d);
    assert forall|i: int, k: int, j: int|
        #![trigger m[i], m[k], m[j]]
        0 <= i <= k <= j < m.len() && m[i] == m[j] implies m[k] == m[i] by {
        if i == 0 {
            if j > 0 {
                assert(m[j] == b[j - 1]);
                assert(b[j - 1] != h);
            }
        } else {
            assert(m[i] == b[i - 1] && m[k] == b[k - 1] && m[j] == b[j - 1]);
            assert(b[i - 1] == b[j - 1] ==> b[k - 1] == b[i - 1]);
        }
    }
}

proof fn lemma_push_last_runs(b: Seq<Point>)
    requires
        b.len() >= 1,
        runs_contiguous(b),
    ensures
        runs_contiguous(b.push(b.last())),
{
    let m = b.push(b.last());
    let n = b.len() as int;
    assert forall|i: int, k: int, j: int|
        #![trigger m[i], m[k], m[j]]
        0 <= i <= k <= j < m.len() && m[i] == m[j] implies m[k] == m[i] by {
        assert(forall|x: int| 0 <= x < n ==> #[trigger] m[x] == b[x]);
        assert(m[n] == b[n - 1]);
        if j < n {
            assert(b[i] == b[j] ==> b[k] == b[i]);
        } else {
            if i < n && k < n {
                assert(b[i] == b[n - 1] ==> b[k] == b[i]);
            }
        }
    }
}

/// The snake's starting position: the center of the grid.
pub open spec fn start_center(width: usize, height: usize) -> Point {
    Point { x: (width / 2) as usize, y: (height / 2) as usize }
}

/// The grid right after construction: walls on the border, the snake's
/// starting cell in the middle, one apple on `apple`, everything else empty.
pub open spec fn initial_grid(g: GridView, center: Point, apple: Point) -> bool {
    &&& g.is_interior(apple)
    &&& apple != center
    &&& forall|q: Point|
        g.in_bounds(q) ==> #[trigger] g.tile_at(q) == (if g.is_border(q) {
            Tile::Wall
        } else if q == center {
            Tile::Snake
        } else if q == apple {
            Tile::Apple
        } else {
            Tile::Empty
        })
}

/// One game: a grid and a snake kept consistent with each other, advanced by
/// [`Game::update`] one tick at a time until a collision ends it.
pub struct Game {
    grid: Grid,
    snake: Snake,
    over: Option<CollisionError>,
}

impl View for Game {
    type V = GameView;

    closed spec fn view(&self) -> GameView {
        GameView { grid: self.grid@, snake: self.snake@, over: self.over }
    }
}

impl Game {
    pub open spec fn inv(self) -> bool {
        self@.inv()
    }

    /// A new game: the snake, `start_len` stacked segments heading right,
    /// starts at the center of a freshly walled grid, and one apple is
    /// spawned. Dimensions under 3 are rejected: no border and interior
    /// would fit. A 3-by-3 grid is ruled out up front: its single interior
    /// cell holds the snake, so no cell would be left for the apple.
    pub fn new(width: usize, height: usize, start_len: usize) -> (r: Result<Game, ConfigError>)
        requires
            width * height <= usize::MAX,
            start_len >= 1,
            !(width == 3 && height == 3),
        ensures
            (width >= 3 && height >= 3) <==> r is Ok,
            match r {
                Ok(g) => {
                    &&& g.inv()
                    &&& g@.running()
                    &&& g@.grid.width == width
                    &&& g@.grid.height == height
                    &&& g@.snake.heading == Direction::Right
                    &&& g@.snake.body.len() == start_len
                    &&& forall|i: int|
                        0 <= i < start_len ==> g@.snake.body[i] == start_center(width, height)
                    &&& exists|p: Point|
                        initial_grid(g@.grid, start_center(width, height), p)
                },
                Err(_) => width < 3 || height < 3,
            },
    {
        if width < 3 || height < 3 {
            return Err(ConfigError);
        }
        let start_pos = Point { x: width / 2, y: height / 2 };
        let snake = Snake::new(start_pos, start_len);
        let mut grid = match Grid::new(width, height) {
            Ok(g) => g,
            Err(e) => {
                return Err(e);
            },
        };
        proof {
            assert(grid@.is_interior(start_pos));
        }
        // mark the snake's starting cells before raising the border
        let body = snake.body();
        let mut i: usize = 0;
        while i < start_len
            invariant
                i <= start_len,
                snake@.body.len() == start_len,
                forall|j: int| 0 <= j < start_len ==> snake@.body[j] == start_pos,
                grid@.wf(),
                grid@.width == width,
                grid@.height == height,
                grid@.is_interior(start_pos),
                body@ == snake@.body,
                forall|q: Point|
                    grid@.in_bounds(q) ==> #[trigger] grid@.tile_at(q) == (
                    if q == start_pos && i > 0 {
                        Tile::Snake
                    } else {
                        Tile::Empty
                    }),
            decreases start_len - i,
        {
            grid.set_tile(body[i], Tile::Snake);
            i += 1;
        }
        grid.create_border();
        let ghost walled = grid@;
        proof {
            // beside the snake's one cell, a second interior cell is empty
            let q = if width >= 4 {
                Point { x: if start_pos.x == 1 { 2 } else { 1 }, y: start_pos.y }
            } else {
                Point { x: start_pos.x, y: if start_pos.y == 1 { 2 } else { 1 } }
            };
            assert(height >= 4 || width >= 4);
            assert(walled.is_interior(q));
            assert(q != start_pos);
            assert(walled.tile_at(q) == Tile::Empty);
        }
        grid.spawn_apple();
        let game = Game { grid, snake, over: None };
        proof {
            let p = choose|p: Point| spawned_from(game@.grid, walled, p);
            grid::lemma_with_tile(walled, p, Tile::Apple);
            assert(!walled.is_border(p) && p != start_pos);
            assert forall|q: Point| game@.grid.in_bounds(q) implies #[trigger] game@.grid.tile_at(
                q,
            ) == (if game@.grid.is_border(q) {
                Tile::Wall
            } else if q == start_pos {
                Tile::Snake
            } else if q == p {
                Tile::Apple
            } else {
                Tile::Empty
            }) by {}
            assert(initial_grid(game@.grid, start_center(width, height), p));
            assert(game@.grid.has_apple());
            assert(game@.body_cells_marked());
            assert(game@.body_in_bounds());
            assert(game.inv());
        }
        Ok(game)
    }

    /// Consumes the apple under the head: the snake grows by one segment and
    /// a new apple is spawned on some empty cell.
    fn on_eat_apple(&mut self)
        requires
            old(self)@.snake.wf(),
            old(self)@.grid.wf(),
            old(self)@.grid.has_empty(),
        ensures
            final(self)@.grid.wf(),
            final(self)@.grid.width == old(self)@.grid.width,
            final(self)@.grid.height == old(self)@.grid.height,
            final(self)@.snake.heading == old(self)@.snake.heading,
            final(self)@.snake.body == old(self)@.snake.body.push(old(self)@.snake.body.last()),
            final(self)@.over == old(self)@.over,
            exists|p: Point| spawned_from(final(self)@.grid, old(self)@.grid, p),
    {
        self.snake.append_body();
        let ghost pre = self.grid@;
        self.grid.spawn_apple();
        proof {
            let p = choose|p: Point| spawned_from(self.grid@, pre, p);
            assert(spawned_from(self@.grid, old(self)@.grid, p));
        }
    }

    /// One tick: applies `input` to the heading (a reversal request is
    /// ignored), advances the snake one cell, and resolves the tile the head
    /// lands on — a wall or a snake cell ends the game with the matching
    /// collision error, an apple grows the snake and respawns the apple, an
    /// empty cell is plain movement. On success the grid is updated to match
    /// the body. Once the game has ended, further calls change nothing and
    /// keep returning the collision. An apple may only be eaten while some
    /// cell is still empty, so that the next apple has somewhere to go.
    #[verifier::rlimit(100)]
    pub fn update(&mut self, input: Option<Direction>) -> (r: Result<(), CollisionError>)
        requires
            old(self).inv(),
            old(self)@.running() && old(self)@.grid.tile_at(next_head(old(self)@, input))
                == Tile::Apple ==> old(self)@.grid.has_empty(),
        ensures
            final(self).inv(),
            final(self)@.grid.width == old(self)@.grid.width,
            final(self)@.grid.height == old(self)@.grid.height,
            !old(self)@.running() ==> final(self)@ == old(self)@ && r == Err::<
                (),
                CollisionError,
            >((old(self)@.over)->Some_0),
            old(self)@.running() ==> tick_transition(old(self)@, input, final(self)@, r),
            // the snake never shrinks, and grows exactly on an apple tick
            final(self)@.snake.body.len() >= old(self)@.snake.body.len(),
            old(self)@.running() ==> final(self)@.snake.body.len() == old(self)@.snake.body.len()
                + (if old(self)@.grid.tile_at(next_head(old(self)@, input)) == Tile::Apple {
                1int
            } else {
                0int
            }),
            r is Ok ==> final(self)@.running(),
    {
        if let Some(e) = self.over {
            return Err(e);
        }
        let ghost g0 = old(self)@;
        if let Some(new_direction) = input {
            self.snake.try_change_direction(new_direction);
        }
        let ghost d = effective_heading(g0.snake, input);
        proof {
            assert(self@.snake.heading == d);
            assert(self@.snake.body == g0.snake.body);
            assert(g0.grid.is_interior(g0.head()));
            assert(can_step(g0.snake.body[0], d));
        }
        let prev_tail = self.snake.tail();
        self.snake.move_forward();
        let curr_head = self.snake.head();
        let ghost b1 = moved_body(g0.snake.body, d);
        let ghost n = g0.snake.body.len() as int;
        proof {
            assert(self@.snake.body == b1);
            assert(curr_head == b1[0]);
            assert(curr_head == next_head(g0, input));
            assert(g0.grid.in_bounds(curr_head));
            assert(g0.grid.in_bounds(prev_tail) && g0.grid.tile_at(prev_tail) == Tile::Snake);
            assert(forall|i: int|
                1 <= i < n ==> #[trigger] b1[i] == g0.snake.body[i - 1]
                    && g0.grid.in_bounds(b1[i]));
        }
        let t0 = self.grid.tile(curr_head);
        match t0 {
            Tile::Wall => {
                self.over = Some(CollisionError::Wall);
                proof {
                    assert(self@.body_in_bounds());
                    assert(self.inv());
                }
                return Err(CollisionError::Wall);
            },
            Tile::Snake => {
                self.over = Some(CollisionError::Tail);
                proof {
                    assert(self@.body_in_bounds());
                    assert(self.inv());
                }
                return Err(CollisionError::Tail);
            },
            Tile::Apple => {
                self.on_eat_apple();
            },
            Tile::Empty => {},
        }
        let ghost ate = (t0 == Tile::Apple);
        let ghost grid1 = self@.grid;
        let ghost papple = choose|p: Point| spawned_from(grid1, g0.grid, p);
        proof {
            // the head landed on no snake cell, so it left the old body
            assert forall|i: int| 0 <= i < n implies #[trigger] g0.snake.body[i]
                != curr_head by {
                assert(g0.grid.tile_at(g0.snake.body[i]) == Tile::Snake);
            }
            if ate {
                assert(spawned_from(grid1, g0.grid, papple));
                grid::lemma_with_tile(g0.grid, papple, Tile::Apple);
                assert(papple != curr_head && papple != prev_tail);
            } else {
                assert(grid1 == g0.grid);
            }
            assert(grid1.tile_at(curr_head) == g0.grid.tile_at(curr_head));
            assert(grid1.tile_at(prev_tail) == Tile::Snake);
        }
        self.grid.set_tile(curr_head, Tile::Snake);
        let t = self.snake.tail();
        proof {
            assert(t == b1.last());
            if t != prev_tail {
                // no remaining segment still occupies the vacated tail cell
                assert forall|i: int| 0 <= i < self@.snake.body.len()
                    implies #[trigger] self@.snake.body[i] != prev_tail by {
                    if i >= 1 && i < n {
                        if g0.snake.body[i - 1] == g0.snake.body[n - 1] {
                            assert(g0.snake.body[n - 2] == g0.snake.body[i - 1]);
                        }
                    }
                    if i == n {
                        assert(self@.snake.body[i] == b1.last());
                    }
                }
            }
        }
        if t != prev_tail {
            self.grid.set_tile(prev_tail, Tile::Empty);
        }
        proof {
            let gf = self@.grid;
            let bf = self@.snake.body;
            let cleared = (b1.last() != prev_tail);
            assert(gf == stepped_grid(grid1, curr_head, b1.last(), prev_tail));
            if ate {
                assert(grid_after_growth(gf, g0.grid, curr_head, b1.last(), prev_tail, papple));
            }
            assert(tick_transition(g0, input, self@, Ok::<(), CollisionError>(())));

            // pointwise: what the final grid holds where
            assert(gf.tile_at(curr_head) == Tile::Snake);
            assert(cleared ==> gf.tile_at(prev_tail) == Tile::Empty);
            assert(ate ==> gf.tile_at(papple) == Tile::Apple);
            assert forall|q: Point|
                g0.grid.in_bounds(q) && q != curr_head && !(cleared && q == prev_tail) && !(ate
                    && q == papple) implies #[trigger] gf.tile_at(q) == g0.grid.tile_at(q) by {}

            // the invariant, piece by piece
            assert(gf.wf());
            assert forall|q: Point| gf.in_bounds(q) && gf.is_border(q)
                implies #[trigger] gf.tile_at(q) == Tile::Wall by {
                assert(g0.grid.tile_at(q) == Tile::Wall);
            }
            assert forall|q: Point| gf.is_interior(q) implies #[trigger] gf.tile_at(q)
                != Tile::Wall by {}
            // exactly one apple
            if ate {
                assert(gf.tile_at(papple) == Tile::Apple);
                assert(gf.has_apple());
                assert forall|u: Point, v: Point|
                    gf.in_bounds(u) && gf.in_bounds(v) && #[trigger] gf.tile_at(u) == Tile::Apple
                        && #[trigger] gf.tile_at(v) == Tile::Apple implies u == v by {
                    assert(g0.grid.tile_at(curr_head) == Tile::Apple);
                    if u != papple {
                        assert(g0.grid.tile_at(u) == Tile::Apple);
                        assert(u == curr_head);
                    }
                    if v != papple {
                        assert(g0.grid.tile_at(v) == Tile::Apple);
                        assert(v == curr_head);
                    }
                }
            } else {
                let a = choose|a: Point|
                    g0.grid.in_bounds(a) && #[trigger] g0.grid.tile_at(a) == Tile::Apple;
                assert(g0.grid.tile_at(curr_head) == Tile::Empty);
                assert(a != curr_head && a != prev_tail);
                assert(gf.tile_at(a) == Tile::Apple);
                assert(gf.has_apple());
                assert forall|u: Point, v: Point|
                    gf.in_bounds(u) && gf.in_bounds(v) && #[trigger] gf.tile_at(u) == Tile::Apple
                        && #[trigger] gf.tile_at(v) == Tile::Apple implies u == v by {
                    assert(u != curr_head && !(cleared && u == prev_tail));
                    assert(v != curr_head && !(cleared && v == prev_tail));
                    assert(g0.grid.tile_at(u) == Tile::Apple);
                    assert(g0.grid.tile_at(v) == Tile::Apple);
                }
            }
            // the head is strictly interior
            assert(gf.is_interior(curr_head));
            // every body cell lies on the grid and is marked
            assert forall|i: int| 0 <= i < bf.len() implies #[trigger] gf.in_bounds(bf[i])
                && gf.tile_at(bf[i]) == Tile::Snake by {
                if i == 0 {
                    assert(bf[0] == curr_head);
                } else {
                    if bf[i] == curr_head {
                    } else {
                        let j = if i < n { i - 1 } else { n - 2 };
                        assert(bf[i] == g0.snake.body[j]);
                        assert(g0.grid.tile_at(g0.snake.body[j]) == Tile::Snake);
                        assert(!(ate && bf[i] == papple));
                        if cleared {
                            assert(bf[i] != prev_tail);
                        }
                    }
                }
            }
            // duplicate segments stay contiguous
            lemma_moved_runs(g0.snake.body, d);
            if ate {
                lemma_push_last_runs(b1);
            }
            assert(self.inv());
        }
        Ok(())
    }

    /// The grid width.
    pub fn width(&self) -> (w: usize)
        ensures
            w == self@.grid.width,
    {
        self.grid.width()
    }

    /// The grid height.
    pub fn height(&self) -> (h: usize)
        ensures
            h == self@.grid.height,
    {
        self.grid.height()
    }

    /// The tile at `p`, for rendering. Out-of-range positions are a
    /// programming error and ruled out by precondition.
    pub fn tile(&self, p: Point) -> (t: Tile)
        requires
            self.inv(),
            self@.grid.in_bounds(p),
        ensures
            t == self@.grid.tile_at(p),
    {
        self.grid.tile(p)
    }

    /// The snake's current length, the game's score.
    pub fn snake_len(&self) -> (n: usize)
        ensures
            n == self@.snake.body.len(),
    {
        self.snake.body().len()
    }

    /// Moves the apple to `p` when `p` is empty (the old apple cell is
    /// cleared first) or already holds the apple; any other target leaves
    /// the game unchanged. Returns whether the apple now stands on `p`.
    /// Useful for setting up a deterministic board.
    pub fn place_apple(&mut self, p: Point) -> (ok: bool)
        requires
            old(self).inv(),
            old(self)@.grid.in_bounds(p),
        ensures
            final(self).inv(),
            final(self)@.snake == old(self)@.snake,
            final(self)@.over == old(self)@.over,
            final(self)@.grid.width == old(self)@.grid.width,
            final(self)@.grid.height == old(self)@.grid.height,
            ok == (old(self)@.grid.tile_at(p) == Tile::Empty || old(self)@.grid.tile_at(p)
                == Tile::Apple),
            old(self)@.grid.tile_at(p) == Tile::Empty ==> forall|q: Point|
                old(self)@.grid.in_bounds(q) ==> #[trigger] final(self)@.grid.tile_at(q) == (
                if q == p {
                    Tile::Apple
                } else if old(self)@.grid.tile_at(q) == Tile::Apple {
                    Tile::Empty
                } else {
                    old(self)@.grid.tile_at(q)
                }),
            old(self)@.grid.tile_at(p) != Tile::Empty ==> final(self)@ == old(self)@,
    {
        let t = self.grid.tile(p);
        match t {
            Tile::Apple => true,
            Tile::Empty => {
                let a = match self.grid.find_first(Tile::Apple) {
                    Some(a) => a,
                    None => {
                        proof {
                            let w = choose|w: Point|
                                self@.grid.in_bounds(w) && #[trigger] self@.grid.tile_at(w)
                                    == Tile::Apple;
                            assert(self@.grid.tile_at(w) != Tile::Apple);
                        }
                        p
                    },
                };
                self.grid.set_tile(a, Tile::Empty);
                self.grid.set_tile(p, Tile::Apple);
                proof {
                    let g0 = old(self)@;
                    let gf = self@.grid;
                    assert(a != p);
                    assert forall|q: Point| g0.grid.in_bounds(q) implies #[trigger] gf.tile_at(q)
                        == (if q == p {
                        Tile::Apple
                    } else if g0.grid.tile_at(q) == Tile::Apple {
                        Tile::Empty
                    } else {
                        g0.grid.tile_at(q)
                    }) by {
                        if q != p && g0.grid.tile_at(q) == Tile::Apple {
                            assert(q == a);
                        }
                    }
                    assert(gf.has_apple());
                    if g0.running() {
                        assert forall|i: int| 0 <= i < self@.snake.body.len()
                            implies #[trigger] self@.snake.body[i] != a && self@.snake.body[i]
                            != p by {
                            assert(g0.grid.tile_at(g0.snake.body[i]) == Tile::Snake);
                        }
                        assert(self@.body_cells_marked());
                    }
                    assert(self.inv());
                }
                true
            },
            _ => false,
        }
    }
}

/// The printable character for a tile.
pub open spec fn spec_tile_char(tile: Tile) -> char {
    match tile {
        Tile::Empty => ' ',
        Tile::Wall => '#',
        Tile::Snake => '@',
        Tile::Apple => '$',
    }
}

/// Maps a tile to the character that renders it.
pub fn tile_to_char(tile: &Tile) -> (c: char)
    ensures
        c == spec_tile_char(*tile),
{
    match tile {
        Tile::Empty => ' ',
        Tile::Wall => '#',
        Tile::Snake => '@',
        Tile::Apple => '$',
    }
}

/// The direction a typed character asks for, if any.
pub open spec fn spec_direction_from_key(key: char) -> Option<Direction> {
    if key == 'w' {
        Some(Direction::Up)
    } else if key == 's' {
        Some(Direction::Down)
    } else if key == 'd' {
        Some(Direction::Right)
    } else if key == 'a' {
        Some(Direction::Left)
    } else {
        None
    }
}

/// Maps the four recognized input characters to a direction; every other
/// character — other casing, digits, punctuation — maps to `None`.
pub fn direction_from_key(key: char) -> (r: Option<Direction>)
    ensures
        r == spec_direction_from_key(key),
{
    match key {
        'w' => Some(Direction::Up),
        's' => Some(Direction::Down),
        'd' => Some(Direction::Right),
        'a' => Some(Direction::Left),
        _ => None,
    }
}

/// Border law: while the invariant holds, every border cell is a wall, and
/// no cell away from the border holds one.
pub proof fn lemma_border_walls(g: GameView)
    requires
        g.inv(),
    ensures
        forall|p: Point|
            g.grid.in_bounds(p) && g.grid.is_border(p) ==> #[trigger] g.grid.tile_at(p)
                == Tile::Wall,
        forall|p: Point| g.grid.is_interior(p) ==> #[trigger] g.grid.tile_at(p) != Tile::Wall,
{
}

/// Apple law: in every state that satisfies the invariant, exactly one cell
/// holds an apple.
pub proof fn lemma_exactly_one_apple(g: GameView)
    requires
        g.inv(),
    ensures
        exists|p: Point| g.grid.in_bounds(p) && #[trigger] g.grid.tile_at(p) == Tile::Apple,
        forall|p: Point, q: Point|
            g.grid.in_bounds(p) && g.grid.in_bounds(q) && #[trigger] g.grid.tile_at(p)
                == Tile::Apple && #[trigger] g.grid.tile_at(q) == Tile::Apple ==> p == q,
{
}

/// Key-mapping law: the mapping is a pure function of the character alone —
/// the four recognized keys map to their directions, and every other
/// character maps to `None`.
pub proof fn lemma_direction_from_key_total(key: char)
    ensures
        key == 'w' ==> spec_direction_from_key(key) == Some(Direction::Up),
        key == 's' ==> spec_direction_from_key(key) == Some(Direction::Down),
        key == 'd' ==> spec_direction_from_key(key) == Some(Direction::Right),
        key == 'a' ==> spec_direction_from_key(key) == Some(Direction::Left),
        key != 'w' && key != 's' && key != 'd' && key != 'a' ==> spec_direction_from_key(key)
            is None,
{
}

} // verus!
