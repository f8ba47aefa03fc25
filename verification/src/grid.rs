//! The fixed-size tile grid: a dense row-major array of tiles with a walled
//! border, cell get/set, and randomized apple placement on an empty cell.

use vstd::prelude::*;

use rand::Rng;

use crate::Point;

verus! {

/// What occupies a single grid cell.
#[derive(Clone, Copy, PartialEq, Eq, Structural, Debug)]
pub enum Tile {
    Empty,
    Wall,
    Snake,
    Apple,
}

/// Mathematical view of a [`Grid`]: its dimensions and the row-major cell
/// contents.
pub ghost struct GridView {
    pub width: int,
    pub height: int,
    pub tiles: Seq<Tile>,
}

impl GridView {
    /// Well-formed: both dimensions leave room for a border around a
    /// non-empty interior, and the cell sequence is dense.
    pub open spec fn wf(self) -> bool {
        &&& self.width >= 3
        &&& self.height >= 3
        &&& self.width <= usize::MAX
        &&& self.height <= usize::MAX
        &&& self.tiles.len() == self.width * self.height
    }

    pub open spec fn in_bounds(self, p: Point) -> bool {
        p.x < self.width && p.y < self.height
    }

    /// Row-major index of a position.
    pub open spec fn idx(self, p: Point) -> int {
        p.y * self.width + p.x
    }

    pub open spec fn tile_at(self, p: Point) -> Tile {
        self.tiles[self.idx(p)]
    }

    /// The outermost ring of cells.
    pub open spec fn is_border(self, p: Point) -> bool {
        p.x == 0 || p.x == self.width - 1 || p.y == 0 || p.y == self.height - 1
    }

    /// Strictly inside the border ring.
    pub open spec fn is_interior(self, p: Point) -> bool {
        self.in_bounds(p) && !self.is_border(p)
    }

    /// The same grid with one cell overwritten.
    pub open spec fn with_tile(self, p: Point, t: Tile) -> GridView {
        GridView { tiles: self.tiles.update(self.idx(p), t), ..self }
    }

    pub open spec fn has_empty(self) -> bool {
        exists|p: Point| self.in_bounds(p) && #[trigger] self.tile_at(p) == Tile::Empty
    }

    pub open spec fn has_apple(self) -> bool {
        exists|p: Point| self.in_bounds(p) && #[trigger] self.tile_at(p) == Tile::Apple
    }

    /// No two distinct cells both hold an apple.
    pub open spec fn at_most_one_apple(self) -> bool {
        forall|p: Point, q: Point|
            self.in_bounds(p) && self.in_bounds(q) && #[trigger] self.tile_at(p) == Tile::Apple
                && #[trigger] self.tile_at(q) == Tile::Apple ==> p == q
    }

    /// Every border cell is a wall.
    pub open spec fn border_walled(self) -> bool {
        forall|p: Point|
            self.in_bounds(p) && self.is_border(p) ==> #[trigger] self.tile_at(p) == Tile::Wall
    }

    /// No wall stands anywhere but on the border.
    pub open spec fn interior_wall_free(self) -> bool {
        forall|p: Point|
            self.is_interior(p) ==> #[trigger] self.tile_at(p) != Tile::Wall
    }
}

/// A new apple at `p`, a formerly empty cell, is the only difference between
/// `post` and `pre`.
pub open spec fn spawned_from(post: GridView, pre: GridView, p: Point) -> bool {
    &&& pre.in_bounds(p)
    &&& pre.tile_at(p) == Tile::Empty
    &&& post == pre.with_tile(p, Tile::Apple)
}

pub proof fn lemma_idx_bounds(v: GridView, p: Point)
    requires
        v.wf(),
        v.in_bounds(p),
    ensures
        0 <= v.idx(p) < v.tiles.len(),
{
    assert(p.y * v.width + p.x < v.width * v.height) by (nonlinear_arith)
        requires
            p.x < v.width,
            p.y < v.height,
            v.width >= 1,
    ;
}

pub proof fn lemma_idx_injective(v: GridView, p: Point, q: Point)
    requires
        v.wf(),
        v.in_bounds(p),
        v.in_bounds(q),
        v.idx(p) == v.idx(q),
    ensures
        p == q,
{
    assert(p.x == q.x && p.y == q.y) by (nonlinear_arith)
        requires
            p.x < v.width,
            q.x < v.width,
            p.y * v.width + p.x == q.y * v.width + q.x,
            v.width >= 1,
    ;
}

/// Pointwise reading of a single-cell overwrite.
pub proof fn lemma_with_tile(pre: GridView, p: Point, t: Tile)
    requires
        pre.wf(),
        pre.in_bounds(p),
    ensures
        pre.with_tile(p, t).wf(),
        pre.with_tile(p, t).width == pre.width,
        pre.with_tile(p, t).height == pre.height,
        pre.with_tile(p, t).tile_at(p) == t,
        forall|q: Point|
            pre.in_bounds(q) && q != p ==> #[trigger] pre.with_tile(p, t).tile_at(q)
                == pre.tile_at(q),
{
    lemma_idx_bounds(pre, p);
    assert forall|q: Point| pre.in_bounds(q) && q != p implies #[trigger] pre.with_tile(
        p,
        t,
    ).tile_at(q) == pre.tile_at(q) by {
        lemma_idx_bounds(pre, q);
        if pre.idx(q) == pre.idx(p) {
            lemma_idx_injective(pre, q, p);
        }
    }
}

/// How many random probes `spawn_apple` makes before it falls back to the
/// first empty cell in row-major order.
const SPAWN_PROBES: usize = 10000;

/// Relies on `rand::Rng::gen_range` over `rand::thread_rng()`: the sampled
/// value lies in the given half-open range, which must be non-empty.
#[verifier::external_body]
fn random_below(n: usize) -> (r: usize)
    requires
        n >= 1,
    ensures
        r < n,
{
    rand::thread_rng().gen_range(0..n)
}

/// A fixed-size 2-D tile array with bordered walls.
pub struct Grid {
    width: usize,
    height: usize,
    tiles: Vec<Tile>,
}

impl View for Grid {
    type V = GridView;

    closed spec fn view(&self) -> GridView {
        GridView { width: self.width as int, height: self.height as int, tiles: self.tiles@ }
    }
}

impl Grid {
    /// Allocates `width * height` cells, all empty. Dimensions under 3 leave
    /// no room for a border around an interior and are rejected.
    pub fn new(width: usize, height: usize) -> (r: Result<Grid, crate::ConfigError>)
        requires
            width * height <= usize::MAX,
        ensures
            (width >= 3 && height >= 3) <==> r is Ok,
            match r {
                Ok(g) => {
                    &&& g@.wf()
                    &&& g@.width == width
                    &&& g@.height == height
                    &&& forall|p: Point|
                        g@.in_bounds(p) ==> #[trigger] g@.tile_at(p) == Tile::Empty
                },
                Err(_) => width < 3 || height < 3,
            },
    {
        if width < 3 || height < 3 {
            return Err(crate::ConfigError);
        }
        let n = width * height;
        let mut tiles: Vec<Tile> = Vec::new();
        let mut i: usize = 0;
        while i < n
            invariant
                i <= n,
                tiles@.len() == i,
                forall|j: int| 0 <= j < i ==> tiles@[j] == Tile::Empty,
            decreases n - i,
        {
            tiles.push(Tile::Empty);
            i += 1;
        }
        let g = Grid { width, height, tiles };
        proof {
            assert forall|p: Point| g@.in_bounds(p) implies #[trigger] g@.tile_at(p)
                == Tile::Empty by {
                lemma_idx_bounds(g@, p);
            }
        }
        Ok(g)
    }

    pub fn width(&self) -> (w: usize)
        ensures
            w == self@.width,
    {
        self.width
    }

    pub fn height(&self) -> (h: usize)
        ensures
            h == self@.height,
    {
        self.height
    }

    fn coord_to_index(&self, coord: Point) -> (i: usize)
        requires
            self@.wf(),
            self@.in_bounds(coord),
        ensures
            i == self@.idx(coord),
            i < self@.tiles.len(),
    {
        let n = self.tiles.len();
        proof {
            lemma_idx_bounds(self@, coord);
        }
        self.width * coord.y + coord.x
    }

    /// The tile at `coord`; positions outside the grid are a programming
    /// error and ruled out by precondition.
    pub fn tile(&self, coord: Point) -> (t: Tile)
        requires
            self@.wf(),
            self@.in_bounds(coord),
        ensures
            t == self@.tile_at(coord),
    {
        let i = self.coord_to_index(coord);
        self.tiles[i]
    }

    /// Overwrites the tile at `coord`. Callers are responsible for keeping
    /// the border and apple invariants.
    pub fn set_tile(&mut self, coord: Point, tile: Tile)
        requires
            old(self)@.wf(),
            old(self)@.in_bounds(coord),
        ensures
            final(self)@ == old(self)@.with_tile(coord, tile),
            final(self)@.wf(),
            final(self)@.width == old(self)@.width,
            final(self)@.height == old(self)@.height,
            final(self)@.tile_at(coord) == tile,
            forall|q: Point|
                old(self)@.in_bounds(q) && q != coord ==> #[trigger] final(self)@.tile_at(q)
                    == old(self)@.tile_at(q),
    {
        let index = self.coord_to_index(coord);
        self.tiles[index] = tile;
        proof {
            lemma_with_tile(old(self)@, coord, tile);
        }
    }

    /// Sets every cell on the four edges to a wall; all other cells keep
    /// their tile. Idempotent.
    pub fn create_border(&mut self)
        requires
            old(self)@.wf(),
        ensures
            final(self)@.wf(),
            final(self)@.width == old(self)@.width,
            final(self)@.height == old(self)@.height,
            forall|p: Point|
                old(self)@.in_bounds(p) ==> #[trigger] final(self)@.tile_at(p) == (
                if old(self)@.is_border(p) {
                    Tile::Wall
                } else {
                    old(self)@.tile_at(p)
                }),
    {
        let width = self.width;
        let height = self.height;
        let mut x: usize = 0;
        while x < width
            invariant
                old(self)@.wf(),
                self@.wf(),
                x <= width,
                width == self@.width == old(self)@.width,
                height == self@.height == old(self)@.height,
                forall|p: Point|
                    old(self)@.in_bounds(p) ==> #[trigger] self@.tile_at(p) == (
                    if p.x < x && (p.y == 0 || p.y == height - 1) {
                        Tile::Wall
                    } else {
                        old(self)@.tile_at(p)
                    }),
            decreases width - x,
        {
            self.set_tile(Point { x, y: 0 }, Tile::Wall);
            self.set_tile(Point { x, y: height - 1 }, Tile::Wall);
            x += 1;
        }
        let ghost mid = self@;
        let mut y: usize = 0;
        while y < height
            invariant
                old(self)@.wf(),
                self@.wf(),
                y <= height,
                width == self@.width == old(self)@.width,
                height == self@.height == old(self)@.height,
                forall|p: Point|
                    old(self)@.in_bounds(p) ==> #[trigger] mid.tile_at(p) == (
                    if p.y == 0 || p.y == height - 1 {
                        Tile::Wall
                    } else {
                        old(self)@.tile_at(p)
                    }),
                forall|p: Point|
                    old(self)@.in_bounds(p) ==> #[trigger] self@.tile_at(p) == (
                    if p.y < y && (p.x == 0 || p.x == width - 1) {
                        Tile::Wall
                    } else {
                        mid.tile_at(p)
                    }),
            decreases height - y,
        {
            self.set_tile(Point { x: 0, y }, Tile::Wall);
            self.set_tile(Point { x: width - 1, y }, Tile::Wall);
            y += 1;
        }
    }

    /// The first cell holding `t` in row-major order, if any.
    pub(crate) fn find_first(&self, t: Tile) -> (r: Option<Point>)
        requires
            self@.wf(),
        ensures
            match r {
                Some(p) => self@.in_bounds(p) && self@.tile_at(p) == t,
                None => forall|p: Point|
                    self@.in_bounds(p) ==> #[trigger] self@.tile_at(p) != t,
            },
    {
        let width = self.width;
        let height = self.height;
        let mut y: usize = 0;
        while y < height
            invariant
                self@.wf(),
                y <= height,
                width == self@.width,
                height == self@.height,
                forall|p: Point|
                    self@.in_bounds(p) && p.y < y ==> #[trigger] self@.tile_at(p) != t,
            decreases height - y,
        {
            let mut x: usize = 0;
            while x < width
                invariant
                    self@.wf(),
                    y < height,
                    x <= width,
                    width == self@.width,
                    height == self@.height,
                    forall|p: Point|
                        self@.in_bounds(p) && p.y < y ==> #[trigger] self@.tile_at(p) != t,
                    forall|p: Point|
                        self@.in_bounds(p) && p.y == y && p.x < x ==> #[trigger] self@.tile_at(p)
                            != t,
                decreases width - x,
            {
                let pos = Point { x, y };
                if self.tile(pos) == t {
                    return Some(pos);
                }
                x += 1;
            }
            y += 1;
        }
        None
    }

    /// Places an apple on a randomly chosen empty cell: random positions are
    /// probed until one lands on an empty tile. Because border cells are
    /// walls, the apple never lands on the border. The probing is capped so
    /// that the call provably terminates; past the cap the first empty cell
    /// in row-major order is taken. At least one empty cell must exist.
    pub fn spawn_apple(&mut self)
        requires
            old(self)@.wf(),
            old(self)@.has_empty(),
        ensures
            final(self)@.wf(),
            final(self)@.width == old(self)@.width,
            final(self)@.height == old(self)@.height,
            exists|p: Point| spawned_from(final(self)@, old(self)@, p),
    {
        let width = self.width;
        let height = self.height;
        let mut probes: usize = 0;
        while probes < SPAWN_PROBES
            invariant
                self@ == old(self)@,
                self@.wf(),
                width == self@.width,
                height == self@.height,
            decreases SPAWN_PROBES - probes,
        {
            let pos = Point { x: random_below(width), y: random_below(height) };
            if self.tile(pos) == Tile::Empty {
                self.set_tile(pos, Tile::Apple);
                proof {
                    assert(spawned_from(self@, old(self)@, pos));
                }
                return;
            }
            probes += 1;
        }
        match self.find_first(Tile::Empty) {
            Some(pos) => {
                self.set_tile(pos, Tile::Apple);
                proof {
                    assert(spawned_from(self@, old(self)@, pos));
                }
            },
            None => {
                proof {
                    let ghost w = choose|p: Point|
                        self@.in_bounds(p) && #[trigger] self@.tile_at(p) == Tile::Empty;
                    assert(self@.tile_at(w) != Tile::Empty);
                }
            },
        }
    }
}

} // verus!
