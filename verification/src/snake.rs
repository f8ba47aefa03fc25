//! The snake: an ordered, head-first body of grid positions plus a current
//! heading, with the movement, growth, and direction-change rules.

use vstd::prelude::*;

use crate::Point;

verus! {

/// A direction of travel. `Up` decreases `y`, `Down` increases `y`, `Left`
/// decreases `x`, `Right` increases `x` (row-major, origin top-left).
#[derive(Clone, Copy, PartialEq, Eq, Structural, Debug)]
pub enum Direction {
    Up,
    Down,
    Right,
    Left,
}

impl Direction {
    /// The direction that reverses this one on the same axis.
    pub open spec fn opposite(self) -> Direction {
        match self {
            Direction::Up => Direction::Down,
            Direction::Down => Direction::Up,
            Direction::Right => Direction::Left,
            Direction::Left => Direction::Right,
        }
    }

    /// Whether `dir` reverses this direction on the same axis.
    pub fn is_opposite(&self, dir: &Direction) -> (r: bool)
        ensures
            r == (*dir == self.opposite()),
    {
        match self {
            Direction::Up => *dir == Direction::Down,
            Direction::Down => *dir == Direction::Up,
            Direction::Right => *dir == Direction::Left,
            Direction::Left => *dir == Direction::Right,
        }
    }
}

/// Whether a step from `p` in direction `d` stays representable (no
/// coordinate underflow or overflow).
pub open spec fn can_step(p: Point, d: Direction) -> bool {
    match d {
        Direction::Up => p.y >= 1,
        Direction::Down => p.y + 1 <= usize::MAX,
        Direction::Right => p.x + 1 <= usize::MAX,
        Direction::Left => p.x >= 1,
    }
}

/// The position one cell from `p` in direction `d`.
pub open spec fn step_of(p: Point, d: Direction) -> Point {
    match d {
        Direction::Up => Point { x: p.x, y: (p.y - 1) as usize },
        Direction::Down => Point { x: p.x, y: (p.y + 1) as usize },
        Direction::Right => Point { x: (p.x + 1) as usize, y: p.y },
        Direction::Left => Point { x: (p.x - 1) as usize, y: p.y },
    }
}

/// The body after one movement step in direction `d`: the head advances one
/// cell and every other segment takes its predecessor's position.
pub open spec fn moved_body(b: Seq<Point>, d: Direction) -> Seq<Point> {
    Seq::new(b.len(), |i: int| if i == 0 { step_of(b[0], d) } else { b[i - 1] })
}

/// Two positions one orthogonal step apart.
pub open spec fn orthogonally_adjacent(p: Point, q: Point) -> bool {
    ||| p.x == q.x && (p.y == q.y + 1 || q.y == p.y + 1)
    ||| p.y == q.y && (p.x == q.x + 1 || q.x == p.x + 1)
}

/// Movement law: one step keeps the body length, and when consecutive
/// segments were orthogonally adjacent before the step they are adjacent
/// after it, the new head and its neighbor included.
pub proof fn lemma_move_preserves_adjacency(b: Seq<Point>, d: Direction)
    requires
        b.len() >= 1,
        can_step(b[0], d),
        forall|i: int| 0 <= i < b.len() - 1 ==> #[trigger] orthogonally_adjacent(b[i], b[i + 1]),
    ensures
        moved_body(b, d).len() == b.len(),
        forall|i: int|
            0 <= i < b.len() - 1 ==> #[trigger] orthogonally_adjacent(
                moved_body(b, d)[i],
                moved_body(b, d)[i + 1],
            ),
{
    let m = moved_body(b, d);
    assert forall|i: int| 0 <= i < b.len() - 1 implies #[trigger] orthogonally_adjacent(
        m[i],
        m[i + 1],
    ) by {
        if i == 0 {
            assert(m[0] == step_of(b[0], d));
            assert(m[1] == b[0]);
        } else {
            let k = i - 1;
            assert(orthogonally_adjacent(b[k], b[k + 1]));
            assert(m[i] == b[k] && m[i + 1] == b[k + 1]);
        }
    }
}

/// Mathematical view of a [`Snake`]: the body positions, head first, and the
/// current heading.
pub ghost struct SnakeView {
    pub body: Seq<Point>,
    pub heading: Direction,
}

impl SnakeView {
    /// The body is never empty.
    pub open spec fn wf(self) -> bool {
        self.body.len() >= 1
    }
}

/// A non-empty ordered body of grid positions (index 0 is the head, the last
/// index the tail) plus a current heading.
pub struct Snake {
    direction: Direction,
    body: Vec<Point>,
}

impl View for Snake {
    type V = SnakeView;

    closed spec fn view(&self) -> SnakeView {
        SnakeView { body: self.body@, heading: self.direction }
    }
}

impl Snake {
    /// A snake of `start_len` segments, all at `start_pos`, heading right.
    pub fn new(start_pos: Point, start_len: usize) -> (s: Snake)
        requires
            start_len >= 1,
        ensures
            s@.wf(),
            s@.heading == Direction::Right,
            s@.body.len() == start_len,
            forall|i: int| 0 <= i < start_len ==> s@.body[i] == start_pos,
    {
        let mut body: Vec<Point> = Vec::new();
        let mut i: usize = 0;
        while i < start_len
            invariant
                i <= start_len,
                body@.len() == i,
                forall|j: int| 0 <= j < i ==> body@[j] == start_pos,
            decreases start_len - i,
        {
            body.push(start_pos);
            i += 1;
        }
        Snake { direction: Direction::Right, body }
    }

    /// Shifts every segment to its predecessor's position, from tail toward
    /// head, then advances the head one cell in the current heading.
    pub fn move_forward(&mut self)
        requires
            old(self)@.wf(),
            can_step(old(self)@.body[0], old(self)@.heading),
        ensures
            final(self)@.wf(),
            final(self)@.heading == old(self)@.heading,
            final(self)@.body.len() == old(self)@.body.len(),
            final(self)@.body == moved_body(old(self)@.body, old(self)@.heading),
    {
        let len = self.body.len();
        let mut i: usize = len;
        while i > 1
            invariant
                1 <= i <= len,
                len == self@.body.len() == old(self)@.body.len(),
                self@.heading == old(self)@.heading,
                can_step(old(self)@.body[0], old(self)@.heading),
                forall|j: int| 0 <= j < i ==> self@.body[j] == old(self)@.body[j],
                forall|j: int| i <= j < len ==> self@.body[j] == old(self)@.body[j - 1],
            decreases i,
        {
            i -= 1;
            let v = self.body[i - 1];
            self.body[i] = v;
        }
        let h = self.body[0];
        let nh = match self.direction {
            Direction::Up => Point { x: h.x, y: h.y - 1 },
            Direction::Down => Point { x: h.x, y: h.y + 1 },
            Direction::Right => Point { x: h.x + 1, y: h.y },
            Direction::Left => Point { x: h.x - 1, y: h.y },
        };
        self.body[0] = nh;
        proof {
            assert(self@.body =~= moved_body(old(self)@.body, old(self)@.heading));
        }
    }

    /// Appends a new tail segment at the current tail position, so growth
    /// happens behind the snake, at the cell the tail vacates next tick.
    pub fn append_body(&mut self)
        requires
            old(self)@.wf(),
        ensures
            final(self)@.wf(),
            final(self)@.heading == old(self)@.heading,
            final(self)@.body == old(self)@.body.push(old(self)@.body.last()),
    {
        let t = self.tail();
        self.body.push(t);
    }

    /// Sets the heading to `new_direction` unless that would reverse the
    /// current heading on the same axis, in which case the request is
    /// silently ignored: reversing would be an instant self-collision.
    pub fn try_change_direction(&mut self, new_direction: Direction)
        ensures
            final(self)@.body == old(self)@.body,
            final(self)@.heading == (if new_direction == old(self)@.heading.opposite() {
                old(self)@.heading
            } else {
                new_direction
            }),
    {
        if self.direction.is_opposite(&new_direction) {
            return;
        }
        self.direction = new_direction;
    }

    /// The head position, the first body segment.
    pub fn head(&self) -> (p: Point)
        requires
            self@.wf(),
        ensures
            p == self@.body[0],
    {
        self.body[0]
    }

    /// The tail position, the last body segment.
    pub fn tail(&self) -> (p: Point)
        requires
            self@.wf(),
        ensures
            p == self@.body.last(),
    {
        self.body[self.body.len() - 1]
    }

    /// The body positions, head first.
    pub fn body(&self) -> (r: &[Point])
        ensures
            r@ == self@.body,
    {
        self.body.as_slice()
    }
}

} // verus!
