use snake::snake::{Direction, Snake};
use snake::Point;

#[test]
fn new_snake_is_stacked_at_start_heading_right() {
    let s = Snake::new(Point { x: 5, y: 5 }, 3);
    assert_eq!(s.body(), &[Point { x: 5, y: 5 }; 3][..]);
    assert_eq!(s.head(), Point { x: 5, y: 5 });
    assert_eq!(s.tail(), Point { x: 5, y: 5 });
}

#[test]
fn move_forward_shifts_segments_toward_head() {
    let mut s = Snake::new(Point { x: 5, y: 5 }, 3);
    s.move_forward();
    assert_eq!(
        s.body(),
        &[Point { x: 6, y: 5 }, Point { x: 5, y: 5 }, Point { x: 5, y: 5 }][..]
    );
    s.move_forward();
    assert_eq!(
        s.body(),
        &[Point { x: 7, y: 5 }, Point { x: 6, y: 5 }, Point { x: 5, y: 5 }][..]
    );
}

#[test]
fn move_forward_keeps_length_and_adjacency() {
    let mut s = Snake::new(Point { x: 4, y: 4 }, 4);
    for _ in 0..6 {
        s.move_forward();
        let body = s.body();
        assert_eq!(body.len(), 4);
        for w in body.windows(2) {
            let (p, q) = (w[0], w[1]);
            let dx = p.x.abs_diff(q.x);
            let dy = p.y.abs_diff(q.y);
            // adjacent, or still coincident from the stacked start
            assert!(dx + dy <= 1);
        }
    }
    // fully unstacked: every consecutive pair is now strictly adjacent
    for w in s.body().windows(2) {
        assert!(w[0].x.abs_diff(w[1].x) + w[0].y.abs_diff(w[1].y) == 1);
    }
}

#[test]
fn opposite_direction_request_is_ignored() {
    let mut s = Snake::new(Point { x: 5, y: 5 }, 1);
    // heading starts Right; Left is its exact opposite
    s.try_change_direction(Direction::Left);
    s.move_forward();
    assert_eq!(s.head(), Point { x: 6, y: 5 });
}

#[test]
fn other_direction_requests_apply() {
    let mut s = Snake::new(Point { x: 5, y: 5 }, 1);
    s.try_change_direction(Direction::Up);
    s.move_forward();
    assert_eq!(s.head(), Point { x: 5, y: 4 });
    // the same direction as the current heading is also accepted
    s.try_change_direction(Direction::Up);
    s.move_forward();
    assert_eq!(s.head(), Point { x: 5, y: 3 });
    // and reversing is refused from any heading, not only Right
    s.try_change_direction(Direction::Down);
    s.move_forward();
    assert_eq!(s.head(), Point { x: 5, y: 2 });
}

#[test]
fn append_body_duplicates_the_tail() {
    let mut s = Snake::new(Point { x: 5, y: 5 }, 2);
    s.move_forward();
    s.append_body();
    assert_eq!(
        s.body(),
        &[Point { x: 6, y: 5 }, Point { x: 5, y: 5 }, Point { x: 5, y: 5 }][..]
    );
    assert_eq!(s.tail(), Point { x: 5, y: 5 });
}

#[test]
fn is_opposite_pairs_axes() {
    assert!(Direction::Up.is_opposite(&Direction::Down));
    assert!(Direction::Down.is_opposite(&Direction::Up));
    assert!(Direction::Left.is_opposite(&Direction::Right));
    assert!(Direction::Right.is_opposite(&Direction::Left));
    assert!(!Direction::Up.is_opposite(&Direction::Left));
    assert!(!Direction::Up.is_opposite(&Direction::Up));
}
