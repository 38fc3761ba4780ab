use bomby::collision::{
    contains_cell, resolve_velocity, stopped_on_x, stopped_on_y, CollisionBounds, Velocity,
};
use bomby::grid::{GridCell, WorldPos};

const BOUNDS: CollisionBounds = CollisionBounds { x: (-8, 8), y: (0, 8) };

fn cell(x: i32, y: i32) -> GridCell {
    GridCell { x, y }
}

#[test]
fn nothing_blocked_keeps_the_velocity() {
    let v = Velocity { x: 5, y: -7 };
    assert_eq!(resolve_velocity(v, WorldPos { x: 80, y: 80 }, BOUNDS, &Vec::new()), v);
}

#[test]
fn standing_still_is_never_stopped() {
    let blocked = vec![cell(2, 2), cell(3, 2), cell(1, 2), cell(2, 3), cell(2, 1)];
    let v = Velocity { x: 0, y: 0 };
    let p = WorldPos { x: 80, y: 80 };
    assert!(!stopped_on_x(v, p, BOUNDS, &blocked));
    assert!(!stopped_on_y(v, p, BOUNDS, &blocked));
    assert_eq!(resolve_velocity(v, p, BOUNDS, &blocked), v);
}

#[test]
fn the_leading_edge_decides() {
    let p = WorldPos { x: 80, y: 80 };
    let blocked = vec![cell(3, 2)];
    // The right edge, at 88, needs 8 more units to enter cell (3, 2).
    assert!(!stopped_on_x(Velocity { x: 7, y: 0 }, p, BOUNDS, &blocked));
    assert!(stopped_on_x(Velocity { x: 8, y: 0 }, p, BOUNDS, &blocked));
    // Moving left, the right edge is the trailing one and is not looked at.
    assert!(!stopped_on_x(Velocity { x: -8, y: 0 }, p, BOUNDS, &blocked));
    let left = vec![cell(1, 2)];
    // The left edge, at 72, enters cell (1, 2) after 9 units.
    assert!(!stopped_on_x(Velocity { x: -8, y: 0 }, p, BOUNDS, &left));
    assert!(stopped_on_x(Velocity { x: -9, y: 0 }, p, BOUNDS, &left));
}

#[test]
fn both_corners_of_the_leading_edge_count() {
    // At y = 90 the low corner lies in row 2 and the high corner, at 98, in row 3.
    let p = WorldPos { x: 80, y: 90 };
    let v = Velocity { x: 8, y: 0 };
    assert!(stopped_on_x(v, p, BOUNDS, &vec![cell(3, 3)]));
    assert!(stopped_on_x(v, p, BOUNDS, &vec![cell(3, 2)]));
    assert!(!stopped_on_x(v, p, BOUNDS, &vec![cell(3, 4)]));
    // Moving up, the corners are the left one, at 72, and the right one, at 88.
    let q = WorldPos { x: 90, y: 80 };
    let up = Velocity { x: 0, y: 8 };
    assert!(stopped_on_y(up, q, BOUNDS, &vec![cell(2, 3)]));
    assert!(stopped_on_y(up, q, BOUNDS, &vec![cell(3, 3)]));
    assert!(!stopped_on_y(up, q, BOUNDS, &vec![cell(4, 3)]));
}

#[test]
fn the_low_edge_leads_when_moving_down() {
    let p = WorldPos { x: 80, y: 64 };
    let blocked = vec![cell(2, 1)];
    assert!(stopped_on_y(Velocity { x: 0, y: -1 }, p, BOUNDS, &blocked));
    assert!(!stopped_on_y(Velocity { x: 0, y: 1 }, p, BOUNDS, &blocked));
}

#[test]
fn the_cell_the_actor_stands_in_never_stops_it() {
    let p = WorldPos { x: 80, y: 80 };
    let blocked = vec![cell(2, 2)];
    assert_eq!(
        resolve_velocity(Velocity { x: 3, y: 3 }, p, BOUNDS, &blocked),
        Velocity { x: 3, y: 3 }
    );
}

#[test]
fn wall_sliding_along_an_l_shaped_obstacle() {
    // Walls to the right of the actor, and one up and to the right: the shape of an L
    // that closes the way to the right and leaves the way up open.
    let blocked = vec![cell(3, 2), cell(3, 3)];
    let p = WorldPos { x: 80, y: 80 };
    let v = Velocity { x: 10, y: 10 };
    assert_eq!(resolve_velocity(v, p, BOUNDS, &blocked), Velocity { x: 0, y: 10 });
    // The other way round: the way up is closed and the way to the right is open.
    let above = vec![cell(2, 3), cell(1, 3)];
    assert_eq!(
        resolve_velocity(Velocity { x: 5, y: 10 }, p, BOUNDS, &above),
        Velocity { x: 5, y: 0 }
    );
}

#[test]
fn axes_are_not_tested_against_each_other() {
    // Only the diagonal neighbour is blocked. Neither axis alone reaches it, so the
    // actor keeps both components.
    let blocked = vec![cell(3, 3)];
    let p = WorldPos { x: 80, y: 80 };
    let v = Velocity { x: 10, y: 10 };
    assert_eq!(resolve_velocity(v, p, BOUNDS, &blocked), v);
}

#[test]
fn both_axes_can_stop_at_once() {
    let blocked = vec![cell(3, 2), cell(2, 3)];
    let p = WorldPos { x: 80, y: 80 };
    assert_eq!(
        resolve_velocity(Velocity { x: 10, y: 10 }, p, BOUNDS, &blocked),
        Velocity { x: 0, y: 0 }
    );
}

#[test]
fn far_positions_do_not_overflow() {
    let p = WorldPos { x: i64::MAX, y: i64::MIN };
    let bounds = CollisionBounds { x: (i64::MIN, i64::MAX), y: (i64::MIN, i64::MAX) };
    let v = Velocity { x: i64::MAX, y: i64::MIN };
    // The actor's own cell, the outermost one, does not stop it.
    let blocked = vec![cell(i32::MAX, i32::MIN)];
    assert_eq!(resolve_velocity(v, p, bounds, &blocked), v);
    // The high corner of the leading edge lies at y = MIN + MAX = -1, in row -1.
    let other = vec![cell(i32::MAX, -1)];
    assert_eq!(resolve_velocity(v, p, bounds, &other), Velocity { x: 0, y: v.y });
    // Moving down, the left corner lies at x = MAX + MIN = -1, in column -1.
    let below = vec![cell(-1, i32::MIN)];
    assert_eq!(resolve_velocity(v, p, bounds, &below), Velocity { x: v.x, y: 0 });
}

#[test]
fn contains_cell_finds_a_cell() {
    let cells = vec![cell(1, 2), cell(3, 4)];
    assert!(contains_cell(&cells, cell(3, 4)));
    assert!(!contains_cell(&cells, cell(4, 3)));
    assert!(!contains_cell(&Vec::new(), cell(0, 0)));
}
