use cooking_thief::geom::{isqrt, normalize_or_zero, Form, Position, Vec2};
use cooking_thief::motion::{clamp_to_walls, move_body, update_speed};
use cooking_thief::entity::{Body, MoveAction, Room, Sight, Speed};
use cooking_thief::geom::{ROOM_HEIGHT, ROOM_WIDTH, WALL_SIZE};

#[test]
fn integer_square_roots() {
    assert_eq!(isqrt(0), 0);
    assert_eq!(isqrt(1), 1);
    assert_eq!(isqrt(15), 3);
    assert_eq!(isqrt(16), 4);
    assert_eq!(isqrt(1_000_000_000_000), 1_000_000);
    assert_eq!(isqrt(0x4000_0000_0000_0000), 0x8000_0000);
}

#[test]
fn lengths_and_distances() {
    assert_eq!(Vec2::new(3, 4).length(), 5);
    assert_eq!(Vec2::new(-3, -4).length(), 5);
    assert_eq!(Vec2::new(10, 10).distance(&Vec2::new(13, 14)), 5);
}

#[test]
fn normalizing_scales_to_unit() {
    assert_eq!(normalize_or_zero(Vec2::new(5, 0)), Vec2::new(1000, 0));
    assert_eq!(normalize_or_zero(Vec2::new(0, -7)), Vec2::new(0, -1000));
    assert_eq!(normalize_or_zero(Vec2::new(3, 4)), Vec2::new(600, 800));
    assert_eq!(normalize_or_zero(Vec2::new(-3, 4)), Vec2::new(-600, 800));
    assert_eq!(normalize_or_zero(Vec2::new(0, 0)), Vec2::new(0, 0));
}

#[test]
fn circle_extent_is_its_radius() {
    let c = Form::Circle { radius: 300 };
    assert_eq!(c.direction_len(Vec2::new(1, 0)), 300);
    assert_eq!(c.direction_len(Vec2::new(-5, 9)), 300);
    assert_eq!(c.x_r(), 300);
    assert_eq!(c.y_r(), 300);
}

#[test]
fn rectangle_extent_depends_on_direction() {
    let r = Form::Rect { width: 10, height: 20 };
    assert_eq!(r.direction_len(Vec2::new(1000, 0)), 10);
    assert_eq!(r.direction_len(Vec2::new(-1000, 0)), 10);
    assert_eq!(r.direction_len(Vec2::new(0, 1000)), 20);
    // Along the diagonal the side at half-width 10 is met first: 10 * sqrt 2.
    assert_eq!(r.direction_len(Vec2::new(1000, 1000)), 14);
    // Steeply, the top is met first: 20 / cos of a shallow angle.
    assert_eq!(r.direction_len(Vec2::new(1000, 4000)), 20 * 4123 / 4000);
    assert_eq!(r.direction_len(Vec2::new(0, 0)), 20);
    // The extent does not depend on the length of the direction vector.
    let square = Form::Rect { width: 1000, height: 1000 };
    assert_eq!(square.direction_len(Vec2::new(1, 1)), 1414);
    assert_eq!(square.direction_len(Vec2::new(1000, 1000)), 1414);
    assert_eq!(square.direction_len(Vec2::new(-7, 7)), 1414);
    assert_eq!(r.x_r(), 10);
    assert_eq!(r.y_r(), 20);
}

#[test]
fn move_to_steps_toward_the_target() {
    let p = Position(Vec2::new(500_000, 500_000));
    assert_eq!(p.move_to(Vec2::new(600_000, 400_000)), (1, -1));
    assert_eq!(p.move_to(Vec2::new(400_000, 500_000)), (-1, 0));
    assert_eq!(p.move_to(Vec2::new(500_000, 900_000)), (0, 1));
}

#[test]
fn move_to_stops_when_arrived() {
    let p = Position(Vec2::new(500_000, 500_000));
    assert_eq!(p.move_to(Vec2::new(520_000, 520_000)), (0, 0));
    assert_eq!(p.move_to(Vec2::new(537_499, 500_000)), (0, 0));
    assert_eq!(p.move_to(Vec2::new(537_500, 500_000)), (1, 0));
}

#[test]
fn speed_counter_accelerates_and_decays() {
    assert_eq!(update_speed(0, 1), 1);
    assert_eq!(update_speed(1, 1), 2);
    assert_eq!(update_speed(9, 1), 10);
    assert_eq!(update_speed(10, 1), 10);
    assert_eq!(update_speed(3, 0), 2);
    assert_eq!(update_speed(-1, 0), 0);
    assert_eq!(update_speed(0, 0), 0);
    assert_eq!(update_speed(-10, -1), -10);
    assert_eq!(update_speed(5, -1), 2);
}

fn body_at(x: i64, y: i64, form: Form) -> Body {
    Body {
        position: Position(Vec2::new(x, y)),
        form,
        sight: Sight(Vec2::new(1000, 0)),
        speed: Speed { x: 0, y: 0 },
        room: Room(1),
        phrase: None,
    }
}

#[test]
fn movement_advances_by_the_speed_counter() {
    let mut b = body_at(500_000, 500_000, Form::Circle { radius: 25_000 });
    let action = MoveAction { move_direction: (1, -1), sight: Vec2::new(0, 5) };
    move_body(&mut b, &action, 10);
    assert_eq!(b.speed, Speed { x: 1, y: -1 });
    // One step of speed covers 65 units per millisecond.
    assert_eq!(b.position.0, Vec2::new(500_650, 499_350));
    assert_eq!(b.sight.0, Vec2::new(0, 1000));
}

#[test]
fn movement_never_passes_the_walls() {
    let form = Form::Rect { width: 37_500, height: 25_000 };
    let mut b = body_at(ROOM_WIDTH - 60_000, 60_000, form);
    let action = MoveAction { move_direction: (1, -1), sight: Vec2::new(1, 0) };
    for _ in 0..200 {
        move_body(&mut b, &action, 50);
        assert!(b.position.0.x <= ROOM_WIDTH - WALL_SIZE - 37_500);
        assert!(b.position.0.x >= WALL_SIZE + 37_500);
        assert!(b.position.0.y >= WALL_SIZE + 25_000);
        assert!(b.position.0.y <= ROOM_HEIGHT - WALL_SIZE - 25_000);
    }
    assert_eq!(b.position.0, Vec2::new(ROOM_WIDTH - WALL_SIZE - 37_500, WALL_SIZE + 25_000));
}

#[test]
fn wall_clamp_uses_the_shape_extent() {
    let form = Form::Circle { radius: 30_000 };
    assert_eq!(clamp_to_walls(Vec2::new(-5, 2_000_000), &form), Vec2::new(50_000, 950_000));
    assert_eq!(clamp_to_walls(Vec2::new(700_000, 400_000), &form), Vec2::new(700_000, 400_000));
}
