use cooking_thief::ai::enemy_action;
use cooking_thief::builder::{DoorConfig, LevelConfig, RoomConfig};
use cooking_thief::collision::{collide, Footprint};
use cooking_thief::combat::{player_action, update_balls, PlayerInput, HEAL_TIME};
use cooking_thief::doors::SoundEvent;
use cooking_thief::entity::{
    Ball, Body, Direction, Enemy, EnemyState, Health, Item, ItemCrate, Player, Post, Reload, Room,
    Sight, Speed, Velocity,
};
use cooking_thief::geom::{Form, Position, Vec2, ROOM_HEIGHT, ROOM_WIDTH};
use cooking_thief::level::{update_level, Level, LoadError};

fn room(id: u8, enter: Option<Direction>, doors: Vec<DoorConfig>, enemies: u8) -> RoomConfig {
    RoomConfig { id, enter, doors, items: None, enemies }
}

fn door(direction: Direction, to: u8) -> DoorConfig {
    DoorConfig { direction, to, closed: false }
}

fn three_rooms() -> Vec<RoomConfig> {
    vec![
        room(1, Some(Direction::North), vec![door(Direction::East, 2)], 1),
        room(2, None, vec![door(Direction::South, 3)], 2),
        room(3, None, vec![], 0),
    ]
}

#[test]
fn three_room_level_builds() {
    let level = Level::load(&LevelConfig { rooms: three_rooms() }).unwrap();
    let inner = &level.level;
    assert_eq!(inner.rooms.len(), 3);
    assert_eq!(inner.rooms[0], 0);
    assert_eq!(inner.player.body.room, Room(1));
    // On the north wall: just inside it, 0.35 to 0.65 of the height along.
    assert_eq!(inner.player.body.position.0.y, 100_000);
    let x = inner.player.body.position.0.x;
    assert!(350_000 <= x && x < 650_000);
    assert_eq!(inner.enemies.len(), 3);
    assert_eq!(inner.enemies.iter().filter(|e| e.body.room == Room(2)).count(), 2);
    assert_eq!(inner.enemies.iter().filter(|e| e.body.room == Room(1)).count(), 1);
    assert_eq!(inner.player.health, Health::Full);
    assert!(inner.player.item == Item::Sword);
    // Two declared doors and the exit.
    assert_eq!(inner.doors.len(), 3);
    let exit = inner.doors[2];
    assert!(exit.entrance);
    assert_eq!(exit.from, Room(1));
    assert_eq!(exit.to, Room(255));
    assert_eq!(exit.direction, Direction::North);
}

#[test]
fn second_entrance_fails_the_build() {
    let mut rooms = three_rooms();
    rooms[1].enter = Some(Direction::West);
    let err = Level::load(&LevelConfig { rooms }).unwrap_err();
    assert_eq!(err, LoadError::ManyEntrances(vec![1, 2]));
}

#[test]
fn missing_entrance_fails_the_build() {
    let mut rooms = three_rooms();
    rooms[0].enter = None;
    let err = Level::load(&LevelConfig { rooms }).unwrap_err();
    assert_eq!(err, LoadError::NoEntrance);
}

#[test]
fn two_doors_through_one_wall_fail_the_build() {
    let mut rooms = three_rooms();
    // Room 3 declares a door north to room 1, and room 2 reaches it from the
    // north too (seen from room 3): two northern exits.
    rooms[2].doors.push(door(Direction::North, 1));
    let err = Level::load(&LevelConfig { rooms }).unwrap_err();
    assert_eq!(err, LoadError::AmbiguousDoors(3));
}

#[test]
fn unreachable_rooms_are_not_built() {
    let mut rooms = three_rooms();
    rooms.push(room(9, None, vec![], 5));
    let level = Level::load(&LevelConfig { rooms }).unwrap();
    assert_eq!(level.level.rooms.len(), 3);
    assert_eq!(level.level.enemies.len(), 3);
}

#[test]
fn doors_declared_by_either_side_connect() {
    // Room 2 declares nothing; room 1's east door still leads there.
    let rooms = vec![
        room(1, Some(Direction::South), vec![door(Direction::East, 2)], 0),
        room(2, None, vec![], 1),
    ];
    let level = Level::load(&LevelConfig { rooms }).unwrap();
    assert_eq!(level.level.rooms.len(), 2);
    assert_eq!(level.level.player.body.position.0.y, ROOM_HEIGHT - 100_000);
}

#[test]
fn enemies_spawn_inside_the_band() {
    let rooms = vec![room(1, Some(Direction::East), vec![], 50)];
    let level = Level::load(&LevelConfig { rooms }).unwrap();
    assert_eq!(level.level.enemies.len(), 50);
    for e in &level.level.enemies {
        let p = e.body.position.0;
        assert!(ROOM_WIDTH / 3 <= p.x && p.x < 2 * (ROOM_WIDTH / 3));
        assert!(ROOM_HEIGHT / 4 <= p.y && p.y < 3 * (ROOM_HEIGHT / 4));
        assert_eq!(e.post.0, p);
        assert_eq!(e.state, EnemyState::Idle);
    }
    assert_eq!(level.level.player.body.position.0.x, ROOM_WIDTH - 100_000);
}

#[test]
fn crates_are_placed_for_items() {
    let mut rooms = vec![room(1, Some(Direction::West), vec![], 0)];
    rooms[0].items = Some(vec![Item::Key, Item::Vegetable { name: "onion".to_string(), idx: 1 }]);
    let level = Level::load(&LevelConfig { rooms }).unwrap();
    assert_eq!(level.level.crates.len(), 2);
    assert!(level.level.crates[0].item == Item::Key);
    assert_eq!(level.level.player.body.position.0.x, 100_000);
}

fn circle(x: i64, y: i64, room: u8) -> Footprint {
    Footprint { position: Vec2::new(x, y), form: Form::Circle { radius: 100 }, room: Room(room) }
}

#[test]
fn overlapping_pair_is_split_evenly() {
    let bodies = vec![circle(500_000, 500_000, 1), circle(500_100, 500_000, 1)];
    let after = collide(&bodies, &vec![]);
    assert_eq!(after[0], Vec2::new(499_950, 500_000));
    assert_eq!(after[1], Vec2::new(500_150, 500_000));
    // Now exactly touching: distance equals the sum of extents.
    assert_eq!(after[0].distance(&after[1]), 200);
}

#[test]
fn different_rooms_do_not_collide() {
    let bodies = vec![circle(500_000, 500_000, 1), circle(500_100, 500_000, 2)];
    let after = collide(&bodies, &vec![]);
    assert_eq!(after[0], Vec2::new(500_000, 500_000));
    assert_eq!(after[1], Vec2::new(500_100, 500_000));
}

#[test]
fn crates_push_bodies_out_whole() {
    let bodies = vec![circle(500_000, 500_000, 1)];
    let c = ItemCrate::new(Item::Key, Position(Vec2::new(500_000, 537_550)), Room(1));
    let after = collide(&bodies, &vec![c]);
    // Overlap 100 + 37_500 - 37_550 = 50, all of it on the body.
    assert_eq!(after[0], Vec2::new(500_000, 499_950));
}

#[test]
fn collisions_respect_walls() {
    let bodies = vec![circle(20_100, 500_000, 1), circle(20_150, 500_000, 1)];
    let after = collide(&bodies, &vec![]);
    assert_eq!(after[0].x, 20_100);
}

fn body(x: i64, y: i64, room: u8, form: Form) -> Body {
    Body {
        position: Position(Vec2::new(x, y)),
        form,
        sight: Sight(Vec2::new(1000, 0)),
        speed: Speed { x: 0, y: 0 },
        room: Room(room),
        phrase: None,
    }
}

fn enemy_at(x: i64, y: i64, health: Health) -> Enemy {
    Enemy {
        body: body(x, y, 1, Form::Rect { width: 25_000, height: 42_500 }),
        reload: Reload(0),
        state: EnemyState::Idle,
        post: Post(Vec2::new(x, y)),
        health,
    }
}

fn ball(x: i64, y: i64, vx: i64) -> Ball {
    Ball {
        position: Position(Vec2::new(x, y)),
        velocity: Velocity(Vec2::new(vx, 0)),
        room: Room(1),
        item: Item::Vegetable { name: "tomato".to_string(), idx: 0 },
    }
}

#[test]
fn projectile_leaving_the_room_is_gone_at_once() {
    let mut balls = vec![ball(ROOM_WIDTH - 31_000, 500_000, 1_750_000), ball(500_000, 500_000, 0)];
    let mut enemies = vec![];
    let mut sounds = vec![];
    update_balls(&mut balls, &mut enemies, 16, &mut sounds);
    assert_eq!(balls.len(), 1);
    assert_eq!(balls[0].position.0, Vec2::new(500_000, 500_000));
    assert_eq!(sounds, vec![SoundEvent::Splat]);
}

#[test]
fn projectile_striking_an_enemy_is_gone_and_hurts() {
    let mut balls = vec![ball(700_000, 500_000, 1_750_000)];
    let mut enemies = vec![enemy_at(730_000, 500_000, Health::Low)];
    let mut sounds = vec![];
    update_balls(&mut balls, &mut enemies, 16, &mut sounds);
    // Moved by 28_000 to 728_000: within 10_000 + 25_000 of the enemy.
    assert!(balls.is_empty());
    assert_eq!(enemies[0].health, Health::Dead);
    assert_eq!(sounds, vec![SoundEvent::Splat]);
}

#[test]
fn projectiles_pass_over_the_dead() {
    let mut balls = vec![ball(700_000, 500_000, 1_750_000)];
    let mut enemies = vec![enemy_at(730_000, 500_000, Health::Dead)];
    let mut sounds = vec![];
    update_balls(&mut balls, &mut enemies, 16, &mut sounds);
    assert_eq!(balls.len(), 1);
    assert_eq!(balls[0].position.0, Vec2::new(728_000, 500_000));
    assert!(sounds.is_empty());
}

fn input(attack: bool, toggle: bool) -> PlayerInput {
    PlayerInput {
        move_direction: (0, 0),
        aim: Vec2::new(900_000, 500_000),
        toggle_stealth: toggle,
        attack,
        interact: false,
        restart: false,
    }
}

fn the_player(item: Item, health: Health, heal_time: i64) -> Player {
    Player {
        body: body(500_000, 500_000, 1, Form::Rect { width: 37_500, height: 37_500 }),
        reload: Reload(0),
        health,
        item,
        visible: true,
        heal_time,
    }
}

#[test]
fn throwing_a_vegetable() {
    let mut p = the_player(Item::Vegetable { name: "leek".to_string(), idx: 3 }, Health::Full, HEAL_TIME);
    let mut balls = vec![];
    let (action, sound) = player_action(&mut p, &mut balls, &input(true, false), 16);
    assert_eq!(sound, Some(SoundEvent::Throw));
    assert_eq!(action.sight, Vec2::new(1000, 0));
    assert_eq!(balls.len(), 1);
    // Thrown from the player's edge: half-width 37_500 along the sight.
    assert_eq!(balls[0].position.0, Vec2::new(537_500, 500_000));
    assert_eq!(balls[0].velocity.0, Vec2::new(1_750_000, 0));
    assert_eq!(p.reload, Reload(500));
}

#[test]
fn attacking_with_the_sword_only_complains() {
    let mut p = the_player(Item::Sword, Health::Full, HEAL_TIME);
    let mut balls = vec![];
    let (_, sound) = player_action(&mut p, &mut balls, &input(true, false), 16);
    assert_eq!(sound, None);
    assert!(balls.is_empty());
    assert_eq!(p.body.phrase.as_ref().unwrap().text, "I can't attack with sword");
}

#[test]
fn sneaking_cannot_throw() {
    let mut p = the_player(Item::Vegetable { name: "leek".to_string(), idx: 3 }, Health::Full, HEAL_TIME);
    let mut balls = vec![];
    let _ = player_action(&mut p, &mut balls, &input(true, true), 16);
    assert!(!p.visible);
    assert!(balls.is_empty());
    assert_eq!(p.body.form, Form::Rect { width: 37_500, height: 37_500 });
}

#[test]
fn low_health_heals_after_heal_time() {
    let mut p = the_player(Item::Sword, Health::Low, HEAL_TIME);
    let mut balls = vec![];
    for _ in 0..4 {
        let _ = player_action(&mut p, &mut balls, &input(false, false), 1000);
        assert_eq!(p.health, Health::Low);
    }
    let _ = player_action(&mut p, &mut balls, &input(false, false), 999);
    assert_eq!(p.health, Health::Low);
    let _ = player_action(&mut p, &mut balls, &input(false, false), 1);
    assert_eq!(p.health, Health::Full);
    assert_eq!(p.heal_time, HEAL_TIME);
}

#[test]
fn the_dead_do_not_heal() {
    let mut p = the_player(Item::Sword, Health::Dead, 10);
    let mut balls = vec![];
    let (action, _) = player_action(&mut p, &mut balls, &input(true, true), 1000);
    assert_eq!(p.health, Health::Dead);
    assert_eq!(action.move_direction, (0, 0));
}

#[test]
fn a_frame_keeps_the_player_in_its_room() {
    let mut level = Level::load(&LevelConfig { rooms: three_rooms() }).unwrap();
    let report = update_level(&mut level, &input(false, false), 16);
    assert!(!report.next);
    assert_eq!(level.level.player.body.room, Room(1));
}

#[test]
fn exit_stays_shut_across_frames_while_guards_live() {
    let mut level = Level::load(&LevelConfig { rooms: three_rooms() }).unwrap();
    level.level.player.body.position = Position(Vec2::new(ROOM_WIDTH / 2, 60_000));
    let still = PlayerInput {
        move_direction: (0, -1),
        aim: Vec2::new(ROOM_WIDTH / 2, 0),
        toggle_stealth: false,
        attack: false,
        interact: false,
        restart: false,
    };
    for _ in 0..120 {
        let report = update_level(&mut level, &still, 16);
        assert!(!report.next);
        assert_eq!(level.level.player.body.room, Room(1));
    }
}

#[test]
fn exit_opens_once_the_guards_are_down() {
    let mut level = Level::load(&LevelConfig { rooms: three_rooms() }).unwrap();
    for e in level.level.enemies.iter_mut() {
        e.health = Health::Dead;
    }
    level.level.player.body.position = Position(Vec2::new(ROOM_WIDTH / 2, 60_000));
    let report = update_level(&mut level, &input(false, false), 16);
    assert!(report.next);
}

#[test]
fn restart_returns_to_the_snapshot() {
    let mut level = Level::load(&LevelConfig { rooms: three_rooms() }).unwrap();
    let start = level.level.player.body.position.0;
    level.level.player.health = Health::Dead;
    level.level.player.body.position = Position(Vec2::new(700_000, 700_000));
    let restart = PlayerInput { restart: true, ..input(false, false) };
    let _ = update_level(&mut level, &restart, 16);
    assert_eq!(level.level.player.health, Health::Full);
    assert_eq!(level.level.player.body.position.0, start);
}

#[test]
fn an_enemy_in_reach_slashes_once_per_reload() {
    let mut e = enemy_at(500_000, 500_000, Health::Low);
    e.state = EnemyState::Idle;
    let mut p = the_player(Item::Sword, Health::Full, HEAL_TIME);
    p.body.position = Position(Vec2::new(560_000, 500_000));
    let (action, hit) = enemy_action(&mut e, &mut p, 16);
    assert!(hit);
    assert_eq!(p.health, Health::Low);
    assert_eq!(e.reload, Reload(500));
    assert_eq!(action.move_direction, (1, 0));
    assert_eq!(e.body.phrase.as_ref().unwrap().text, "Here you are!");
    // Winding up after the slash: the wide stance.
    assert_eq!(e.body.form, Form::Rect { width: 28_750, height: 42_500 });
    let (_, hit) = enemy_action(&mut e, &mut p, 16);
    assert!(!hit);
    assert_eq!(p.health, Health::Low);
}

#[test]
fn a_dead_enemy_lies_still() {
    let mut e = enemy_at(500_000, 500_000, Health::Dead);
    e.state = EnemyState::LastSeen(Vec2::new(1, 1), 10);
    let mut p = the_player(Item::Sword, Health::Full, HEAL_TIME);
    let (action, hit) = enemy_action(&mut e, &mut p, 16);
    assert!(!hit);
    assert_eq!(action.move_direction, (0, 0));
    assert_eq!(e.state, EnemyState::Idle);
    assert_eq!(e.body.form, Form::Rect { width: 42_500, height: 22_500 });
}
