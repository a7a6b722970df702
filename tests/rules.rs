use cooking_thief::ai::{perceive, BasicAi, FORGET_TIME};
use cooking_thief::doors::{guards_down, swap_items, use_door, use_doors, DoorOutcome, SoundEvent};
use cooking_thief::entity::{
    Body, Direction, Door, Enemy, EnemyState, Health, Item, ItemCrate, Player, Post, Reload,
    Room, Sight, Speed,
};
use cooking_thief::geom::{Form, Position, Vec2, ROOM_HEIGHT, ROOM_WIDTH};

fn body(x: i64, y: i64, room: u8) -> Body {
    Body {
        position: Position(Vec2::new(x, y)),
        form: Form::Rect { width: 37_500, height: 37_500 },
        sight: Sight(Vec2::new(1000, 0)),
        speed: Speed { x: 0, y: 0 },
        room: Room(room),
        phrase: None,
    }
}

fn player(x: i64, y: i64, room: u8, item: Item) -> Player {
    Player {
        body: body(x, y, room),
        reload: Reload(0),
        health: Health::Full,
        item,
        visible: false,
        heal_time: 5000,
    }
}

fn enemy(health: Health) -> Enemy {
    Enemy {
        body: body(800_000, 500_000, 1),
        reload: Reload(0),
        state: EnemyState::Idle,
        post: Post(Vec2::new(800_000, 500_000)),
        health,
    }
}

#[test]
fn health_steps_down_and_stays_dead() {
    let mut h = Health::Full;
    h.decrease();
    assert_eq!(h, Health::Low);
    h.decrease();
    assert_eq!(h, Health::Dead);
    h.decrease();
    assert_eq!(h, Health::Dead);
    assert_eq!(Health::Full.lowered(), Health::Low);
}

#[test]
fn directions_invert() {
    assert_eq!(Direction::North.inverse(), Direction::South);
    assert_eq!(Direction::South.inverse(), Direction::North);
    assert_eq!(Direction::East.inverse(), Direction::West);
    assert_eq!(Direction::West.inverse(), Direction::East);
}

#[test]
fn door_reciprocity() {
    let door = Door::new(Room(1), Room(2), Direction::North, false, false);
    assert_eq!(door.door_from(&Room(1)), Some((Direction::North, Room(2))));
    assert_eq!(door.door_from(&Room(2)), Some((Direction::South, Room(1))));
    assert_eq!(door.door_from(&Room(3)), None);
    let (_, to_a) = door.door_from(&Room(1)).unwrap();
    let (_, to_b) = door.door_from(&Room(2)).unwrap();
    assert_eq!(door.door_from(&to_a).unwrap().1, Room(1));
    assert_eq!(door.door_from(&to_b).unwrap().1, Room(2));
}

#[test]
fn doors_equal_either_way_round() {
    let a = Door::new(Room(1), Room(2), Direction::North, false, false);
    let b = Door::new(Room(2), Room(1), Direction::South, true, false);
    let c = Door::new(Room(1), Room(3), Direction::North, false, false);
    assert!(a == b);
    assert!(a != c);
}

#[test]
fn item_names_and_equality() {
    let carrot = Item::Vegetable { name: "carrot".to_string(), idx: 2 };
    assert_eq!(Item::Sword.name(), "sword");
    assert_eq!(Item::Key.name(), "key");
    assert_eq!(carrot.name(), "carrot");
    assert!(carrot == carrot.clone());
    assert!(carrot != Item::Vegetable { name: "carrot".to_string(), idx: 3 });
    assert!(Item::Sword != Item::Key);
}

#[test]
fn fight_turns_to_last_seen_after_one_frame() {
    let p = Vec2::new(400_000, 300_000);
    let f = Form::Circle { radius: 100 };
    let (s, phrase) = perceive(EnemyState::Fight(p, f), false, Vec2::new(0, 0), f, 16);
    assert_eq!(s, EnemyState::LastSeen(p, 16));
    let phrase = phrase.unwrap();
    assert_eq!(phrase.text, "Where is he?");
    assert_eq!(phrase.time, 2000);
}

#[test]
fn last_seen_is_forgotten_after_five_seconds() {
    let p = Vec2::new(400_000, 300_000);
    let f = Form::Circle { radius: 100 };
    let (s, phrase) = perceive(EnemyState::LastSeen(p, 4000), false, p, f, 1000);
    assert_eq!(s, EnemyState::LastSeen(p, FORGET_TIME));
    assert!(phrase.is_none());
    let (s, phrase) = perceive(s, false, p, f, 1);
    assert_eq!(s, EnemyState::Idle);
    assert_eq!(phrase.unwrap().text, "Must've been wind");
    let (s, phrase) = perceive(s, false, p, f, 1000);
    assert_eq!(s, EnemyState::Idle);
    assert!(phrase.is_none());
}

#[test]
fn contact_greets_once() {
    let p = Vec2::new(400_000, 300_000);
    let f = Form::Circle { radius: 100 };
    let (s, phrase) = perceive(EnemyState::LastSeen(p, 3000), true, p, f, 16);
    assert_eq!(s, EnemyState::Fight(p, f));
    assert_eq!(phrase.unwrap().text, "Here you are!");
    let (s, phrase) = perceive(s, true, p, f, 16);
    assert_eq!(s, EnemyState::Fight(p, f));
    assert!(phrase.is_none());
    let (_, phrase) = perceive(EnemyState::Idle, true, p, f, 16);
    assert_eq!(phrase.unwrap().time, 1000);
}

#[test]
fn basic_ai_walks_back_to_its_post() {
    let mut ai = BasicAi::new(Vec2::new(300_000, 500_000));
    let me = body(800_000, 500_000, 1);
    let (action, slash, phrase) = ai.action(&me, None, 16);
    assert_eq!(action.move_direction, (-1, 0));
    assert!(!slash);
    assert!(phrase.is_none());
    let target = body(820_000, 500_000, 1);
    let (_, slash, phrase) = ai.action(&me, Some(&target), 16);
    assert!(slash);
    assert_eq!(phrase.unwrap().text, "Here you are!");
}

#[test]
fn exit_refused_while_guards_live() {
    // North door capture zone: around the middle of the top wall.
    let mut p = player(ROOM_WIDTH / 2, 40_000, 1, Item::Sword);
    let mut exit = Door::new(Room(1), Room(255), Direction::North, false, true);
    let enemies = vec![enemy(Health::Dead), enemy(Health::Low)];
    for _ in 0..100 {
        let (outcome, _) = use_door(&mut p, &mut exit, &enemies);
        assert_eq!(outcome, DoorOutcome::Refused);
        assert_eq!(p.body.room, Room(1));
        assert_eq!(p.body.position.0, Vec2::new(ROOM_WIDTH / 2, 40_000));
    }
    assert_eq!(p.body.phrase.as_ref().unwrap().text, "The guards are still on guard");
    assert!(!guards_down(&enemies));
}

#[test]
fn exit_needs_the_sword() {
    let mut p = player(ROOM_WIDTH / 2, 40_000, 1, Item::Key);
    let mut exit = Door::new(Room(1), Room(255), Direction::North, false, true);
    let enemies = vec![enemy(Health::Dead)];
    let (outcome, sound) = use_door(&mut p, &mut exit, &enemies);
    assert_eq!(outcome, DoorOutcome::Refused);
    assert_eq!(sound, Some(SoundEvent::DoorLocked));
    assert_eq!(p.body.phrase.as_ref().unwrap().text, "I can't leave sword here");
    // The locked sound does not repeat while it plays.
    let (_, sound) = use_door(&mut p, &mut exit, &enemies);
    assert_eq!(sound, None);
}

#[test]
fn exit_opens_when_all_dead_with_sword() {
    let mut p = player(ROOM_WIDTH / 2, 40_000, 1, Item::Sword);
    let mut exit = Door::new(Room(1), Room(255), Direction::North, false, true);
    let enemies = vec![enemy(Health::Dead), enemy(Health::Dead)];
    let (outcome, _) = use_door(&mut p, &mut exit, &enemies);
    assert_eq!(outcome, DoorOutcome::Exited);
    assert_eq!(p.body.room, Room(1));
}

#[test]
fn locked_door_needs_the_key() {
    let mut p = player(ROOM_WIDTH - 40_000, 500_000, 1, Item::Sword);
    let mut door = Door::new(Room(1), Room(2), Direction::East, true, false);
    let (outcome, _) = use_door(&mut p, &mut door, &vec![]);
    assert_eq!(outcome, DoorOutcome::Refused);
    assert!(door.closed);
    assert_eq!(p.body.phrase.as_ref().unwrap().text, "It's locked");
    assert_eq!(p.body.room, Room(1));
}

#[test]
fn key_unlocks_and_crosses() {
    let mut p = player(ROOM_WIDTH - 40_000, 500_000, 1, Item::Key);
    let mut door = Door::new(Room(1), Room(2), Direction::East, true, false);
    let (outcome, sound) = use_door(&mut p, &mut door, &vec![]);
    assert_eq!(outcome, DoorOutcome::Crossed);
    assert_eq!(sound, Some(SoundEvent::DoorUnlock));
    assert!(!door.closed);
    assert_eq!(p.body.room, Room(2));
    assert_eq!(p.body.position.0, Vec2::new(100_000, 500_000));
}

#[test]
fn crossing_back_mirrors_the_other_way() {
    // From room 2 the door of room 1's east wall is in the west wall.
    let mut p = player(30_000, 400_000, 2, Item::Sword);
    let mut door = Door::new(Room(1), Room(2), Direction::East, false, false);
    let (outcome, sound) = use_door(&mut p, &mut door, &vec![]);
    assert_eq!(outcome, DoorOutcome::Crossed);
    assert_eq!(sound, None);
    assert_eq!(p.body.room, Room(1));
    assert_eq!(p.body.position.0, Vec2::new(ROOM_WIDTH - 100_000, 400_000));
}

#[test]
fn away_from_the_zone_nothing_happens() {
    let mut p = player(ROOM_WIDTH / 2, ROOM_HEIGHT / 2, 1, Item::Key);
    let mut door = Door::new(Room(1), Room(2), Direction::East, true, false);
    let (outcome, sound) = use_door(&mut p, &mut door, &vec![]);
    assert_eq!(outcome, DoorOutcome::Away);
    assert_eq!(sound, None);
    assert!(door.closed);
}

#[test]
fn swapping_items_at_a_crate() {
    let mut p = player(500_000, 500_000, 1, Item::Sword);
    let carrot = Item::Vegetable { name: "carrot".to_string(), idx: 0 };
    let mut c = ItemCrate::new(carrot.clone(), Position(Vec2::new(560_000, 500_000)), Room(1));
    assert!(!swap_items(&mut c, &mut p, false));
    assert!(swap_items(&mut c, &mut p, true));
    assert!(p.item == carrot);
    assert!(c.item == Item::Sword);
    let mut far = ItemCrate::new(Item::Key, Position(Vec2::new(900_000, 500_000)), Room(1));
    assert!(!swap_items(&mut far, &mut p, true));
    let mut other_room = ItemCrate::new(Item::Key, Position(Vec2::new(560_000, 500_000)), Room(2));
    assert!(!swap_items(&mut other_room, &mut p, true));
}

#[test]
fn the_first_door_that_moves_the_player_ends_the_pass() {
    let mut p = player(ROOM_WIDTH - 40_000, 500_000, 1, Item::Key);
    let mut doors = vec![
        Door::new(Room(1), Room(3), Direction::West, true, false),
        Door::new(Room(1), Room(2), Direction::East, true, false),
        Door::new(Room(2), Room(4), Direction::West, true, false),
    ];
    let mut sounds = vec![];
    let left = use_doors(&mut p, &mut doors, &vec![], 16, &mut sounds);
    assert!(!left);
    assert_eq!(p.body.room, Room(2));
    assert_eq!(p.body.position.0, Vec2::new(100_000, 500_000));
    assert!(doors[0].closed);
    assert!(!doors[1].closed);
    assert!(doors[2].closed);
    assert_eq!(sounds, vec![SoundEvent::DoorUnlock]);
}
