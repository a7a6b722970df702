//! Room transitions through doors, with locks, keys and the gated exit, and
//! item swaps at crates.
use vstd::prelude::*;
use vstd::string::*;

use crate::ai::within_reach;
use crate::entity::{Direction, Door, Enemy, Health, Item, ItemCrate, Phrase, Player, Room};
use crate::geom::{in_room, Position, Vec2, ROOM_HEIGHT, ROOM_WIDTH, WALL_SIZE};
use crate::motion::{clamp, clamp_i64, clamp_to_walls, clamped, inside_walls, MAX_DT};

verus! {

/// Half the width of a door's capture zone along its wall.
pub const DOOR_HALF_SPAN: i64 = 150_000;

/// Depth of a door's capture zone, beyond the wall.
pub const DOOR_DEPTH: i64 = 50_000;

/// How far from a wall a player arrives through a door.
pub const ARRIVAL_MARGIN: i64 = 100_000;

/// How close the player must stand to a crate to swap items.
pub const SWAP_REACH: i64 = 20_000;

/// Milliseconds the locked-door sound keeps from repeating.
pub const DOOR_SOUND_TIME: i64 = 1000;

/// A sound the simulation asks its audio collaborator to play.
#[derive(Clone, Copy, Debug, PartialEq, Eq, Structural)]
pub enum SoundEvent {
    Throw,
    Sword,
    DoorLocked,
    DoorUnlock,
    Splat,
    Item,
}

/// The capture zone of a door in wall `direction` holds `p`.
pub open spec fn in_zone(direction: Direction, p: Vec2) -> bool {
    let mid = ROOM_WIDTH / 2;
    match direction {
        Direction::North => mid - DOOR_HALF_SPAN <= p.x <= mid + DOOR_HALF_SPAN && 0 <= p.y
            <= WALL_SIZE + DOOR_DEPTH,
        Direction::South => mid - DOOR_HALF_SPAN <= p.x <= mid + DOOR_HALF_SPAN && ROOM_HEIGHT
            - WALL_SIZE - DOOR_DEPTH <= p.y <= ROOM_HEIGHT,
        Direction::East => ROOM_WIDTH - WALL_SIZE - DOOR_DEPTH <= p.x <= ROOM_WIDTH && 350_000
            <= p.y <= 650_000,
        Direction::West => 0 <= p.x <= WALL_SIZE + DOOR_DEPTH && 350_000 <= p.y <= 650_000,
    }
}

pub fn in_capture_zone(direction: Direction, p: Vec2) -> (r: bool)
    ensures
        r == in_zone(direction, p),
{
    let mid = ROOM_WIDTH / 2;
    match direction {
        Direction::North => mid - DOOR_HALF_SPAN <= p.x && p.x <= mid + DOOR_HALF_SPAN && 0 <= p.y
            && p.y <= WALL_SIZE + DOOR_DEPTH,
        Direction::South => mid - DOOR_HALF_SPAN <= p.x && p.x <= mid + DOOR_HALF_SPAN
            && ROOM_HEIGHT - WALL_SIZE - DOOR_DEPTH <= p.y && p.y <= ROOM_HEIGHT,
        Direction::East => ROOM_WIDTH - WALL_SIZE - DOOR_DEPTH <= p.x && p.x <= ROOM_WIDTH
            && 350_000 <= p.y && p.y <= 650_000,
        Direction::West => 0 <= p.x && p.x <= WALL_SIZE + DOOR_DEPTH && 350_000 <= p.y && p.y
            <= 650_000,
    }
}

/// Where a player crossing a door in wall `direction` arrives, before the
/// walls' clamp: mirrored across the room, and kept away from the far wall.
pub open spec fn crossed(direction: Direction, p: Vec2) -> Vec2 {
    match direction {
        Direction::North | Direction::South => Vec2 {
            x: p.x,
            y: clamp(ROOM_HEIGHT - p.y, ARRIVAL_MARGIN as int, ROOM_HEIGHT - ARRIVAL_MARGIN) as i64,
        },
        Direction::East | Direction::West => Vec2 {
            x: clamp(ROOM_WIDTH - p.x, ARRIVAL_MARGIN as int, ROOM_WIDTH - ARRIVAL_MARGIN) as i64,
            y: p.y,
        },
    }
}

pub open spec fn all_dead(enemies: Seq<Enemy>) -> bool {
    forall|i: int| 0 <= i < enemies.len() ==> (#[trigger] enemies[i]).health == Health::Dead
}

/// Whether every enemy of the level is dead.
pub fn guards_down(enemies: &Vec<Enemy>) -> (r: bool)
    ensures
        r == all_dead(enemies@),
{
    let mut i: usize = 0;
    while i < enemies.len()
        invariant
            0 <= i <= enemies.len(),
            forall|k: int| 0 <= k < i ==> (#[trigger] enemies@[k]).health == Health::Dead,
        decreases enemies.len() - i,
    {
        if enemies[i].health != Health::Dead {
            return false;
        }
        i += 1;
    }
    true
}

/// The player's attempt at one door this frame.
#[derive(Clone, Copy, Debug, PartialEq, Eq, Structural)]
pub enum DoorOutcome {
    /// Not in this door's capture zone, or the door is not in this room.
    Away,
    /// Turned back: a locked door without the key, or an exit still gated.
    Refused,
    /// Moved into the next room.
    Crossed,
    /// Left the level through the exit.
    Exited,
}

/// What an attempt at `door` gives, by the rules of doors.
pub open spec fn door_outcome(player: Player, door: Door, enemies: Seq<Enemy>) -> DoorOutcome {
    match door.seen_from(player.body.room) {
        None => DoorOutcome::Away,
        Some((direction, _)) => if !in_zone(direction, player.body.position.0) {
            DoorOutcome::Away
        } else if door.entrance {
            if all_dead(enemies) && player.item.is_sword() {
                DoorOutcome::Exited
            } else {
                DoorOutcome::Refused
            }
        } else if door.closed && !player.item.is_key() {
            DoorOutcome::Refused
        } else {
            DoorOutcome::Crossed
        },
    }
}

/// One attempt of the player at one door. Crossing unlocks a closed door for
/// good, mirrors the player into the next room and changes its room; a
/// refusal leaves the player where it stands with a remark; the exit only
/// reports that the level is done.
pub fn use_door(player: &mut Player, door: &mut Door, enemies: &Vec<Enemy>) -> (r: (
    DoorOutcome,
    Option<SoundEvent>,
))
    requires
        old(player).body.position.0.wf(),
        old(player).body.form.wf(),
        in_room(old(player).body.position.0),
        old(door).playing >= 0,
    ensures
        in_room(final(player).body.position.0),
        r.0 == DoorOutcome::Away ==> *final(player) == *old(player) && *final(door) == *old(door)
            && r.1 is None,
        r.0 == DoorOutcome::Exited ==> r.1 is None,
        r.0 == DoorOutcome::Crossed ==> r.1 == (if old(door).closed {
            Some(SoundEvent::DoorUnlock)
        } else {
            None
        }),
        r.0 == DoorOutcome::Refused ==> r.1 == (if old(door).playing == 0 {
            Some(SoundEvent::DoorLocked)
        } else {
            None
        }) && final(door).playing == (if old(door).playing == 0 {
            DOOR_SOUND_TIME
        } else {
            old(door).playing
        }),
        r.0 == DoorOutcome::Refused && old(door).entrance && !all_dead(enemies@)
            ==> (final(player).body.phrase matches Some(p)
            && p.says("The guards are still on guard"@, 2000)),
        r.0 == DoorOutcome::Refused && old(door).entrance && all_dead(enemies@)
            ==> (final(player).body.phrase matches Some(p)
            && p.says("I can't leave sword here"@, 2000)),
        r.0 == DoorOutcome::Refused && !old(door).entrance ==> (final(player).body.phrase matches Some(p)
            && p.says("It's locked"@, 1000)),
        r.0 == DoorOutcome::Crossed || r.0 == DoorOutcome::Exited ==> final(player).body.phrase
            == old(player).body.phrase,
        r.0 == DoorOutcome::Crossed ==> inside_walls(
            final(player).body.position.0,
            final(player).body.form,
        ),
        final(door).playing >= 0,
        r.0 == door_outcome(*old(player), *old(door), enemies@),
        r.0 != DoorOutcome::Crossed ==> final(player).body.room == old(player).body.room
            && final(player).body.position == old(player).body.position,
        r.0 == DoorOutcome::Crossed ==> final(player).body.room == old(door).seen_from(
            old(player).body.room,
        )->Some_0.1 && final(player).body.position.0 == clamped(
            crossed(old(door).seen_from(old(player).body.room)->Some_0.0, old(player).body.position.0),
            old(player).body.form,
        ) && !final(door).closed,
        r.0 != DoorOutcome::Crossed ==> final(door).closed == old(door).closed,
        final(door).from == old(door).from && final(door).to == old(door).to,
        final(door).direction == old(door).direction && final(door).entrance == old(door).entrance,
        final(player).body.form == old(player).body.form,
        final(player).body.speed == old(player).body.speed,
        final(player).body.sight == old(player).body.sight,
        final(player).health == old(player).health,
        final(player).item == old(player).item,
        final(player).visible == old(player).visible,
        final(player).reload == old(player).reload,
        final(player).heal_time == old(player).heal_time,
        final(player).body.position.0.wf(),
{
    let (direction, to) = match door.door_from(&player.body.room) {
        Some(seen) => seen,
        None => return (DoorOutcome::Away, None),
    };
    if !in_capture_zone(direction, player.body.position.0) {
        return (DoorOutcome::Away, None);
    }
    let mut sound = None;
    if door.entrance {
        if !guards_down(enemies) {
            player.body.phrase = Some(Phrase::new("The guards are still on guard", 2000));
        } else if !player.item.is_sword_item() {
            player.body.phrase = Some(Phrase::new("I can't leave sword here", 2000));
        } else {
            return (DoorOutcome::Exited, None);
        }
        if door.playing == 0 {
            door.playing = DOOR_SOUND_TIME;
            sound = Some(SoundEvent::DoorLocked);
        }
        return (DoorOutcome::Refused, sound);
    }
    if door.closed && !player.item.is_key_item() {
        if door.playing == 0 {
            door.playing = DOOR_SOUND_TIME;
            sound = Some(SoundEvent::DoorLocked);
        }
        player.body.phrase = Some(Phrase::new("It's locked", 1000));
        return (DoorOutcome::Refused, sound);
    }
    if door.closed {
        sound = Some(SoundEvent::DoorUnlock);
    }
    door.closed = false;
    let p = player.body.position.0;
    let next = match direction {
        Direction::North | Direction::South => Vec2 {
            x: p.x,
            y: clamp_i64(ROOM_HEIGHT - p.y, ARRIVAL_MARGIN, ROOM_HEIGHT - ARRIVAL_MARGIN),
        },
        Direction::East | Direction::West => Vec2 {
            x: clamp_i64(ROOM_WIDTH - p.x, ARRIVAL_MARGIN, ROOM_WIDTH - ARRIVAL_MARGIN),
            y: p.y,
        },
    };
    player.body.position = Position(clamp_to_walls(next, &player.body.form));
    player.body.room = to;
    (DoorOutcome::Crossed, sound)
}

/// Exit gating: while any enemy lives, an attempt at the exit door leaves the
/// player's room and position as they were, however many frames it lasts.
pub proof fn lemma_exit_gated(player: Player, door: Door, enemies: Seq<Enemy>)
    requires
        door.entrance,
        exists|i: int| 0 <= i < enemies.len() && (#[trigger] enemies[i]).health != Health::Dead,
    ensures
        door_outcome(player, door, enemies) != DoorOutcome::Crossed,
        door_outcome(player, door, enemies) != DoorOutcome::Exited,
{
}

/// Counts a timer down by `dt`, stopping at zero.
pub open spec fn count_down(t: int, dt: int) -> int {
    if t - dt < 0 {
        0
    } else {
        t - dt
    }
}

pub fn tick(t: i64, dt: i64) -> (r: i64)
    requires
        0 <= t,
        0 <= dt <= MAX_DT,
    ensures
        r == count_down(t as int, dt as int),
        0 <= r <= t,
{
    if t - dt < 0 {
        0
    } else {
        t - dt
    }
}

/// The attempt moves the player: into the next room, or out of the level.
pub open spec fn moves(o: DoorOutcome) -> bool {
    o == DoorOutcome::Crossed || o == DoorOutcome::Exited
}

/// The first door from index `i` on whose attempt moves the player, or the
/// number of doors when none does.
pub open spec fn first_moving(player: Player, doors: Seq<Door>, enemies: Seq<Enemy>, i: int) -> int
    decreases doors.len() - i,
{
    if i < 0 || i >= doors.len() {
        doors.len() as int
    } else if moves(door_outcome(player, doors[i], enemies)) {
        i
    } else {
        first_moving(player, doors, enemies, i + 1)
    }
}

/// The player's attempts at the doors of the level this frame, in order: the
/// first that crosses or exits ends the pass. Every door's sound timer counts
/// down first. Returns whether the level was left, and the sounds made.
pub fn use_doors(
    player: &mut Player,
    doors: &mut Vec<Door>,
    enemies: &Vec<Enemy>,
    dt: i64,
    sounds: &mut Vec<SoundEvent>,
) -> (r: bool)
    requires
        old(player).body.position.0.wf(),
        old(player).body.form.wf(),
        in_room(old(player).body.position.0),
        0 <= dt <= MAX_DT,
        forall|i: int| 0 <= i < old(doors).len() ==> 0 <= (#[trigger] old(doors)@[i]).playing,
    ensures
        final(doors).len() == old(doors).len(),
        forall|i: int| 0 <= i < final(doors).len() ==> 0 <= (#[trigger] final(doors)@[i]).playing,
        final(player).body.form == old(player).body.form,
        final(player).body.speed == old(player).body.speed,
        final(player).body.sight == old(player).body.sight,
        final(player).health == old(player).health,
        final(player).item == old(player).item,
        final(player).visible == old(player).visible,
        final(player).reload == old(player).reload,
        final(player).heal_time == old(player).heal_time,
        final(player).body.position.0.wf(),
        in_room(final(player).body.position.0),
        r ==> all_dead(enemies@) && old(player).item.is_sword(),
        final(sounds).len() >= old(sounds).len(),
        final(sounds)@.subrange(0, old(sounds).len() as int) == old(sounds)@,
        forall|k: int|
            old(sounds).len() <= k < final(sounds).len() ==> #[trigger] final(sounds)@[k]
                == SoundEvent::DoorLocked || final(sounds)@[k] == SoundEvent::DoorUnlock,
        ({
            let j = first_moving(*old(player), old(doors)@, enemies@, 0);
            let crossing = j < old(doors).len() && door_outcome(
                *old(player),
                old(doors)@[j],
                enemies@,
            ) == DoorOutcome::Crossed;
            &&& r == (j < old(doors).len() && door_outcome(*old(player), old(doors)@[j], enemies@)
                == DoorOutcome::Exited)
            &&& crossing ==> final(player).body.room == old(doors)@[j].seen_from(
                old(player).body.room,
            )->Some_0.1 && final(player).body.position.0 == clamped(
                crossed(
                    old(doors)@[j].seen_from(old(player).body.room)->Some_0.0,
                    old(player).body.position.0,
                ),
                old(player).body.form,
            ) && !final(doors)@[j].closed && inside_walls(
                final(player).body.position.0,
                final(player).body.form,
            )
            &&& !crossing ==> final(player).body.room == old(player).body.room
                && final(player).body.position == old(player).body.position
            &&& forall|k: int|
                0 <= k < old(doors).len() && !(crossing && k == j) ==> (#[trigger] final(doors)@[k]).closed
                    == old(doors)@[k].closed
        }),
        forall|k: int|
            0 <= k < old(doors).len() ==> (#[trigger] final(doors)@[k]).from == old(doors)@[k].from
                && final(doors)@[k].to == old(doors)@[k].to && final(doors)@[k].direction
                == old(doors)@[k].direction && final(doors)@[k].entrance == old(doors)@[k].entrance,
{
    let n = doors.len();
    let mut i: usize = 0;
    while i < n
        invariant
            n == doors.len(),
            doors.len() == old(doors).len(),
            0 <= i <= n,
            0 <= dt <= MAX_DT,
            forall|k: int| 0 <= k < doors.len() ==> 0 <= (#[trigger] doors@[k]).playing,
            forall|k: int| 0 <= k < doors.len() ==> (#[trigger] doors@[k]).from == old(doors)@[k].from && doors@[k].to == old(doors)@[k].to && doors@[k].direction == old(doors)@[k].direction && doors@[k].entrance == old(doors)@[k].entrance && doors@[k].closed == old(doors)@[k].closed,
        decreases n - i,
    {
        let mut d = doors[i];
        d.playing = tick(d.playing, dt);
        doors.set(i, d);
        i += 1;
    }
    let mut i: usize = 0;
    while i < n
        invariant
            n == doors.len(),
            doors.len() == old(doors).len(),
            0 <= i <= n,
            forall|k: int| 0 <= k < doors.len() ==> 0 <= (#[trigger] doors@[k]).playing,
            player.body.room == old(player).body.room,
            player.body.position == old(player).body.position,
            player.body.form == old(player).body.form,
            player.body.speed == old(player).body.speed,
            player.body.sight == old(player).body.sight,
            player.health == old(player).health,
            player.item == old(player).item,
            player.visible == old(player).visible,
            player.reload == old(player).reload,
            player.heal_time == old(player).heal_time,
            player.body.position.0.wf(),
            player.body.form.wf(),
            in_room(player.body.position.0),
            player.body.phrase == old(player).body.phrase || i > 0,
            forall|k: int| 0 <= k < doors.len() ==> (#[trigger] doors@[k]).from == old(doors)@[k].from && doors@[k].to == old(doors)@[k].to && doors@[k].entrance == old(doors)@[k].entrance && doors@[k].direction == old(doors)@[k].direction && doors@[k].closed == old(doors)@[k].closed,
            first_moving(*old(player), old(doors)@, enemies@, 0) == first_moving(*old(player), old(doors)@, enemies@, i as int),
            sounds.len() >= old(sounds).len(),
            sounds@.subrange(0, old(sounds).len() as int) == old(sounds)@,
            forall|k: int|
                old(sounds).len() <= k < sounds.len() ==> #[trigger] sounds@[k]
                    == SoundEvent::DoorLocked || sounds@[k] == SoundEvent::DoorUnlock,
        decreases n - i,
    {
        let mut d = doors[i];
        assert(door_outcome(*player, d, enemies@) == door_outcome(*old(player), old(doors)@[i as int], enemies@));
        let (outcome, sound) = use_door(player, &mut d, enemies);
        doors.set(i, d);
        match sound {
            Some(s) => sounds.push(s),
            None => {},
        }
        match outcome {
            DoorOutcome::Exited => return true,
            DoorOutcome::Crossed => return false,
            _ => {},
        }
        i += 1;
    }
    false
}

/// The player, asking to, may swap items with the crate: same room, and
/// within `SWAP_REACH` of touching it.
pub open spec fn swap_allowed(c: ItemCrate, player: Player, interact: bool) -> bool {
    let dx = c.position.0.x - player.body.position.0.x;
    let dy = c.position.0.y - player.body.position.0.y;
    &&& c.room == player.body.room
    &&& interact
    &&& crate::geom::length(dx, dy) <= player.body.form.extent(dx, dy) + c.form.extent(dx, dy)
        + SWAP_REACH
}

/// Swaps the player's item with the crate's when asked to and close enough.
pub fn swap_items(item_crate: &mut ItemCrate, player: &mut Player, interact: bool) -> (r: bool)
    requires
        old(item_crate).position.0.wf(),
        old(item_crate).form.wf(),
        old(player).body.position.0.wf(),
        old(player).body.form.wf(),
    ensures
        r == swap_allowed(*old(item_crate), *old(player), interact),
        r ==> final(player).item == old(item_crate).item && final(item_crate).item == old(player).item,
        !r ==> final(player).item == old(player).item && final(item_crate).item == old(item_crate).item,
        final(player).body == old(player).body,
        final(player).health == old(player).health,
        final(player).visible == old(player).visible,
        final(player).reload == old(player).reload,
        final(player).heal_time == old(player).heal_time,
        final(item_crate).position == old(item_crate).position,
        final(item_crate).form == old(item_crate).form,
        final(item_crate).room == old(item_crate).room,
{
    if item_crate.room != player.body.room || !interact {
        return false;
    }
    let p = player.body.position.0;
    let c = item_crate.position.0;
    let diff = Vec2 { x: c.x - p.x, y: c.y - p.y };
    if diff.length() <= player.body.form.direction_len(diff) + item_crate.form.direction_len(diff)
        + SWAP_REACH {
        std::mem::swap(&mut player.item, &mut item_crate.item);
        true
    } else {
        false
    }
}

} // verus!
