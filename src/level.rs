//! A level: loading it from its configuration, and the ordered per-frame
//! pipeline of systems over it.
use vstd::prelude::*;

use crate::ai::{enemy_action, enemy_wf};
use crate::builder::{
    ambiguous, built_wf, fresh_enemy, lemma_built_count, linked, links_of, push_room, room_links,
    BuiltRoom, LevelConfig, RoomConfig,
};
use crate::collision::{collide, crate_wf, Footprint, MAX_BODIES};
use crate::combat::{
    ball_wf, enemies_wf, input_wf, out_of_room, player_action, player_wf, update_balls,
    PlayerInput, HEAL_TIME, MAX_BALLS, PLAYER_TALL, PLAYER_WIDE,
};
use crate::doors::{swap_items, tick, use_doors, SoundEvent, ARRIVAL_MARGIN};
use crate::entity::{
    Ball, Body, Direction, Door, Enemy, Health, Item, ItemCrate, MoveAction, Phrase, Player,
    Reload, Room, Sight, Speed, OUTSIDE,
};
use crate::geom::{in_room, Form, Position, Vec2, ROOM_HEIGHT, ROOM_WIDTH};
use crate::motion::{inside_walls, move_body, MAX_DT};

verus! {

/// Why a level's configuration cannot be loaded.
#[derive(Clone, Debug, PartialEq, Eq)]
pub enum LoadError {
    /// No room is marked as the entrance.
    NoEntrance,
    /// Several rooms are marked as the entrance: their ids.
    ManyEntrances(Vec<u8>),
    /// This room has two connections through the same wall.
    AmbiguousDoors(u8),
}

/// The state of a level during play.
#[derive(Debug)]
pub struct LevelInner {
    pub player: Player,
    pub enemies: Vec<Enemy>,
    pub balls: Vec<Ball>,
    pub doors: Vec<Door>,
    pub crates: Vec<ItemCrate>,
    /// Indices in the configuration of the rooms built, entrance first.
    pub rooms: Vec<usize>,
}

/// A level in play, and the snapshot it returns to when the player dies and
/// restarts.
#[derive(Debug)]
pub struct Level {
    pub level: LevelInner,
    pub backup: LevelInner,
}

/// Ids of the rooms `0..n` marked as the entrance, in order.
pub open spec fn entrances_upto(rooms: Seq<RoomConfig>, n: int) -> Seq<u8>
    decreases n,
{
    if n <= 0 {
        Seq::empty()
    } else {
        let before = entrances_upto(rooms, n - 1);
        if rooms[n - 1].enter is Some {
            before.push(rooms[n - 1].id)
        } else {
            before
        }
    }
}

pub open spec fn entrances(rooms: Seq<RoomConfig>) -> Seq<u8> {
    entrances_upto(rooms, rooms.len() as int)
}

/// Lowest coordinate along the entrance wall at which the player may appear.
pub const SPAWN_LOW: i64 = 350_000;

/// Length of the stretch along the entrance wall where the player may appear.
pub const SPAWN_SPAN: i64 = 300_000;

/// Where the player may appear when entering through wall `d`: just inside
/// it, at a random point between 0.35 and 0.65 of the room's height along it.
pub open spec fn spawn_on_wall(d: Direction, p: Vec2) -> bool {
    match d {
        Direction::North => SPAWN_LOW <= p.x < SPAWN_LOW + SPAWN_SPAN && p.y == ARRIVAL_MARGIN,
        Direction::South => SPAWN_LOW <= p.x < SPAWN_LOW + SPAWN_SPAN && p.y == ROOM_HEIGHT
            - ARRIVAL_MARGIN,
        Direction::West => p.x == ARRIVAL_MARGIN && SPAWN_LOW <= p.y < SPAWN_LOW + SPAWN_SPAN,
        Direction::East => p.x == ROOM_WIDTH - ARRIVAL_MARGIN && SPAWN_LOW <= p.y < SPAWN_LOW
            + SPAWN_SPAN,
    }
}

/// A room with this id is among the built ones.
pub open spec fn id_built(rooms: Seq<RoomConfig>, built: Seq<usize>, id: u8) -> bool {
    exists|p: int| 0 <= p < built.len() && rooms[(#[trigger] built[p]) as int].id == id
}

/// The rooms built, by index: the entrance `e` first, each other one reached
/// through a connection of an earlier one, every connection of each leading
/// to a built room (by id), none ambiguous, and no id twice.
pub open spec fn connected_closure(rooms: Seq<RoomConfig>, built: Seq<usize>, e: int) -> bool {
    &&& built.len() >= 1
    &&& built[0] == e
    &&& forall|q: int| 0 <= q < built.len() ==> (#[trigger] built[q]) < rooms.len()
    &&& forall|p: int, q: int|
        0 <= p < q < built.len() ==> rooms[(#[trigger] built[p]) as int].id != rooms[(#[trigger] built[q]) as int].id
    &&& forall|q: int| 0 <= q < built.len() ==> !ambiguous(links_of(rooms, #[trigger] built[q] as int))
    &&& forall|q: int, k: int|
        0 <= q < built.len() && 0 <= k < links_of(rooms, built[q] as int).len() ==> id_built(
            rooms,
            built,
            rooms[(#[trigger] links_of(rooms, built[q] as int)[k]).room as int].id,
        )
    &&& forall|q: int| 0 < q < built.len() ==> #[trigger] reached_from_earlier(rooms, built, q)
}

/// Built room `q` is connected from an earlier built room.
pub open spec fn reached_from_earlier(rooms: Seq<RoomConfig>, built: Seq<usize>, q: int) -> bool {
    exists|p: int| 0 <= p < q && linked(rooms, #[trigger] built[p] as int, built[q] as int)
}

pub open spec fn bodies_fit(n: int) -> bool {
    n + 1 <= MAX_BODIES
}

/// The invariant of a level in play.
pub open spec fn inner_wf(l: LevelInner) -> bool {
    &&& player_wf(l.player)
    &&& enemies_wf(l.enemies@)
    &&& bodies_fit(l.enemies.len() as int)
    &&& l.crates.len() <= MAX_BODIES
    &&& forall|i: int| 0 <= i < l.crates.len() ==> crate_wf(#[trigger] l.crates@[i])
    &&& in_room(l.player.body.position.0)
    &&& l.balls.len() <= MAX_BALLS
    &&& forall|i: int| 0 <= i < l.balls.len() ==> ball_wf(#[trigger] l.balls@[i])
    &&& forall|i: int| 0 <= i < l.balls.len() ==> !out_of_room(#[trigger] l.balls@[i].position.0)
    &&& forall|i: int| 0 <= i < l.doors.len() ==> 0 <= (#[trigger] l.doors@[i]).playing
    &&& all_inside_walls(l)
}

/// Every body of the level clears the walls of its room.
pub open spec fn all_inside_walls(l: LevelInner) -> bool {
    &&& inside_walls(l.player.body.position.0, l.player.body.form)
    &&& forall|i: int|
        0 <= i < l.enemies.len() ==> inside_walls(
            (#[trigger] l.enemies@[i]).body.position.0,
            l.enemies@[i].body.form,
        )
}

impl Level {
    pub open spec fn wf(self) -> bool {
        inner_wf(self.level) && inner_wf(self.backup)
    }
}

fn count_entrances(rooms: &Vec<RoomConfig>) -> (r: (Vec<u8>, usize))
    ensures
        r.0@ == entrances(rooms@),
        r.0.len() >= 1 ==> r.1 < rooms.len() && rooms@[r.1 as int].enter is Some && rooms@[r.1 as int].id == r.0@[0],
{
    let mut ids: Vec<u8> = Vec::new();
    let mut first: usize = 0;
    let mut i: usize = 0;
    while i < rooms.len()
        invariant
            0 <= i <= rooms.len(),
            ids@ == entrances_upto(rooms@, i as int),
            ids.len() >= 1 ==> first < rooms.len() && rooms@[first as int].enter is Some && rooms@[first as int].id == ids@[0],
        decreases rooms.len() - i,
    {
        if rooms[i].enter.is_some() {
            if ids.len() == 0 {
                first = i;
            }
            ids.push(rooms[i].id);
        }
        i += 1;
    }
    (ids, first)
}

/// Two level states hold the same entities.
pub open spec fn same_state(a: LevelInner, b: LevelInner) -> bool {
    &&& a.player == b.player
    &&& a.enemies@ == b.enemies@
    &&& a.balls@ == b.balls@
    &&& a.doors@ == b.doors@
    &&& a.crates@ == b.crates@
    &&& a.rooms@ == b.rooms@
}

impl Clone for LevelInner {
    fn clone(&self) -> (r: LevelInner)
        ensures
            same_state(r, *self),
    {
        let r = LevelInner {
            player: self.player.clone(),
            enemies: self.enemies.clone(),
            balls: self.balls.clone(),
            doors: self.doors.clone(),
            crates: self.crates.clone(),
            rooms: self.rooms.clone(),
        };
        assert(r.enemies@ =~= self.enemies@);
        assert(r.balls@ =~= self.balls@);
        assert(r.doors@ =~= self.doors@);
        assert(r.crates@ =~= self.crates@);
        assert(r.rooms@ =~= self.rooms@);
        r
    }
}

/// The entrance door: from the entrance room, through its entrance wall, to
/// the outside.
pub open spec fn exit_door(d: Door, room: u8, direction: Direction) -> bool {
    &&& d.from == Room(room)
    &&& d.to == Room(OUTSIDE)
    &&& d.direction == direction
    &&& d.entrance
    &&& !d.closed
}

/// Where the player appears when entering through wall `d`.
fn spawn_point_on(d: Direction) -> (r: Vec2)
    ensures
        spawn_on_wall(d, r),
        r.wf(),
{
    let along = SPAWN_LOW + crate::builder::gen_below(SPAWN_SPAN);
    match d {
        Direction::North => Vec2 { x: along, y: ARRIVAL_MARGIN },
        Direction::South => Vec2 { x: along, y: ROOM_HEIGHT - ARRIVAL_MARGIN },
        Direction::West => Vec2 { x: ARRIVAL_MARGIN, y: along },
        Direction::East => Vec2 { x: ROOM_WIDTH - ARRIVAL_MARGIN, y: along },
    }
}

/// The door a room's configuration declares, from that room.
pub open spec fn door_of(id: u8, d: crate::builder::DoorConfig) -> Door {
    Door {
        direction: d.direction,
        from: Room(id),
        to: Room(d.to),
        closed: d.closed,
        entrance: false,
        playing: 0,
    }
}

/// The doors rooms `0..n` declare, in order.
pub open spec fn declared(rooms: Seq<RoomConfig>, n: int) -> Seq<Door>
    decreases n,
{
    if n <= 0 {
        Seq::empty()
    } else {
        declared(rooms, n - 1) + rooms[n - 1].doors@.map_values(
            |d: crate::builder::DoorConfig| door_of(rooms[n - 1].id, d),
        )
    }
}

/// Enemies that rooms `k..` of `built` ask for, together.
pub open spec fn enemies_from(rooms: Seq<RoomConfig>, built: Seq<usize>, k: int) -> int
    decreases built.len() - k,
{
    if k < 0 || k >= built.len() {
        0
    } else {
        rooms[built[k] as int].enemies + enemies_from(rooms, built, k + 1)
    }
}

/// Items that rooms `k..` of `built` offer, together.
pub open spec fn items_from(rooms: Seq<RoomConfig>, built: Seq<usize>, k: int) -> int
    decreases built.len() - k,
{
    if k < 0 || k >= built.len() {
        0
    } else {
        crate::builder::items_of(rooms[built[k] as int]).len() + items_from(rooms, built, k + 1)
    }
}

/// The doors every room declares, in order, from the declaring room.
fn declared_doors(rooms: &Vec<RoomConfig>) -> (r: Vec<Door>)
    ensures
        r@ == declared(rooms@, rooms.len() as int),
        forall|i: int| 0 <= i < r.len() ==> (#[trigger] r@[i]).playing == 0 && !r@[i].entrance,
{
    let mut doors: Vec<Door> = Vec::new();
    let mut i: usize = 0;
    while i < rooms.len()
        invariant
            0 <= i <= rooms.len(),
            doors@ == declared(rooms@, i as int),
            forall|k: int| 0 <= k < doors.len() ==> (#[trigger] doors@[k]).playing == 0 && !doors@[k].entrance,
        decreases rooms.len() - i,
    {
        let room = &rooms[i];
        let mut j: usize = 0;
        while j < room.doors.len()
            invariant
                0 <= j <= room.doors.len(),
                i < rooms.len(),
                *room == rooms@[i as int],
                doors@ == declared(rooms@, i as int) + room.doors@.take(j as int).map_values(
                    |d: crate::builder::DoorConfig| door_of(room.id, d),
                ),
                forall|k: int| 0 <= k < doors.len() ==> (#[trigger] doors@[k]).playing == 0 && !doors@[k].entrance,
            decreases room.doors.len() - j,
        {
            let d = room.doors[j];
            doors.push(Door::new(Room(room.id), Room(d.to), d.direction, d.closed, false));
            proof {
                assert(room.doors@.take(j + 1).map_values(
                    |d: crate::builder::DoorConfig| door_of(room.id, d),
                ) =~= room.doors@.take(j as int).map_values(
                    |d: crate::builder::DoorConfig| door_of(room.id, d),
                ).push(door_of(room.id, d)));
            }
            j += 1;
        }
        proof {
            assert(room.doors@.take(room.doors.len() as int) =~= room.doors@);
        }
        i += 1;
    }
    doors
}

impl Level {
    /// Builds a level from its configuration: exactly one room must be the
    /// entrance; from it every reachable room is built, depth first, with its
    /// enemies and crates; the player starts just inside the entrance wall,
    /// holding the sword; and an exit door is added to the entrance room.
    pub fn load(config: &LevelConfig) -> (res: Result<Level, LoadError>)
        requires
            crate::builder::items_fit(config.rooms@),
        ensures
            (res matches Err(LoadError::NoEntrance)) <==> entrances(config.rooms@).len() == 0,
            (res matches Err(LoadError::ManyEntrances(_))) <==> entrances(config.rooms@).len()
                >= 2,
            res matches Err(LoadError::ManyEntrances(ids)) ==> ids@ == entrances(config.rooms@),
            res matches Err(LoadError::AmbiguousDoors(id)) ==> exists|c: int|
                0 <= c < config.rooms.len() && (#[trigger] config.rooms@[c]).id == id && ambiguous(
                    links_of(config.rooms@, c),
                ),
            res matches Ok(level) ==> {
                let rooms = config.rooms@;
                let e = level.level.rooms@[0] as int;
                let d = rooms[e].enter->Some_0;
                &&& level.wf()
                &&& entrances(rooms).len() == 1
                &&& 0 <= e < rooms.len()
                &&& rooms[e].enter is Some
                &&& rooms[e].id == entrances(rooms)[0]
                &&& connected_closure(rooms, level.level.rooms@, e)
                &&& level.level.player.body.room == Room(rooms[e].id)
                &&& spawn_on_wall(d, level.level.player.body.position.0)
                &&& level.level.player.health == Health::Full
                &&& level.level.player.item == Item::Sword
                &&& !level.level.player.visible
                &&& level.level.balls.len() == 0
                &&& level.level.doors.len() >= 1
                &&& exit_door(level.level.doors@.last(), rooms[e].id, d)
                &&& level.level.doors@ == declared(rooms, rooms.len() as int).push(
                    level.level.doors@.last(),
                )
                &&& level.level.enemies.len() == enemies_from(rooms, level.level.rooms@, 0)
                &&& level.level.crates.len() == items_from(rooms, level.level.rooms@, 0)
                &&& forall|i: int|
                    0 <= i < level.level.enemies.len() ==> id_built(
                        rooms,
                        level.level.rooms@,
                        (#[trigger] level.level.enemies@[i]).body.room.0,
                    )
            },
    {
        let rooms = &config.rooms;
        let (ids, e) = count_entrances(rooms);
        if ids.len() == 0 {
            return Err(LoadError::NoEntrance);
        }
        if ids.len() > 1 {
            return Err(LoadError::ManyEntrances(ids));
        }
        let enter = match rooms[e].enter {
            Some(d) => d,
            None => return Err(LoadError::NoEntrance),
        };
        let links = room_links(rooms);
        let mut built: Vec<BuiltRoom> = Vec::new();
        let pushed = push_room(&mut built, rooms, &links, e);
        match pushed {
            Err(id) => return Err(LoadError::AmbiguousDoors(id)),
            Ok(_) => {},
        }
        assert(forall|q: int| 0 <= q < built.len() ==> crate::builder::closed_at(built@, rooms@, q));
        assert(forall|q: int| 0 < q < built.len() ==> crate::builder::reached_at(built@, rooms@, q));
        assert(built@[0].config == e);
        proof {
            lemma_built_count(built@, rooms@);
        }
        let ghost all = built@;
        let mut indices: Vec<usize> = Vec::new();
        let mut q: usize = 0;
        while q < built.len()
            invariant
                0 <= q <= built.len(),
                indices.len() == q,
                forall|k: int| 0 <= k < q ==> #[trigger] indices@[k] == built@[k].config,
            decreases built.len() - q,
        {
            indices.push(built[q].config);
            q += 1;
        }
        proof {
            assert(connected_closure(rooms@, indices@, e as int)) by {
                assert(indices@[0] == built@[0].config);
                assert forall|q: int| 0 <= q < indices.len() implies (#[trigger] indices@[q]) < rooms.len() && !ambiguous(links_of(rooms@, indices@[q] as int)) by {
                    assert(indices@[q] == built@[q].config);
                    assert(crate::builder::closed_at(built@, rooms@, q));
                }
                assert forall|q: int, k: int|
                    0 <= q < indices.len() && 0 <= k < links_of(rooms@, indices@[q] as int).len() implies id_built(
                    rooms@,
                    indices@,
                    rooms@[(#[trigger] links_of(rooms@, indices@[q] as int)[k]).room as int].id,
                ) by {
                    assert(crate::builder::closed_at(built@, rooms@, q));
                    let w = choose|w: int| 0 <= w < built.len() && (#[trigger] built@[w]).id == rooms@[links_of(rooms@, indices@[q] as int)[k].room as int].id;
                    assert(indices@[w] == built@[w].config);
                }
                assert forall|q: int| 0 < q < indices.len() implies #[trigger] reached_from_earlier(rooms@, indices@, q) by {
                    assert(crate::builder::reached_at(built@, rooms@, q));
                    let p = choose|p: int| 0 <= p < q && linked(rooms@, #[trigger] built@[p].config as int, built@[q].config as int);
                    assert(indices@[p] == built@[p].config);
                }
                assert forall|p: int, q: int| 0 <= p < q < indices.len() implies rooms@[(#[trigger] indices@[p]) as int].id != rooms@[(#[trigger] indices@[q]) as int].id by {
                    assert(built@[p].id != built@[q].id);
                }
            }
        }
        let mut enemies: Vec<Enemy> = Vec::new();
        let mut crates: Vec<ItemCrate> = Vec::new();
        while built.len() > 0
            invariant
                built_wf(built@, rooms@),
                built.len() <= 256,
                forall|k: int| 0 <= k < built.len() ==> #[trigger] built@[k] == all[k],
                built.len() <= all.len(),
                all.len() == indices.len(),
                forall|k: int| 0 <= k < all.len() ==> #[trigger] indices@[k] == all[k].config,
                built_wf(all, rooms@),
                enemies.len() <= 255 * (all.len() - built.len()),
                enemies.len() == enemies_from(rooms@, indices@, built.len() as int),
                crates.len() == items_from(rooms@, indices@, built.len() as int),
                forall|i: int| 0 <= i < enemies.len() ==> enemy_wf(#[trigger] enemies@[i]) && id_built(rooms@, indices@, enemies@[i].body.room.0) && inside_walls(enemies@[i].body.position.0, enemies@[i].body.form),
                crates.len() <= 255 * (all.len() - built.len()),
                forall|i: int| 0 <= i < crates.len() ==> crate_wf(#[trigger] crates@[i]),
            decreases built.len(),
        {
            let last = built.pop();
            match last {
                Some(b) => {
                    let k = built.len();
                    assert(b == all[k as int]);
                    let mut es = b.enemies;
                    let mut cs = b.crates;
                    proof {
                        assert(indices@[k as int] == all[k as int].config);
                        assert(rooms@[indices@[k as int] as int].id == b.id);
                        assert forall|i: int| 0 <= i < es.len() implies enemy_wf(#[trigger] es@[i]) && id_built(rooms@, indices@, es@[i].body.room.0) && inside_walls(es@[i].body.position.0, es@[i].body.form) by {
                            assert(fresh_enemy(es@[i], b.id));
                        }
                    }
                    proof {
                        assert(es.len() == rooms@[indices@[k as int] as int].enemies);
                        assert(cs.len() == crate::builder::items_of(rooms@[indices@[k as int] as int]).len());
                    }
                    enemies.append(&mut es);
                    crates.append(&mut cs);
                },
                None => {},
            }
        }
        let player = Player {
            body: Body {
                position: Position(spawn_point_on(enter)),
                form: Form::Rect { width: PLAYER_WIDE, height: PLAYER_TALL },
                sight: Sight(Vec2 { x: 1000, y: 0 }),
                speed: Speed { x: 0, y: 0 },
                room: Room(rooms[e].id),
                phrase: None,
            },
            reload: Reload(0),
            health: Health::Full,
            item: Item::Sword,
            visible: false,
            heal_time: HEAL_TIME,
        };
        let mut doors = declared_doors(rooms);
        doors.push(Door::new(Room(rooms[e].id), Room(OUTSIDE), enter, false, true));
        let inner = LevelInner { player, enemies, balls: Vec::new(), doors, crates, rooms: indices };
        let backup = inner.clone();
        Ok(Level { level: inner, backup })
    }
}

/// The level as each system of a frame leaves it, in order.
pub struct FrameTrace {
    /// After the player's own actions.
    pub acted: LevelInner,
    /// After the enemies' decisions.
    pub decided: LevelInner,
    /// After movement.
    pub moved: LevelInner,
    /// After collisions.
    pub collided: LevelInner,
    /// After the doors.
    pub passed: LevelInner,
    /// After the reloads.
    pub reloaded: LevelInner,
    /// After the projectiles.
    pub flown: LevelInner,
    /// After the phrases.
    pub faded: LevelInner,
    /// After the item swap.
    pub swapped: LevelInner,
    /// Whether an item was swapped.
    pub swap: bool,
}

/// What one frame reports to the collaborators: whether the level was left
/// through its exit, and the sounds to play; and, for proofs, the level after
/// each system.
pub struct FrameReport {
    pub next: bool,
    pub sounds: Vec<SoundEvent>,
    pub trace: Ghost<FrameTrace>,
}

/// Two level states hold the same balls, doors, crates and rooms.
pub open spec fn same_fixtures(a: LevelInner, b: LevelInner) -> bool {
    &&& a.balls@ == b.balls@
    &&& a.doors@ == b.doors@
    &&& a.crates@ == b.crates@
    &&& a.rooms@ == b.rooms@
}

/// The player of `b` is the player of `a` but for these fields.
pub open spec fn player_kept(a: Player, b: Player) -> bool {
    &&& b.item == a.item
    &&& b.visible == a.visible
}

/// `after` is `before` counted down by `dt`, or gone when its time is up or
/// its owner is dead.
pub open spec fn faded(before: Option<Phrase>, after: Option<Phrase>, dead: bool, dt: int) -> bool {
    match before {
        None => after is None,
        Some(p) => if p.time <= dt || dead {
            after is None
        } else {
            after matches Some(q) && q.text == p.text && q.time == p.time - dt
        },
    }
}

/// Counts a phrase's time down; it goes when its time is up or its owner is
/// dead.
pub fn fade_phrase(phrase: &mut Option<Phrase>, dead: bool, dt: i64)
    requires
        0 <= dt <= MAX_DT,
    ensures
        faded(*old(phrase), *final(phrase), dead, dt as int),
{
    let gone = match phrase {
        Some(p) => {
            if p.time <= dt || dead {
                true
            } else {
                p.time = p.time - dt;
                false
            }
        },
        None => false,
    };
    if gone {
        *phrase = None;
    }
}

/// The player's health after enemies `0..i` have acted in turn, each slash
/// that lands taking one step of health.
pub open spec fn health_after(enemies: Seq<Enemy>, player: Player, dt: int, i: int) -> Health
    decreases i,
{
    if i <= 0 {
        player.health
    } else {
        let h = health_after(enemies, player, dt, i - 1);
        if crate::ai::slashes(enemies[i - 1], Player { health: h, ..player }, dt) {
            h.decreased()
        } else {
            h
        }
    }
}

/// Every enemy's decision this frame, in order, against the player; returns
/// the moves they ask for. Slashes that land hurt the player and make the
/// sword sound.
pub fn enemies_actions(
    enemies: &mut Vec<Enemy>,
    player: &mut Player,
    dt: i64,
    sounds: &mut Vec<SoundEvent>,
) -> (r: Vec<MoveAction>)
    requires
        enemies_wf(old(enemies)@),
        player_wf(*old(player)),
        0 <= dt <= MAX_DT,
    ensures
        final(enemies).len() == old(enemies).len(),
        r.len() == old(enemies).len(),
        enemies_wf(final(enemies)@),
        player_wf(*final(player)),
        final(player).body == old(player).body,
        final(player).item == old(player).item,
        final(player).visible == old(player).visible,
        final(player).reload == old(player).reload,
        old(player).health == Health::Dead ==> final(player).health == Health::Dead,
        final(player).health == health_after(old(enemies)@, *old(player), dt as int, r.len() as int),
        forall|k: int|
            0 <= k < r.len() ==> (#[trigger] final(enemies)@[k]).state == crate::ai::enemy_next_state(
                old(enemies)@[k],
                Player { health: health_after(old(enemies)@, *old(player), dt as int, k), ..*old(player) },
                dt as int,
            ) && final(enemies)@[k].reload.0 == (if crate::ai::slashes(
                old(enemies)@[k],
                Player { health: health_after(old(enemies)@, *old(player), dt as int, k), ..*old(player) },
                dt as int,
            ) {
                crate::ai::PLAYER_RELOAD
            } else {
                old(enemies)@[k].reload.0
            }),
        forall|k: int| 0 <= k < r.len() ==> crate::motion::action_wf(#[trigger] r@[k]),
        forall|k: int|
            0 <= k < r.len() ==> (#[trigger] final(enemies)@[k]).health == old(enemies)@[k].health
                && final(enemies)@[k].body.position == old(enemies)@[k].body.position
                && final(enemies)@[k].body.room == old(enemies)@[k].body.room
                && final(enemies)@[k].post == old(enemies)@[k].post,
        forall|k: int|
            0 <= k < r.len() && old(enemies)@[k].health != Health::Dead ==> (#[trigger] r@[k]).move_direction
                == old(enemies)@[k].body.position.move_to_spec(
                crate::ai::goal(final(enemies)@[k].state, old(enemies)@[k].post.0),
            ),
{
    let n = enemies.len();
    let mut actions: Vec<MoveAction> = Vec::new();
    let mut i: usize = 0;
    while i < n
        invariant
            n == enemies.len(),
            n == old(enemies).len(),
            0 <= i <= n,
            0 <= dt <= MAX_DT,
            actions.len() == i,
            enemies_wf(enemies@),
            player_wf(*player),
            player.body == old(player).body,
            player.item == old(player).item,
            player.visible == old(player).visible,
            player.reload == old(player).reload,
            old(player).health == Health::Dead ==> player.health == Health::Dead,
            player.health == health_after(old(enemies)@, *old(player), dt as int, i as int),
            *player == (Player { health: player.health, ..*old(player) }),
            forall|k: int|
                0 <= k < i ==> (#[trigger] enemies@[k]).state == crate::ai::enemy_next_state(
                    old(enemies)@[k],
                    Player { health: health_after(old(enemies)@, *old(player), dt as int, k), ..*old(player) },
                    dt as int,
                ) && enemies@[k].reload.0 == (if crate::ai::slashes(
                    old(enemies)@[k],
                    Player { health: health_after(old(enemies)@, *old(player), dt as int, k), ..*old(player) },
                    dt as int,
                ) {
                    crate::ai::PLAYER_RELOAD
                } else {
                    old(enemies)@[k].reload.0
                }),
            forall|k: int| 0 <= k < i ==> crate::motion::action_wf(#[trigger] actions@[k]),
            forall|k: int|
                0 <= k < n ==> (#[trigger] enemies@[k]).health == old(enemies)@[k].health
                    && enemies@[k].body.position == old(enemies)@[k].body.position
                    && enemies@[k].body.room == old(enemies)@[k].body.room
                    && enemies@[k].post == old(enemies)@[k].post,
            forall|k: int| i <= k < n ==> #[trigger] enemies@[k] == old(enemies)@[k],
            forall|k: int|
                0 <= k < i && old(enemies)@[k].health != Health::Dead ==> (#[trigger] actions@[k]).move_direction
                    == old(enemies)@[k].body.position.move_to_spec(
                    crate::ai::goal(enemies@[k].state, old(enemies)@[k].post.0),
                ),
        decreases n - i,
    {
        let (action, hit) = enemy_action(&mut enemies[i], player, dt);
        actions.push(action);
        if hit {
            sounds.push(SoundEvent::Sword);
        }
        i += 1;
    }
    actions
}

/// Moves every enemy by the move it asked for.
pub fn move_enemies(enemies: &mut Vec<Enemy>, actions: &Vec<MoveAction>, dt: i64)
    requires
        enemies_wf(old(enemies)@),
        actions.len() == old(enemies).len(),
        forall|k: int| 0 <= k < actions.len() ==> crate::motion::action_wf(#[trigger] actions@[k]),
        0 <= dt <= MAX_DT,
    ensures
        final(enemies).len() == old(enemies).len(),
        enemies_wf(final(enemies)@),
        forall|k: int|
            0 <= k < final(enemies).len() ==> inside_walls(
                (#[trigger] final(enemies)@[k]).body.position.0,
                final(enemies)@[k].body.form,
            ) && final(enemies)@[k].health == old(enemies)@[k].health,
        forall|k: int|
            0 <= k < final(enemies).len() ==> crate::motion::moved(
                old(enemies)@[k].body,
                (#[trigger] final(enemies)@[k]).body,
                actions@[k],
                dt as int,
            ) && final(enemies)@[k] == (Enemy { body: final(enemies)@[k].body, ..old(enemies)@[k] }),
{
    let n = enemies.len();
    let mut i: usize = 0;
    while i < n
        invariant
            n == enemies.len(),
            n == old(enemies).len(),
            n == actions.len(),
            forall|k: int|
                0 <= k < i ==> crate::motion::moved(
                    old(enemies)@[k].body,
                    (#[trigger] enemies@[k]).body,
                    actions@[k],
                    dt as int,
                ) && enemies@[k] == (Enemy { body: enemies@[k].body, ..old(enemies)@[k] }),
            forall|k: int| i <= k < n ==> #[trigger] enemies@[k] == old(enemies)@[k],
            0 <= i <= n,
            0 <= dt <= MAX_DT,
            forall|k: int| 0 <= k < n ==> crate::motion::action_wf(#[trigger] actions@[k]),
            enemies_wf(enemies@),
            forall|k: int|
                0 <= k < i ==> inside_walls(
                    (#[trigger] enemies@[k]).body.position.0,
                    enemies@[k].body.form,
                ),
            forall|k: int| 0 <= k < n ==> (#[trigger] enemies@[k]).health == old(enemies)@[k].health,
        decreases n - i,
    {
        move_body(&mut enemies[i].body, &actions[i], dt);
        i += 1;
    }
}

/// The part of a body that collisions read.
pub open spec fn footprint(b: Body) -> Footprint {
    Footprint { position: b.position.0, form: b.form, room: b.room }
}

/// The footprints of the enemies in order, then the player's.
pub open spec fn footprints_of(enemies: Seq<Enemy>, player: Player) -> Seq<Footprint> {
    Seq::new(
        (enemies.len() + 1) as nat,
        |k: int|
            if k < enemies.len() {
                footprint(enemies[k].body)
            } else {
                footprint(player.body)
            },
    )
}

/// Resolves the collisions among the enemies, the player and the crates,
/// and puts each body where the resolution leaves it.
pub fn apply_collisions(enemies: &mut Vec<Enemy>, player: &mut Player, crates: &Vec<ItemCrate>)
    requires
        enemies_wf(old(enemies)@),
        bodies_fit(old(enemies).len() as int),
        player_wf(*old(player)),
        crates.len() <= MAX_BODIES,
        forall|i: int| 0 <= i < crates.len() ==> crate_wf(#[trigger] crates@[i]),
    ensures
        final(enemies).len() == old(enemies).len(),
        enemies_wf(final(enemies)@),
        player_wf(*final(player)),
        in_room(final(player).body.position.0),
        inside_walls(final(player).body.position.0, final(player).body.form),
        final(player).body.room == old(player).body.room,
        final(player).health == old(player).health,
        final(player).item == old(player).item,
        forall|k: int|
            0 <= k < final(enemies).len() ==> inside_walls(
                (#[trigger] final(enemies)@[k]).body.position.0,
                final(enemies)@[k].body.form,
            ) && final(enemies)@[k].health == old(enemies)@[k].health,
        forall|k: int|
            0 <= k < final(enemies).len() ==> #[trigger] final(enemies)@[k] == (Enemy {
                body: Body {
                    position: Position(
                        crate::collision::resolved(
                            footprints_of(old(enemies)@, *old(player)),
                            crates@,
                            k,
                        ),
                    ),
                    ..old(enemies)@[k].body
                },
                ..old(enemies)@[k]
            }),
        *final(player) == (Player {
            body: Body {
                position: Position(
                    crate::collision::resolved(
                        footprints_of(old(enemies)@, *old(player)),
                        crates@,
                        old(enemies).len() as int,
                    ),
                ),
                ..old(player).body
            },
            ..*old(player)
        }),
{
    let n = enemies.len();
    let mut footprints: Vec<Footprint> = Vec::new();
    let mut i: usize = 0;
    while i < n
        invariant
            n == enemies.len(),
            0 <= i <= n,
            footprints.len() == i,
            enemies_wf(enemies@),
            forall|k: int| 0 <= k < i ==> (#[trigger] footprints@[k]).wf(),
            forall|k: int| 0 <= k < i ==> (#[trigger] footprints@[k]) == footprint(enemies@[k].body),
            enemies@ == old(enemies)@,
        decreases n - i,
    {
        let b = &enemies[i].body;
        footprints.push(Footprint { position: b.position.0, form: b.form, room: b.room });
        i += 1;
    }
    footprints.push(
        Footprint {
            position: player.body.position.0,
            form: player.body.form,
            room: player.body.room,
        },
    );
    assert(footprints@ =~= footprints_of(old(enemies)@, *old(player)));
    let positions = collide(&footprints, crates);
    let mut i: usize = 0;
    while i < n
        invariant
            n == enemies.len(),
            n == old(enemies).len(),
            positions.len() == n + 1,
            footprints.len() == n + 1,
            0 <= i <= n,
            forall|k: int| 0 <= k <= n ==> (#[trigger] positions@[k]).wf(),
            forall|k: int|
                0 <= k <= n ==> inside_walls(#[trigger] positions@[k], footprints@[k].form),
            footprints@ == footprints_of(old(enemies)@, *old(player)),
            forall|k: int| 0 <= k <= n ==> #[trigger] positions@[k] == crate::collision::resolved(footprints@, crates@, k),
            forall|k: int| 0 <= k < i ==> #[trigger] enemies@[k] == (Enemy {
                body: Body { position: Position(positions@[k]), ..old(enemies)@[k].body },
                ..old(enemies)@[k]
            }),
            forall|k: int| i <= k < n ==> #[trigger] enemies@[k] == old(enemies)@[k],
            *player == *old(player),
            enemies_wf(enemies@),
            forall|k: int|
                0 <= k < i ==> inside_walls(
                    (#[trigger] enemies@[k]).body.position.0,
                    enemies@[k].body.form,
                ),
            forall|k: int| 0 <= k < n ==> (#[trigger] enemies@[k]).health == old(enemies)@[k].health,
        decreases n - i,
    {
        enemies[i].body.position = Position(positions[i]);
        i += 1;
    }
    player.body.position = Position(positions[n]);
}

/// Counts every reload down by `dt`, stopping at zero.
pub fn update_reload(enemies: &mut Vec<Enemy>, player: &mut Player, dt: i64)
    requires
        enemies_wf(old(enemies)@),
        player_wf(*old(player)),
        0 <= dt <= MAX_DT,
    ensures
        final(enemies).len() == old(enemies).len(),
        enemies_wf(final(enemies)@),
        final(player).reload.0 == crate::doors::count_down(old(player).reload.0 as int, dt as int),
        final(player).body == old(player).body,
        final(player).health == old(player).health,
        final(player).item == old(player).item,
        final(player).visible == old(player).visible,
        final(player).heal_time == old(player).heal_time,
        forall|k: int|
            0 <= k < final(enemies).len() ==> (#[trigger] final(enemies)@[k]).reload.0
                == crate::doors::count_down(old(enemies)@[k].reload.0 as int, dt as int)
                && final(enemies)@[k].health == old(enemies)@[k].health && final(enemies)@[k].body
                == old(enemies)@[k].body,
{
    let n = enemies.len();
    let mut i: usize = 0;
    while i < n
        invariant
            n == enemies.len(),
            n == old(enemies).len(),
            0 <= i <= n,
            0 <= dt <= MAX_DT,
            enemies_wf(enemies@),
            forall|k: int|
                0 <= k < n ==> (#[trigger] enemies@[k]).health == old(enemies)@[k].health
                    && enemies@[k].body == old(enemies)@[k].body,
            forall|k: int|
                0 <= k < i ==> (#[trigger] enemies@[k]).reload.0 == crate::doors::count_down(
                    old(enemies)@[k].reload.0 as int,
                    dt as int,
                ),
            forall|k: int| i <= k < n ==> (#[trigger] enemies@[k]).reload == old(enemies)@[k].reload,
        decreases n - i,
    {
        let t = tick(enemies[i].reload.0, dt);
        enemies[i].reload = Reload(t);
        i += 1;
    }
    player.reload = Reload(tick(player.reload.0, dt));
}

/// Counts every phrase down by `dt`; a phrase goes when its time is up or
/// its owner is dead.
pub fn update_phrase(enemies: &mut Vec<Enemy>, player: &mut Player, dt: i64)
    requires
        0 <= dt <= MAX_DT,
    ensures
        final(enemies).len() == old(enemies).len(),
        forall|k: int|
            0 <= k < final(enemies).len() ==> faded(
                (#[trigger] old(enemies)@[k]).body.phrase,
                final(enemies)@[k].body.phrase,
                old(enemies)@[k].health == Health::Dead,
                dt as int,
            ) && final(enemies)@[k] == (Enemy {
                body: Body { phrase: final(enemies)@[k].body.phrase, ..old(enemies)@[k].body },
                ..old(enemies)@[k]
            }),
        faded(old(player).body.phrase, final(player).body.phrase, old(player).health == Health::Dead, dt as int),
        *final(player) == (Player {
            body: Body { phrase: final(player).body.phrase, ..old(player).body },
            ..*old(player)
        }),
{
    let n = enemies.len();
    let mut i: usize = 0;
    while i < n
        invariant
            n == enemies.len(),
            n == old(enemies).len(),
            0 <= i <= n,
            0 <= dt <= MAX_DT,
            forall|k: int|
                0 <= k < i ==> faded(
                    (#[trigger] old(enemies)@[k]).body.phrase,
                    enemies@[k].body.phrase,
                    old(enemies)@[k].health == Health::Dead,
                    dt as int,
                ) && enemies@[k] == (Enemy {
                    body: Body { phrase: enemies@[k].body.phrase, ..old(enemies)@[k].body },
                    ..old(enemies)@[k]
                }),
            forall|k: int| i <= k < n ==> #[trigger] enemies@[k] == old(enemies)@[k],
        decreases n - i,
    {
        let dead = enemies[i].health == Health::Dead;
        fade_phrase(&mut enemies[i].body.phrase, dead, dt);
        i += 1;
    }
    let dead = player.health == Health::Dead;
    fade_phrase(&mut player.body.phrase, dead, dt);
}

/// The first crate from index `i` on that allows a swap, or the number of
/// crates when none does.
pub open spec fn first_swap(crates: Seq<ItemCrate>, player: Player, interact: bool, i: int) -> int
    decreases crates.len() - i,
{
    if i < 0 || i >= crates.len() {
        crates.len() as int
    } else if crate::doors::swap_allowed(crates[i], player, interact) {
        i
    } else {
        first_swap(crates, player, interact, i + 1)
    }
}

/// Swaps the player's item with the first crate that allows it, if any.
pub fn swap_at_crates(crates: &mut Vec<ItemCrate>, player: &mut Player, interact: bool) -> (r: bool)
    requires
        forall|i: int| 0 <= i < old(crates).len() ==> crate_wf(#[trigger] old(crates)@[i]),
        player_wf(*old(player)),
    ensures
        final(crates).len() == old(crates).len(),
        forall|i: int| 0 <= i < final(crates).len() ==> crate_wf(#[trigger] final(crates)@[i]),
        final(player).body == old(player).body,
        final(player).health == old(player).health,
        final(player).visible == old(player).visible,
        final(player).reload == old(player).reload,
        final(player).heal_time == old(player).heal_time,
        !r ==> final(player).item == old(player).item,
        !interact ==> !r,
        ({
            let j = first_swap(old(crates)@, *old(player), interact, 0);
            &&& r == (j < old(crates).len())
            &&& r ==> final(player).item == old(crates)@[j].item && final(crates)@[j]
                == (ItemCrate { item: old(player).item, ..old(crates)@[j] })
            &&& forall|k: int|
                0 <= k < old(crates).len() && !(r && k == j) ==> #[trigger] final(crates)@[k]
                    == old(crates)@[k]
        }),
{
    let mut i: usize = 0;
    while i < crates.len()
        invariant
            0 <= i <= crates.len(),
            crates.len() == old(crates).len(),
            forall|k: int| 0 <= k < crates.len() ==> crate_wf(#[trigger] crates@[k]),
            player_wf(*player),
            player.body == old(player).body,
            player.health == old(player).health,
            player.visible == old(player).visible,
            player.reload == old(player).reload,
            player.heal_time == old(player).heal_time,
            player.item == old(player).item,
            crates@ == old(crates)@,
            first_swap(old(crates)@, *old(player), interact, 0) == first_swap(old(crates)@, *old(player), interact, i as int),
        decreases crates.len() - i,
    {
        if swap_items(&mut crates[i], player, interact) {
            return true;
        }
        i += 1;
    }
    false
}

/// One frame of the level, through its systems in order: the player's and
/// the enemies' decisions, movement, collisions, doors, reloads,
/// projectiles, phrases, item swaps (which take a snapshot), and the restart
/// to the snapshot after death. The report's trace gives the level after
/// each system; the contract relates each to the one before.
pub fn update_level(level: &mut Level, input: &PlayerInput, dt: i64) -> (r: FrameReport)
    requires
        old(level).wf(),
        input_wf(*input),
        0 <= dt <= MAX_DT,
    ensures
        final(level).wf(),
        all_inside_walls(final(level).level),
        ({
            let t = r.trace@;
            let o = old(level).level;
            let n = o.enemies.len() as int;
            // the player's own actions
            &&& t.acted.enemies@ == o.enemies@ && t.acted.doors@ == o.doors@
                && t.acted.crates@ == o.crates@ && t.acted.rooms@ == o.rooms@
            &&& t.acted.balls@ == (if crate::combat::throws(o.player, o.balls.len() as int, *input) {
                o.balls@.push(crate::combat::thrown_ball(o.player, *input))
            } else {
                o.balls@
            })
            &&& o.player.health == Health::Dead ==> t.acted.player.health == Health::Dead
            &&& o.player.health != Health::Dead ==> (
                t.acted.player.health,
                t.acted.player.heal_time as int,
            ) == crate::combat::healed(o.player.health, o.player.heal_time as int, dt as int)
            &&& t.acted.player.body.position == o.player.body.position
            &&& t.acted.player.body.room == o.player.body.room
            &&& player_kept(t.acted.player, t.acted.player) && t.acted.player.item == o.player.item
            // the enemies' decisions
            &&& same_fixtures(t.acted, t.decided)
            &&& t.decided.enemies.len() == n
            &&& t.decided.player.health == health_after(t.acted.enemies@, t.acted.player, dt as int, n)
            &&& t.decided.player.body == t.acted.player.body
            &&& player_kept(t.acted.player, t.decided.player)
            &&& forall|k: int|
                0 <= k < n ==> (#[trigger] t.decided.enemies@[k]).state == crate::ai::enemy_next_state(
                    t.acted.enemies@[k],
                    Player {
                        health: health_after(t.acted.enemies@, t.acted.player, dt as int, k),
                        ..t.acted.player
                    },
                    dt as int,
                ) && t.decided.enemies@[k].health == t.acted.enemies@[k].health
            // movement
            &&& same_fixtures(t.decided, t.moved)
            &&& t.moved.enemies.len() == n
            &&& t.moved.player.health == t.decided.player.health
            &&& t.moved.player.body.room == t.decided.player.body.room
            &&& player_kept(t.decided.player, t.moved.player)
            &&& forall|k: int|
                0 <= k < n ==> (#[trigger] t.moved.enemies@[k]).health == t.decided.enemies@[k].health
                    && t.moved.enemies@[k].body.room == t.decided.enemies@[k].body.room
            // collisions
            &&& same_fixtures(t.moved, t.collided)
            &&& t.collided.enemies.len() == n
            &&& t.collided.player.body.position.0 == crate::collision::resolved(
                footprints_of(t.moved.enemies@, t.moved.player),
                t.moved.crates@,
                n,
            )
            &&& t.collided.player.health == t.moved.player.health
            &&& t.collided.player.body.room == t.moved.player.body.room
            &&& player_kept(t.moved.player, t.collided.player)
            &&& forall|k: int|
                0 <= k < n ==> (#[trigger] t.collided.enemies@[k]).body.position.0
                    == crate::collision::resolved(
                    footprints_of(t.moved.enemies@, t.moved.player),
                    t.moved.crates@,
                    k,
                ) && t.collided.enemies@[k].health == t.moved.enemies@[k].health
            // the doors: the first door that moves the player decides
            &&& t.passed.enemies@ == t.collided.enemies@ && t.passed.balls@ == t.collided.balls@
                && t.passed.crates@ == t.collided.crates@ && t.passed.rooms@ == t.collided.rooms@
            &&& t.passed.player.health == t.collided.player.health
            &&& player_kept(t.collided.player, t.passed.player)
            &&& ({
                let doors = t.collided.doors@;
                let j = crate::doors::first_moving(t.collided.player, doors, t.collided.enemies@, 0);
                let outcome = crate::doors::door_outcome(
                    t.collided.player,
                    doors[j],
                    t.collided.enemies@,
                );
                &&& r.next == (j < doors.len() && outcome == crate::doors::DoorOutcome::Exited)
                &&& j < doors.len() && outcome == crate::doors::DoorOutcome::Crossed ==> t.passed.player.body.room
                    == doors[j].seen_from(t.collided.player.body.room)->Some_0.1
                &&& !(j < doors.len() && outcome == crate::doors::DoorOutcome::Crossed) ==> t.passed.player.body.room
                    == t.collided.player.body.room && t.passed.player.body.position
                    == t.collided.player.body.position
            })
            &&& r.next ==> crate::doors::all_dead(t.collided.enemies@) && t.collided.player.item.is_sword()
            // the reloads
            &&& same_fixtures(t.passed, t.reloaded)
            &&& t.reloaded.enemies.len() == n
            &&& t.reloaded.player.reload.0 == crate::doors::count_down(
                t.passed.player.reload.0 as int,
                dt as int,
            )
            &&& t.reloaded.player.body == t.passed.player.body
            &&& t.reloaded.player.health == t.passed.player.health
            &&& player_kept(t.passed.player, t.reloaded.player)
            &&& forall|k: int|
                0 <= k < n ==> (#[trigger] t.reloaded.enemies@[k]).reload.0 == crate::doors::count_down(
                    t.passed.enemies@[k].reload.0 as int,
                    dt as int,
                ) && t.reloaded.enemies@[k].health == t.passed.enemies@[k].health
                    && t.reloaded.enemies@[k].body == t.passed.enemies@[k].body
            // the projectiles: each that strikes or leaves goes this frame
            &&& (t.flown.balls@, t.flown.enemies@) == crate::combat::flights(
                t.reloaded.balls@,
                t.reloaded.enemies@,
                dt as int,
            )
            &&& t.flown.player == t.reloaded.player && t.flown.doors@ == t.reloaded.doors@
                && t.flown.crates@ == t.reloaded.crates@ && t.flown.rooms@ == t.reloaded.rooms@
            // the phrases
            &&& same_fixtures(t.flown, t.faded)
            &&& t.faded.enemies.len() == n
            &&& faded(
                t.flown.player.body.phrase,
                t.faded.player.body.phrase,
                t.flown.player.health == Health::Dead,
                dt as int,
            )
            &&& t.faded.player == (Player {
                body: Body { phrase: t.faded.player.body.phrase, ..t.flown.player.body },
                ..t.flown.player
            })
            &&& forall|k: int|
                0 <= k < n ==> faded(
                    (#[trigger] t.flown.enemies@[k]).body.phrase,
                    t.faded.enemies@[k].body.phrase,
                    t.flown.enemies@[k].health == Health::Dead,
                    dt as int,
                ) && t.faded.enemies@[k] == (Enemy {
                    body: Body { phrase: t.faded.enemies@[k].body.phrase, ..t.flown.enemies@[k].body },
                    ..t.flown.enemies@[k]
                })
            // the item swap, which takes the snapshot
            &&& t.swap == (first_swap(t.faded.crates@, t.faded.player, input.interact, 0)
                < t.faded.crates.len())
            &&& t.swapped.enemies@ == t.faded.enemies@ && t.swapped.balls@ == t.faded.balls@
                && t.swapped.doors@ == t.faded.doors@ && t.swapped.rooms@ == t.faded.rooms@
            &&& t.swapped.player.body == t.faded.player.body
            &&& t.swapped.player.health == t.faded.player.health
            &&& !t.swap ==> t.swapped.player == t.faded.player && t.swapped.crates@
                == t.faded.crates@
            &&& t.swap ==> same_state(final(level).backup, t.swapped)
            &&& !t.swap ==> same_state(final(level).backup, old(level).backup)
            // the restart
            &&& t.swapped.player.health == Health::Dead && input.restart ==> same_state(
                final(level).level,
                final(level).backup,
            )
            &&& !(t.swapped.player.health == Health::Dead && input.restart) ==> same_state(
                final(level).level,
                t.swapped,
            )
        }),
{
    let mut sounds: Vec<SoundEvent> = Vec::new();
    let (player_move, thrown) = player_action(
        &mut level.level.player,
        &mut level.level.balls,
        input,
        dt,
    );
    match thrown {
        Some(s) => sounds.push(s),
        None => {},
    }
    let ghost acted = level.level;
    let actions = enemies_actions(&mut level.level.enemies, &mut level.level.player, dt, &mut sounds);
    let ghost decided = level.level;
    move_enemies(&mut level.level.enemies, &actions, dt);
    move_body(&mut level.level.player.body, &player_move, dt);
    let ghost moved = level.level;
    apply_collisions(&mut level.level.enemies, &mut level.level.player, &level.level.crates);
    let ghost collided = level.level;
    let next = use_doors(
        &mut level.level.player,
        &mut level.level.doors,
        &level.level.enemies,
        dt,
        &mut sounds,
    );
    let ghost passed = level.level;
    update_reload(&mut level.level.enemies, &mut level.level.player, dt);
    let ghost reloaded = level.level;
    update_balls(&mut level.level.balls, &mut level.level.enemies, dt, &mut sounds);
    proof {
        if next {
            crate::combat::lemma_flights_spare_the_dead(reloaded.balls@, reloaded.enemies@, dt as int);
        }
    }
    let ghost flown = level.level;
    update_phrase(&mut level.level.enemies, &mut level.level.player, dt);
    proof {
        assert forall|k: int| 0 <= k < level.level.enemies.len() implies crate::ai::enemy_wf(
            #[trigger] level.level.enemies@[k],
        ) by {
            assert(crate::ai::enemy_wf(flown.enemies@[k]));
        }
        crate::combat::lemma_flights_keep_bodies(reloaded.balls@, reloaded.enemies@, dt as int);
        assert forall|k: int| 0 <= k < level.level.enemies.len() implies inside_walls(
            (#[trigger] level.level.enemies@[k]).body.position.0,
            level.level.enemies@[k].body.form,
        ) by {
            assert(flown.enemies@[k].body == reloaded.enemies@[k].body);
            assert(reloaded.enemies@[k].body == passed.enemies@[k].body);
            assert(passed.enemies@[k] == collided.enemies@[k]);
        }
    }
    let ghost faded_level = level.level;
    let swap = swap_at_crates(&mut level.level.crates, &mut level.level.player, input.interact);
    if swap {
        sounds.push(SoundEvent::Item);
        level.backup = level.level.clone();
    }
    let ghost swapped = level.level;
    if level.level.player.health == Health::Dead && input.restart {
        level.level = level.backup.clone();
    }
    let ghost trace = FrameTrace {
        acted,
        decided,
        moved,
        collided,
        passed,
        reloaded,
        flown,
        faded: faded_level,
        swapped,
        swap,
    };
    FrameReport { next, sounds, trace: Ghost(trace) }
}
} // verus!
