//! The room graph builder: from the level's room configurations to the
//! connected set of rooms reachable from the entrance, with their enemies
//! and crates.
use vstd::prelude::*;
use vstd::set_lib::*;

use crate::ai::{ENEMY_HEIGHT, ENEMY_WIDTH};
use crate::entity::{
    Body, Direction, Enemy, EnemyState, Health, Item, ItemCrate, Post, Reload, Room, Sight, Speed,
};
use crate::geom::{Form, Position, Vec2, ROOM_HEIGHT, ROOM_WIDTH};

verus! {

/// A door as a room's configuration declares it.
#[derive(Clone, Copy, Debug, PartialEq, Eq, Structural)]
pub struct DoorConfig {
    pub direction: Direction,
    pub to: u8,
    pub closed: bool,
}

/// One room of a level's configuration.
#[derive(Clone, Debug)]
pub struct RoomConfig {
    pub id: u8,
    /// The wall the player enters by, on the entrance room only.
    pub enter: Option<Direction>,
    pub doors: Vec<DoorConfig>,
    pub items: Option<Vec<Item>>,
    pub enemies: u8,
}

/// A level's configuration: its rooms in order.
#[derive(Clone, Debug)]
pub struct LevelConfig {
    pub rooms: Vec<RoomConfig>,
}

/// A connection of a room, as seen from it: the wall, the room's index in
/// the configuration, and whether it is locked.
#[derive(Clone, Copy, Debug, PartialEq, Eq, Structural)]
pub struct Link {
    pub direction: Direction,
    pub room: usize,
    pub closed: bool,
}

/// The first door from index `j` on that leads to room `id`.
pub open spec fn first_door_to(doors: Seq<DoorConfig>, id: u8, j: int) -> Option<DoorConfig>
    decreases doors.len() - j,
{
    if j < 0 || j >= doors.len() {
        None
    } else if doors[j].to == id {
        Some(doors[j])
    } else {
        first_door_to(doors, id, j + 1)
    }
}

/// How room `r` connects to room `c`: by its own first door to `c`, else by
/// `c`'s first door back to `r`, seen from the other side.
pub open spec fn link_between(rooms: Seq<RoomConfig>, r: int, c: int) -> Option<(Direction, bool)> {
    match first_door_to(rooms[r].doors@, rooms[c].id, 0) {
        Some(d) => Some((d.direction, d.closed)),
        None => match first_door_to(rooms[c].doors@, rooms[r].id, 0) {
            Some(d) => Some((d.direction.opposite(), d.closed)),
            None => None,
        },
    }
}

/// The connections of room `r` to rooms `0..n`, in the rooms' order.
pub open spec fn links_upto(rooms: Seq<RoomConfig>, r: int, n: int) -> Seq<Link>
    decreases n,
{
    if n <= 0 {
        Seq::empty()
    } else {
        let before = links_upto(rooms, r, n - 1);
        match link_between(rooms, r, n - 1) {
            Some((d, closed)) => before.push(Link { direction: d, room: (n - 1) as usize, closed }),
            None => before,
        }
    }
}

/// All the connections of room `r`.
pub open spec fn links_of(rooms: Seq<RoomConfig>, r: int) -> Seq<Link> {
    links_upto(rooms, r, rooms.len() as int)
}

/// Two connections leave through the same wall.
pub open spec fn ambiguous(links: Seq<Link>) -> bool {
    exists|i: int, j: int|
        0 <= i < j < links.len() && (#[trigger] links[i]).direction == (#[trigger] links[j]).direction
}

fn first_door(doors: &Vec<DoorConfig>, id: u8) -> (r: Option<DoorConfig>)
    ensures
        r == first_door_to(doors@, id, 0),
{
    let mut j: usize = 0;
    while j < doors.len()
        invariant
            0 <= j <= doors.len(),
            first_door_to(doors@, id, 0) == first_door_to(doors@, id, j as int),
        decreases doors.len() - j,
    {
        if doors[j].to == id {
            return Some(doors[j]);
        }
        j += 1;
    }
    None
}

proof fn lemma_links_bounded(rooms: Seq<RoomConfig>, r: int, n: int)
    ensures
        forall|k: int| 0 <= k < links_upto(rooms, r, n).len() ==> (#[trigger] links_upto(rooms, r, n)[k]).room < n,
        links_upto(rooms, r, n).len() <= if n < 0 { 0 } else { n },
    decreases n,
{
    if n > 0 {
        lemma_links_bounded(rooms, r, n - 1);
    }
}

/// The connections of every room, in the rooms' order.
pub fn room_links(rooms: &Vec<RoomConfig>) -> (r: Vec<Vec<Link>>)
    ensures
        r.len() == rooms.len(),
        forall|i: int| 0 <= i < rooms.len() ==> (#[trigger] r@[i])@ == links_of(rooms@, i),
{
    let n = rooms.len();
    let mut out: Vec<Vec<Link>> = Vec::new();
    let mut i: usize = 0;
    while i < n
        invariant
            n == rooms.len(),
            0 <= i <= n,
            out.len() == i,
            forall|k: int| 0 <= k < i ==> (#[trigger] out@[k])@ == links_of(rooms@, k),
        decreases n - i,
    {
        let mut links: Vec<Link> = Vec::new();
        let mut c: usize = 0;
        while c < n
            invariant
                n == rooms.len(),
                0 <= i < n,
                0 <= c <= n,
                links@ == links_upto(rooms@, i as int, c as int),
            decreases n - c,
        {
            let found = match first_door(&rooms[i].doors, rooms[c].id) {
                Some(d) => Some((d.direction, d.closed)),
                None => match first_door(&rooms[c].doors, rooms[i].id) {
                    Some(d) => Some((d.direction.inverse(), d.closed)),
                    None => None,
                },
            };
            match found {
                Some((direction, closed)) => links.push(Link { direction, room: c, closed }),
                None => {},
            }
            c += 1;
        }
        out.push(links);
        i += 1;
    }
    out
}

/// Whether two connections leave through the same wall.
pub fn has_ambiguity(links: &Vec<Link>) -> (r: bool)
    ensures
        r == ambiguous(links@),
{
    let n = links.len();
    let mut i: usize = 0;
    while i < n
        invariant
            n == links.len(),
            0 <= i <= n,
            forall|a: int, b: int| 0 <= a < i && a < b < n ==> (#[trigger] links@[a]).direction != (#[trigger] links@[b]).direction,
        decreases n - i,
    {
        let mut j: usize = i + 1;
        while j < n
            invariant
                n == links.len(),
                0 <= i < n,
                i + 1 <= j <= n,
                forall|a: int, b: int| 0 <= a < i && a < b < n ==> (#[trigger] links@[a]).direction != (#[trigger] links@[b]).direction,
                forall|b: int| i < b < j ==> links@[i as int].direction != (#[trigger] links@[b]).direction,
            decreases n - j,
        {
            if links[i].direction == links[j].direction {
                return true;
            }
            j += 1;
        }
        i += 1;
    }
    false
}

/// Relies on `macroquad::rand::gen_range` (quad-rand 0.2): for an integer
/// type it scales a 32-bit draw into `[low, high)` in `f64` and truncates;
/// from `low = 0` and `high` at most 2^20 the result stays in `[0, high)`.
#[verifier::external_body]
pub(crate) fn gen_below(high: i64) -> (r: i64)
    requires
        0 < high <= 0x10_0000,
    ensures
        0 <= r < high,
{
    macroquad::rand::gen_range(0i64, high)
}

/// Where a room's enemies and crates are placed: the middle third of its
/// width and the middle half of its height.
pub open spec fn in_spawn_band(p: Vec2) -> bool {
    &&& ROOM_WIDTH / 3 <= p.x < 2 * (ROOM_WIDTH / 3)
    &&& ROOM_HEIGHT / 4 <= p.y < 3 * (ROOM_HEIGHT / 4)
}

/// A random point of the spawn band.
pub fn spawn_point() -> (r: Vec2)
    ensures
        in_spawn_band(r),
        r.wf(),
{
    let x = ROOM_WIDTH / 3 + gen_below(ROOM_WIDTH / 3);
    let y = ROOM_HEIGHT / 4 + gen_below(ROOM_HEIGHT / 2);
    Vec2 { x, y }
}

/// A freshly spawned enemy of room `room`, standing at its post.
pub open spec fn fresh_enemy(e: Enemy, room: u8) -> bool {
    &&& e.body.room == Room(room)
    &&& in_spawn_band(e.body.position.0)
    &&& e.post.0 == e.body.position.0
    &&& e.state == EnemyState::Idle
    &&& e.health == Health::Low
    &&& e.reload.0 == 0
    &&& e.body.form == (Form::Rect { width: ENEMY_WIDTH, height: ENEMY_HEIGHT })
    &&& e.body.speed == (Speed { x: 0, y: 0 })
    &&& e.body.phrase is None
    &&& e.body.sight == Sight(Vec2 { x: 1000, y: 0 })
}

/// Spawns `count` enemies in room `room`, each at a random point of the
/// spawn band, which becomes its post.
pub fn spawn_enemies(room: u8, count: u8) -> (r: Vec<Enemy>)
    ensures
        r.len() == count,
        forall|i: int| 0 <= i < r.len() ==> fresh_enemy(#[trigger] r@[i], room),
{
    let mut out: Vec<Enemy> = Vec::new();
    let mut k: u8 = 0;
    while k < count
        invariant
            0 <= k <= count,
            out.len() == k,
            forall|i: int| 0 <= i < out.len() ==> fresh_enemy(#[trigger] out@[i], room),
        decreases count - k,
    {
        let position = spawn_point();
        out.push(
            Enemy {
                body: Body {
                    position: Position(position),
                    form: Form::Rect { width: ENEMY_WIDTH, height: ENEMY_HEIGHT },
                    sight: Sight(Vec2 { x: 1000, y: 0 }),
                    speed: Speed { x: 0, y: 0 },
                    room: Room(room),
                    phrase: None,
                },
                reload: Reload(0),
                state: EnemyState::Idle,
                post: Post(position),
                health: Health::Low,
            },
        );
        k += 1;
    }
    out
}

/// Places a crate for each item in room `room`, at random points of the
/// spawn band.
pub fn spawn_crates(room: u8, items: &Option<Vec<Item>>) -> (r: Vec<ItemCrate>)
    ensures
        r.len() == (match items {
            Some(v) => v.len(),
            None => 0,
        }),
        forall|i: int|
            0 <= i < r.len() ==> (#[trigger] r@[i]).item == items->Some_0@[i] && r@[i].room
                == Room(room) && in_spawn_band(r@[i].position.0) && r@[i].form == (Form::Rect {
                width: crate::entity::CRATE_SIZE,
                height: crate::entity::CRATE_SIZE,
            }),
{
    let mut out: Vec<ItemCrate> = Vec::new();
    match items {
        None => out,
        Some(list) => {
            let mut k: usize = 0;
            while k < list.len()
                invariant
                    0 <= k <= list.len(),
                    *items == Some(*list),
                    out.len() == k,
                    forall|i: int|
                        0 <= i < out.len() ==> (#[trigger] out@[i]).item == list@[i] && out@[i].room
                            == Room(room) && in_spawn_band(out@[i].position.0) && out@[i].form == (
                        Form::Rect {
                            width: crate::entity::CRATE_SIZE,
                            height: crate::entity::CRATE_SIZE,
                        }),
                decreases list.len() - k,
            {
                let position = spawn_point();
                out.push(ItemCrate::new(list[k].clone(), Position(position), Room(room)));
                k += 1;
            }
            out
        },
    }
}

/// A room the builder has instantiated: its id, its index in the
/// configuration, and what it holds.
#[derive(Clone, Debug)]
pub struct BuiltRoom {
    pub id: u8,
    pub config: usize,
    pub enemies: Vec<Enemy>,
    pub crates: Vec<ItemCrate>,
}

/// Every room offers at most 255 items.
pub open spec fn items_fit(rooms: Seq<RoomConfig>) -> bool {
    forall|c: int| 0 <= c < rooms.len() ==> ((#[trigger] rooms[c]).items matches Some(v) ==> v.len() <= 255)
}

pub open spec fn has_id(out: Seq<BuiltRoom>, id: u8) -> bool {
    exists|q: int| 0 <= q < out.len() && (#[trigger] out[q]).id == id
}

/// Each built room names a room of the configuration, and no id is built
/// twice.
pub open spec fn built_wf(out: Seq<BuiltRoom>, rooms: Seq<RoomConfig>) -> bool {
    &&& forall|q: int|
        0 <= q < out.len() ==> (#[trigger] out[q]).config < rooms.len() && out[q].id
            == rooms[out[q].config as int].id
    &&& forall|p: int, q: int|
        0 <= p < q < out.len() ==> (#[trigger] out[p]).id != (#[trigger] out[q]).id
    &&& forall|q: int| 0 <= q < out.len() ==> built_contents_wf(#[trigger] out[q], rooms)
}

/// The items a room's configuration offers, none when it names none.
pub open spec fn items_of(room: RoomConfig) -> Seq<Item> {
    match room.items {
        Some(v) => v@,
        None => Seq::empty(),
    }
}

/// A built room holds as many freshly spawned enemies of its own as its
/// configuration asks for, and a well-placed crate for each of its items.
pub open spec fn built_contents_wf(b: BuiltRoom, rooms: Seq<RoomConfig>) -> bool {
    &&& b.enemies.len() <= 255
    &&& b.crates.len() <= 255
    &&& b.config < rooms.len() ==> b.enemies.len() == rooms[b.config as int].enemies
        && b.crates.len() == items_of(rooms[b.config as int]).len() && forall|i: int|
        0 <= i < b.crates.len() ==> (#[trigger] b.crates@[i]).item == items_of(
            rooms[b.config as int],
        )[i]
    &&& forall|i: int| 0 <= i < b.enemies.len() ==> fresh_enemy(#[trigger] b.enemies@[i], b.id)
    &&& forall|i: int|
        0 <= i < b.crates.len() ==> in_spawn_band((#[trigger] b.crates@[i]).position.0)
            && b.crates@[i].form == (Form::Rect {
            width: crate::entity::CRATE_SIZE,
            height: crate::entity::CRATE_SIZE,
        })
}

/// At most 256 rooms are built: their ids are distinct bytes.
pub proof fn lemma_built_count(out: Seq<BuiltRoom>, rooms: Seq<RoomConfig>)
    requires
        built_wf(out, rooms),
    ensures
        out.len() <= 256,
{
    let s = out.map_values(|b: BuiltRoom| b.id as int);
    assert(s.no_duplicates()) by {
        assert forall|i: int, j: int| 0 <= i < s.len() && 0 <= j < s.len() && i != j implies s[i]
            != s[j] by {
            if i < j {
                assert(out[i].id != out[j].id);
            } else {
                assert(out[j].id != out[i].id);
            }
        }
    }
    s.unique_seq_to_set();
    let all = set_int_range(0, 256);
    lemma_int_range(0, 256);
    assert(s.to_set().subset_of(all));
    lemma_len_subset(s.to_set(), all);
}

pub open spec fn links_wf(links: Seq<Vec<Link>>, rooms: Seq<RoomConfig>) -> bool {
    &&& links.len() == rooms.len()
    &&& forall|i: int| 0 <= i < rooms.len() ==> (#[trigger] links[i])@ == links_of(rooms, i)
}

/// Room `a` has a connection to room `b`.
pub open spec fn linked(rooms: Seq<RoomConfig>, a: int, b: int) -> bool {
    exists|k: int| 0 <= k < links_of(rooms, a).len() && (#[trigger] links_of(rooms, a)[k]).room == b
}

/// Built room `q` is unambiguous and every room it connects to is built.
pub open spec fn closed_at(out: Seq<BuiltRoom>, rooms: Seq<RoomConfig>, q: int) -> bool {
    &&& !ambiguous(links_of(rooms, out[q].config as int))
    &&& forall|k: int|
        0 <= k < links_of(rooms, out[q].config as int).len() ==> has_id(
            out,
            rooms[(#[trigger] links_of(rooms, out[q].config as int)[k]).room as int].id,
        )
}

/// Built room `q` is reached through a connection of an earlier one.
pub open spec fn reached_at(out: Seq<BuiltRoom>, rooms: Seq<RoomConfig>, q: int) -> bool {
    exists|p: int| 0 <= p < q && linked(rooms, #[trigger] out[p].config as int, out[q].config as int)
}

proof fn lemma_room_count(out: Seq<BuiltRoom>, rooms: Seq<RoomConfig>, c: int)
    requires
        built_wf(out, rooms),
        0 <= c < rooms.len(),
        !has_id(out, rooms[c].id),
    ensures
        out.len() < rooms.len(),
{
    let s = out.map_values(|b: BuiltRoom| b.config as int);
    assert(s.no_duplicates()) by {
        assert forall|i: int, j: int| 0 <= i < s.len() && 0 <= j < s.len() && i != j implies s[i]
            != s[j] by {
            if i < j {
                assert(out[i].id != out[j].id);
            } else {
                assert(out[j].id != out[i].id);
            }
        }
    }
    s.unique_seq_to_set();
    let all = set_int_range(0, rooms.len() as int);
    lemma_int_range(0, rooms.len() as int);
    assert(s.to_set().subset_of(all)) by {
        assert forall|v: int| s.to_set().contains(v) implies all.contains(v) by {
            let i = choose|i: int| 0 <= i < s.len() && s[i] == v;
            assert(out[i].config < rooms.len());
        }
    }
    assert(!s.to_set().contains(c)) by {
        if s.to_set().contains(c) {
            let i = choose|i: int| 0 <= i < s.len() && s[i] == c;
            assert(out[i].id == rooms[c].id);
        }
    }
    s.to_set().lemma_subset_not_in_lt(all, c);
}

/// Position of the built room with id `id`, if there is one.
fn find_built(out: &Vec<BuiltRoom>, id: u8) -> (r: Option<usize>)
    ensures
        r is None <==> !has_id(out@, id),
        r matches Some(q) ==> q < out.len() && out@[q as int].id == id,
{
    let mut q: usize = 0;
    while q < out.len()
        invariant
            0 <= q <= out.len(),
            forall|p: int| 0 <= p < q ==> (#[trigger] out@[p]).id != id,
        decreases out.len() - q,
    {
        if out[q].id == id {
            return Some(q);
        }
        q += 1;
    }
    None
}

/// Instantiates room `r` and, depth first, every room reachable from it that
/// is not built yet. Returns the position of room `r` among the built rooms,
/// or the id of a room that has two connections through the same wall.
pub fn push_room(
    out: &mut Vec<BuiltRoom>,
    rooms: &Vec<RoomConfig>,
    links: &Vec<Vec<Link>>,
    r: usize,
) -> (res: Result<usize, u8>)
    requires
        r < rooms.len(),
        items_fit(rooms@),
        links_wf(links@, rooms@),
        built_wf(old(out)@, rooms@),
        !has_id(old(out)@, rooms@[r as int].id),
    ensures
        built_wf(final(out)@, rooms@),
        final(out).len() >= old(out).len(),
        forall|q: int| 0 <= q < old(out).len() ==> #[trigger] final(out)@[q] == old(out)@[q],
        res matches Ok(pos) ==> pos == old(out).len() && pos < final(out).len()
            && final(out)@[pos as int].config == r && forall|q: int|
            old(out).len() <= q < final(out).len() ==> closed_at(final(out)@, rooms@, q) && (q
                > pos ==> reached_at(final(out)@, rooms@, q)),
        res matches Err(id) ==> exists|c: int|
            0 <= c < rooms.len() && (#[trigger] rooms@[c]).id == id && ambiguous(
                links_of(rooms@, c),
            ),
    decreases rooms.len() - old(out).len(),
{
    proof {
        lemma_room_count(out@, rooms@, r as int);
    }
    if has_ambiguity(&links[r]) {
        return Err(rooms[r].id);
    }
    let enemies = spawn_enemies(rooms[r].id, rooms[r].enemies);
    let crates = spawn_crates(rooms[r].id, &rooms[r].items);
    let ghost start = out@;
    out.push(BuiltRoom { id: rooms[r].id, config: r, enemies, crates });
    let pos = out.len() - 1;
    assert(has_id(out@, rooms@[r as int].id)) by {
        assert(out@[pos as int].id == rooms@[r as int].id);
    }
    let targets = &links[r];
    let mut k: usize = 0;
    while k < targets.len()
        invariant
            links_wf(links@, rooms@),
            items_fit(rooms@),
            targets@ == links_of(rooms@, r as int),
            r < rooms.len(),
            built_wf(out@, rooms@),
            pos == start.len(),
            out.len() > pos,
            out@[pos as int].config == r,
            !ambiguous(links_of(rooms@, r as int)),
            0 <= k <= targets.len(),
            forall|q: int| 0 <= q < start.len() ==> #[trigger] out@[q] == start[q],
            forall|kk: int| 0 <= kk < k ==> has_id(out@, rooms@[(#[trigger] targets@[kk]).room as int].id),
            forall|q: int| pos < q < out.len() ==> closed_at(out@, rooms@, q) && reached_at(out@, rooms@, q),
            start.len() == old(out).len(),
            forall|q: int| 0 <= q < old(out).len() ==> #[trigger] start[q] == old(out)@[q],
        decreases targets.len() - k,
    {
        let c = targets[k].room;
        proof {
            lemma_links_bounded(rooms@, r as int, rooms.len() as int);
        }
        let found = find_built(out, rooms[c].id);
        if found.is_none() {
            let ghost before = out@;
            proof {
                lemma_room_count(out@, rooms@, c as int);
            }
            match push_room(out, rooms, links, c) {
                Err(e) => return Err(e),
                Ok(_) => {},
            }
            proof {
                assert forall|kk: int| 0 <= kk <= k implies has_id(out@, rooms@[(#[trigger] targets@[kk]).room as int].id) by {
                    if kk < k {
                        let w = choose|q: int| 0 <= q < before.len() && (#[trigger] before[q]).id == rooms@[targets@[kk].room as int].id;
                        assert(out@[w] == before[w]);
                    } else {
                        assert(out@[before.len() as int].id == rooms@[c as int].id);
                    }
                }
                assert forall|q: int| pos < q < out.len() implies closed_at(out@, rooms@, q) && reached_at(out@, rooms@, q) by {
                    if q < before.len() {
                        assert(out@[q] == before[q]);
                        assert(closed_at(before, rooms@, q));
                        let cfg = out@[q].config as int;
                        assert forall|j: int| 0 <= j < links_of(rooms@, cfg).len() implies has_id(out@, rooms@[(#[trigger] links_of(rooms@, cfg)[j]).room as int].id) by {
                            let w = choose|w: int| 0 <= w < before.len() && (#[trigger] before[w]).id == rooms@[links_of(rooms@, cfg)[j].room as int].id;
                            assert(out@[w] == before[w]);
                        }
                        let p = choose|p: int| 0 <= p < q && linked(rooms@, #[trigger] before[p].config as int, before[q].config as int);
                        assert(out@[p] == before[p]);
                    } else if q == before.len() {
                        assert(linked(rooms@, out@[pos as int].config as int, out@[q].config as int)) by {
                            assert(links_of(rooms@, r as int)[k as int].room == c);
                        }
                    }
                }
            }
        } else {
            proof {
                let w = found->Some_0 as int;
                assert(out@[w].id == rooms@[c as int].id);
            }
        }
        k += 1;
    }
    proof {
        assert(closed_at(out@, rooms@, pos as int)) by {
            assert forall|j: int| 0 <= j < links_of(rooms@, r as int).len() implies has_id(out@, rooms@[(#[trigger] links_of(rooms@, r as int)[j]).room as int].id) by {
                assert(targets@[j] == links_of(rooms@, r as int)[j]);
            }
        }
    }
    Ok(pos)
}

} // verus!
