//! The simulated entities and their small state machines.
use vstd::prelude::*;
use vstd::string::*;

use crate::geom::{Form, Position, Vec2};

verus! {

/// Identifier of a room.
#[derive(Clone, Copy, Debug, PartialEq, Eq, Structural)]
pub struct Room(pub u8);

/// Room id that the entrance door leads to: the outside.
pub const OUTSIDE: u8 = 255;

/// Health of a combatant, which only ever steps down, but for the player's
/// own healing.
#[derive(Clone, Copy, Debug, PartialEq, Eq, Structural)]
pub enum Health {
    Full,
    Low,
    Dead,
}

impl Health {
    /// The state one hit leaves behind; `Dead` stays `Dead`.
    pub open spec fn decreased(self) -> Health {
        match self {
            Health::Full => Health::Low,
            Health::Low | Health::Dead => Health::Dead,
        }
    }

    pub fn lowered(self) -> (r: Health)
        ensures
            r == self.decreased(),
    {
        match self {
            Health::Full => Health::Low,
            Health::Low | Health::Dead => Health::Dead,
        }
    }

    pub fn decrease(&mut self)
        ensures
            *final(self) == old(self).decreased(),
    {
        *self = match self {
            Health::Full => Health::Low,
            Health::Low | Health::Dead => Health::Dead,
        };
    }
}

/// What the player holds, a crate offers, or a projectile carries.
#[derive(Debug)]
pub enum Item {
    Sword,
    Key,
    Vegetable { name: String, idx: usize },
}

impl Item {
    /// Items are equal when they are the same kind and, for vegetables, have
    /// the same name and index.
    pub open spec fn same(self, other: Item) -> bool {
        match (self, other) {
            (Item::Sword, Item::Sword) => true,
            (Item::Key, Item::Key) => true,
            (Item::Vegetable { name: a, idx: i }, Item::Vegetable { name: b, idx: j }) => a@ == b@
                && i == j,
            _ => false,
        }
    }

    pub open spec fn is_sword(self) -> bool {
        self is Sword
    }

    pub open spec fn is_key(self) -> bool {
        self is Key
    }

    /// The item's display name.
    pub open spec fn name_spec(self) -> Seq<char> {
        match self {
            Item::Sword => "sword"@,
            Item::Key => "key"@,
            Item::Vegetable { name, .. } => name@,
        }
    }

    pub fn name(&self) -> (r: String)
        ensures
            r@ == self.name_spec(),
    {
        match self {
            Item::Sword => String::from_str("sword"),
            Item::Key => String::from_str("key"),
            Item::Vegetable { name, .. } => name.clone(),
        }
    }

    pub fn is_sword_item(&self) -> (r: bool)
        ensures
            r == self.is_sword(),
    {
        match self {
            Item::Sword => true,
            _ => false,
        }
    }

    pub fn is_key_item(&self) -> (r: bool)
        ensures
            r == self.is_key(),
    {
        match self {
            Item::Key => true,
            _ => false,
        }
    }
}

impl Clone for Item {
    fn clone(&self) -> (r: Item)
        ensures
            r == *self,
    {
        match self {
            Item::Sword => Item::Sword,
            Item::Key => Item::Key,
            Item::Vegetable { name, idx } => Item::Vegetable { name: name.clone(), idx: *idx },
        }
    }
}

impl PartialEq for Item {
    fn eq(&self, other: &Item) -> (r: bool)
        ensures
            r == self.same(*other),
    {
        match (self, other) {
            (Item::Sword, Item::Sword) => true,
            (Item::Key, Item::Key) => true,
            (Item::Vegetable { name: a, idx: i }, Item::Vegetable { name: b, idx: j }) => {
                *i == *j && a.eq(b)
            },
            _ => false,
        }
    }
}

impl vstd::std_specs::cmp::PartialEqSpecImpl for Item {
    open spec fn obeys_eq_spec() -> bool {
        true
    }

    open spec fn eq_spec(&self, other: &Item) -> bool {
        self.same(*other)
    }
}

/// A cardinal direction; north is up the screen.
#[derive(Clone, Copy, Debug, PartialEq, Eq, Structural)]
pub enum Direction {
    North,
    South,
    East,
    West,
}

impl Direction {
    pub open spec fn opposite(self) -> Direction {
        match self {
            Direction::North => Direction::South,
            Direction::South => Direction::North,
            Direction::East => Direction::West,
            Direction::West => Direction::East,
        }
    }

    pub fn inverse(self) -> (r: Direction)
        ensures
            r == self.opposite(),
    {
        match self {
            Direction::North => Direction::South,
            Direction::South => Direction::North,
            Direction::East => Direction::West,
            Direction::West => Direction::East,
        }
    }
}

/// A door between two rooms, in the wall `direction` of room `from`.
#[derive(Clone, Copy, Debug)]
pub struct Door {
    pub direction: Direction,
    pub from: Room,
    pub to: Room,
    pub closed: bool,
    pub entrance: bool,
    /// Milliseconds left before the locked sound may play again.
    pub playing: i64,
}

impl Door {
    pub fn new(from: Room, to: Room, direction: Direction, closed: bool, entrance: bool) -> (r:
        Door)
        ensures
            r.from == from && r.to == to && r.direction == direction,
            r.closed == closed && r.entrance == entrance && r.playing == 0,
    {
        Door { direction, from, to, closed, entrance, playing: 0 }
    }

    /// The door as seen from `from`: the wall it is in and where it leads.
    pub open spec fn seen_from(self, from: Room) -> Option<(Direction, Room)> {
        if from == self.from {
            Some((self.direction, self.to))
        } else if from == self.to {
            Some((self.direction.opposite(), self.from))
        } else {
            None
        }
    }

    pub fn door_from(&self, from: &Room) -> (r: Option<(Direction, Room)>)
        ensures
            r == self.seen_from(*from),
    {
        if *from == self.from {
            Some((self.direction, self.to))
        } else if *from == self.to {
            Some((self.direction.inverse(), self.from))
        } else {
            None
        }
    }

    /// Doors are equal when they join the same two rooms, either way round.
    pub open spec fn joins_same(self, other: Door) -> bool {
        (self.from == other.from && self.to == other.to) || (self.from == other.to && self.to
            == other.from)
    }
}

/// A door seen from either of its rooms leads to the other one, through the
/// opposite wall.
pub proof fn lemma_door_reciprocity(door: Door)
    requires
        door.from != door.to,
    ensures
        door.seen_from(door.from) == Some((door.direction, door.to)),
        door.seen_from(door.to) == Some((door.direction.opposite(), door.from)),
        door.direction.opposite().opposite() == door.direction,
{
}

impl PartialEq for Door {
    fn eq(&self, other: &Door) -> (r: bool)
        ensures
            r == self.joins_same(*other),
    {
        (self.from == other.from && self.to == other.to) || (self.from == other.to && self.to
            == other.from)
    }
}

impl vstd::std_specs::cmp::PartialEqSpecImpl for Door {
    open spec fn obeys_eq_spec() -> bool {
        true
    }

    open spec fn eq_spec(&self, other: &Door) -> bool {
        self.joins_same(*other)
    }
}

/// The speed counter of a body, in steps per axis.
#[derive(Clone, Copy, Debug, PartialEq, Eq, Structural)]
pub struct Speed {
    pub x: i32,
    pub y: i32,
}

impl Default for Speed {
    fn default() -> (r: Speed)
        ensures
            r.x == 0 && r.y == 0,
    {
        Speed { x: 0, y: 0 }
    }
}

/// Direction a body looks at, of length `UNIT` or zero.
#[derive(Clone, Copy, Debug, PartialEq, Eq, Structural)]
pub struct Sight(pub Vec2);

/// Velocity of a projectile, in length units per second.
#[derive(Clone, Copy, Debug, PartialEq, Eq, Structural)]
pub struct Velocity(pub Vec2);

/// Patrol anchor of an enemy.
#[derive(Clone, Copy, Debug, PartialEq, Eq, Structural)]
pub struct Post(pub Vec2);

/// Milliseconds until the next attack is allowed.
#[derive(Clone, Copy, Debug, PartialEq, Eq, Structural)]
pub struct Reload(pub i64);

/// A speech bubble and the milliseconds it has left.
#[derive(Debug)]
pub struct Phrase {
    pub text: String,
    pub time: i64,
}

impl Phrase {
    pub fn new(text: &str, time: i64) -> (r: Phrase)
        ensures
            r.text@ == text@ && r.time == time,
    {
        Phrase { text: String::from_str(text), time }
    }

    pub open spec fn says(self, text: Seq<char>, time: int) -> bool {
        self.text@ == text && self.time == time
    }
}

/// Physical presence of a mobile actor.
#[derive(Debug)]
pub struct Body {
    pub position: Position,
    pub form: Form,
    pub sight: Sight,
    pub speed: Speed,
    pub room: Room,
    pub phrase: Option<Phrase>,
}

/// Number of speed steps per axis in either direction.
pub const SPEED_STEPS: i32 = 10;

impl Body {
    pub open spec fn wf(self) -> bool {
        &&& self.position.0.wf()
        &&& self.form.wf()
        &&& -SPEED_STEPS <= self.speed.x <= SPEED_STEPS
        &&& -SPEED_STEPS <= self.speed.y <= SPEED_STEPS
    }
}

#[derive(Debug)]
pub struct Player {
    pub body: Body,
    pub reload: Reload,
    pub health: Health,
    pub item: Item,
    /// Whether the player walks openly; off means sneaking.
    pub visible: bool,
    /// Milliseconds of low health left before the player heals.
    pub heal_time: i64,
}

/// Perception state of an enemy.
#[derive(Clone, Copy, Debug, PartialEq, Eq, Structural)]
pub enum EnemyState {
    /// In contact with a target at this position, of this shape.
    Fight(Vec2, Form),
    /// Contact lost at this position, this many milliseconds ago.
    LastSeen(Vec2, i64),
    Idle,
}

impl Default for EnemyState {
    fn default() -> (r: EnemyState)
        ensures
            r == EnemyState::Idle,
    {
        EnemyState::Idle
    }
}

#[derive(Debug)]
pub struct Enemy {
    pub body: Body,
    pub reload: Reload,
    pub state: EnemyState,
    pub post: Post,
    pub health: Health,
}

/// A thrown projectile.
#[derive(Debug)]
pub struct Ball {
    pub position: Position,
    pub velocity: Velocity,
    pub room: Room,
    pub item: Item,
}

/// Half-size of an item crate.
pub const CRATE_SIZE: i64 = 37_500;

/// A static pickup that swaps its item with the player's.
#[derive(Debug)]
pub struct ItemCrate {
    pub item: Item,
    pub position: Position,
    pub form: Form,
    pub room: Room,
}

impl ItemCrate {
    pub fn new(item: Item, position: Position, room: Room) -> (r: ItemCrate)
        ensures
            r.item == item && r.position == position && r.room == room,
            r.form == (Form::Rect { width: CRATE_SIZE, height: CRATE_SIZE }),
    {
        ItemCrate { item, position, room, form: Form::Rect { width: CRATE_SIZE, height: CRATE_SIZE } }
    }
}

/// What a body is asked to do in one frame: a step per axis and a direction
/// to look at.
#[derive(Clone, Copy, Debug)]
pub struct MoveAction {
    pub move_direction: (i32, i32),
    pub sight: Vec2,
}

impl Default for MoveAction {
    fn default() -> (r: MoveAction)
        ensures
            r.move_direction == (0i32, 0i32),
            r.sight == (Vec2 { x: 1000, y: 0 }),
    {
        MoveAction { move_direction: (0, 0), sight: Vec2 { x: 1000, y: 0 } }
    }
}

impl Clone for Phrase {
    fn clone(&self) -> (r: Phrase)
        ensures
            r == *self,
    {
        Phrase { text: self.text.clone(), time: self.time }
    }
}

impl Clone for Body {
    fn clone(&self) -> (r: Body)
        ensures
            r == *self,
    {
        let phrase = match &self.phrase {
            Some(p) => Some(p.clone()),
            None => None,
        };
        Body {
            position: self.position,
            form: self.form,
            sight: self.sight,
            speed: self.speed,
            room: self.room,
            phrase,
        }
    }
}

impl Clone for Player {
    fn clone(&self) -> (r: Player)
        ensures
            r == *self,
    {
        Player {
            body: self.body.clone(),
            reload: self.reload,
            health: self.health,
            item: self.item.clone(),
            visible: self.visible,
            heal_time: self.heal_time,
        }
    }
}

impl Clone for Enemy {
    fn clone(&self) -> (r: Enemy)
        ensures
            r == *self,
    {
        Enemy {
            body: self.body.clone(),
            reload: self.reload,
            state: self.state,
            post: self.post,
            health: self.health,
        }
    }
}

impl Clone for Ball {
    fn clone(&self) -> (r: Ball)
        ensures
            r == *self,
    {
        Ball {
            position: self.position,
            velocity: self.velocity,
            room: self.room,
            item: self.item.clone(),
        }
    }
}

impl Clone for ItemCrate {
    fn clone(&self) -> (r: ItemCrate)
        ensures
            r == *self,
    {
        ItemCrate {
            item: self.item.clone(),
            position: self.position,
            form: self.form,
            room: self.room,
        }
    }
}

} // verus!
