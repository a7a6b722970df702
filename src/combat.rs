//! The player's own actions, healing, projectiles and the per-frame timers.
use vstd::prelude::*;
use vstd::string::*;

use crate::ai::{within_reach, PLAYER_RELOAD};
use crate::doors::SoundEvent;
use crate::entity::{Ball, Enemy, Health, Item, MoveAction, Phrase, Player, Reload, Velocity};
use crate::geom::{
    in_room, Position, abs, div_toward_zero, div_trunc, normalize_or_zero, normalized, Form, Vec2,
    BALL_RADIUS, FORM_MAX, ROOM_HEIGHT, ROOM_WIDTH, UNIT, WALL_SIZE,
};
use crate::motion::MAX_DT;

verus! {

/// Milliseconds of uninterrupted low health after which the player heals.
pub const HEAL_TIME: i64 = 5000;

/// Speed of a projectile, in length units per second per unit of direction.
pub const BALL_SPEED: i64 = 1750;

/// Shapes of the player: sneaking, walking openly, and fallen.
pub const PLAYER_WIDE: i64 = 37_500;

pub const PLAYER_NARROW: i64 = 25_000;

pub const PLAYER_TALL: i64 = 37_500;

pub const PLAYER_FALLEN: i64 = 22_500;

/// Everything the input collaborator hands over for one frame.
#[derive(Clone, Copy, Debug)]
pub struct PlayerInput {
    /// One step per axis, each in -1..=1.
    pub move_direction: (i32, i32),
    /// The point the player looks at, in room coordinates.
    pub aim: Vec2,
    pub toggle_stealth: bool,
    pub attack: bool,
    pub interact: bool,
    pub restart: bool,
}

pub open spec fn input_wf(input: PlayerInput) -> bool {
    &&& -1 <= input.move_direction.0 <= 1
    &&& -1 <= input.move_direction.1 <= 1
    &&& input.aim.wf()
}

pub open spec fn player_wf(player: Player) -> bool {
    &&& player.body.wf()
    &&& 0 <= player.reload.0 <= PLAYER_RELOAD
    &&& 0 < player.heal_time <= HEAL_TIME
    &&& player.health == Health::Full ==> player.heal_time == HEAL_TIME
}

/// Health and heal timer after a frame of `dt` milliseconds: low health
/// counts the timer down and turns full when it runs out.
pub open spec fn healed(health: Health, heal_time: int, dt: int) -> (Health, int) {
    if health == Health::Low {
        if heal_time - dt <= 0 {
            (Health::Full, HEAL_TIME as int)
        } else {
            (Health::Low, heal_time - dt)
        }
    } else {
        (health, heal_time)
    }
}

/// Health law: a hit moves only Full to Low and Low to Dead, and Dead is
/// final; healing moves only Low to Full, and only once the time spent low
/// (`HEAL_TIME - heal_time` before the frame, plus `dt`) reaches `HEAL_TIME`.
pub proof fn lemma_health_transitions(h: Health, heal_time: int, dt: int)
    ensures
        h == Health::Dead ==> h.decreased() == Health::Dead && healed(h, heal_time, dt).0
            == Health::Dead,
        h.decreased() != h ==> (h == Health::Full && h.decreased() == Health::Low) || (h
            == Health::Low && h.decreased() == Health::Dead),
        h.decreased() != Health::Full,
        healed(h, heal_time, dt).0 != h ==> h == Health::Low && healed(h, heal_time, dt).0
            == Health::Full && (HEAL_TIME - heal_time) + dt >= HEAL_TIME,
{
}

/// Where a projectile thrown from `at` along `sight` (of length `UNIT`)
/// starts: at the thrower's edge, `reach` further along.
pub open spec fn throw_start(at: Vec2, sight: (int, int), reach: int) -> Vec2 {
    Vec2 {
        x: (at.x + div_trunc(sight.0 * reach, UNIT as int)) as i64,
        y: (at.y + div_trunc(sight.1 * reach, UNIT as int)) as i64,
    }
}

/// The player's form for a stealth setting.
pub open spec fn player_form(visible: bool) -> Form {
    if visible {
        Form::Rect { width: PLAYER_NARROW, height: PLAYER_TALL }
    } else {
        Form::Rect { width: PLAYER_WIDE, height: PLAYER_TALL }
    }
}

/// The player's stealth setting after this frame's input.
pub open spec fn visible_after(p: Player, input: PlayerInput) -> bool {
    if input.toggle_stealth {
        !p.visible
    } else {
        p.visible
    }
}

/// The player's form after this frame's input.
pub open spec fn form_after(p: Player, input: PlayerInput) -> Form {
    if input.toggle_stealth {
        player_form(visible_after(p, input))
    } else {
        p.body.form
    }
}

/// Where the player looks this frame, of length `UNIT` or zero.
pub open spec fn aim_of(p: Player, input: PlayerInput) -> (int, int) {
    normalized(input.aim.x - p.body.position.0.x, input.aim.y - p.body.position.0.y)
}

/// The living player throws this frame: asked to, walking openly, reloaded,
/// holding a vegetable, and with room for one more projectile.
pub open spec fn throws(p: Player, in_flight: int, input: PlayerInput) -> bool {
    &&& p.health != Health::Dead
    &&& input.attack
    &&& visible_after(p, input)
    &&& p.reload.0 == 0
    &&& p.item is Vegetable
    &&& in_flight < MAX_BALLS
}

/// The projectile the player throws this frame.
pub open spec fn thrown_ball(p: Player, input: PlayerInput) -> Ball {
    let sight = aim_of(p, input);
    Ball {
        position: Position(
            throw_start(p.body.position.0, sight, form_after(p, input).extent(sight.0, sight.1)),
        ),
        velocity: Velocity(
            Vec2 { x: (sight.0 * BALL_SPEED) as i64, y: (sight.1 * BALL_SPEED) as i64 },
        ),
        room: p.body.room,
        item: p.item,
    }
}

/// One frame of the player's own actions: the move it asks for, the stealth
/// toggle, an attack (a thrown vegetable, or a remark that it cannot attack
/// with what it holds), and healing.
pub fn player_action(player: &mut Player, balls: &mut Vec<Ball>, input: &PlayerInput, dt: i64) -> (r: (
    MoveAction,
    Option<SoundEvent>,
))
    requires
        player_wf(*old(player)),
        in_room(old(player).body.position.0),
        input_wf(*input),
        0 <= dt <= MAX_DT,
    ensures
        player_wf(*final(player)),
        final(balls).len() <= old(balls).len() + 1,
        forall|i: int|
            0 <= i < old(balls).len() ==> #[trigger] final(balls)@[i] == old(balls)@[i],
        forall|i: int|
            old(balls).len() <= i < final(balls).len() ==> ball_wf(#[trigger] final(balls)@[i])
                && abs(final(balls)@[i].position.0.x as int) <= 2 * ROOM_WIDTH && abs(
                final(balls)@[i].position.0.y as int,
            ) <= 2 * ROOM_WIDTH,
        crate::motion::action_wf(r.0),
        final(player).body.position == old(player).body.position,
        final(player).body.room == old(player).body.room,
        final(player).body.speed == old(player).body.speed,
        final(player).body.sight == old(player).body.sight,
        final(player).item == old(player).item,
        old(player).health == Health::Dead ==> final(player).health == Health::Dead
            && r.0.move_direction == (0i32, 0i32) && r.0.sight == (Vec2 { x: 1000, y: 0 })
            && final(balls)@ == old(balls)@ && final(player).body.phrase == old(player).body.phrase
            && final(player).reload == old(player).reload && final(player).visible
            == old(player).visible && final(player).heal_time == old(player).heal_time && r.1 is None
            && final(player).body.form == (Form::Rect { width: PLAYER_WIDE, height: PLAYER_FALLEN }),
        final(balls)@ == (if throws(*old(player), old(balls).len() as int, *input) {
            old(balls)@.push(thrown_ball(*old(player), *input))
        } else {
            old(balls)@
        }),
        old(player).health != Health::Dead ==> {
            let visible = if input.toggle_stealth {
                !old(player).visible
            } else {
                old(player).visible
            };
            let sight = normalized(
                input.aim.x - old(player).body.position.0.x,
                input.aim.y - old(player).body.position.0.y,
            );
            let throws = input.attack && visible && old(player).reload.0 == 0
                && old(player).item is Vegetable && old(balls).len() < MAX_BALLS;
            &&& final(player).visible == visible
            &&& r.0.move_direction == input.move_direction
            &&& (r.0.sight.x as int, r.0.sight.y as int) == sight
            &&& input.toggle_stealth ==> final(player).body.form == player_form(visible)
            &&& !input.toggle_stealth ==> final(player).body.form == old(player).body.form
            &&& (final(player).health, final(player).heal_time as int) == healed(
                old(player).health,
                old(player).heal_time as int,
                dt as int,
            )
            &&& throws ==> final(balls)@ == old(balls)@.push(
                Ball {
                    position: Position(
                        throw_start(
                            old(player).body.position.0,
                            sight,
                            final(player).body.form.extent(sight.0, sight.1),
                        ),
                    ),
                    velocity: Velocity(
                        Vec2 { x: (sight.0 * BALL_SPEED) as i64, y: (sight.1 * BALL_SPEED) as i64 },
                    ),
                    room: old(player).body.room,
                    item: old(player).item,
                },
            ) && final(player).reload.0 == PLAYER_RELOAD && r.1 == Some(SoundEvent::Throw)
            &&& !throws ==> final(balls)@ == old(balls)@ && final(player).reload
                == old(player).reload && r.1 is None
            &&& input.attack && visible && old(player).reload.0 == 0 && !(old(player).item is Vegetable) ==> (final(player).body.phrase matches Some(p) && p.text@ == "I can't attack with "@ + old(player).item.name_spec())
        },
{
    if player.health == Health::Dead {
        player.body.form = Form::Rect { width: PLAYER_WIDE, height: PLAYER_FALLEN };
        return (MoveAction::default(), None);
    }
    let pos = player.body.position.0;
    let sight = normalize_or_zero(Vec2 { x: input.aim.x - pos.x, y: input.aim.y - pos.y });
    let move_action = MoveAction { move_direction: input.move_direction, sight };
    if input.toggle_stealth {
        if player.visible {
            player.visible = false;
            player.body.form = Form::Rect { width: PLAYER_WIDE, height: PLAYER_TALL };
        } else {
            player.visible = true;
            player.body.form = Form::Rect { width: PLAYER_NARROW, height: PLAYER_TALL };
        }
    }
    let mut sound = None;
    if input.attack && player.visible && player.reload.0 == 0 {
        match &player.item {
            Item::Vegetable { .. } => if balls.len() < MAX_BALLS {
                player.reload = Reload(PLAYER_RELOAD);
                let reach = player.body.form.direction_len(sight);
                proof {
                    assert(abs(sight.x * reach) <= UNIT * (2 * FORM_MAX)) by (nonlinear_arith)
                        requires
                            abs(sight.x as int) <= UNIT,
                            0 <= reach <= 2 * FORM_MAX,
                    ;
                    assert(abs(sight.y * reach) <= UNIT * (2 * FORM_MAX)) by (nonlinear_arith)
                        requires
                            abs(sight.y as int) <= UNIT,
                            0 <= reach <= 2 * FORM_MAX,
                    ;
                    crate::geom::lemma_div_trunc_bound(sight.x * reach, UNIT as int, 2 * FORM_MAX);
                    crate::geom::lemma_div_trunc_bound(sight.y * reach, UNIT as int, 2 * FORM_MAX);
                }
                balls.push(
                    Ball {
                        position: Position(
                            Vec2 {
                                x: pos.x + div_toward_zero(sight.x * reach, UNIT),
                                y: pos.y + div_toward_zero(sight.y * reach, UNIT),
                            },
                        ),
                        velocity: Velocity(
                            Vec2 { x: sight.x * BALL_SPEED, y: sight.y * BALL_SPEED },
                        ),
                        room: player.body.room,
                        item: player.item.clone(),
                    },
                );
                sound = Some(SoundEvent::Throw);
            },
            _ => {
                let text = String::from_str("I can't attack with ").concat(
                    player.item.name().as_str(),
                );
                player.body.phrase = Some(Phrase { text, time: 3000 });
            },
        }
    }
    if player.health == Health::Low {
        player.heal_time = player.heal_time - dt;
        if player.heal_time <= 0 {
            player.heal_time = HEAL_TIME;
            player.health = Health::Full;
        }
    }
    (move_action, sound)
}

/// Most projectiles in flight at once.
pub const MAX_BALLS: usize = 10_000;

/// The projectile moved by its velocity over `dt` milliseconds.
pub open spec fn advanced(b: Ball, dt: int) -> Ball {
    Ball {
        position: Position(
            Vec2 {
                x: (b.position.0.x + div_trunc(b.velocity.0.x * dt, 1000)) as i64,
                y: (b.position.0.y + div_trunc(b.velocity.0.y * dt, 1000)) as i64,
            },
        ),
        ..b
    }
}

/// A projectile at `b` strikes the live enemy `e` of its room.
pub open spec fn strikes(b: Ball, e: Enemy) -> bool {
    &&& b.room == e.body.room
    &&& e.health != Health::Dead
    &&& within_reach(
        e.body.position.0,
        e.body.form,
        b.position.0,
        Form::Circle { radius: BALL_RADIUS },
        0,
    )
}

/// The first enemy from index `j` on that the projectile strikes, or the
/// number of enemies when none is struck.
pub open spec fn first_struck(b: Ball, enemies: Seq<Enemy>, j: int) -> int
    decreases enemies.len() - j,
{
    if j >= enemies.len() {
        enemies.len() as int
    } else if strikes(b, enemies[j]) {
        j
    } else {
        first_struck(b, enemies, j + 1)
    }
}

/// The projectile has left the room's interior.
pub open spec fn out_of_room(p: Vec2) -> bool {
    p.x < WALL_SIZE + BALL_RADIUS || p.x > ROOM_WIDTH - WALL_SIZE - BALL_RADIUS || p.y
        < WALL_SIZE + BALL_RADIUS || p.y > ROOM_HEIGHT - WALL_SIZE - BALL_RADIUS
}

/// One projectile's frame, after those before it: it strikes the first live
/// enemy it touches and is gone, or is gone outside the room, or flies on.
pub open spec fn ball_step(kept: Seq<Ball>, enemies: Seq<Enemy>, b: Ball, dt: int) -> (
    Seq<Ball>,
    Seq<Enemy>,
) {
    let a = advanced(b, dt);
    let h = first_struck(a, enemies, 0);
    if h < enemies.len() {
        (kept, enemies.update(h, Enemy { health: enemies[h].health.decreased(), ..enemies[h] }))
    } else if out_of_room(a.position.0) {
        (kept, enemies)
    } else {
        (kept.push(a), enemies)
    }
}

/// The projectiles still in flight, and the enemies, after a frame in which
/// the projectiles move in order.
pub open spec fn flights(balls: Seq<Ball>, enemies: Seq<Enemy>, dt: int) -> (
    Seq<Ball>,
    Seq<Enemy>,
)
    decreases balls.len(),
{
    if balls.len() == 0 {
        (Seq::empty(), enemies)
    } else {
        let before = flights(balls.drop_last(), enemies, dt);
        ball_step(before.0, before.1, balls.last(), dt)
    }
}

pub open spec fn ball_wf(b: Ball) -> bool {
    &&& b.position.0.wf()
    &&& abs(b.velocity.0.x as int) <= BALL_SPEED * UNIT
    &&& abs(b.velocity.0.y as int) <= BALL_SPEED * UNIT
}

pub open spec fn enemies_wf(enemies: Seq<Enemy>) -> bool {
    forall|i: int| 0 <= i < enemies.len() ==> crate::ai::enemy_wf(#[trigger] enemies[i])
}

proof fn lemma_advanced_wf(b: Ball, dt: int)
    requires
        ball_wf(b),
        0 <= dt <= MAX_DT,
        abs(b.position.0.x as int) <= 2 * ROOM_WIDTH,
        abs(b.position.0.y as int) <= 2 * ROOM_WIDTH,
    ensures
        advanced(b, dt).position.0.wf(),
{
    let vx = b.velocity.0.x as int;
    let vy = b.velocity.0.y as int;
    assert(abs(vx * dt) <= 1000 * 200_000_000) by (nonlinear_arith)
        requires
            abs(vx) <= BALL_SPEED * UNIT,
            0 <= dt <= MAX_DT,
    ;
    assert(abs(vy * dt) <= 1000 * 200_000_000) by (nonlinear_arith)
        requires
            abs(vy) <= BALL_SPEED * UNIT,
            0 <= dt <= MAX_DT,
    ;
    crate::geom::lemma_div_trunc_bound(vx * dt, 1000, 200_000_000);
    crate::geom::lemma_div_trunc_bound(vy * dt, 1000, 200_000_000);
}

/// Whether the projectile at `b` strikes enemy `e`.
pub fn ball_strikes(b: &Ball, e: &Enemy) -> (r: bool)
    requires
        b.position.0.wf(),
        crate::ai::enemy_wf(*e),
    ensures
        r == strikes(*b, *e),
{
    b.room == e.body.room && e.health != Health::Dead && crate::ai::reaches(
        e.body.position.0,
        &e.body.form,
        b.position.0,
        &Form::Circle { radius: BALL_RADIUS },
        0,
    )
}

/// Moves every projectile, lets each strike the first live enemy of its room
/// it touches, and removes in the same frame each one that struck or left
/// the room. A splat sound is made for each removal.
pub fn update_balls(
    balls: &mut Vec<Ball>,
    enemies: &mut Vec<Enemy>,
    dt: i64,
    sounds: &mut Vec<SoundEvent>,
)
    requires
        old(balls).len() <= MAX_BALLS,
        forall|i: int| 0 <= i < old(balls).len() ==> ball_wf(#[trigger] old(balls)@[i]),
        forall|i: int| 0 <= i < old(balls).len() ==> abs((#[trigger] old(balls)@[i]).position.0.x as int) <= 2 * ROOM_WIDTH && abs(old(balls)@[i].position.0.y as int) <= 2 * ROOM_WIDTH,
        enemies_wf(old(enemies)@),
        0 <= dt <= MAX_DT,
    ensures
        (final(balls)@, final(enemies)@) == flights(old(balls)@, old(enemies)@, dt as int),
        final(enemies).len() == old(enemies).len(),
        enemies_wf(final(enemies)@),
        final(balls).len() <= old(balls).len(),
        final(sounds)@ == old(sounds)@ + Seq::new(
            (old(balls).len() - final(balls).len()) as nat,
            |i: int| SoundEvent::Splat,
        ),
        forall|i: int| 0 <= i < final(balls).len() ==> ball_wf(#[trigger] final(balls)@[i]),
        forall|i: int| 0 <= i < final(balls).len() ==> !out_of_room(#[trigger] final(balls)@[i].position.0),
{
    let mut kept: Vec<Ball> = Vec::new();
    let n = balls.len();
    let mut i: usize = 0;
    while i < n
        invariant
            n == balls.len(),
            balls@ == old(balls)@,
            0 <= i <= n,
            0 <= dt <= MAX_DT,
            forall|q: int| 0 <= q < n ==> ball_wf(#[trigger] balls@[q]),
            forall|q: int| 0 <= q < n ==> abs((#[trigger] balls@[q]).position.0.x as int) <= 2 * ROOM_WIDTH && abs(balls@[q].position.0.y as int) <= 2 * ROOM_WIDTH,
            (kept@, enemies@) == flights(balls@.take(i as int), old(enemies)@, dt as int),
            enemies_wf(enemies@),
            enemies.len() == old(enemies).len(),
            kept.len() <= i,
            sounds@ == old(sounds)@ + Seq::new((i - kept.len()) as nat, |q: int| SoundEvent::Splat),
            forall|q: int| 0 <= q < kept.len() ==> ball_wf(#[trigger] kept@[q]),
            forall|q: int| 0 <= q < kept.len() ==> !out_of_room(#[trigger] kept@[q].position.0),
        decreases n - i,
    {
        let b = &balls[i];
        proof {
            lemma_advanced_wf(*b, dt as int);
            assert(balls@.take(i + 1).drop_last() == balls@.take(i as int));
            assert(balls@.take(i + 1).last() == balls@[i as int]);
            assert(abs(b.velocity.0.x * dt) <= 1000 * 200_000_000) by (nonlinear_arith)
                requires
                    abs(b.velocity.0.x as int) <= BALL_SPEED * UNIT,
                    0 <= dt <= MAX_DT,
            ;
            assert(abs(b.velocity.0.y * dt) <= 1000 * 200_000_000) by (nonlinear_arith)
                requires
                    abs(b.velocity.0.y as int) <= BALL_SPEED * UNIT,
                    0 <= dt <= MAX_DT,
            ;
        }
        let moved = Ball {
            position: Position(
                Vec2 {
                    x: b.position.0.x + div_toward_zero(b.velocity.0.x * dt, 1000),
                    y: b.position.0.y + div_toward_zero(b.velocity.0.y * dt, 1000),
                },
            ),
            velocity: b.velocity,
            room: b.room,
            item: b.item.clone(),
        };
        assert(moved == advanced(balls@[i as int], dt as int));
        let mut j: usize = 0;
        while j < enemies.len()
            invariant
                0 <= j <= enemies.len(),
                moved.position.0.wf(),
                enemies_wf(enemies@),
                first_struck(moved, enemies@, 0) == first_struck(moved, enemies@, j as int),
            ensures
                first_struck(moved, enemies@, 0) == j,
            decreases enemies.len() - j,
        {
            if ball_strikes(&moved, &enemies[j]) {
                break;
            }
            j += 1;
        }
        if j < enemies.len() {
            let h = enemies[j].health.lowered();
            enemies[j].health = h;
            sounds.push(SoundEvent::Splat);
            assert(sounds@ =~= old(sounds)@ + Seq::new((i + 1 - kept.len()) as nat, |q: int| SoundEvent::Splat));
        } else if moved.position.0.x < WALL_SIZE + BALL_RADIUS || moved.position.0.x > ROOM_WIDTH
            - WALL_SIZE - BALL_RADIUS || moved.position.0.y < WALL_SIZE + BALL_RADIUS
            || moved.position.0.y > ROOM_HEIGHT - WALL_SIZE - BALL_RADIUS {
            sounds.push(SoundEvent::Splat);
            assert(sounds@ =~= old(sounds)@ + Seq::new((i + 1 - kept.len()) as nat, |q: int| SoundEvent::Splat));
        } else {
            kept.push(moved);
        }
        i += 1;
    }
    proof {
        assert(balls@.take(n as int) == balls@);
    }
    *balls = kept;
}

proof fn lemma_first_struck_range(b: Ball, enemies: Seq<Enemy>, j: int)
    requires
        0 <= j <= enemies.len(),
    ensures
        j <= first_struck(b, enemies, j) <= enemies.len(),
    decreases enemies.len() - j,
{
    if j < enemies.len() {
        lemma_first_struck_range(b, enemies, j + 1);
    }
}

proof fn lemma_none_struck(b: Ball, enemies: Seq<Enemy>, j: int)
    requires
        0 <= j,
        first_struck(b, enemies, j) == enemies.len(),
    ensures
        forall|k: int| j <= k < enemies.len() ==> !strikes(b, #[trigger] enemies[k]),
    decreases enemies.len() - j,
{
    if j < enemies.len() {
        lemma_none_struck(b, enemies, j + 1);
    }
}

/// Projectiles change nothing of the enemies but their health.
pub proof fn lemma_flights_keep_bodies(balls: Seq<Ball>, enemies: Seq<Enemy>, dt: int)
    ensures
        flights(balls, enemies, dt).1.len() == enemies.len(),
        forall|k: int|
            0 <= k < enemies.len() ==> (#[trigger] flights(balls, enemies, dt).1[k]) == (Enemy {
                health: flights(balls, enemies, dt).1[k].health,
                ..enemies[k]
            }),
    decreases balls.len(),
{
    if balls.len() > 0 {
        lemma_flights_keep_bodies(balls.drop_last(), enemies, dt);
        let before = flights(balls.drop_last(), enemies, dt);
        let a = advanced(balls.last(), dt);
        lemma_first_struck_range(a, before.1, 0);
    }
}

/// Once every enemy is dead, projectiles fly through them all.
pub proof fn lemma_flights_spare_the_dead(balls: Seq<Ball>, enemies: Seq<Enemy>, dt: int)
    requires
        forall|k: int| 0 <= k < enemies.len() ==> (#[trigger] enemies[k]).health == Health::Dead,
    ensures
        flights(balls, enemies, dt).1 == enemies,
    decreases balls.len(),
{
    if balls.len() > 0 {
        lemma_flights_spare_the_dead(balls.drop_last(), enemies, dt);
        let a = advanced(balls.last(), dt);
        lemma_first_struck_range(a, enemies, 0);
        lemma_all_spared(a, enemies, 0);
    }
}

proof fn lemma_all_spared(b: Ball, enemies: Seq<Enemy>, j: int)
    requires
        0 <= j <= enemies.len(),
        forall|k: int| 0 <= k < enemies.len() ==> (#[trigger] enemies[k]).health == Health::Dead,
    ensures
        first_struck(b, enemies, j) == enemies.len(),
    decreases enemies.len() - j,
{
    if j < enemies.len() {
        lemma_all_spared(b, enemies, j + 1);
    }
}

/// No projectile of `kept` is outside the room or touches a live enemy of
/// `enemies` in its room.
pub open spec fn all_clear(kept: Seq<Ball>, enemies: Seq<Enemy>) -> bool {
    &&& forall|i: int| 0 <= i < kept.len() ==> !out_of_room(#[trigger] kept[i].position.0)
    &&& forall|i: int, k: int|
        0 <= i < kept.len() && 0 <= k < enemies.len() ==> !strikes(
            #[trigger] kept[i],
            #[trigger] enemies[k],
        )
}

/// Projectile law: after a frame, every projectile still in flight is inside
/// the room and touches no enemy of its room that is alive; each one that
/// struck an enemy or left the room is gone in that same frame.
pub proof fn lemma_flights_clear(balls: Seq<Ball>, enemies: Seq<Enemy>, dt: int)
    ensures
        all_clear(flights(balls, enemies, dt).0, flights(balls, enemies, dt).1),
    decreases balls.len(),
{
    if balls.len() > 0 {
        lemma_flights_clear(balls.drop_last(), enemies, dt);
        let before = flights(balls.drop_last(), enemies, dt);
        let a = advanced(balls.last(), dt);
        let h = first_struck(a, before.1, 0);
        lemma_first_struck_range(a, before.1, 0);
        let res = flights(balls, enemies, dt);
        assert(res == ball_step(before.0, before.1, balls.last(), dt));
        let kept = res.0;
        let after = res.1;
        if h < before.1.len() {
            assert(kept == before.0);
            assert(after.len() == before.1.len());
            assert forall|i: int, k: int|
                0 <= i < kept.len() && 0 <= k < after.len() implies !strikes(
                #[trigger] kept[i],
                #[trigger] after[k],
            ) by {
                assert(!strikes(before.0[i], before.1[k]));
                if k != h {
                    assert(after[k] == before.1[k]);
                }
            }
        } else if !out_of_room(a.position.0) {
            lemma_none_struck(a, before.1, 0);
            assert(after == before.1);
            assert forall|i: int, k: int|
                0 <= i < kept.len() && 0 <= k < after.len() implies !strikes(
                #[trigger] kept[i],
                #[trigger] after[k],
            ) by {
                if i < before.0.len() {
                    assert(kept[i] == before.0[i]);
                    assert(!strikes(before.0[i], before.1[k]));
                } else {
                    assert(kept[i] == a);
                }
            }
            assert forall|i: int| 0 <= i < kept.len() implies !out_of_room(
                #[trigger] kept[i].position.0,
            ) by {
                if i < before.0.len() {
                    assert(kept[i] == before.0[i]);
                }
            }
        }
    }
}

} // verus!
