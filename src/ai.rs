//! Enemy perception: the Idle / Fight / LastSeen state machine, what each
//! state asks the body to do, and the enemy's melee.
use vstd::prelude::*;
use vstd::string::*;

use crate::entity::{Body, Enemy, EnemyState, Health, MoveAction, Phrase, Player, Reload};
use crate::geom::{length, normalize_or_zero, normalized, Form, Vec2, SLASH_LEN};
use crate::motion::MAX_DT;

verus! {

/// Milliseconds after which a lost target is forgotten.
pub const FORGET_TIME: i64 = 5000;

/// Milliseconds between two attacks.
pub const PLAYER_RELOAD: i64 = 500;

/// Below this many milliseconds of reload an enemy shows its narrow stance.
pub const STANCE_TIME: i64 = 200;

/// Shapes of an enemy: ready, winding up, and fallen.
pub const ENEMY_WIDTH: i64 = 25_000;

pub const ENEMY_WIDE: i64 = 28_750;

pub const ENEMY_HEIGHT: i64 = 42_500;

pub const FALLEN_HEIGHT: i64 = 22_500;

pub open spec fn state_wf(state: EnemyState) -> bool {
    match state {
        EnemyState::Fight(p, f) => p.wf() && f.wf(),
        EnemyState::LastSeen(p, t) => p.wf() && 0 <= t <= MAX_DT,
        EnemyState::Idle => true,
    }
}

/// The perception state after one frame of `dt` milliseconds, given whether
/// the target is in contact and where it stands.
pub open spec fn next_state(
    state: EnemyState,
    contact: bool,
    target: Vec2,
    target_form: Form,
    dt: int,
) -> EnemyState {
    if contact {
        EnemyState::Fight(target, target_form)
    } else {
        match state {
            EnemyState::Fight(p, _) => EnemyState::LastSeen(p, dt as i64),
            EnemyState::LastSeen(p, t) => if t + dt > FORGET_TIME {
                EnemyState::Idle
            } else {
                EnemyState::LastSeen(p, (t + dt) as i64)
            },
            EnemyState::Idle => EnemyState::Idle,
        }
    }
}

/// The remark an enemy makes on a transition, with its display time.
pub open spec fn remark(state: EnemyState, contact: bool, dt: int) -> Option<(Seq<char>, int)> {
    if contact {
        if state is Fight {
            None
        } else {
            Some(("Here you are!"@, 1000))
        }
    } else {
        match state {
            EnemyState::Fight(_, _) => Some(("Where is he?"@, 2000)),
            EnemyState::LastSeen(_, t) => if t + dt > FORGET_TIME {
                Some(("Must've been wind"@, 2000))
            } else {
                None
            },
            EnemyState::Idle => None,
        }
    }
}

pub open spec fn phrase_matches(p: Option<Phrase>, r: Option<(Seq<char>, int)>) -> bool {
    match (p, r) {
        (None, None) => true,
        (Some(p), Some((text, time))) => p.says(text, time),
        _ => false,
    }
}

/// One frame of the perception state machine.
pub fn perceive(state: EnemyState, contact: bool, target: Vec2, target_form: Form, dt: i64) -> (r:
    (EnemyState, Option<Phrase>))
    requires
        state_wf(state),
        target.wf(),
        target_form.wf(),
        0 <= dt <= MAX_DT,
    ensures
        r.0 == next_state(state, contact, target, target_form, dt as int),
        state_wf(r.0),
        phrase_matches(r.1, remark(state, contact, dt as int)),
{
    if contact {
        let phrase = match state {
            EnemyState::Fight(_, _) => None,
            _ => Some(Phrase::new("Here you are!", 1000)),
        };
        (EnemyState::Fight(target, target_form), phrase)
    } else {
        match state {
            EnemyState::Fight(p, _) => (EnemyState::LastSeen(p, dt), Some(Phrase::new("Where is he?", 2000))),
            EnemyState::LastSeen(p, t) => {
                let new_timer = t + dt;
                if new_timer > FORGET_TIME {
                    (EnemyState::Idle, Some(Phrase::new("Must've been wind", 2000)))
                } else {
                    (EnemyState::LastSeen(p, new_timer), None)
                }
            },
            EnemyState::Idle => (EnemyState::Idle, None),
        }
    }
}

/// Two shapes at `a` and `b` come within `extra` of touching, measured along
/// the line between them.
pub open spec fn within_reach(a: Vec2, a_form: Form, b: Vec2, b_form: Form, extra: int) -> bool {
    let dx = b.x - a.x;
    let dy = b.y - a.y;
    length(dx, dy) < a_form.extent(dx, dy) + b_form.extent(dx, dy) + extra
}

/// Whether shapes at `a` and `b` come within `extra` of touching.
pub fn reaches(a: Vec2, a_form: &Form, b: Vec2, b_form: &Form, extra: i64) -> (r: bool)
    requires
        a.wf(),
        b.wf(),
        a_form.wf(),
        b_form.wf(),
        0 <= extra <= 1_000_000,
    ensures
        r == within_reach(a, *a_form, b, *b_form, extra as int),
{
    let diff = Vec2 { x: b.x - a.x, y: b.y - a.y };
    diff.length() < a_form.direction_len(diff) + b_form.direction_len(diff) + extra
}

/// Where a state sends the enemy: its post when idle, else the target point.
pub open spec fn goal(state: EnemyState, post: Vec2) -> Vec2 {
    match state {
        EnemyState::Idle => post,
        EnemyState::Fight(p, _) => p,
        EnemyState::LastSeen(p, _) => p,
    }
}

/// Whether a state lets the enemy at `at`, of shape `form`, slash.
pub open spec fn slash_reach(state: EnemyState, at: Vec2, form: Form) -> bool {
    match state {
        EnemyState::Fight(p, f) => within_reach(at, form, p, f, SLASH_LEN as int),
        _ => false,
    }
}

/// What a perception state asks of the enemy's body this frame, and whether
/// its target is within a slash.
pub fn plan(state: EnemyState, body: &Body, post: Vec2) -> (r: (MoveAction, bool))
    requires
        state_wf(state),
        body.wf(),
        post.wf(),
    ensures
        ({
            let g = goal(state, post);
            r.0.move_direction == body.position.move_to_spec(g)
        }),
        r.1 == slash_reach(state, body.position.0, body.form),
        crate::motion::action_wf(r.0),
        match state {
            EnemyState::Idle => r.0.sight == (Vec2 { x: 1000, y: 0 }),
            EnemyState::Fight(p, _) => (r.0.sight.x as int, r.0.sight.y as int) == normalized(
                p.x - body.position.0.x,
                p.y - body.position.0.y,
            ),
            EnemyState::LastSeen(p, _) => r.0.sight == (Vec2 {
                x: (p.x - body.position.0.x) as i64,
                y: (p.y - body.position.0.y) as i64,
            }),
        },
{
    match state {
        EnemyState::Idle => (
            MoveAction { move_direction: body.position.move_to(post), sight: Vec2 { x: 1000, y: 0 } },
            false,
        ),
        EnemyState::Fight(p, f) => {
            let diff = Vec2 { x: p.x - body.position.0.x, y: p.y - body.position.0.y };
            (
                MoveAction { move_direction: body.position.move_to(p), sight: normalize_or_zero(diff) },
                reaches(body.position.0, &body.form, p, &f, SLASH_LEN),
            )
        },
        EnemyState::LastSeen(p, _) => {
            let diff = Vec2 { x: p.x - body.position.0.x, y: p.y - body.position.0.y };
            (MoveAction { move_direction: body.position.move_to(p), sight: diff }, false)
        },
    }
}

pub open spec fn enemy_wf(enemy: Enemy) -> bool {
    &&& enemy.body.wf()
    &&& state_wf(enemy.state)
    &&& enemy.post.0.wf()
    &&& 0 <= enemy.reload.0 <= PLAYER_RELOAD
}

/// How close the player may come before an enemy notices a sneaking player:
/// closer when the player is hurt.
pub open spec fn touch_distance(health: Health) -> int {
    if health == Health::Full {
        SLASH_LEN / 2
    } else {
        SLASH_LEN / 6
    }
}

/// The enemy notices the player: the player walks openly, or comes close.
pub open spec fn notices(enemy: Body, player: Body, visible: bool, health: Health) -> bool {
    visible || within_reach(
        enemy.position.0,
        enemy.form,
        player.position.0,
        player.form,
        touch_distance(health),
    )
}

/// The enemy is in contact with the player this frame.
pub open spec fn in_contact(enemy: Enemy, player: Player) -> bool {
    &&& player.body.room == enemy.body.room
    &&& notices(enemy.body, player.body, player.visible, player.health)
}

/// The perception state an enemy moves to in a frame.
pub open spec fn enemy_next_state(enemy: Enemy, player: Player, dt: int) -> EnemyState {
    if enemy.health == Health::Dead || player.health == Health::Dead {
        EnemyState::Idle
    } else {
        next_state(
            enemy.state,
            in_contact(enemy, player),
            player.body.position.0,
            player.body.form,
            dt,
        )
    }
}

/// The stance an enemy shows for its reload.
pub open spec fn stance(reload: int) -> Form {
    if reload < STANCE_TIME {
        Form::Rect { width: ENEMY_WIDTH, height: ENEMY_HEIGHT }
    } else {
        Form::Rect { width: ENEMY_WIDE, height: ENEMY_HEIGHT }
    }
}

/// The enemy slashes the player this frame.
pub open spec fn slashes(enemy: Enemy, player: Player, dt: int) -> bool {
    &&& enemy.health != Health::Dead
    &&& slash_reach(
        enemy_next_state(enemy, player, dt),
        enemy.body.position.0,
        enemy.body.form,
    )
    &&& enemy.reload.0 == 0
}

/// One frame of an enemy's behaviour: perception, the move it asks for, and
/// its melee on the player. Returns the move and whether a slash landed.
pub fn enemy_action(enemy: &mut Enemy, player: &mut Player, dt: i64) -> (r: (MoveAction, bool))
    requires
        enemy_wf(*old(enemy)),
        old(player).body.wf(),
        0 <= dt <= MAX_DT,
    ensures
        enemy_wf(*final(enemy)),
        final(enemy).state == enemy_next_state(*old(enemy), *old(player), dt as int),
        r.1 == slashes(*old(enemy), *old(player), dt as int),
        final(player).health == (if r.1 {
            old(player).health.decreased()
        } else {
            old(player).health
        }),
        final(player).body == old(player).body,
        final(player).item == old(player).item,
        final(player).visible == old(player).visible,
        final(player).reload == old(player).reload,
        final(player).heal_time == old(player).heal_time,
        final(enemy).reload.0 == (if r.1 {
            PLAYER_RELOAD
        } else {
            old(enemy).reload.0
        }),
        final(enemy).health == old(enemy).health,
        final(enemy).post == old(enemy).post,
        final(enemy).body.position == old(enemy).body.position,
        final(enemy).body.room == old(enemy).body.room,
        final(enemy).body.speed == old(enemy).body.speed,
        final(enemy).body.sight == old(enemy).body.sight,
        old(enemy).health == Health::Dead ==> final(enemy).body.form == (Form::Rect {
            width: ENEMY_HEIGHT,
            height: FALLEN_HEIGHT,
        }) && r.0.move_direction == (0i32, 0i32) && r.0.sight == (Vec2 { x: 1000, y: 0 })
            && final(enemy).body.phrase == old(enemy).body.phrase,
        old(enemy).health != Health::Dead && old(player).health == Health::Dead
            ==> final(enemy).body.phrase == old(enemy).body.phrase,
        old(enemy).health != Health::Dead ==> final(enemy).body.form == stance(
            final(enemy).reload.0 as int,
        ) && r.0.move_direction == old(enemy).body.position.move_to_spec(
            goal(final(enemy).state, old(enemy).post.0),
        ),
        old(enemy).health != Health::Dead && old(player).health != Health::Dead ==> {
            let said = remark(old(enemy).state, in_contact(*old(enemy), *old(player)), dt as int);
            &&& said is Some ==> phrase_matches(final(enemy).body.phrase, said)
            &&& said is None ==> final(enemy).body.phrase == old(enemy).body.phrase
        },
        crate::motion::action_wf(r.0),
{
    if enemy.health == Health::Dead {
        enemy.body.form = Form::Rect { width: ENEMY_HEIGHT, height: FALLEN_HEIGHT };
        enemy.state = EnemyState::Idle;
        return (MoveAction::default(), false);
    }
    let touch = if player.health == Health::Full {
        SLASH_LEN / 2
    } else {
        SLASH_LEN / 6
    };
    let seen = player.visible || reaches(
        enemy.body.position.0,
        &enemy.body.form,
        player.body.position.0,
        &player.body.form,
        touch,
    );
    if player.health == Health::Dead {
        enemy.state = EnemyState::Idle;
    } else {
        let contact = player.body.room == enemy.body.room && seen;
        let (state, phrase) = perceive(
            enemy.state,
            contact,
            player.body.position.0,
            player.body.form,
            dt,
        );
        enemy.state = state;
        match phrase {
            Some(p) => {
                enemy.body.phrase = Some(p);
            },
            None => {},
        }
    }
    let (move_action, slash) = plan(enemy.state, &enemy.body, enemy.post.0);
    let mut hit = false;
    if slash && enemy.reload.0 == 0 {
        enemy.reload = Reload(PLAYER_RELOAD);
        player.health.decrease();
        hit = true;
    }
    enemy.body.form = if enemy.reload.0 < STANCE_TIME {
        Form::Rect { width: ENEMY_WIDTH, height: ENEMY_HEIGHT }
    } else {
        Form::Rect { width: ENEMY_WIDE, height: ENEMY_HEIGHT }
    };
    (move_action, hit)
}

/// A self-contained perception machine that remembers a patrol point.
pub struct BasicAi {
    pub state: EnemyState,
    pub position: Vec2,
}

impl BasicAi {
    pub fn new(position: Vec2) -> (r: BasicAi)
        ensures
            r.state == EnemyState::Idle,
            r.position == position,
    {
        BasicAi { position, state: EnemyState::Idle }
    }

    /// One frame for the enemy `enemy`, given the player's body when it is in
    /// contact. Returns the move, whether the target is within a slash, and
    /// the remark made.
    pub fn action(&mut self, enemy: &Body, player: Option<&Body>, dt: i64) -> (r: (
        MoveAction,
        bool,
        Option<Phrase>,
    ))
        requires
            state_wf(old(self).state),
            old(self).position.wf(),
            enemy.wf(),
            player matches Some(b) ==> b.wf(),
            0 <= dt <= MAX_DT,
        ensures
            final(self).state == (match player {
                Some(b) => next_state(old(self).state, true, b.position.0, b.form, dt as int),
                None => next_state(
                    old(self).state,
                    false,
                    Vec2 { x: 0, y: 0 },
                    Form::Circle { radius: 0 },
                    dt as int,
                ),
            }),
            final(self).position == old(self).position,
            phrase_matches(r.2, remark(old(self).state, player is Some, dt as int)),
            r.0.move_direction == enemy.position.move_to_spec(
                goal(final(self).state, old(self).position),
            ),
            r.1 == slash_reach(final(self).state, enemy.position.0, enemy.form),
    {
        let (state, phrase) = match player {
            Some(b) => perceive(self.state, true, b.position.0, b.form, dt),
            None => perceive(self.state, false, Vec2 { x: 0, y: 0 }, Form::Circle { radius: 0 }, dt),
        };
        self.state = state;
        let (move_action, slash) = plan(self.state, enemy, self.position);
        (move_action, slash, phrase)
    }
}

/// Total of a sequence of frame durations.
pub open spec fn total(dts: Seq<int>) -> int
    decreases dts.len(),
{
    if dts.len() == 0 {
        0
    } else {
        dts[0] + total(dts.drop_first())
    }
}

/// The perception state after frames of these durations, none in contact.
pub open spec fn run_without_contact(state: EnemyState, dts: Seq<int>) -> EnemyState
    decreases dts.len(),
{
    if dts.len() == 0 {
        state
    } else {
        run_without_contact(
            next_state(state, false, Vec2 { x: 0, y: 0 }, Form::Circle { radius: 0 }, dts[0]),
            dts.drop_first(),
        )
    }
}

pub open spec fn frames_wf(dts: Seq<int>) -> bool {
    forall|i: int| 0 <= i < dts.len() ==> 0 <= #[trigger] dts[i] <= MAX_DT
}

proof fn lemma_total_nonneg(dts: Seq<int>)
    requires
        frames_wf(dts),
    ensures
        total(dts) >= 0,
    decreases dts.len(),
{
    if dts.len() > 0 {
        assert(frames_wf(dts.drop_first())) by {
            assert forall|i: int| 0 <= i < dts.drop_first().len() implies 0 <= #[trigger] dts.drop_first()[i] <= MAX_DT by {
                assert(dts.drop_first()[i] == dts[i + 1]);
            }
        }
        lemma_total_nonneg(dts.drop_first());
    }
}

proof fn lemma_idle_stays(dts: Seq<int>)
    ensures
        run_without_contact(EnemyState::Idle, dts) == EnemyState::Idle,
    decreases dts.len(),
{
    if dts.len() > 0 {
        lemma_idle_stays(dts.drop_first());
    }
}

proof fn lemma_last_seen_run(p: Vec2, t: int, dts: Seq<int>)
    requires
        0 <= t <= FORGET_TIME,
        frames_wf(dts),
    ensures
        run_without_contact(EnemyState::LastSeen(p, t as i64), dts) == (if dts.len() >= 1 && t
            + total(dts) > FORGET_TIME {
            EnemyState::Idle
        } else {
            EnemyState::LastSeen(p, (t + total(dts)) as i64)
        }),
    decreases dts.len(),
{
    if dts.len() > 0 {
        let rest = dts.drop_first();
        assert(frames_wf(rest)) by {
            assert forall|i: int| 0 <= i < rest.len() implies 0 <= #[trigger] rest[i] <= MAX_DT by {
                assert(rest[i] == dts[i + 1]);
            }
        }
        lemma_total_nonneg(rest);
        let d = dts[0];
        assert(0 <= d <= MAX_DT);
        if t + d > FORGET_TIME {
            lemma_idle_stays(rest);
        } else {
            lemma_last_seen_run(p, t + d, rest);
        }
    }
}

/// Perception law. An enemy fighting a target that then stays out of
/// contact for frames of durations `dts` (at least one) remembers the last
/// point for exactly the time elapsed, and is idle as soon as more than
/// `FORGET_TIME` has passed after the first frame; renewed contact at any
/// point returns it to `Fight`, with the greeting made only when it was not
/// fighting already.
pub proof fn lemma_perception(
    p: Vec2,
    f: Form,
    dts: Seq<int>,
    state: EnemyState,
    target: Vec2,
    target_form: Form,
    dt: int,
)
    requires
        dts.len() >= 1,
        frames_wf(dts),
    ensures
        next_state(EnemyState::Fight(p, f), false, target, target_form, dts[0]) == EnemyState::LastSeen(
            p,
            dts[0] as i64,
        ),
        run_without_contact(EnemyState::Fight(p, f), dts) == (if dts.len() >= 2 && total(dts)
            > FORGET_TIME {
            EnemyState::Idle
        } else {
            EnemyState::LastSeen(p, total(dts) as i64)
        }),
        next_state(state, true, target, target_form, dt) == EnemyState::Fight(target, target_form),
        remark(state, true, dt) == (if state is Fight {
            None
        } else {
            Some(("Here you are!"@, 1000int))
        }),
{
    let rest = dts.drop_first();
    assert(frames_wf(rest)) by {
        assert forall|i: int| 0 <= i < rest.len() implies 0 <= #[trigger] rest[i] <= MAX_DT by {
            assert(rest[i] == dts[i + 1]);
        }
    }
    let d = dts[0];
    assert(0 <= d <= MAX_DT);
    if d > FORGET_TIME {
        lemma_total_nonneg(rest);
        if rest.len() >= 1 {
            lemma_idle_stays(rest.drop_first());
        }
        reveal_with_fuel(run_without_contact, 2);
    } else {
        lemma_last_seen_run(p, d, rest);
    }
}

} // verus!
