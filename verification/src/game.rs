use vstd::prelude::*;

use crate::keys::{Keys, KEY_COUNT};
use crate::rng::{Dice, Draw};

verus! {

/// Hit points of a fresh player, and the most a health pack can restore to.
pub const PLAYER_MAX_HP: i32 = 100;
/// Rounds of a fresh player, and the most an ammo pack can restore to.
pub const PLAYER_MAX_AMMO: i32 = 30;
/// Hit points lost per enemy melee hit.
pub const HIT_DAMAGE: i32 = 10;
/// Hit points restored by a health pack.
pub const HEALTH_PACK: i32 = 20;
/// Rounds restored by an ammo pack.
pub const AMMO_PACK: i32 = 10;
/// Hit points of a fresh enemy.
pub const ENEMY_HP: i32 = 2;
/// A killed enemy drops a health pack with probability
/// `HEALTH_DROP_NUM / HEALTH_DROP_DEN` (one in four).
pub const HEALTH_DROP_NUM: u32 = 1;
pub const HEALTH_DROP_DEN: u32 = 4;
/// When it drops no health pack, it drops an ammo pack with probability
/// `AMMO_DROP_NUM / AMMO_DROP_DEN`: one death in eight overall.
pub const AMMO_DROP_NUM: u32 = 1;
pub const AMMO_DROP_DEN: u32 = 6;

/// The phase of a round.
#[derive(Clone, Copy, Debug, PartialEq, Eq, Structural)]
pub enum Phase {
    Playing,
    GameOver,
    Victory,
}

/// What an enemy is doing.
#[derive(Clone, Copy, Debug, PartialEq, Eq, Structural)]
pub enum EnemyState {
    Patrol,
    Chase,
    Dead,
}

/// A pickup dropped by a killed enemy.
#[derive(Clone, Copy, Debug, PartialEq, Eq, Structural)]
pub enum LootKind {
    /// Restores hit points.
    Health,
    /// Restores rounds.
    Ammo,
}

/// The keys the game reacts to.
#[derive(Clone, Copy, Debug, PartialEq, Eq, Structural)]
pub enum Key {
    Char(char),
    Up,
    Down,
    Left,
    Right,
    Esc,
    Other,
}

/// The kind of a key event.
#[derive(Clone, Copy, Debug, PartialEq, Eq, Structural)]
pub enum KeyKind {
    Press,
    Repeat,
    Release,
}

/// The one-shot commands collected from the key events of a frame.
#[derive(Clone, Copy, Debug, PartialEq, Eq, Structural)]
pub struct FrameInput {
    pub shoot: bool,
    pub quit: bool,
    pub restart: bool,
}

/// What the main loop does after reading a frame's input.
#[derive(Clone, Copy, Debug, PartialEq, Eq, Structural)]
pub enum Control {
    /// Leave the game.
    Quit,
    /// Start a new round on a new map.
    NewGame,
    /// Go on with this round.
    Continue,
}

/// What a frame of an enemy's behaviour decides.
#[derive(Clone, Copy, Debug, PartialEq, Eq, Structural)]
pub struct EnemyStep {
    /// The state after the frame.
    pub next: EnemyState,
    /// A patrolling enemy has spotted the player.
    pub alerted: bool,
    /// A chasing enemy has reached the player and strikes.
    pub strikes: bool,
}

/// The player's hit points and rounds.
#[derive(Clone, Copy, Debug, PartialEq, Eq, Structural)]
pub struct Stats {
    pub hp: i32,
    pub ammo: i32,
}

/// The movement key (0 forward, 1 back, 2 turn left, 3 turn right,
/// 4 strafe left, 5 strafe right) that `key` drives, if any.
pub open spec fn movement_index(key: Key) -> Option<int> {
    match key {
        Key::Char(c) => if c == 'w' {
            Some(0)
        } else if c == 's' {
            Some(1)
        } else if c == 'a' {
            Some(2)
        } else if c == 'd' {
            Some(3)
        } else {
            None
        },
        Key::Up => Some(0),
        Key::Down => Some(1),
        Key::Left => Some(4),
        Key::Right => Some(5),
        _ => None,
    }
}

fn movement_key(key: Key) -> (r: Option<usize>)
    ensures
        match r {
            Some(i) => movement_index(key) == Some(i as int) && i < KEY_COUNT,
            None => movement_index(key) is None,
        },
{
    match key {
        Key::Char(c) => if c == 'w' {
            Some(0)
        } else if c == 's' {
            Some(1)
        } else if c == 'a' {
            Some(2)
        } else if c == 'd' {
            Some(3)
        } else {
            None
        },
        Key::Up => Some(0),
        Key::Down => Some(1),
        Key::Left => Some(4),
        Key::Right => Some(5),
        _ => None,
    }
}

/// Applies one key event: a press or repeat of a movement key refreshes
/// its hold timer and a release clears it; pressing space shoots, 'r'
/// restarts, and 'q', Escape or Ctrl-C quit.
pub fn handle_key(keys: &mut Keys, input: &mut FrameInput, key: Key, kind: KeyKind, ctrl: bool)
    ensures
        final(keys).frame == old(keys).frame,
        ({
            let press = kind == KeyKind::Press || kind == KeyKind::Repeat;
            &&& match movement_index(key) {
                Some(i) => final(keys).timers@ == if press {
                    old(keys).timers@.update(i, old(keys).frame)
                } else {
                    old(keys).timers@.update(i, 0)
                },
                None => final(keys).timers@ == old(keys).timers@,
            }
            &&& final(input).shoot == (old(input).shoot || (press && key == Key::Char(' ')))
            &&& final(input).restart == (old(input).restart || (press && key == Key::Char('r')))
            &&& final(input).quit == (old(input).quit || (press && (key == Key::Esc || key == Key::Char('q')
                || (key == Key::Char('c') && ctrl))))
        }),
{
    let press = kind == KeyKind::Press || kind == KeyKind::Repeat;
    let release = kind == KeyKind::Release;
    match movement_key(key) {
        Some(i) => {
            if press {
                keys.press(i);
            }
            if release {
                keys.release(i);
            }
        },
        None => {
            if press {
                match key {
                    Key::Char(' ') => input.shoot = true,
                    Key::Char('r') => input.restart = true,
                    Key::Esc | Key::Char('q') => input.quit = true,
                    Key::Char('c') => if ctrl {
                        input.quit = true;
                    },
                    _ => {},
                }
            }
        },
    }
}

/// Quit always wins; otherwise a restart starts a new round on a new map,
/// whether the round is being played or is over.
pub fn control(input: FrameInput) -> (c: Control)
    ensures
        c == if input.quit {
            Control::Quit
        } else if input.restart {
            Control::NewGame
        } else {
            Control::Continue
        },
{
    if input.quit {
        Control::Quit
    } else if input.restart {
        Control::NewGame
    } else {
        Control::Continue
    }
}

/// The phase at the end of a frame of play. A killing hit loses the round,
/// even on the exit; otherwise reaching the exit wins it, even as the time
/// runs out; otherwise running out of time loses it. A round that is over
/// stays as it is.
pub fn settle_phase(phase: Phase, time_up: bool, at_exit: bool, killed: bool) -> (p: Phase)
    ensures
        phase != Phase::Playing ==> p == phase,
        phase == Phase::Playing ==> p == if killed {
            Phase::GameOver
        } else if at_exit {
            Phase::Victory
        } else if time_up {
            Phase::GameOver
        } else {
            Phase::Playing
        },
{
    if phase != Phase::Playing {
        return phase;
    }
    let mut p = Phase::Playing;
    if time_up {
        p = Phase::GameOver;
    }
    if at_exit {
        p = Phase::Victory;
    }
    if killed {
        p = Phase::GameOver;
    }
    p
}

/// The state an enemy in `state` moves to in a frame where it `sees` the
/// player, is `far` from it, and is `touching` it.
pub open spec fn enemy_next(state: EnemyState, sees: bool, far: bool, touching: bool) -> EnemyState {
    match state {
        EnemyState::Patrol => if sees {
            EnemyState::Chase
        } else {
            EnemyState::Patrol
        },
        EnemyState::Chase => if touching || (!sees && far) {
            EnemyState::Patrol
        } else {
            EnemyState::Chase
        },
        EnemyState::Dead => EnemyState::Dead,
    }
}

/// The state of an enemy in `state` after a run of frames, each given as
/// whether it sees, is far from and touches the player.
pub open spec fn enemy_after(state: EnemyState, frames: Seq<(bool, bool, bool)>) -> EnemyState
    decreases frames.len(),
{
    if frames.len() == 0 {
        state
    } else {
        let f = frames.last();
        enemy_next(enemy_after(state, frames.drop_last()), f.0, f.1, f.2)
    }
}

/// How an enemy's state changes in a frame: a patrolling enemy starts the
/// chase exactly when it sees the player; a chasing enemy keeps chasing
/// while it sees the player without touching it, and gives up the chase
/// exactly when it touches the player or has lost sight of it far away;
/// no frame kills or revives an enemy.
pub proof fn lemma_enemy_transitions(state: EnemyState, sees: bool, far: bool, touching: bool)
    ensures
        state == EnemyState::Patrol ==> (enemy_next(state, sees, far, touching) == EnemyState::Chase <==> sees),
        state == EnemyState::Patrol ==> enemy_next(state, sees, far, touching) != EnemyState::Dead,
        state == EnemyState::Chase && sees && !touching ==> enemy_next(state, sees, far, touching)
            == EnemyState::Chase,
        state == EnemyState::Chase ==> (enemy_next(state, sees, far, touching) == EnemyState::Patrol <==> (touching
            || (!sees && far))),
        state == EnemyState::Chase ==> enemy_next(state, sees, far, touching) != EnemyState::Dead,
        state == EnemyState::Dead ==> enemy_next(state, sees, far, touching) == EnemyState::Dead,
{
}

/// Over any run of frames, a dead enemy stays dead and a live one stays
/// alive: only a shot kills an enemy.
pub proof fn lemma_only_shots_kill(state: EnemyState, frames: Seq<(bool, bool, bool)>)
    ensures
        (enemy_after(state, frames) == EnemyState::Dead) == (state == EnemyState::Dead),
    decreases frames.len(),
{
    if frames.len() > 0 {
        lemma_only_shots_kill(state, frames.drop_last());
    }
}

/// One frame of an enemy's behaviour. A patrolling enemy that sees the
/// player gives chase; a chasing one gives up when it neither sees the
/// player nor is near (`far`), and strikes when it touches the player,
/// after which it patrols again. A dead enemy does nothing.
pub fn enemy_step(state: EnemyState, sees: bool, far: bool, touching: bool) -> (r: EnemyStep)
    ensures
        r.alerted == (state == EnemyState::Patrol && sees),
        r.strikes == (state == EnemyState::Chase && touching),
        r.next == enemy_next(state, sees, far, touching),
{
    match state {
        EnemyState::Patrol => {
            if sees {
                EnemyStep { next: EnemyState::Chase, alerted: true, strikes: false }
            } else {
                EnemyStep { next: EnemyState::Patrol, alerted: false, strikes: false }
            }
        },
        EnemyState::Chase => {
            let mut next = EnemyState::Chase;
            if !sees && far {
                next = EnemyState::Patrol;
            }
            if touching {
                next = EnemyState::Patrol;
            }
            EnemyStep { next, alerted: false, strikes: touching }
        },
        EnemyState::Dead => EnemyStep { next: EnemyState::Dead, alerted: false, strikes: false },
    }
}

impl Stats {
    /// Hit points and rounds within their ranges.
    pub open spec fn valid(self) -> bool {
        &&& 0 <= self.hp <= PLAYER_MAX_HP
        &&& 0 <= self.ammo <= PLAYER_MAX_AMMO
    }

    /// A fresh player: full hit points and rounds.
    pub fn new() -> (s: Self)
        ensures
            s.hp == PLAYER_MAX_HP,
            s.ammo == PLAYER_MAX_AMMO,
            s.valid(),
    {
        Stats { hp: PLAYER_MAX_HP, ammo: PLAYER_MAX_AMMO }
    }

    /// Fires one round if any is left; returns whether a shot was fired.
    pub fn try_fire(&mut self) -> (fired: bool)
        ensures
            fired == (old(self).ammo > 0),
            final(self).ammo == if fired { old(self).ammo - 1 } else { old(self).ammo as int },
            final(self).hp == old(self).hp,
            old(self).valid() ==> final(self).valid(),
    {
        if self.ammo > 0 {
            self.ammo = self.ammo - 1;
            true
        } else {
            false
        }
    }

    /// An enemy's melee hit: loses `HIT_DAMAGE` hit points, never going
    /// below zero; returns whether the player died.
    pub fn take_hit(&mut self) -> (dead: bool)
        requires
            old(self).hp >= i32::MIN + HIT_DAMAGE,
        ensures
            dead == (old(self).hp - HIT_DAMAGE <= 0),
            final(self).hp == if dead { 0 } else { old(self).hp - HIT_DAMAGE },
            final(self).ammo == old(self).ammo,
            old(self).valid() ==> final(self).valid(),
    {
        self.hp = self.hp - HIT_DAMAGE;
        if self.hp <= 0 {
            self.hp = 0;
            true
        } else {
            false
        }
    }

    /// Picks up a loot item: a health pack restores `HEALTH_PACK` hit points
    /// up to `PLAYER_MAX_HP`, an ammo pack `AMMO_PACK` rounds up to
    /// `PLAYER_MAX_AMMO`.
    pub fn pick_up(&mut self, kind: LootKind)
        requires
            kind == LootKind::Health ==> old(self).hp <= i32::MAX - HEALTH_PACK,
            kind == LootKind::Ammo ==> old(self).ammo <= i32::MAX - AMMO_PACK,
        ensures
            kind == LootKind::Health ==> final(self).hp == min(old(self).hp + HEALTH_PACK, PLAYER_MAX_HP as int)
                && final(self).ammo == old(self).ammo,
            kind == LootKind::Ammo ==> final(self).ammo == min(old(self).ammo + AMMO_PACK, PLAYER_MAX_AMMO as int)
                && final(self).hp == old(self).hp,
            old(self).valid() ==> final(self).valid(),
    {
        match kind {
            LootKind::Health => {
                let v = self.hp + HEALTH_PACK;
                self.hp = if v < PLAYER_MAX_HP { v } else { PLAYER_MAX_HP };
            },
            LootKind::Ammo => {
                let v = self.ammo + AMMO_PACK;
                self.ammo = if v < PLAYER_MAX_AMMO { v } else { PLAYER_MAX_AMMO };
            },
        }
    }
}

/// `a` or `b`, whichever is smaller.
pub open spec fn min(a: int, b: int) -> int {
    if a < b {
        a
    } else {
        b
    }
}

/// An enemy struck by a shot loses one hit point and dies at zero;
/// returns its new hit points and state.
pub fn wound_enemy(hp: i32, state: EnemyState) -> (r: (i32, EnemyState))
    requires
        hp > i32::MIN,
    ensures
        r.0 == hp - 1,
        r.1 == if hp - 1 <= 0 { EnemyState::Dead } else { state },
{
    let hp = hp - 1;
    if hp <= 0 {
        (hp, EnemyState::Dead)
    } else {
        (hp, state)
    }
}

/// The drop decided by the two loot draws: a won health draw gives a
/// health pack; otherwise a won ammo draw gives an ammo pack.
pub fn loot_for(health_draw: bool, ammo_draw: bool) -> (r: Option<LootKind>)
    ensures
        r == loot_for_spec(health_draw, ammo_draw),
{
    if health_draw {
        Some(LootKind::Health)
    } else if ammo_draw {
        Some(LootKind::Ammo)
    } else {
        None
    }
}

/// The draws a loot roll makes: the health draw `h`, and only when it is
/// lost, the ammo draw `a`.
pub open spec fn loot_draws(h: bool, a: bool) -> Seq<Draw> {
    if h {
        seq![Draw::Ratio { numerator: HEALTH_DROP_NUM, denominator: HEALTH_DROP_DEN, yes: true }]
    } else {
        seq![
            Draw::Ratio { numerator: HEALTH_DROP_NUM, denominator: HEALTH_DROP_DEN, yes: false },
            Draw::Ratio { numerator: AMMO_DROP_NUM, denominator: AMMO_DROP_DEN, yes: a },
        ]
    }
}

/// What a killed enemy drops: a health pack with probability 1/4, else an
/// ammo pack with probability 1/6, which makes one death in eight drop an
/// ammo pack. The ammo draw is only made when the health draw is lost.
pub fn roll_loot(dice: &mut Dice) -> (r: Option<LootKind>)
    ensures
        exists|h: bool, a: bool|
            final(dice).history() == old(dice).history() + #[trigger] loot_draws(h, a) && r == loot_for_spec(h, a),
{
    let ghost before = dice.history();
    if dice.ratio(HEALTH_DROP_NUM, HEALTH_DROP_DEN) {
        assert(dice.history() == before + loot_draws(true, false));
        loot_for(true, false)
    } else {
        let a = dice.ratio(AMMO_DROP_NUM, AMMO_DROP_DEN);
        assert(dice.history() == before + loot_draws(false, a));
        loot_for(false, a)
    }
}

/// The drop decided by the two loot draws.
pub open spec fn loot_for_spec(health_draw: bool, ammo_draw: bool) -> Option<LootKind> {
    if health_draw {
        Some(LootKind::Health)
    } else if ammo_draw {
        Some(LootKind::Ammo)
    } else {
        None
    }
}

} // verus!
