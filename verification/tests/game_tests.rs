use pfinder::rng::Dice;
use pfinder::game::{
    control, enemy_step, handle_key, loot_for, roll_loot, settle_phase, wound_enemy, Control, EnemyState, EnemyStep,
    FrameInput, Key, KeyKind, LootKind, Phase, Stats, PLAYER_MAX_AMMO, PLAYER_MAX_HP,
};
use pfinder::keys::Keys;

fn no_input() -> FrameInput {
    FrameInput { shoot: false, quit: false, restart: false }
}

#[test]
fn movement_keys_press_and_release() {
    let mut k = Keys::new();
    k.tick();
    let mut inp = no_input();
    let cases = [
        (Key::Char('w'), 0),
        (Key::Up, 0),
        (Key::Char('s'), 1),
        (Key::Down, 1),
        (Key::Char('a'), 2),
        (Key::Char('d'), 3),
        (Key::Left, 4),
        (Key::Right, 5),
    ];
    for (key, idx) in cases {
        handle_key(&mut k, &mut inp, key, KeyKind::Press, false);
        assert!(k.held(idx));
        handle_key(&mut k, &mut inp, key, KeyKind::Release, false);
        assert!(!k.held(idx));
        handle_key(&mut k, &mut inp, key, KeyKind::Repeat, false);
        assert!(k.held(idx));
    }
    assert_eq!(inp, no_input());
}

#[test]
fn command_keys_set_flags_on_press_only() {
    let mut k = Keys::new();
    let mut inp = no_input();
    handle_key(&mut k, &mut inp, Key::Char(' '), KeyKind::Release, false);
    handle_key(&mut k, &mut inp, Key::Char('q'), KeyKind::Release, false);
    assert_eq!(inp, no_input());
    handle_key(&mut k, &mut inp, Key::Char(' '), KeyKind::Press, false);
    assert!(inp.shoot && !inp.quit && !inp.restart);
    handle_key(&mut k, &mut inp, Key::Char('r'), KeyKind::Repeat, false);
    assert!(inp.restart);
    let mut inp2 = no_input();
    handle_key(&mut k, &mut inp2, Key::Esc, KeyKind::Press, false);
    assert!(inp2.quit);
    let mut inp3 = no_input();
    handle_key(&mut k, &mut inp3, Key::Char('c'), KeyKind::Press, false);
    assert!(!inp3.quit);
    handle_key(&mut k, &mut inp3, Key::Char('c'), KeyKind::Press, true);
    assert!(inp3.quit);
    let mut inp4 = no_input();
    handle_key(&mut k, &mut inp4, Key::Char('x'), KeyKind::Press, true);
    handle_key(&mut k, &mut inp4, Key::Other, KeyKind::Press, false);
    assert_eq!(inp4, no_input());
}

#[test]
fn control_decisions() {
    let q = FrameInput { shoot: false, quit: true, restart: true };
    let r = FrameInput { shoot: false, quit: false, restart: true };
    assert_eq!(control(q), Control::Quit);
    // R starts a new map during play as well as after the round
    assert_eq!(control(r), Control::NewGame);
    assert_eq!(control(no_input()), Control::Continue);
}

#[test]
fn firing_uses_ammo_until_empty() {
    let mut s = Stats::new();
    assert_eq!((s.hp, s.ammo), (PLAYER_MAX_HP, PLAYER_MAX_AMMO));
    for i in 0..30 {
        assert!(s.try_fire());
        assert_eq!(s.ammo, 29 - i);
    }
    assert!(!s.try_fire());
    assert_eq!(s.ammo, 0);
}

#[test]
fn hits_cost_ten_and_kill_at_zero() {
    let mut s = Stats::new();
    for i in 1..10 {
        assert!(!s.take_hit());
        assert_eq!(s.hp, 100 - 10 * i);
    }
    assert!(s.take_hit());
    assert_eq!(s.hp, 0);
    let mut t = Stats { hp: 5, ammo: 3 };
    assert!(t.take_hit());
    assert_eq!((t.hp, t.ammo), (0, 3));
}

#[test]
fn pickups_are_capped() {
    let mut s = Stats { hp: 50, ammo: 5 };
    s.pick_up(LootKind::Health);
    assert_eq!((s.hp, s.ammo), (70, 5));
    s.pick_up(LootKind::Health);
    s.pick_up(LootKind::Health);
    assert_eq!(s.hp, 100);
    s.pick_up(LootKind::Ammo);
    assert_eq!(s.ammo, 15);
    s.pick_up(LootKind::Ammo);
    s.pick_up(LootKind::Ammo);
    assert_eq!((s.hp, s.ammo), (100, 30));
}

#[test]
fn enemies_die_after_two_shots() {
    let (hp, st) = wound_enemy(2, EnemyState::Chase);
    assert_eq!((hp, st), (1, EnemyState::Chase));
    let (hp, st) = wound_enemy(hp, st);
    assert_eq!((hp, st), (0, EnemyState::Dead));
}

#[test]
fn loot_from_draws() {
    assert_eq!(loot_for(true, true), Some(LootKind::Health));
    assert_eq!(loot_for(true, false), Some(LootKind::Health));
    assert_eq!(loot_for(false, true), Some(LootKind::Ammo));
    assert_eq!(loot_for(false, false), None);
}

#[test]
fn loot_rolls_follow_the_odds() {
    let mut rng = Dice::new(rand::thread_rng());
    let n = 8000;
    let (mut h, mut a, mut none) = (0, 0, 0);
    for _ in 0..n {
        match roll_loot(&mut rng) {
            Some(LootKind::Health) => h += 1,
            Some(LootKind::Ammo) => a += 1,
            None => none += 1,
        }
    }
    // 1/4 health; 3/4 * 1/6 = 1/8 ammo
    assert!((1700..2300).contains(&h), "health {h}");
    assert!((800..1200).contains(&a), "ammo {a}");
    assert_eq!(h + a + none, n);
}

#[test]
fn settle_phase_orders_the_outcomes() {
    assert_eq!(settle_phase(Phase::Playing, false, false, false), Phase::Playing);
    assert_eq!(settle_phase(Phase::Playing, true, false, false), Phase::GameOver);
    assert_eq!(settle_phase(Phase::Playing, false, true, false), Phase::Victory);
    // reaching the exit as the time runs out still wins
    assert_eq!(settle_phase(Phase::Playing, true, true, false), Phase::Victory);
    // a killing hit loses even on the exit
    assert_eq!(settle_phase(Phase::Playing, false, true, true), Phase::GameOver);
    assert_eq!(settle_phase(Phase::Playing, true, true, true), Phase::GameOver);
    // a finished round stays finished
    assert_eq!(settle_phase(Phase::Victory, true, false, true), Phase::Victory);
    assert_eq!(settle_phase(Phase::GameOver, false, true, false), Phase::GameOver);
}

#[test]
fn enemy_step_transitions() {
    let s = |next, alerted, strikes| EnemyStep { next, alerted, strikes };
    assert_eq!(enemy_step(EnemyState::Patrol, false, false, false), s(EnemyState::Patrol, false, false));
    assert_eq!(enemy_step(EnemyState::Patrol, true, false, false), s(EnemyState::Chase, true, false));
    // a patrolling enemy never strikes, even when touching
    assert_eq!(enemy_step(EnemyState::Patrol, true, false, true), s(EnemyState::Chase, true, false));
    assert_eq!(enemy_step(EnemyState::Chase, true, true, false), s(EnemyState::Chase, false, false));
    assert_eq!(enemy_step(EnemyState::Chase, false, false, false), s(EnemyState::Chase, false, false));
    assert_eq!(enemy_step(EnemyState::Chase, false, true, false), s(EnemyState::Patrol, false, false));
    assert_eq!(enemy_step(EnemyState::Chase, true, false, true), s(EnemyState::Patrol, false, true));
    assert_eq!(enemy_step(EnemyState::Dead, true, false, true), s(EnemyState::Dead, false, false));
}

#[test]
fn only_shots_kill_over_a_run_of_frames() {
    let frames = [(true, false, false), (true, false, true), (false, true, false), (true, true, true)];
    let mut dead = EnemyState::Dead;
    let mut live = EnemyState::Patrol;
    for &(sees, far, touching) in frames.iter().cycle().take(20) {
        dead = enemy_step(dead, sees, far, touching).next;
        live = enemy_step(live, sees, far, touching).next;
        assert_eq!(dead, EnemyState::Dead);
        assert_ne!(live, EnemyState::Dead);
    }
}
