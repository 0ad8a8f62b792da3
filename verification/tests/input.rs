use flezzle_rs::input::{
    accumulate_input, actions_for_keys, sample_tick_input, Action, Actions, Key, PendingInput,
    TickInput,
};

#[test]
fn edges_are_computed_per_tick() {
    let mut input = TickInput::default();
    input.advance(Actions::none().with(Action::Jump));
    assert!(input.pressed(Action::Jump));
    assert!(input.just_pressed(Action::Jump));

    input.advance(Actions::none().with(Action::Jump));
    assert!(input.pressed(Action::Jump));
    assert!(!input.just_pressed(Action::Jump), "held, not newly pressed");

    input.advance(Actions::none());
    assert!(!input.pressed(Action::Jump));

    input.advance(Actions::none().with(Action::Jump));
    assert!(input.just_pressed(Action::Jump), "re-press after release");
    assert_eq!(input.tick(), 4);
}

#[test]
fn actions_round_trip_through_bits() {
    let a = Actions::none().with(Action::Left).with(Action::Jump);
    assert_eq!(Actions::from_bits(a.bits()), a);
    assert!(a.contains(Action::Left) && a.contains(Action::Jump));
    assert!(!a.contains(Action::Right));
}

#[test]
fn bit_layout_follows_declaration_order() {
    let expected: [u8; 7] = [1, 2, 4, 8, 16, 32, 64];
    for (i, action) in Action::ALL.iter().enumerate() {
        assert_eq!(Actions::none().with(*action).bits(), expected[i]);
    }
    let all = Action::ALL
        .iter()
        .fold(Actions::none(), |acc, a| acc.with(*a));
    assert_eq!(all.bits(), 127);
}

#[test]
fn insert_is_idempotent_and_keeps_others() {
    let mut a = Actions::from_bits(0b1000_0001);
    a.insert(Action::Up);
    assert_eq!(a.bits(), 0b1000_0101);
    a.insert(Action::Up);
    assert_eq!(a.bits(), 0b1000_0101);
    assert!(a.contains(Action::Left));
    assert!(a.contains(Action::Up));
    assert!(!a.contains(Action::Down));
}

#[test]
fn none_and_default_are_empty() {
    assert_eq!(Actions::none().bits(), 0);
    assert_eq!(Actions::default(), Actions::none());
    for action in Action::ALL {
        assert!(!Actions::none().contains(action));
    }
    let t = TickInput::default();
    assert_eq!(t.tick(), 0);
    assert_eq!(t.held(), Actions::none());
}

#[test]
fn stray_high_bit_survives_round_trip() {
    let a = Actions::from_bits(0x80);
    assert_eq!(a.bits(), 0x80);
    for action in Action::ALL {
        assert!(!a.contains(action));
    }
    assert_ne!(a, Actions::none());
}

#[test]
fn keys_are_bound_one_to_one() {
    let keys: Vec<Key> = Action::ALL.iter().map(|a| a.key()).collect();
    assert_eq!(keys, vec![Key::KeyA, Key::KeyD, Key::KeyW, Key::KeyS, Key::Space, Key::KeyR, Key::KeyP]);
    for (i, k) in keys.iter().enumerate() {
        for (j, l) in keys.iter().enumerate() {
            assert_eq!(i == j, k == l);
        }
    }
}

#[test]
fn actions_for_keys_maps_bound_keys() {
    assert_eq!(actions_for_keys(&[]).bits(), 0);
    let a = actions_for_keys(&[Key::Space, Key::KeyD, Key::Space]);
    assert_eq!(a, Actions::none().with(Action::Jump).with(Action::Right));
    assert_eq!(a.bits(), 18);
}

#[test]
fn short_tap_between_ticks_registers() {
    let mut pending = PendingInput::default();
    let mut input = TickInput::default();
    // Space goes down and up again within one tick.
    accumulate_input(&mut pending, &[Key::Space]);
    accumulate_input(&mut pending, &[]);
    sample_tick_input(&[], &mut pending, &mut input);
    assert!(input.pressed(Action::Jump));
    assert!(input.just_pressed(Action::Jump));
    assert_eq!(pending.pressed_since_tick, Actions::none());
    assert_eq!(input.tick(), 1);
    // Next tick, nothing pending and nothing held.
    sample_tick_input(&[], &mut pending, &mut input);
    assert!(!input.pressed(Action::Jump));
    assert_eq!(input.tick(), 2);
}

#[test]
fn held_keys_and_pending_presses_combine() {
    let mut pending = PendingInput::default();
    let mut input = TickInput::default();
    accumulate_input(&mut pending, &[Key::KeyW]);
    sample_tick_input(&[Key::KeyA], &mut pending, &mut input);
    assert_eq!(input.held(), Actions::none().with(Action::Up).with(Action::Left));
    sample_tick_input(&[Key::KeyA], &mut pending, &mut input);
    assert_eq!(input.held(), Actions::none().with(Action::Left));
    assert!(input.pressed(Action::Left));
    assert!(!input.just_pressed(Action::Left));
}

#[test]
fn replay_keeps_only_last_two_ticks() {
    let trace = [
        Actions::from_bits(1),
        Actions::from_bits(2),
        Actions::from_bits(4),
        Actions::from_bits(8),
    ];
    let mut input = TickInput::default();
    for held in trace {
        input.advance(held);
    }
    assert_eq!(input.tick(), 4);
    assert_eq!(input.held(), Actions::from_bits(8));
    assert!(input.just_pressed(Action::Down));
    assert!(!input.pressed(Action::Up));
}

#[test]
fn stray_pending_bit_is_not_held() {
    let mut pending = PendingInput { pressed_since_tick: Actions::from_bits(0x80 | 4) };
    let mut input = TickInput::default();
    sample_tick_input(&[Key::KeyA], &mut pending, &mut input);
    assert_eq!(input.held().bits(), 1 | 4);
    assert!(input.pressed(Action::Up));
    assert!(input.pressed(Action::Left));
}

#[test]
fn taps_over_several_frames_register() {
    let mut pending = PendingInput::default();
    let mut input = TickInput::default();
    accumulate_input(&mut pending, &[]);
    accumulate_input(&mut pending, &[Key::KeyW]);
    accumulate_input(&mut pending, &[]);
    accumulate_input(&mut pending, &[Key::KeyS]);
    sample_tick_input(&[], &mut pending, &mut input);
    assert!(input.just_pressed(Action::Up));
    assert!(input.just_pressed(Action::Down));
    assert!(!input.pressed(Action::Jump));
}
