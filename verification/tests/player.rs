use flezzle_rs::input::{Action, Actions, TickInput};
use flezzle_rs::player::{player_movement, MovementUpdate, CLIMB_SPEED, JUMP_SPEED, WALK_SPEED};

fn input_after(prev: &[Action], now: &[Action]) -> TickInput {
    let mut t = TickInput::default();
    t.advance(prev.iter().fold(Actions::none(), |a, x| a.with(*x)));
    t.advance(now.iter().fold(Actions::none(), |a, x| a.with(*x)));
    t
}

#[test]
fn walking_left_right_and_both() {
    let mut climbing = false;
    let r = player_movement(&input_after(&[], &[Action::Right]), &mut climbing, false, true);
    assert_eq!(r, MovementUpdate { vx: 200, vy: None });
    let r = player_movement(&input_after(&[], &[Action::Left]), &mut climbing, false, true);
    assert_eq!(r.vx, -WALK_SPEED);
    let r = player_movement(&input_after(&[], &[Action::Left, Action::Right]), &mut climbing, false, true);
    assert_eq!(r.vx, 0);
    let r = player_movement(&input_after(&[], &[]), &mut climbing, false, true);
    assert_eq!(r, MovementUpdate { vx: 0, vy: None });
}

#[test]
fn jump_only_when_grounded_or_climbing() {
    let mut climbing = false;
    let r = player_movement(&input_after(&[], &[Action::Jump]), &mut climbing, false, true);
    assert_eq!(r.vy, Some(JUMP_SPEED));
    assert_eq!(JUMP_SPEED, 500);
    let r = player_movement(&input_after(&[], &[Action::Jump]), &mut climbing, false, false);
    assert_eq!(r.vy, None);
    // Holding Jump is not a fresh press.
    let r = player_movement(&input_after(&[Action::Jump], &[Action::Jump]), &mut climbing, false, true);
    assert_eq!(r.vy, None);
}

#[test]
fn climbing_starts_on_fresh_up_or_down_near_ladder() {
    let mut climbing = false;
    let r = player_movement(&input_after(&[], &[Action::Up]), &mut climbing, true, false);
    assert!(climbing);
    assert_eq!(r.vy, Some(CLIMB_SPEED));
    // Keeps climbing while touching, moving down with Down held.
    let r = player_movement(&input_after(&[Action::Up], &[Action::Down]), &mut climbing, true, false);
    assert!(climbing);
    assert_eq!(r.vy, Some(-200));
    // Standing still on the ladder.
    let r = player_movement(&input_after(&[Action::Down], &[]), &mut climbing, true, false);
    assert!(climbing);
    assert_eq!(r.vy, Some(0));
    // Leaving the ladder ends climbing.
    let r = player_movement(&input_after(&[], &[Action::Up]), &mut climbing, false, false);
    assert!(!climbing);
    assert_eq!(r.vy, None);
}

#[test]
fn no_climbing_without_fresh_press() {
    let mut climbing = false;
    let r = player_movement(&input_after(&[Action::Up], &[Action::Up]), &mut climbing, true, false);
    assert!(!climbing);
    assert_eq!(r.vy, None);
}

#[test]
fn jumping_off_a_ladder_ends_climbing() {
    let mut climbing = true;
    let r = player_movement(&input_after(&[], &[Action::Jump, Action::Up]), &mut climbing, true, false);
    assert_eq!(r.vy, Some(500));
    assert!(!climbing);
}
