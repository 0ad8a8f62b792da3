use flezzle_rs::debug::{
    count_tick, refresh_counters, walk_sample, walking_input, FrameStats, LevelEventKind, RecentWindow, TickCounter,
    WalkSample, STEP_WINDOW,
};
use flezzle_rs::input::{Action, Actions, TickInput};

#[test]
fn tick_counter_counts_and_resets() {
    let mut c = TickCounter::default();
    count_tick(&mut c);
    count_tick(&mut c);
    assert_eq!(c.take(), 2);
    assert_eq!(c.0, 0);
    assert_eq!(c.take(), 0);
}

#[test]
fn frames_with_zero_one_and_many_ticks() {
    let mut stats = FrameStats::default();
    let mut input = TickInput::default();
    stats.record_frame(0, &input);
    input.advance(Actions::none().with(Action::Right));
    stats.record_frame(1, &input);
    input.advance(Actions::none());
    input.advance(Actions::none().with(Action::Jump));
    stats.record_frame(2, &input);
    assert_eq!(stats.frame, 3);
    assert_eq!(stats.ticks_this_frame, 2);
    assert_eq!(stats.zero_tick_frames, 1);
    assert_eq!(stats.multi_tick_frames, 1);
    assert_eq!(stats.tick, 3);
    assert_eq!(stats.held_actions, 16);
    assert!(stats.zero_tick_frames + stats.multi_tick_frames <= stats.frame);
}

#[test]
fn level_events_are_counted_by_kind() {
    let mut stats = FrameStats::default();
    stats.record_level_event(LevelEventKind::Spawned);
    stats.record_level_event(LevelEventKind::Other);
    stats.record_level_event(LevelEventKind::Despawned);
    stats.record_level_event(LevelEventKind::Spawned);
    assert_eq!(stats.level_spawns, 2);
    assert_eq!(stats.level_despawns, 1);
    assert_eq!(stats.frame, 0);
}

#[test]
fn walking_needs_exactly_one_direction() {
    let mut t = TickInput::default();
    assert!(!walking_input(&t));
    t.advance(Actions::none().with(Action::Left));
    assert!(walking_input(&t));
    t.advance(Actions::none().with(Action::Left).with(Action::Right));
    assert!(!walking_input(&t));
}

#[test]
fn walk_samples_need_ground_and_input() {
    assert_eq!(
        walk_sample(true, true, true, true, true),
        WalkSample { counts_step: true, counts_speed: true }
    );
    assert_eq!(
        walk_sample(true, false, true, true, true),
        WalkSample { counts_step: true, counts_speed: false }
    );
    assert_eq!(
        walk_sample(true, true, true, true, false),
        WalkSample { counts_step: true, counts_speed: false }
    );
    assert_eq!(
        walk_sample(false, true, true, true, true),
        WalkSample { counts_step: false, counts_speed: false }
    );
}

#[test]
fn window_keeps_the_latest_values() {
    let mut w: RecentWindow<u32> = RecentWindow::new();
    assert_eq!(w.len(), 0);
    for i in 0..5u32 {
        w.push(i);
    }
    assert_eq!(w.len(), 5);
    assert_eq!(*w.get(0), 0);
    for i in 5..300u32 {
        w.push(i);
    }
    assert_eq!(w.len(), STEP_WINDOW);
    assert_eq!(*w.get(0), 300 - STEP_WINDOW as u32);
    assert_eq!(*w.get(STEP_WINDOW - 1), 299);
}

#[test]
fn window_holds_floats_too() {
    let mut w: RecentWindow<f32> = RecentWindow::new();
    w.push(1.5);
    w.push(0.25);
    assert_eq!(*w.get(1), 0.25);
}

#[test]
fn refresh_counts_ticks_since_last_refresh_and_events() {
    let mut counter = TickCounter::default();
    let mut stats = FrameStats::default();
    let mut input = TickInput::default();
    refresh_counters(&mut counter, &mut stats, &input, &[]);
    assert_eq!((stats.frame, stats.ticks_this_frame, stats.zero_tick_frames), (1, 0, 1));
    count_tick(&mut counter);
    input.advance(Actions::none().with(Action::Left));
    count_tick(&mut counter);
    input.advance(Actions::none().with(Action::Left));
    count_tick(&mut counter);
    input.advance(Actions::none());
    refresh_counters(
        &mut counter,
        &mut stats,
        &input,
        &[LevelEventKind::Spawned, LevelEventKind::Other, LevelEventKind::Spawned, LevelEventKind::Despawned],
    );
    assert_eq!(counter.0, 0);
    assert_eq!(stats.frame, 2);
    assert_eq!(stats.ticks_this_frame, 3);
    assert_eq!(stats.zero_tick_frames, 1);
    assert_eq!(stats.multi_tick_frames, 1);
    assert_eq!(stats.tick, 3);
    assert_eq!(stats.held_actions, 0);
    assert_eq!(stats.level_spawns, 2);
    assert_eq!(stats.level_despawns, 1);
    count_tick(&mut counter);
    refresh_counters(&mut counter, &mut stats, &input, &[]);
    assert_eq!((stats.frame, stats.ticks_this_frame), (3, 1));
    assert_eq!((stats.zero_tick_frames, stats.multi_tick_frames), (1, 1));
}
