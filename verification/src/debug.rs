//! Frame/tick accounting for external test drivers.
//!
//! A rendered frame may run 0, 1, or 2+ simulation ticks; the counters here
//! make that visible. The snapshot that publishes them, and the measurements
//! in pixels, belong to the application; what is decided and counted in
//! whole numbers is here.

use vstd::prelude::*;
use std::collections::VecDeque;
use crate::input::{Action, TickInput};

verus! {

/// Frames over which walking steps are tracked.
pub const STEP_WINDOW: usize = 120;

/// Counts fixed ticks between two snapshot refreshes.
#[derive(Clone, Copy, Debug)]
pub struct TickCounter(pub u32);

impl Default for TickCounter {
    fn default() -> (r: TickCounter)
        ensures
            r.0 == 0,
    {
        TickCounter(0)
    }
}

/// One fixed tick ran.
pub fn count_tick(counter: &mut TickCounter)
    requires
        old(counter).0 < u32::MAX,
    ensures
        final(counter).0 == old(counter).0 + 1,
{
    counter.0 = counter.0 + 1;
}

impl TickCounter {
    /// The ticks counted since the last call, which start again from 0.
    pub fn take(&mut self) -> (n: u32)
        ensures
            n == old(self).0,
            final(self).0 == 0,
    {
        let n = self.0;
        self.0 = 0;
        n
    }
}

/// The kinds of level lifecycle message the counters distinguish.
#[derive(Clone, Copy, Debug, PartialEq, Eq, Structural)]
pub enum LevelEventKind {
    Spawned,
    Despawned,
    /// Any other lifecycle message (spawn triggered, transformed).
    Other,
}

/// The whole-number part of the per-frame snapshot.
#[derive(Clone, Copy, Debug)]
pub struct FrameStats {
    /// Rendered frames so far.
    pub frame: u64,
    /// Simulation ticks so far.
    pub tick: u64,
    /// Simulation ticks that ran during the frame being reported.
    pub ticks_this_frame: u32,
    /// Frames in which no tick ran, since start.
    pub zero_tick_frames: u64,
    /// Frames in which more than one tick ran, since start.
    pub multi_tick_frames: u64,
    /// Actions held during the current tick (bit layout of `Actions`).
    pub held_actions: u8,
    /// Level spawn messages seen.
    pub level_spawns: u64,
    /// Level despawn messages seen.
    pub level_despawns: u64,
}

impl Default for FrameStats {
    fn default() -> (r: FrameStats)
        ensures
            r.frame == 0,
            r.tick == 0,
            r.ticks_this_frame == 0,
            r.zero_tick_frames == 0,
            r.multi_tick_frames == 0,
            r.held_actions == 0,
            r.level_spawns == 0,
            r.level_despawns == 0,
            r.wf(),
    {
        FrameStats {
            frame: 0,
            tick: 0,
            ticks_this_frame: 0,
            zero_tick_frames: 0,
            multi_tick_frames: 0,
            held_actions: 0,
            level_spawns: 0,
            level_despawns: 0,
        }
    }
}

impl FrameStats {
    /// Frames without a tick and frames with several ticks are frames: the
    /// two counts together never exceed the frames rendered.
    pub open spec fn wf(self) -> bool {
        self.zero_tick_frames + self.multi_tick_frames <= self.frame
    }

    /// Account for one rendered frame, in which `ticks` simulation ticks
    /// ran, with `tick_input` the input state after them.
    pub fn record_frame(&mut self, ticks: u32, tick_input: &TickInput)
        requires
            old(self).frame < u64::MAX,
            ticks == 0 ==> old(self).zero_tick_frames < u64::MAX,
            ticks > 1 ==> old(self).multi_tick_frames < u64::MAX,
        ensures
            old(self).wf() ==> final(self).wf(),
            final(self).frame == old(self).frame + 1,
            final(self).ticks_this_frame == ticks,
            final(self).zero_tick_frames == old(self).zero_tick_frames + if ticks == 0 {
                1int
            } else {
                0int
            },
            final(self).multi_tick_frames == old(self).multi_tick_frames + if ticks > 1 {
                1int
            } else {
                0int
            },
            final(self).tick == tick_input.tick_count(),
            final(self).held_actions == tick_input.held_now()@,
            final(self).level_spawns == old(self).level_spawns,
            final(self).level_despawns == old(self).level_despawns,
    {
        self.frame = self.frame + 1;
        self.ticks_this_frame = ticks;
        if ticks == 0 {
            self.zero_tick_frames = self.zero_tick_frames + 1;
        } else if ticks > 1 {
            self.multi_tick_frames = self.multi_tick_frames + 1;
        }
        self.tick = tick_input.tick();
        self.held_actions = tick_input.held().bits();
    }

    /// Count one level lifecycle message.
    pub fn record_level_event(&mut self, event: LevelEventKind)
        requires
            event == LevelEventKind::Spawned ==> old(self).level_spawns < u64::MAX,
            event == LevelEventKind::Despawned ==> old(self).level_despawns < u64::MAX,
        ensures
            final(self).level_spawns == old(self).level_spawns + if event == LevelEventKind::Spawned {
                1int
            } else {
                0int
            },
            final(self).level_despawns == old(self).level_despawns + if event
                == LevelEventKind::Despawned {
                1int
            } else {
                0int
            },
            final(self).frame == old(self).frame,
            final(self).tick == old(self).tick,
            final(self).ticks_this_frame == old(self).ticks_this_frame,
            final(self).zero_tick_frames == old(self).zero_tick_frames,
            final(self).multi_tick_frames == old(self).multi_tick_frames,
            final(self).held_actions == old(self).held_actions,
    {
        match event {
            LevelEventKind::Spawned => {
                self.level_spawns = self.level_spawns + 1;
            },
            LevelEventKind::Despawned => {
                self.level_despawns = self.level_despawns + 1;
            },
            LevelEventKind::Other => {},
        }
    }
}

/// How many of `events` are of kind `kind`.
pub open spec fn count_of(events: Seq<LevelEventKind>, kind: LevelEventKind) -> nat
    decreases events.len(),
{
    if events.len() == 0 {
        0
    } else {
        count_of(events.drop_last(), kind) + if events.last() == kind {
            1nat
        } else {
            0nat
        }
    }
}

/// Counting over a longer prefix never gives less.
proof fn lemma_count_prefix(events: Seq<LevelEventKind>, kind: LevelEventKind, i: int, j: int)
    requires
        0 <= i <= j <= events.len(),
    ensures
        count_of(events.subrange(0, i), kind) <= count_of(events.subrange(0, j), kind),
    decreases j - i,
{
    if i < j {
        assert(events.subrange(0, j).drop_last() =~= events.subrange(0, j - 1));
        lemma_count_prefix(events, kind, i, j - 1);
    }
}

/// Refresh the counters once per rendered frame: the ticks counted since
/// the last refresh are those of this frame (and counting starts again
/// from 0), the frame is recorded with the current input, and each level
/// lifecycle message of the frame is counted.
pub fn refresh_counters(
    counter: &mut TickCounter,
    stats: &mut FrameStats,
    tick_input: &TickInput,
    level_events: &[LevelEventKind],
)
    requires
        old(stats).frame < u64::MAX,
        old(counter).0 == 0 ==> old(stats).zero_tick_frames < u64::MAX,
        old(counter).0 > 1 ==> old(stats).multi_tick_frames < u64::MAX,
        old(stats).level_spawns + count_of(level_events@, LevelEventKind::Spawned) <= u64::MAX,
        old(stats).level_despawns + count_of(level_events@, LevelEventKind::Despawned)
            <= u64::MAX,
    ensures
        final(counter).0 == 0,
        final(stats).frame == old(stats).frame + 1,
        final(stats).ticks_this_frame == old(counter).0,
        final(stats).zero_tick_frames == old(stats).zero_tick_frames + if old(counter).0 == 0 {
            1int
        } else {
            0int
        },
        final(stats).multi_tick_frames == old(stats).multi_tick_frames + if old(counter).0 > 1 {
            1int
        } else {
            0int
        },
        final(stats).tick == tick_input.tick_count(),
        final(stats).held_actions == tick_input.held_now()@,
        final(stats).level_spawns == old(stats).level_spawns + count_of(
            level_events@,
            LevelEventKind::Spawned,
        ),
        final(stats).level_despawns == old(stats).level_despawns + count_of(
            level_events@,
            LevelEventKind::Despawned,
        ),
        old(stats).wf() ==> final(stats).wf(),
{
    let ticks = counter.take();
    stats.record_frame(ticks, tick_input);
    let ghost mid = *stats;
    let mut i: usize = 0;
    while i < level_events.len()
        invariant
            i <= level_events@.len(),
            stats.frame == mid.frame,
            stats.tick == mid.tick,
            stats.ticks_this_frame == mid.ticks_this_frame,
            stats.zero_tick_frames == mid.zero_tick_frames,
            stats.multi_tick_frames == mid.multi_tick_frames,
            stats.held_actions == mid.held_actions,
            stats.level_spawns == mid.level_spawns + count_of(
                level_events@.subrange(0, i as int),
                LevelEventKind::Spawned,
            ),
            stats.level_despawns == mid.level_despawns + count_of(
                level_events@.subrange(0, i as int),
                LevelEventKind::Despawned,
            ),
            mid.level_spawns + count_of(level_events@, LevelEventKind::Spawned) <= u64::MAX,
            mid.level_despawns + count_of(level_events@, LevelEventKind::Despawned) <= u64::MAX,
        decreases level_events@.len() - i,
    {
        let event = level_events[i];
        proof {
            let s = level_events@;
            assert(s.subrange(0, i + 1).drop_last() =~= s.subrange(0, i as int));
            assert(s.subrange(0, i + 1).last() == event);
            assert(s.subrange(0, s.len() as int) =~= s);
            lemma_count_prefix(s, LevelEventKind::Spawned, i + 1, s.len() as int);
            lemma_count_prefix(s, LevelEventKind::Despawned, i + 1, s.len() as int);
        }
        stats.record_level_event(event);
        i = i + 1;
    }
    proof {
        assert(level_events@.subrange(0, i as int) =~= level_events@);
    }
}

/// Whether walking input is held: exactly one of Left and Right.
pub fn walking_input(tick_input: &TickInput) -> (r: bool)
    ensures
        r == (tick_input.is_pressed(Action::Left) != tick_input.is_pressed(Action::Right)),
{
    tick_input.pressed(Action::Left) != tick_input.pressed(Action::Right)
}

/// Which measurements a pair of consecutive frames contributes to.
#[derive(Clone, Copy, Debug, PartialEq, Eq, Structural)]
pub struct WalkSample {
    /// The horizontal displacement counts as a walking step (otherwise 0).
    pub counts_step: bool,
    /// The displacement counts towards the walking-speed error (otherwise 0).
    pub counts_speed: bool,
}

/// Classify a pair of consecutive frames: only grounded-to-grounded frames
/// count as walking; the speed error is measured only where walking input
/// was held in both frames and the frame had a measurable duration.
pub fn walk_sample(
    prev_grounded: bool,
    prev_walking: bool,
    grounded: bool,
    walking: bool,
    frame_measurable: bool,
) -> (s: WalkSample)
    ensures
        s.counts_step == (prev_grounded && grounded),
        s.counts_speed == (prev_grounded && grounded && prev_walking && walking
            && frame_measurable),
{
    let counts_step = prev_grounded && grounded;
    WalkSample {
        counts_step,
        counts_speed: counts_step && prev_walking && walking && frame_measurable,
    }
}

/// The last `n` entries of `s` (all of them if there are fewer).
pub open spec fn keep_last<T>(s: Seq<T>, n: nat) -> Seq<T> {
    if s.len() <= n {
        s
    } else {
        s.subrange(s.len() - n, s.len() as int)
    }
}

/// The most recent [`STEP_WINDOW`] values pushed, oldest first.
pub struct RecentWindow<T> {
    items: VecDeque<T>,
}

impl<T> View for RecentWindow<T> {
    type V = Seq<T>;

    closed spec fn view(&self) -> Seq<T> {
        self.items@
    }
}

impl<T> RecentWindow<T> {
    #[verifier::type_invariant]
    closed spec fn bounded(self) -> bool {
        self.items@.len() <= STEP_WINDOW
    }

    pub fn new() -> (w: Self)
        ensures
            w@ == Seq::<T>::empty(),
    {
        RecentWindow { items: VecDeque::new() }
    }

    /// Add the newest value, forgetting the oldest once the window is full.
    pub fn push(&mut self, value: T)
        ensures
            final(self)@ == keep_last(old(self)@.push(value), STEP_WINDOW as nat),
            final(self)@.len() <= STEP_WINDOW,
    {
        proof {
            use_type_invariant(&*self);
        }
        let mut items = VecDeque::new();
        std::mem::swap(&mut items, &mut self.items);
        items.push_back(value);
        if items.len() > STEP_WINDOW {
            items.pop_front();
        }
        self.items = items;
    }

    pub fn len(&self) -> (n: usize)
        ensures
            n == self@.len(),
            n <= STEP_WINDOW,
    {
        proof {
            use_type_invariant(self);
        }
        self.items.len()
    }

    /// The `i`-th value, oldest first.
    pub fn get(&self, i: usize) -> (v: &T)
        requires
            i < self@.len(),
        ensures
            *v == self@[i as int],
    {
        &self.items[i]
    }
}

/// The window's contents after pushing `values` one by one into an empty
/// window, as [`RecentWindow::push`] states each step.
pub open spec fn after_pushes<T>(values: Seq<T>) -> Seq<T>
    decreases values.len(),
{
    if values.len() == 0 {
        Seq::empty()
    } else {
        keep_last(after_pushes(values.drop_last()).push(values.last()), STEP_WINDOW as nat)
    }
}

/// The window holds exactly the most recent values: after any sequence of
/// pushes into an empty window, it holds the last [`STEP_WINDOW`] values
/// pushed (all of them while there are fewer), oldest first.
pub proof fn lemma_window_keeps_latest<T>(values: Seq<T>)
    ensures
        after_pushes(values) == keep_last(values, STEP_WINDOW as nat),
        after_pushes(values).len() <= STEP_WINDOW,
    decreases values.len(),
{
    if values.len() > 0 {
        let rest = values.drop_last();
        lemma_window_keeps_latest(rest);
        let n = STEP_WINDOW as nat;
        let x = values.last();
        assert(rest.push(x) =~= values);
        assert(keep_last(keep_last(rest, n).push(x), n) =~= keep_last(values, n));
    }
}

} // verus!
