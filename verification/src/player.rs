//! The player's movement rule, applied once per simulation tick.
//!
//! Velocities are in pixels per second. The rule decides the horizontal
//! velocity, whether the vertical velocity is overridden (and with what),
//! and whether the player is climbing afterwards; physics does the rest.

use vstd::prelude::*;
use crate::input::{Action, TickInput};

verus! {

/// Horizontal walking speed.
pub const WALK_SPEED: i32 = 200;

/// Vertical speed while climbing.
pub const CLIMB_SPEED: i32 = 200;

/// Upward speed given by a jump.
pub const JUMP_SPEED: i32 = 500;

/// `1` if only `positive` is held, `-1` if only `negative` is, else `0`.
pub open spec fn axis(positive: bool, negative: bool) -> int {
    (if positive {
        1int
    } else {
        0int
    }) - (if negative {
        1int
    } else {
        0int
    })
}

/// Whether the player climbs after the ladder check of this tick: never
/// away from a climbable; starting on a fresh press of Up or Down; else as
/// before.
pub open spec fn climbs(input: TickInput, was_climbing: bool, touching_climbable: bool) -> bool {
    if !touching_climbable {
        false
    } else if input.is_just_pressed(Action::Up) || input.is_just_pressed(Action::Down) {
        true
    } else {
        was_climbing
    }
}

/// Whether the player jumps this tick: a fresh press of Jump while on the
/// ground or climbing.
pub open spec fn jumps(input: TickInput, climbing: bool, on_ground: bool) -> bool {
    input.is_just_pressed(Action::Jump) && (on_ground || climbing)
}

/// The ladder and jump rules, stated from the inputs: next to a climbable,
/// a fresh press of Up or of Down starts climbing and an ongoing climb
/// continues; away from one there is no climbing; a fresh press of Jump
/// jumps exactly when the player is on the ground or climbing, whatever
/// else is held.
pub proof fn lemma_ladder_and_jump_rules(
    input: TickInput,
    was_climbing: bool,
    touching_climbable: bool,
    climbing: bool,
    on_ground: bool,
)
    ensures
        touching_climbable && input.is_just_pressed(Action::Down) ==> climbs(
            input,
            was_climbing,
            touching_climbable,
        ),
        touching_climbable && input.is_just_pressed(Action::Up) ==> climbs(
            input,
            was_climbing,
            touching_climbable,
        ),
        touching_climbable && was_climbing ==> climbs(input, was_climbing, touching_climbable),
        !touching_climbable ==> !climbs(input, was_climbing, touching_climbable),
        climbs(input, was_climbing, touching_climbable) ==> (was_climbing || input.is_just_pressed(
            Action::Up,
        ) || input.is_just_pressed(Action::Down)),
        input.is_just_pressed(Action::Jump) && (on_ground || climbing) ==> jumps(
            input,
            climbing,
            on_ground,
        ),
        !input.is_just_pressed(Action::Jump) ==> !jumps(input, climbing, on_ground),
        !on_ground && !climbing ==> !jumps(input, climbing, on_ground),
{
}

/// What the movement rule does to the player's velocity this tick.
#[derive(Clone, Copy, Debug, PartialEq, Eq, Structural)]
pub struct MovementUpdate {
    /// The new horizontal velocity.
    pub vx: i32,
    /// The new vertical velocity, or `None` where it is left to physics.
    pub vy: Option<i32>,
}

/// One tick of player movement: walk with Left/Right, climb with Up/Down
/// while touching a climbable, jump when grounded or climbing (a jump ends
/// climbing).
pub fn player_movement(
    input: &TickInput,
    climbing: &mut bool,
    touching_climbable: bool,
    on_ground: bool,
) -> (update: MovementUpdate)
    ensures
        update.vx == WALK_SPEED * axis(
            input.is_pressed(Action::Right),
            input.is_pressed(Action::Left),
        ),
        ({
            let mid = climbs(*input, *old(climbing), touching_climbable);
            let jump = jumps(*input, mid, on_ground);
            &&& *final(climbing) == (mid && !jump)
            &&& update.vy == if jump {
                Some(JUMP_SPEED)
            } else if mid {
                Some((CLIMB_SPEED * axis(
                    input.is_pressed(Action::Up),
                    input.is_pressed(Action::Down),
                )) as i32)
            } else {
                None
            }
        }),
        !touching_climbable ==> !*final(climbing),
        update.vy == Some(JUMP_SPEED) ==> !*final(climbing),
        input.is_pressed(Action::Left) == input.is_pressed(Action::Right) ==> update.vx == 0,
        // A fresh press of Up or Down next to a climbable starts climbing,
        // as does already climbing there; without a jump the climb sets the
        // vertical speed from Up and Down.
        touching_climbable && (*old(climbing) || input.is_just_pressed(Action::Up)
            || input.is_just_pressed(Action::Down)) && !input.is_just_pressed(Action::Jump)
            ==> *final(climbing) && update.vy == Some(
            (CLIMB_SPEED * axis(input.is_pressed(Action::Up), input.is_pressed(Action::Down))) as i32,
        ),
        // A fresh press of Jump on the ground, or while climbing (including a
        // climb started this tick), jumps whatever else is held, and ends
        // climbing.
        input.is_just_pressed(Action::Jump) && (on_ground || (touching_climbable && (*old(
            climbing,
        ) || input.is_just_pressed(Action::Up) || input.is_just_pressed(Action::Down))))
            ==> update.vy == Some(JUMP_SPEED) && !*final(climbing),
        // Neither on the ground nor at a climbable, nothing touches the
        // vertical speed.
        !on_ground && !touching_climbable ==> update.vy.is_none() && !*final(climbing),
        // Away from a fresh Jump, the vertical speed is set only by climbing.
        !input.is_just_pressed(Action::Jump) && !(touching_climbable && (*old(climbing)
            || input.is_just_pressed(Action::Up) || input.is_just_pressed(Action::Down)))
            ==> update.vy.is_none() && !*final(climbing),
{
    let right: i32 = if input.pressed(Action::Right) {
        1
    } else {
        0
    };
    let left: i32 = if input.pressed(Action::Left) {
        1
    } else {
        0
    };
    let vx = (right - left) * WALK_SPEED;
    let mut vy: Option<i32> = None;

    if !touching_climbable {
        *climbing = false;
    } else if input.just_pressed(Action::Up) || input.just_pressed(Action::Down) {
        *climbing = true;
    }
    if *climbing {
        let up: i32 = if input.pressed(Action::Up) {
            1
        } else {
            0
        };
        let down: i32 = if input.pressed(Action::Down) {
            1
        } else {
            0
        };
        vy = Some((up - down) * CLIMB_SPEED);
    }
    if input.just_pressed(Action::Jump) && (on_ground || *climbing) {
        vy = Some(JUMP_SPEED);
        *climbing = false;
    }
    MovementUpdate { vx, vy }
}

} // verus!
