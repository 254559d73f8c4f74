use vstd::prelude::*;
use crate::player::{key_delta, player_input, InputKey};

verus! {

/// Whether the world runs its systems on the next frame or waits for the player.
#[derive(Clone, Copy, Debug, PartialEq, Eq, Structural)]
pub enum SystemState {
    Running,
    Paused,
}

/// What one frame does: whether the systems run, which step the player takes,
/// and the state of the next frame.
#[derive(Clone, Copy, Debug)]
pub struct TickPlan {
    pub run_systems: bool,
    pub player_move: Option<(i32, i32)>,
    pub next_state: SystemState,
}

/// The plan of a frame in `state` with `key` pressed.
pub open spec fn spec_plan_tick(state: SystemState, key: Option<InputKey>) -> TickPlan {
    match state {
        SystemState::Running => TickPlan { run_systems: true, player_move: None, next_state: SystemState::Paused },
        SystemState::Paused => match key {
            Some(k) if key_delta(k).is_some() => TickPlan {
                run_systems: false,
                player_move: key_delta(k),
                next_state: SystemState::Running,
            },
            _ => TickPlan { run_systems: false, player_move: None, next_state: SystemState::Paused },
        },
    }
}

/// Decides a frame: a running world runs its systems once and pauses; a paused
/// world reads the player's key, and a movement key moves the player and sets
/// the world running for the next frame.
pub fn plan_tick(state: SystemState, key: Option<InputKey>) -> (plan: TickPlan)
    ensures
        plan == spec_plan_tick(state, key),
{
    if state == SystemState::Running {
        TickPlan { run_systems: true, player_move: None, next_state: SystemState::Paused }
    } else {
        let (next_state, player_move) = player_input(key);
        TickPlan { run_systems: false, player_move, next_state }
    }
}

} // verus!
