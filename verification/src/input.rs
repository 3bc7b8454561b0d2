//! Per-tick input: the five-bit control mask, its direction reading, and the
//! confirmed / predicted / disconnected status attached to every frame.

use vstd::prelude::*;
use crate::constants::{INPUT_UP, INPUT_DOWN, INPUT_LEFT, INPUT_RIGHT, INPUT_FIRE};

verus! {

/// Sampled state of the local controls for one tick. The sampling itself
/// (keyboard, pad) is the caller's concern; the core only composes the mask.
#[derive(Clone, Copy, PartialEq, Eq, Debug)]
pub struct ControlState {
    pub up: bool,
    pub down: bool,
    pub left: bool,
    pub right: bool,
    pub fire: bool,
}

/// How an input frame was obtained for a tick.
#[derive(Clone, Copy, PartialEq, Eq, Debug)]
pub enum InputStatus {
    /// The participant's actual choice for the tick.
    Confirmed,
    /// A placeholder guess used until the real input arrives.
    Predicted,
    /// The participant is gone; the frame resolves to the neutral mask.
    Disconnected,
}

/// One participant's input for one tick.
#[derive(Clone, Copy, PartialEq, Eq, Debug)]
pub struct InputFrame {
    /// Participant handle; dense in `[0, num_participants)`.
    pub handle: usize,
    /// Control mask as composed by `handle_input_system`.
    pub bits: u8,
    pub status: InputStatus,
}

/// The mask `handle_input_system` composes from sampled controls.
pub open spec fn spec_input_mask(c: ControlState) -> u8 {
    (if c.up { INPUT_UP } else { 0 })
        | (if c.down { INPUT_DOWN } else { 0 })
        | (if c.left { INPUT_LEFT } else { 0 })
        | (if c.right { INPUT_RIGHT } else { 0 })
        | (if c.fire { INPUT_FIRE } else { 0 })
}

/// Composes the per-tick input mask from the sampled control state: the five
/// controls map to independent bits and simultaneous combinations are kept.
pub fn handle_input_system(controls: &ControlState) -> (mask: u8)
    ensures
        mask == spec_input_mask(*controls),
{
    (if controls.up { INPUT_UP } else { 0 })
        | (if controls.down { INPUT_DOWN } else { 0 })
        | (if controls.left { INPUT_LEFT } else { 0 })
        | (if controls.right { INPUT_RIGHT } else { 0 })
        | (if controls.fire { INPUT_FIRE } else { 0 })
}

/// X component of the direction a mask asks for, before the diagonal rule:
/// right counts +1, left counts -1.
pub open spec fn spec_dir_x(bits: u8) -> int {
    (if bits & INPUT_RIGHT != 0 { 1int } else { 0int })
        - (if bits & INPUT_LEFT != 0 { 1int } else { 0int })
}

/// Y component of the direction a mask asks for, before the diagonal rule:
/// up counts +1, down counts -1.
pub open spec fn spec_dir_y(bits: u8) -> int {
    (if bits & INPUT_UP != 0 { 1int } else { 0int })
        - (if bits & INPUT_DOWN != 0 { 1int } else { 0int })
}

/// Reads the direction a mask asks for, each axis in `{-1, 0, 1}`; opposite
/// bits cancel. The diagonal rule is applied later, by movement.
pub fn control_direction(input: &u8) -> (dir: (i32, i32))
    ensures
        dir.0 as int == spec_dir_x(*input),
        dir.1 as int == spec_dir_y(*input),
{
    let mut dx: i32 = 0;
    let mut dy: i32 = 0;
    if *input & INPUT_UP != 0 {
        dy = dy + 1;
    }
    if *input & INPUT_DOWN != 0 {
        dy = dy - 1;
    }
    if *input & INPUT_RIGHT != 0 {
        dx = dx + 1;
    }
    if *input & INPUT_LEFT != 0 {
        dx = dx - 1;
    }
    (dx, dy)
}

/// The mask a frame contributes to the simulation: confirmed and predicted
/// inputs pass through verbatim, a disconnected participant is neutral.
pub open spec fn spec_resolved_bits(frame: InputFrame) -> u8 {
    match frame.status {
        InputStatus::Disconnected => 0u8,
        _ => frame.bits,
    }
}

/// Resolves a frame to the mask the simulation will consume.
pub fn resolved_bits(frame: &InputFrame) -> (bits: u8)
    ensures
        bits == spec_resolved_bits(*frame),
{
    match frame.status {
        InputStatus::Disconnected => 0,
        _ => frame.bits,
    }
}

} // verus!
