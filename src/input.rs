//! Press state of bound keys.
use vstd::prelude::*;

verus! {

/// Whether an input is released or pressed.
#[derive(Clone, Copy, Debug, PartialEq, Eq, Hash, Structural)]
pub enum InputState {
    Up,
    Down,
}

/// What a key does on a new input: its remembered state afterwards, and
/// whether the key event is sent.
///
/// Keys driven by a button send every event and remember nothing. Keys
/// driven by an analog axis hear about every small move of the stick, so
/// they remember their last state and only send an event when it changes.
pub open spec fn key_step(previous: Option<InputState>, input: InputState, from_axis: bool) -> (
    Option<InputState>,
    bool,
) {
    if !from_axis {
        (previous, true)
    } else if previous == Some(input) {
        (previous, false)
    } else {
        (Some(input), true)
    }
}

/// Decides a key's remembered state and whether to send its event, as
/// `key_step` states.
pub fn key_transition(previous: Option<InputState>, input: InputState, from_axis: bool) -> (r: (
    Option<InputState>,
    bool,
))
    ensures
        r == key_step(previous, input, from_axis),
{
    if !from_axis {
        return (previous, true);
    }
    match previous {
        Some(state) => {
            if state == input {
                (previous, false)
            } else {
                (Some(input), true)
            }
        },
        None => (Some(input), true),
    }
}

} // verus!
