//! The director loop's vocabulary and decisions.
//!
//! The loop itself waits on a channel and talks to the radio, so it
//! lives outside the library; the decisions it takes are here.

use vstd::prelude::*;

use crate::midi::MidiEvent;

verus! {

/// The controller number that asks for a show reload, on the control
/// channel with value 127.
pub const RESET_CONTROLLER: u8 = 103;

/// Messages that drive the director loop.
#[derive(Debug)]
pub enum DirectorMessage {
    /// A raw MIDI event with its host timestamp.
    MidiMessage { ts: u64, buf: Vec<u8> },
    /// Shut the event loop down.
    Shutdown,
    /// Reload the show file and reinitialize receivers and show state.
    Reload,
}

/// Whether an event is the MIDI reset command: controller 103 with
/// value 127 on the control channel.
pub open spec fn spec_reset_requested(event: MidiEvent, control_channel: u8) -> bool {
    match event {
        MidiEvent::Controller { channel, controller, value } =>
            channel == control_channel && controller == RESET_CONTROLLER && value == 127,
        _ => false,
    }
}

/// Whether the director must tear down and reload show state for this
/// event, before any cue dispatch sees it.
pub fn reset_requested(event: &MidiEvent, control_channel: u8) -> (r: bool)
    ensures
        r == spec_reset_requested(*event, control_channel),
{
    match event {
        MidiEvent::Controller { channel, controller, value } =>
            *channel == control_channel && *controller == RESET_CONTROLLER && *value == 127,
        _ => false,
    }
}

} // verus!
