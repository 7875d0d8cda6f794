//! Show runtime for a MIDI-driven wireless lighting controller.
//!
//! The library covers the show model, the resolver that turns a show
//! definition into lookup tables, the per-receiver ownership bookkeeping,
//! the clip sequencer, the activation/deactivation state machine with its
//! sustain and lights-out policies, and the wire-level packet codec.
//! Radio and MIDI transports live outside the library: every operation
//! returns the packets it wants on the air as a list of
//! [`packet::Packet`] values, and the caller owns the radio.

pub mod clip;
pub mod config;
pub mod director;
pub mod laws;
pub mod midi;
pub mod packet;
pub mod radio;
pub mod runtime;
pub mod util;
pub mod show;
pub mod showstate;
