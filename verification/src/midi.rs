//! Incoming MIDI: the event shape the show runtime dispatches on, and
//! the trusted parsers that produce it from outside data.

use vstd::prelude::*;

verus! {

/// A live MIDI event, reduced to the channel-voice messages the show
/// runtime reacts to. Channels are 0..16, keys, controllers and values
/// 0..128.
#[derive(Debug, Clone, Copy, PartialEq, Eq, Structural)]
pub enum MidiEvent {
    NoteOn { channel: u8, key: u8, velocity: u8 },
    NoteOff { channel: u8, key: u8, velocity: u8 },
    Controller { channel: u8, controller: u8, value: u8 },
    /// Any well-formed message the runtime ignores (aftertouch, pitch
    /// bend, program change, system common and realtime).
    Other,
}

/// The event that a raw MIDI byte buffer parses to, or `None` where the
/// buffer is malformed.
pub uninterp spec fn live_event_of(bytes: Seq<u8>) -> Option<MidiEvent>;

/// Relies on midly's `LiveEvent::parse`: the result is a function of the
/// bytes alone; a malformed buffer yields an error, never a panic.
#[verifier::external_body]
pub fn parse_live_event(bytes: &[u8]) -> (r: Option<MidiEvent>)
    ensures
        r == live_event_of(bytes@),
{
    match midly::live::LiveEvent::parse(bytes) {
        Ok(midly::live::LiveEvent::Midi { channel, message }) => Some(match message {
            midly::MidiMessage::NoteOn { key, vel } =>
                MidiEvent::NoteOn { channel: channel.as_int(), key: key.as_int(), velocity: vel.as_int() },
            midly::MidiMessage::NoteOff { key, vel } =>
                MidiEvent::NoteOff { channel: channel.as_int(), key: key.as_int(), velocity: vel.as_int() },
            midly::MidiMessage::Controller { controller, value } =>
                MidiEvent::Controller { channel: channel.as_int(), controller: controller.as_int(), value: value.as_int() },
            _ => MidiEvent::Other,
        }),
        Ok(_) => Some(MidiEvent::Other),
        Err(_) => None,
    }
}

/// The note-name shape the parser is specified for: one or more ASCII
/// letters followed by a single ASCII digit (a note letter, an optional
/// accidental suffix, and the octave). Outside this shape the outside
/// parser can panic — an empty letter part is sliced unchecked, and a
/// negative octave wraps into unchecked arithmetic — so the trusted
/// call below is never made for such a name.
pub open spec fn spec_note_name_shape(s: Seq<char>) -> bool {
    &&& s.len() >= 2
    &&& forall|i: int|
        0 <= i < s.len() - 1 ==> ((('a' as u32) <= (#[trigger] s[i]) as u32 <= ('z' as u32))
            || (('A' as u32) <= s[i] as u32 <= ('Z' as u32)))
    &&& ('0' as u32) <= s[s.len() - 1] as u32 <= ('9' as u32)
}

/// Whether a note name has the shape the parser is specified for.
pub fn note_name_shape_ok(s: &str) -> (r: bool)
    ensures
        r == spec_note_name_shape(s@),
{
    let n = s.unicode_len();
    if n < 2 {
        return false;
    }
    let mut i: usize = 0;
    while i < n - 1
        invariant
            n == s@.len(),
            2 <= n,
            i <= n - 1,
            forall|k: int|
                0 <= k < i ==> ((('a' as u32) <= (#[trigger] s@[k]) as u32 <= ('z' as u32))
                    || (('A' as u32) <= s@[k] as u32 <= ('Z' as u32))),
        decreases n - 1 - i,
    {
        let c = s.get_char(i) as u32;
        if !((('a' as u32) <= c && c <= ('z' as u32)) || (('A' as u32) <= c && c <= ('Z' as u32))) {
            return false;
        }
        i = i + 1;
    }
    let last = s.get_char(n - 1) as u32;
    ('0' as u32) <= last && last <= ('9' as u32)
}

/// The MIDI note number that a human-readable note name of the shape
/// above resolves to, or `None` where the name spells no note.
pub uninterp spec fn midi_note_of(name: Seq<char>) -> Option<u8>;

/// Relies on musical_note's `ResolvedNote::from_str`: the result is a
/// function of the name alone (a fixed grammar and a fixed note table,
/// which the first call initializes for the process). For a name of
/// [`spec_note_name_shape`] the letter part of the match is nonempty
/// and the octave digit is nonnegative, which keeps the call on the
/// parser's panic-free paths.
#[verifier::external_body]
pub fn parse_note_name(name: &str) -> (r: Option<u8>)
    requires
        spec_note_name_shape(name@),
    ensures
        r == midi_note_of(name@),
{
    musical_note::ResolvedNote::from_str(name).map(|n| n.midi)
}

} // verus!
