//! Typed model of a show definition.
//!
//! These types mirror the show JSON: receivers with their groups and LED
//! counts, named colors, light mappings bound to MIDI triggers, and clips.
//! Times are carried as integers: durations in milliseconds, tempos in
//! thousandths of a BPM ("milli-BPM") and beat counts in thousandths of a
//! beat ("millibeats"), so that every later computation is exact.

use vstd::prelude::*;

verus! {

/// A color as sent on the wire: hue, saturation, value.
#[derive(Debug, Clone, Copy, PartialEq, Eq, Structural)]
pub struct Color {
    pub h: u8,
    pub s: u8,
    pub v: u8,
}

/// The closed catalog of receiver effects. Each variant carries the
/// effect-specific parameters that are packed into the show packet.
///
/// `Twinkle::twinkle_factor` is the wire byte itself: the fraction scaled
/// by 256 and truncated.
#[derive(Debug, Clone, Copy, PartialEq, Eq, Structural)]
pub enum Effect {
    Pop,
    /// `delay_quantization` controls how many receivers fire together.
    Firecrackers { delay_quantization: u8, delay_multiplier: u8 },
    /// `chase_length` LEDs are lit; `reverse` runs high to low.
    Chase { chase_length: u8, reverse: bool },
    /// `division` is quarters (1), eighths (2) etc. relative to tempo.
    Strobe { division: u8 },
    BidiChase { chase_length: u8 },
    /// `beat_denominator` divides the tempo to set the head speed; it is
    /// sent in place of the sustain byte.
    OneShotChase { chase_length: u8, reverse: bool, beat_denominator: u8 },
    BidiOneShotChase { chase_length: u8 },
    /// One in `stride` LEDs is lit; `tempo_division` as for `Strobe`.
    Sparkle { stride: u8, tempo_division: u8 },
    /// The wave hue runs from the mapping color to `alternate_hue`.
    Wave { alternate_hue: u8, alternate_brightness: u8, colorspace_phase: u8, colorspace_range: u8 },
    PiezoTrigger { flash_decay: u8, threshold: u8 },
    Flame { min_flicker: u8, max_flicker: u8 },
    Flame2 { min_flicker: u8, max_flicker: u8 },
    Grass { base_height: u8, blade_top: u8 },
    CircularChase { chase_length: u8, reverse: bool },
    BatteryTest,
    Rainbow { secondary_hue: u8 },
    Twinkle { twinkle_brightness: u8, twinkle_factor: u8 },
    DigitalPin { pin: u8 },
    PinAndSpin { pin: u8, rpm: u8 },
    PopAndSpin { rpm: u8 },
}

/// One receiver as declared by the show: its id, optional name, optional
/// group name, and LED count.
#[derive(Debug, Clone)]
pub struct ReceiverConfiguration {
    pub id: u8,
    pub name: Option<String>,
    pub group_name: Option<String>,
    pub led_count: u16,
    pub comment: Option<String>,
}

/// The MIDI trigger of a mapping: a note (by name, e.g. `"cis4"`) or a
/// continuous controller.
#[derive(Debug, Clone)]
pub enum MidiMappingType {
    Note { channel: u8, note: String },
    Controller { channel: u8, cc: u8 },
}

/// What a mapping drives: a single effect or a named clip.
#[derive(Debug, Clone)]
pub enum LightMappingType {
    Effect(Effect),
    Clip(String),
}

/// One entry of a mapping's target list. A target is a receiver id given
/// as a number, a receiver or group name, or a token of a kind the show
/// format does not support (kept so the resolver can report it).
#[derive(Debug, Clone)]
pub enum Target {
    Number(u64),
    Name(String),
    Unsupported,
}

/// The central cue record: a MIDI trigger bound to an effect or clip,
/// with its color, envelope and tempo settings and its target list.
///
/// `id` is the mapping's stable identity, assigned by the resolver;
/// it is unique within the show and never zero once resolved.
/// `tempo` is in milli-BPM; `attack`, `sustain` and `release` are in
/// milliseconds. An absent `targets` list means "all receivers".
#[derive(Debug, Clone)]
pub struct LightMapping {
    pub id: usize,
    pub cue: String,
    pub midi: Option<MidiMappingType>,
    pub light: LightMappingType,
    pub color: String,
    pub override_clip_color: Option<bool>,
    pub attack: Option<u32>,
    pub sustain: Option<u32>,
    pub release: Option<u32>,
    pub one_shot: Option<bool>,
    pub tempo: Option<u32>,
    pub modulation: Option<u8>,
    pub targets: Option<Vec<Target>>,
}

impl LightMapping {
    /// The mapping's stable identity.
    pub fn get_id(&self) -> (r: usize)
        ensures
            r == self.id,
    {
        self.id
    }

    /// Whether the mapping is one-shot: such a mapping claims no receiver
    /// ownership and ignores deactivation.
    pub open spec fn spec_one_shot(&self) -> bool {
        self.one_shot == Some(true)
    }

    pub fn is_one_shot(&self) -> (r: bool)
        ensures
            r == self.spec_one_shot(),
    {
        match self.one_shot {
            Some(b) => b,
            None => false,
        }
    }
}

/// One step of a clip timeline. `WaitBeats` counts millibeats and
/// `SetTempo` is in milli-BPM.
#[derive(Debug, Clone)]
pub enum ClipStep {
    /// Trigger the contained mapping.
    MappingOn(LightMapping),
    /// Trigger "off" the `MappingOn` at the given step index.
    MappingOff(usize),
    /// Wait the given number of millibeats.
    WaitBeats(u32),
    /// Wait the given number of milliseconds.
    WaitMillis(u32),
    /// Go back to the step at the index.
    Loop(usize),
    /// Set the clip-wide color override.
    SetColor(Color),
    /// Set the clip-wide tempo, in milli-BPM.
    SetTempo(u32),
    /// Stop any owned mappings and terminate the clip.
    Stop,
    /// Stop another named clip if it is playing.
    StopOther(String),
    /// Terminate the clip.
    End,
}

/// A full show: receivers, named colors, top-level mappings and clips.
#[derive(Debug, Clone)]
pub struct ShowDefinition {
    pub receivers: Vec<ReceiverConfiguration>,
    pub colors: Vec<(String, Color)>,
    pub mappings: Vec<LightMapping>,
    pub clips: Vec<(String, Vec<ClipStep>)>,
}

} // verus!
