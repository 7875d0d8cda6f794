//! Wire-level packet codec.
//!
//! A frame is `[len][dest][from_id][pkt_id][flags][payload..][extra..]`,
//! where `len` counts every byte after the length byte itself. `dest` is
//! `0xFF` for broadcast, multi-target and group packets; for those the
//! explicit target list is appended after the payload so receivers can
//! self-filter. A show payload is 10 bytes, a control payload 5 bytes
//! opened by the `0xFF` command marker.

use vstd::prelude::*;

use crate::show::{Color, Effect};

verus! {

/// First id of the group range. Transmitters use 0..10, groups 10..80,
/// receivers 80..255.
pub const GROUP_ID_FIRST: u8 = 10;

/// First id of the receiver range (and one past the group range).
pub const RECEIVER_ID_FIRST: u8 = 80;

/// Whether a destination byte falls in the group id range.
pub open spec fn spec_is_group_id(b: u8) -> bool {
    GROUP_ID_FIRST <= b < RECEIVER_ID_FIRST
}

/// The effect selector byte of a show packet, one per [`Effect`] variant
/// plus `Off`.
#[derive(Debug, Clone, Copy, PartialEq, Eq, Structural)]
pub enum EffectId {
    Off,
    Pop,
    Firecrackers,
    Chase,
    Strobe,
    BidiChase,
    OneShotChase,
    BidiOneShotChase,
    Sparkle,
    Wave,
    PiezoTrigger,
    Flame,
    Flame2,
    Grass,
    CircularChase,
    BatteryTest,
    Rainbow,
    Twinkle,
    DigitalPin,
    PinAndSpin,
    PopAndSpin,
}

/// The byte that codes for an effect at the receiver.
pub open spec fn spec_effect_id_byte(e: EffectId) -> u8 {
    match e {
        EffectId::Off => 0,
        EffectId::Pop => 1,
        EffectId::Firecrackers => 2,
        EffectId::Chase => 3,
        EffectId::Strobe => 4,
        EffectId::BidiChase => 5,
        EffectId::OneShotChase => 6,
        EffectId::BidiOneShotChase => 7,
        EffectId::Sparkle => 8,
        EffectId::Wave => 9,
        EffectId::PiezoTrigger => 10,
        EffectId::Flame => 11,
        EffectId::Flame2 => 12,
        EffectId::Grass => 13,
        EffectId::CircularChase => 14,
        EffectId::BatteryTest => 15,
        EffectId::Rainbow => 16,
        EffectId::Twinkle => 17,
        EffectId::DigitalPin => 18,
        EffectId::PinAndSpin => 19,
        EffectId::PopAndSpin => 20,
    }
}

/// The effect selector coded by a byte, if any.
pub open spec fn spec_effect_from_byte(b: u8) -> Option<EffectId> {
    if b == 0 { Some(EffectId::Off) }
    else if b == 1 { Some(EffectId::Pop) }
    else if b == 2 { Some(EffectId::Firecrackers) }
    else if b == 3 { Some(EffectId::Chase) }
    else if b == 4 { Some(EffectId::Strobe) }
    else if b == 5 { Some(EffectId::BidiChase) }
    else if b == 6 { Some(EffectId::OneShotChase) }
    else if b == 7 { Some(EffectId::BidiOneShotChase) }
    else if b == 8 { Some(EffectId::Sparkle) }
    else if b == 9 { Some(EffectId::Wave) }
    else if b == 10 { Some(EffectId::PiezoTrigger) }
    else if b == 11 { Some(EffectId::Flame) }
    else if b == 12 { Some(EffectId::Flame2) }
    else if b == 13 { Some(EffectId::Grass) }
    else if b == 14 { Some(EffectId::CircularChase) }
    else if b == 15 { Some(EffectId::BatteryTest) }
    else if b == 16 { Some(EffectId::Rainbow) }
    else if b == 17 { Some(EffectId::Twinkle) }
    else if b == 18 { Some(EffectId::DigitalPin) }
    else if b == 19 { Some(EffectId::PinAndSpin) }
    else if b == 20 { Some(EffectId::PopAndSpin) }
    else { None }
}

impl EffectId {
    /// The wire byte of this effect selector.
    pub fn to_byte(self) -> (b: u8)
        ensures
            b == spec_effect_id_byte(self),
    {
        match self {
            EffectId::Off => 0,
            EffectId::Pop => 1,
            EffectId::Firecrackers => 2,
            EffectId::Chase => 3,
            EffectId::Strobe => 4,
            EffectId::BidiChase => 5,
            EffectId::OneShotChase => 6,
            EffectId::BidiOneShotChase => 7,
            EffectId::Sparkle => 8,
            EffectId::Wave => 9,
            EffectId::PiezoTrigger => 10,
            EffectId::Flame => 11,
            EffectId::Flame2 => 12,
            EffectId::Grass => 13,
            EffectId::CircularChase => 14,
            EffectId::BatteryTest => 15,
            EffectId::Rainbow => 16,
            EffectId::Twinkle => 17,
            EffectId::DigitalPin => 18,
            EffectId::PinAndSpin => 19,
            EffectId::PopAndSpin => 20,
        }
    }

    /// The effect selector coded by a byte, if any.
    pub fn from_byte(b: u8) -> (r: Option<EffectId>)
        ensures
            r == spec_effect_from_byte(b),
    {
        match b {
            0 => Some(EffectId::Off),
            1 => Some(EffectId::Pop),
            2 => Some(EffectId::Firecrackers),
            3 => Some(EffectId::Chase),
            4 => Some(EffectId::Strobe),
            5 => Some(EffectId::BidiChase),
            6 => Some(EffectId::OneShotChase),
            7 => Some(EffectId::BidiOneShotChase),
            8 => Some(EffectId::Sparkle),
            9 => Some(EffectId::Wave),
            10 => Some(EffectId::PiezoTrigger),
            11 => Some(EffectId::Flame),
            12 => Some(EffectId::Flame2),
            13 => Some(EffectId::Grass),
            14 => Some(EffectId::CircularChase),
            15 => Some(EffectId::BatteryTest),
            16 => Some(EffectId::Rainbow),
            17 => Some(EffectId::Twinkle),
            18 => Some(EffectId::DigitalPin),
            19 => Some(EffectId::PinAndSpin),
            20 => Some(EffectId::PopAndSpin),
            _ => None,
        }
    }
}

/// Decoding the wire byte of any effect selector yields that selector.
pub proof fn lemma_effect_byte_round_trip(e: EffectId)
    ensures
        spec_effect_from_byte(spec_effect_id_byte(e)) == Some(e),
{
}

impl Effect {
    /// The effect selector of this effect variant.
    pub open spec fn spec_effect_id(&self) -> EffectId {
        match self {
            Effect::Pop => EffectId::Pop,
            Effect::Firecrackers { .. } => EffectId::Firecrackers,
            Effect::Chase { .. } => EffectId::Chase,
            Effect::Strobe { .. } => EffectId::Strobe,
            Effect::BidiChase { .. } => EffectId::BidiChase,
            Effect::OneShotChase { .. } => EffectId::OneShotChase,
            Effect::BidiOneShotChase { .. } => EffectId::BidiOneShotChase,
            Effect::Sparkle { .. } => EffectId::Sparkle,
            Effect::Wave { .. } => EffectId::Wave,
            Effect::PiezoTrigger { .. } => EffectId::PiezoTrigger,
            Effect::Flame { .. } => EffectId::Flame,
            Effect::Flame2 { .. } => EffectId::Flame2,
            Effect::Grass { .. } => EffectId::Grass,
            Effect::CircularChase { .. } => EffectId::CircularChase,
            Effect::BatteryTest => EffectId::BatteryTest,
            Effect::Rainbow { .. } => EffectId::Rainbow,
            Effect::Twinkle { .. } => EffectId::Twinkle,
            Effect::DigitalPin { .. } => EffectId::DigitalPin,
            Effect::PinAndSpin { .. } => EffectId::PinAndSpin,
            Effect::PopAndSpin { .. } => EffectId::PopAndSpin,
        }
    }

    /// The effect selector of this effect variant.
    pub fn to_effect_id(&self) -> (r: EffectId)
        ensures
            r == self.spec_effect_id(),
    {
        match self {
            Effect::Pop => EffectId::Pop,
            Effect::Firecrackers { .. } => EffectId::Firecrackers,
            Effect::Chase { .. } => EffectId::Chase,
            Effect::Strobe { .. } => EffectId::Strobe,
            Effect::BidiChase { .. } => EffectId::BidiChase,
            Effect::OneShotChase { .. } => EffectId::OneShotChase,
            Effect::BidiOneShotChase { .. } => EffectId::BidiOneShotChase,
            Effect::Sparkle { .. } => EffectId::Sparkle,
            Effect::Wave { .. } => EffectId::Wave,
            Effect::PiezoTrigger { .. } => EffectId::PiezoTrigger,
            Effect::Flame { .. } => EffectId::Flame,
            Effect::Flame2 { .. } => EffectId::Flame2,
            Effect::Grass { .. } => EffectId::Grass,
            Effect::CircularChase { .. } => EffectId::CircularChase,
            Effect::BatteryTest => EffectId::BatteryTest,
            Effect::Rainbow { .. } => EffectId::Rainbow,
            Effect::Twinkle { .. } => EffectId::Twinkle,
            Effect::DigitalPin { .. } => EffectId::DigitalPin,
            Effect::PinAndSpin { .. } => EffectId::PinAndSpin,
            Effect::PopAndSpin { .. } => EffectId::PopAndSpin,
        }
    }

    /// The show packet after this effect's parameters are packed into it:
    /// `param1` and `param2` are rewritten (from zero), `OneShotChase`
    /// overrides the sustain byte with its beat denominator, and the two
    /// spin effects override the tempo byte with their rpm.
    pub open spec fn spec_populate(&self, p0: ShowPacket) -> ShowPacket {
        let p = ShowPacket { param1: 0, param2: 0, ..p0 };
        match *self {
            Effect::Firecrackers { delay_quantization, delay_multiplier } =>
                (ShowPacket { param1: delay_quantization, param2: delay_multiplier, ..p }),
            Effect::Chase { chase_length, reverse } =>
                (ShowPacket { param1: chase_length, param2: if reverse { 1 } else { 0 }, ..p }),
            Effect::Strobe { division } => (ShowPacket { param1: division, ..p }),
            Effect::BidiChase { chase_length } => (ShowPacket { param1: chase_length, ..p }),
            Effect::OneShotChase { chase_length, reverse, beat_denominator } =>
                (ShowPacket {
                    param1: chase_length,
                    param2: if reverse { 1 } else { 0 },
                    sustain: beat_denominator,
                    ..p
                }),
            Effect::BidiOneShotChase { chase_length } => (ShowPacket { param1: chase_length, ..p }),
            Effect::Sparkle { stride, tempo_division } =>
                (ShowPacket { param1: stride, param2: tempo_division, ..p }),
            Effect::Wave { alternate_hue, alternate_brightness, colorspace_phase, colorspace_range } =>
                (ShowPacket {
                    param1: alternate_hue | (alternate_brightness >> 4),
                    param2: colorspace_range | (colorspace_phase >> 4),
                    ..p
                }),
            Effect::PiezoTrigger { flash_decay, threshold } =>
                (ShowPacket { param1: flash_decay, param2: threshold, ..p }),
            Effect::Flame { min_flicker, max_flicker } =>
                (ShowPacket { param1: min_flicker, param2: max_flicker, ..p }),
            Effect::Flame2 { min_flicker, max_flicker } =>
                (ShowPacket { param1: min_flicker, param2: max_flicker, ..p }),
            Effect::Grass { base_height, blade_top } =>
                (ShowPacket { param1: base_height, param2: blade_top, ..p }),
            Effect::CircularChase { chase_length, reverse } =>
                (ShowPacket { param1: chase_length, param2: if reverse { 1 } else { 0 }, ..p }),
            Effect::Twinkle { twinkle_brightness, twinkle_factor } =>
                (ShowPacket { param1: twinkle_brightness, param2: twinkle_factor, ..p }),
            Effect::DigitalPin { pin } => (ShowPacket { param1: pin, ..p }),
            Effect::PinAndSpin { pin, rpm } => (ShowPacket { param1: pin, tempo: rpm, ..p }),
            Effect::PopAndSpin { rpm } => (ShowPacket { tempo: rpm, ..p }),
            _ => p,
        }
    }

    /// Pack this effect's parameters into the packet.
    pub fn populate_effect_params(&self, packet: &mut ShowPacket)
        ensures
            *final(packet) == self.spec_populate(*old(packet)),
    {
        packet.param1 = 0;
        packet.param2 = 0;
        match self {
            Effect::Firecrackers { delay_quantization, delay_multiplier } => {
                packet.param1 = *delay_quantization;
                packet.param2 = *delay_multiplier;
            },
            Effect::Chase { chase_length, reverse } => {
                packet.param1 = *chase_length;
                packet.param2 = if *reverse { 1 } else { 0 };
            },
            Effect::Strobe { division } => {
                packet.param1 = *division;
            },
            Effect::BidiChase { chase_length } => {
                packet.param1 = *chase_length;
            },
            Effect::OneShotChase { chase_length, reverse, beat_denominator } => {
                packet.param1 = *chase_length;
                packet.param2 = if *reverse { 1 } else { 0 };
                packet.sustain = *beat_denominator;
            },
            Effect::BidiOneShotChase { chase_length } => {
                packet.param1 = *chase_length;
            },
            Effect::Sparkle { stride, tempo_division } => {
                packet.param1 = *stride;
                packet.param2 = *tempo_division;
            },
            Effect::Wave { alternate_hue, alternate_brightness, colorspace_phase, colorspace_range } => {
                packet.param1 = *alternate_hue | (*alternate_brightness >> 4);
                packet.param2 = *colorspace_range | (*colorspace_phase >> 4);
            },
            Effect::PiezoTrigger { flash_decay, threshold } => {
                packet.param1 = *flash_decay;
                packet.param2 = *threshold;
            },
            Effect::Flame { min_flicker, max_flicker } => {
                packet.param1 = *min_flicker;
                packet.param2 = *max_flicker;
            },
            Effect::Flame2 { min_flicker, max_flicker } => {
                packet.param1 = *min_flicker;
                packet.param2 = *max_flicker;
            },
            Effect::Grass { base_height, blade_top } => {
                packet.param1 = *base_height;
                packet.param2 = *blade_top;
            },
            Effect::CircularChase { chase_length, reverse } => {
                packet.param1 = *chase_length;
                packet.param2 = if *reverse { 1 } else { 0 };
            },
            Effect::Twinkle { twinkle_brightness, twinkle_factor } => {
                packet.param1 = *twinkle_brightness;
                packet.param2 = *twinkle_factor;
            },
            Effect::DigitalPin { pin } => {
                packet.param1 = *pin;
            },
            Effect::PinAndSpin { pin, rpm } => {
                packet.param1 = *pin;
                packet.tempo = *rpm;
            },
            Effect::PopAndSpin { rpm } => {
                packet.tempo = *rpm;
            },
            _ => {},
        }
    }
}

/// Attack and release are sent as one byte: milliseconds up to 1279 in
/// units of 10 ms with the high bit clear, longer times in units of
/// 100 ms with the high bit set.
pub open spec fn spec_adr(millis: u32) -> u8 {
    if millis <= 1279 {
        (((millis / 10) % 128) as u8)
    } else {
        ((((millis / 100) % 128) + 128) as u8)
    }
}

/// Sustain is sent as one byte: 0 ms codes as 255 ("hold until off"),
/// up to 12799 ms in units of 100 ms with the high bit clear, longer
/// times in units of 1 s with the high bit set.
pub open spec fn spec_sustain(millis: u32) -> u8 {
    if millis == 0 {
        255u8
    } else if millis <= 12799 {
        (((millis / 100) % 128) as u8)
    } else {
        ((((millis / 1000) % 128) + 128) as u8)
    }
}

/// Encode an attack or release duration in milliseconds as its wire byte.
pub fn convert_millis_adr(millis: u32) -> (b: u8)
    ensures
        b == spec_adr(millis),
{
    if millis <= 1279 {
        let q: u32 = millis / 10;
        assert((q & 0x7F) == q % 128) by (bit_vector);
        (q & 0x7F) as u8
    } else {
        let q: u32 = millis / 100;
        assert(((q & 0x7F) | 0x80) == (q % 128) + 128) by (bit_vector);
        ((q & 0x7F) | 0x80) as u8
    }
}

/// Encode a sustain duration in milliseconds as its wire byte.
pub fn convert_millis_sustain(millis: u32) -> (b: u8)
    ensures
        b == spec_sustain(millis),
{
    if millis == 0 {
        255
    } else if millis <= 12799 {
        let q: u32 = millis / 100;
        assert((q & 0x7F) == q % 128) by (bit_vector);
        (q & 0x7F) as u8
    } else {
        let q: u32 = millis / 1000;
        assert(((q & 0x7F) | 0x80) == (q % 128) + 128) by (bit_vector);
        ((q & 0x7F) | 0x80) as u8
    }
}

/// The duration encodings match their band boundaries exactly.
pub proof fn lemma_duration_boundaries()
    ensures
        spec_adr(1279) == 127,
        spec_adr(1280) == 140,
        spec_sustain(0) == 255,
        spec_sustain(1) == 0,
        spec_sustain(12799) == 127,
        spec_sustain(12800) == 140,
{
}

/// The attack/release encoding is monotone within each band: among short
/// durations and among long durations that do not exceed the byte's
/// reach (12799 ms), a longer time never encodes below a shorter one.
pub proof fn lemma_adr_monotone(a: u32, b: u32)
    requires
        a <= b,
        b <= 1279 || (1280 <= a && b <= 12799),
    ensures
        spec_adr(a) <= spec_adr(b),
{
    if b <= 1279 {
        vstd::arithmetic::div_mod::lemma_div_is_ordered(a as int, b as int, 10);
    } else {
        vstd::arithmetic::div_mod::lemma_div_is_ordered(a as int, b as int, 100);
    }
}

/// The sustain encoding is monotone within each band: among nonzero
/// durations up to 12799 ms and among long durations up to the byte's
/// reach (127999 ms), a longer time never encodes below a shorter one.
pub proof fn lemma_sustain_monotone(a: u32, b: u32)
    requires
        a <= b,
        1 <= a,
        b <= 12799 || (12800 <= a && b <= 127999),
    ensures
        spec_sustain(a) <= spec_sustain(b),
{
    if b <= 12799 {
        vstd::arithmetic::div_mod::lemma_div_is_ordered(a as int, b as int, 100);
    } else {
        vstd::arithmetic::div_mod::lemma_div_is_ordered(a as int, b as int, 1000);
    }
}

/// A control command to one receiver or to all of them.
#[derive(Debug, Clone, Copy, PartialEq, Eq, Structural)]
pub enum Command {
    SetGroup { group_id: u8 },
    SetLedCount { led_count: u16 },
    NewBrightness { brightness: u8 },
    NewTempo { tempo: u8 },
    Reset,
}

/// The command selector byte of a control payload.
#[derive(Debug, Clone, Copy, PartialEq, Eq, Structural)]
pub enum CommandId {
    SetGroup,
    SetLedCount,
    NewBrightness,
    NewTempo,
    Reset,
}

/// The byte that codes for a command at the receiver.
pub open spec fn spec_command_id_byte(c: CommandId) -> u8 {
    match c {
        CommandId::SetGroup => 109,
        CommandId::SetLedCount => 110,
        CommandId::NewBrightness => 127,
        CommandId::NewTempo => 128,
        CommandId::Reset => 255,
    }
}

impl CommandId {
    /// The wire byte of this command selector.
    pub fn to_byte(self) -> (b: u8)
        ensures
            b == spec_command_id_byte(self),
    {
        match self {
            CommandId::SetGroup => 109,
            CommandId::SetLedCount => 110,
            CommandId::NewBrightness => 127,
            CommandId::NewTempo => 128,
            CommandId::Reset => 255,
        }
    }
}

impl Command {
    /// The command selector of this command.
    pub open spec fn spec_id(&self) -> CommandId {
        match self {
            Command::SetGroup { .. } => CommandId::SetGroup,
            Command::SetLedCount { .. } => CommandId::SetLedCount,
            Command::NewBrightness { .. } => CommandId::NewBrightness,
            Command::NewTempo { .. } => CommandId::NewTempo,
            Command::Reset => CommandId::Reset,
        }
    }

    /// The command selector of this command.
    pub fn to_id(&self) -> (r: CommandId)
        ensures
            r == self.spec_id(),
    {
        match self {
            Command::SetGroup { .. } => CommandId::SetGroup,
            Command::SetLedCount { .. } => CommandId::SetLedCount,
            Command::NewBrightness { .. } => CommandId::NewBrightness,
            Command::NewTempo { .. } => CommandId::NewTempo,
            Command::Reset => CommandId::Reset,
        }
    }

    /// The three parameter bytes of this command.
    pub open spec fn spec_params(&self) -> Seq<u8> {
        match *self {
            Command::SetGroup { group_id } => seq![group_id, 0, 0],
            Command::SetLedCount { led_count } =>
                seq![(led_count / 256) as u8, (led_count % 256) as u8, 0],
            Command::NewBrightness { brightness } => seq![brightness, 0, 0],
            Command::NewTempo { tempo } => seq![tempo, 0, 0],
            Command::Reset => seq![0, 0, 0],
        }
    }

    /// The full five-byte control payload: the `0xFF` command marker, the
    /// command selector byte, and three parameter bytes.
    pub open spec fn spec_bytes(&self) -> Seq<u8> {
        seq![0xFFu8, spec_command_id_byte(self.spec_id())] + self.spec_params()
    }

    /// Append this command's three parameter bytes to the buffer.
    pub fn populate_params(&self, buf: &mut Vec<u8>)
        ensures
            final(buf)@ == old(buf)@ + self.spec_params(),
    {
        match self {
            Command::SetGroup { group_id } => {
                buf.push(*group_id);
                buf.push(0);
                buf.push(0);
            },
            Command::SetLedCount { led_count } => {
                let hi: u8 = (*led_count >> 8) as u8;
                let lo: u8 = (*led_count & 0xFF) as u8;
                proof {
                    let n = *led_count;
                    assert((n >> 8) == n / 256 && (n & 0xFF) == n % 256) by (bit_vector);
                }
                buf.push(hi);
                buf.push(lo);
                buf.push(0);
            },
            Command::NewBrightness { brightness } => {
                buf.push(*brightness);
                buf.push(0);
                buf.push(0);
            },
            Command::NewTempo { tempo } => {
                buf.push(*tempo);
                buf.push(0);
                buf.push(0);
            },
            Command::Reset => {
                buf.push(0);
                buf.push(0);
                buf.push(0);
            },
        }
        assert(buf@ =~= old(buf)@ + self.spec_params());
    }

    /// Append the full five-byte control payload to the buffer.
    pub fn marshal(&self, buf: &mut Vec<u8>)
        ensures
            final(buf)@ == old(buf)@ + self.spec_bytes(),
    {
        buf.push(0xFF);
        let id = self.to_id();
        buf.push(id.to_byte());
        self.populate_params(buf);
        assert(buf@ =~= old(buf)@ + self.spec_bytes());
    }
}

/// The ten-byte payload of a show packet: effect selector, color,
/// envelope bytes, two effect parameters and the tempo byte.
#[derive(Debug, Clone, Copy, PartialEq, Eq, Structural)]
pub struct ShowPacket {
    /// The effect to perform.
    pub effect: EffectId,
    /// The color, sent as three bytes (h, s, v).
    pub color: Color,
    /// Attack duration, encoded as by [`convert_millis_adr`].
    pub attack: u8,
    /// Steady-state duration, encoded as by [`convert_millis_sustain`];
    /// 255 means "hold until an off packet arrives".
    pub sustain: u8,
    /// Release duration, encoded as by [`convert_millis_adr`].
    pub release: u8,
    /// First effect-specific parameter.
    pub param1: u8,
    /// Second effect-specific parameter.
    pub param2: u8,
    /// Repeats per minute for effects with a recurring motion element.
    pub tempo: u8,
}

impl ShowPacket {
    /// The ten payload bytes of this packet.
    pub open spec fn spec_bytes(&self) -> Seq<u8> {
        seq![
            spec_effect_id_byte(self.effect),
            self.color.h,
            self.color.s,
            self.color.v,
            self.attack,
            self.sustain,
            self.release,
            self.param1,
            self.param2,
            self.tempo,
        ]
    }

    /// Append the ten payload bytes to the buffer.
    pub fn marshal(&self, buf: &mut Vec<u8>)
        ensures
            final(buf)@ == old(buf)@ + self.spec_bytes(),
    {
        buf.push(self.effect.to_byte());
        buf.push(self.color.h);
        buf.push(self.color.s);
        buf.push(self.color.v);
        buf.push(self.attack);
        buf.push(self.sustain);
        buf.push(self.release);
        buf.push(self.param1);
        buf.push(self.param2);
        buf.push(self.tempo);
        assert(buf@ =~= old(buf)@ + self.spec_bytes());
    }

    /// The packet that turns a receiver's effect off.
    pub open spec fn spec_off_packet() -> ShowPacket {
        ShowPacket {
            effect: EffectId::Off,
            color: Color { h: 0, s: 0, v: 0 },
            attack: 0,
            sustain: 0,
            release: 0,
            param1: 0,
            param2: 0,
            tempo: 0,
        }
    }

    /// The packet that turns a receiver's effect off.
    pub fn off_packet() -> (p: ShowPacket)
        ensures
            p == Self::spec_off_packet(),
    {
        ShowPacket {
            effect: EffectId::Off,
            color: Color { h: 0, s: 0, v: 0 },
            attack: 0,
            sustain: 0,
            release: 0,
            param1: 0,
            param2: 0,
            tempo: 0,
        }
    }

    /// The green battery-test packet sent by the test controller.
    pub open spec fn spec_test_packet() -> ShowPacket {
        ShowPacket {
            effect: EffectId::BatteryTest,
            color: Color { h: 96, s: 255, v: 255 },
            attack: 25,
            sustain: 158,
            release: 25,
            param1: 0,
            param2: 0,
            tempo: 0,
        }
    }

    /// The green battery-test packet sent by the test controller.
    pub fn test_packet() -> (p: ShowPacket)
        ensures
            p == Self::spec_test_packet(),
    {
        ShowPacket {
            effect: EffectId::BatteryTest,
            color: Color { h: 96, s: 255, v: 255 },
            attack: 25,
            sustain: 158,
            release: 25,
            param1: 0,
            param2: 0,
            tempo: 0,
        }
    }
}

/// Either payload kind under the shared framing.
#[derive(Debug, Clone, Copy, PartialEq, Eq, Structural)]
pub enum PacketPayload {
    Control(Command),
    Show(ShowPacket),
}

/// The payload bytes of either payload kind.
pub open spec fn spec_payload_bytes(p: PacketPayload) -> Seq<u8> {
    match p {
        PacketPayload::Control(c) => c.spec_bytes(),
        PacketPayload::Show(s) => s.spec_bytes(),
    }
}

/// A logical packet: the resolved recipient list and the payload. An
/// empty recipient list addresses all receivers.
#[derive(Debug)]
pub struct Packet {
    pub recipients: Vec<u8>,
    pub payload: PacketPayload,
}

/// The mathematical image of a [`Packet`].
#[verifier::ext_equal]
pub struct PacketView {
    pub recipients: Seq<u8>,
    pub payload: PacketPayload,
}

impl View for Packet {
    type V = PacketView;

    open spec fn view(&self) -> PacketView {
        PacketView { recipients: self.recipients@, payload: self.payload }
    }
}

/// A packet is a hardware broadcast when its target list is empty
/// ("all receivers"), names more than one target, or names a group.
pub open spec fn spec_is_broadcast(recipients: Seq<u8>) -> bool {
    recipients.len() == 0 || recipients.len() > 1 || spec_is_group_id(recipients[0])
}

/// The full frame for a packet: the length byte (counting everything
/// after itself), the destination byte (`0xFF` for broadcast, else the
/// sole receiver id), `from_id`, `pkt_id`, `flags`, the payload bytes,
/// and, for a broadcast, the explicit target list.
pub open spec fn spec_frame(
    recipients: Seq<u8>,
    payload: PacketPayload,
    from_id: u8,
    packet_id: u8,
    flags: u8,
) -> Seq<u8> {
    let dest: u8 = if spec_is_broadcast(recipients) { 0xFFu8 } else { recipients[0] };
    let body = seq![dest, from_id, packet_id, flags] + spec_payload_bytes(payload)
        + if spec_is_broadcast(recipients) { recipients } else { Seq::<u8>::empty() };
    seq![body.len() as u8] + body
}

impl Packet {
    /// Whether this packet goes out as a hardware broadcast.
    pub fn is_broadcast(&self) -> (r: bool)
        ensures
            r == spec_is_broadcast(self.recipients@),
    {
        self.recipients.len() == 0 || self.recipients.len() > 1
            || (GROUP_ID_FIRST <= self.recipients[0] && self.recipients[0] < RECEIVER_ID_FIRST)
    }

    /// Build the wire frame for this packet. The recipient list is
    /// bounded so that the length byte cannot wrap.
    pub fn marshal(&self, from_id: u8, packet_id: u8, flags: u8) -> (r: Vec<u8>)
        requires
            self.recipients@.len() <= 240,
        ensures
            r@ == spec_frame(self.recipients@, self.payload, from_id, packet_id, flags),
            r@.len() >= 10,
            r@[0] as int == r@.len() - 1,
    {
        let mut buf: Vec<u8> = Vec::new();
        buf.push(0);
        let bcast = self.is_broadcast();
        if bcast {
            buf.push(0xFF);
        } else {
            assert(self.recipients@.len() == 1);
            buf.push(self.recipients[0]);
        }
        buf.push(from_id);
        buf.push(packet_id);
        buf.push(flags);
        match &self.payload {
            PacketPayload::Control(p) => p.marshal(&mut buf),
            PacketPayload::Show(p) => p.marshal(&mut buf),
        }
        let ghost dest: u8 = if spec_is_broadcast(self.recipients@) { 0xFFu8 } else { self.recipients@[0] };
        let ghost head: Seq<u8> = seq![0u8, dest, from_id, packet_id, flags]
            + spec_payload_bytes(self.payload);
        assert(buf@ =~= head);
        if bcast {
            let mut i: usize = 0;
            while i < self.recipients.len()
                invariant
                    i <= self.recipients@.len(),
                    buf@ == head + self.recipients@.subrange(0, i as int),
                decreases self.recipients@.len() - i,
            {
                buf.push(self.recipients[i]);
                i = i + 1;
                assert(buf@ =~= head + self.recipients@.subrange(0, i as int));
            }
            assert(buf@ =~= head + self.recipients@);
        }
        let n = buf.len();
        buf.set(0, (n - 1) as u8);
        assert(buf@ =~= spec_frame(self.recipients@, self.payload, from_id, packet_id, flags));
        buf
    }
}

/// Broadcast framing: a single-receiver single-target packet is framed
/// with `dest` equal to that receiver and appends nothing, while every
/// other case is framed with `dest == 0xFF` and appends the target list
/// verbatim after the payload.
pub proof fn lemma_broadcast_framing(
    recipients: Seq<u8>,
    payload: PacketPayload,
    from_id: u8,
    packet_id: u8,
    flags: u8,
)
    requires
        recipients.len() <= 240,
    ensures
        ({
            let f = spec_frame(recipients, payload, from_id, packet_id, flags);
            let pl = spec_payload_bytes(payload).len();
            if spec_is_broadcast(recipients) {
                f[1] == 0xFF
                    && f.len() == 5 + pl + recipients.len()
                    && f.subrange(5 + pl as int, f.len() as int) =~= recipients
            } else {
                f[1] == recipients[0] && f.len() == 5 + pl
            }
        }),
{
    let f = spec_frame(recipients, payload, from_id, packet_id, flags);
    let pl = spec_payload_bytes(payload).len();
    if spec_is_broadcast(recipients) {
        assert(f.subrange(5 + pl as int, f.len() as int) =~= recipients);
    }
}

/// Decode the show payload of a frame, if the frame is long enough and
/// carries a show payload (a control payload opens with `0xFF`, which is
/// no effect selector).
pub open spec fn spec_decode_show(f: Seq<u8>) -> Option<ShowPacket> {
    if f.len() >= 15 {
        match spec_effect_from_byte(f[5]) {
            Some(e) => Some(
                ShowPacket {
                    effect: e,
                    color: Color { h: f[6], s: f[7], v: f[8] },
                    attack: f[9],
                    sustain: f[10],
                    release: f[11],
                    param1: f[12],
                    param2: f[13],
                    tempo: f[14],
                },
            ),
            None => None,
        }
    } else {
        None
    }
}

/// Decode the show payload of a wire frame, if it carries one.
pub fn decode_show_frame(frame: &Vec<u8>) -> (r: Option<ShowPacket>)
    ensures
        r == spec_decode_show(frame@),
{
    if frame.len() >= 15 {
        match EffectId::from_byte(frame[5]) {
            Some(e) => Some(
                ShowPacket {
                    effect: e,
                    color: Color { h: frame[6], s: frame[7], v: frame[8] },
                    attack: frame[9],
                    sustain: frame[10],
                    release: frame[11],
                    param1: frame[12],
                    param2: frame[13],
                    tempo: frame[14],
                },
            ),
            None => None,
        }
    } else {
        None
    }
}

/// Round trip: the frame of any show packet decodes back to the same
/// packet, and its length byte equals the frame length minus one.
pub proof fn lemma_show_frame_round_trip(
    recipients: Seq<u8>,
    p: ShowPacket,
    from_id: u8,
    packet_id: u8,
    flags: u8,
)
    requires
        recipients.len() <= 240,
    ensures
        ({
            let f = spec_frame(recipients, PacketPayload::Show(p), from_id, packet_id, flags);
            spec_decode_show(f) == Some(p) && f[0] as int == f.len() - 1
        }),
{
    let f = spec_frame(recipients, PacketPayload::Show(p), from_id, packet_id, flags);
    lemma_effect_byte_round_trip(p.effect);
    assert(f[5] == p.spec_bytes()[0]);
    assert(f[6] == p.spec_bytes()[1]);
    assert(f[7] == p.spec_bytes()[2]);
    assert(f[8] == p.spec_bytes()[3]);
    assert(f[9] == p.spec_bytes()[4]);
    assert(f[10] == p.spec_bytes()[5]);
    assert(f[11] == p.spec_bytes()[6]);
    assert(f[12] == p.spec_bytes()[7]);
    assert(f[13] == p.spec_bytes()[8]);
    assert(f[14] == p.spec_bytes()[9]);
}

} // verus!
