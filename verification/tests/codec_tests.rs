//! Wire-format tests: framing, duration encoding, effect parameter
//! packing and the show-payload round trip.

use band_lights::packet::{
    convert_millis_adr, convert_millis_sustain, decode_show_frame, Command, CommandId, EffectId,
    Packet, PacketPayload, ShowPacket,
};
use band_lights::runtime::tempo_byte;
use band_lights::show::{Color, Effect};

fn show_packet(effect: EffectId, h: u8, s: u8, v: u8) -> ShowPacket {
    ShowPacket {
        effect,
        color: Color { h, s, v },
        attack: 0,
        sustain: 255,
        release: 0,
        param1: 0,
        param2: 0,
        tempo: 120,
    }
}

#[test]
fn broadcast_show_frame_layout() {
    let p = Packet {
        recipients: vec![10],
        payload: PacketPayload::Show(show_packet(EffectId::Pop, 0, 255, 255)),
    };
    assert!(p.is_broadcast());
    let frame = p.marshal(1, 7, 0);
    assert_eq!(
        frame,
        vec![15, 0xFF, 1, 7, 0, 1, 0, 255, 255, 0, 255, 0, 0, 0, 120, 10]
    );
    assert_eq!(frame[0] as usize, frame.len() - 1);
}

#[test]
fn single_receiver_frame_is_not_broadcast() {
    let p = Packet {
        recipients: vec![81],
        payload: PacketPayload::Show(show_packet(EffectId::Chase, 3, 4, 5)),
    };
    assert!(!p.is_broadcast());
    let frame = p.marshal(2, 0, 0);
    assert_eq!(frame[1], 81);
    assert_eq!(frame.len(), 15);
    assert_eq!(frame[0] as usize, frame.len() - 1);
}

#[test]
fn empty_recipient_list_is_broadcast_with_no_trailer() {
    let p = Packet {
        recipients: vec![],
        payload: PacketPayload::Show(ShowPacket::off_packet()),
    };
    assert!(p.is_broadcast());
    let frame = p.marshal(1, 0, 0);
    assert_eq!(frame[1], 0xFF);
    assert_eq!(frame.len(), 15);
}

#[test]
fn multi_target_frame_appends_targets() {
    let p = Packet {
        recipients: vec![80, 81],
        payload: PacketPayload::Show(ShowPacket::off_packet()),
    };
    assert!(p.is_broadcast());
    let frame = p.marshal(1, 0, 0);
    assert_eq!(frame[1], 0xFF);
    assert_eq!(&frame[15..], &[80, 81]);
}

#[test]
fn control_frame_layout() {
    let p = Packet {
        recipients: vec![80],
        payload: PacketPayload::Control(Command::SetGroup { group_id: 10 }),
    };
    let frame = p.marshal(1, 3, 0);
    assert_eq!(frame, vec![9, 80, 1, 3, 0, 0xFF, 109, 10, 0, 0]);
}

#[test]
fn set_led_count_splits_bytes() {
    let mut buf = Vec::new();
    Command::SetLedCount { led_count: 0x1234 }.marshal(&mut buf);
    assert_eq!(buf, vec![0xFF, 110, 0x12, 0x34, 0]);
}

#[test]
fn command_ids() {
    assert_eq!(Command::SetGroup { group_id: 1 }.to_id().to_byte(), 109);
    assert_eq!(Command::SetLedCount { led_count: 8 }.to_id().to_byte(), 110);
    assert_eq!(Command::NewBrightness { brightness: 9 }.to_id().to_byte(), 127);
    assert_eq!(Command::NewTempo { tempo: 9 }.to_id().to_byte(), 128);
    assert_eq!(Command::Reset.to_id().to_byte(), 255);
    assert_eq!(CommandId::Reset.to_byte(), 255);
}

#[test]
fn duration_encoding_boundaries() {
    assert_eq!(convert_millis_adr(0), 0);
    assert_eq!(convert_millis_adr(250), 25);
    assert_eq!(convert_millis_adr(1279), 127);
    assert_eq!(convert_millis_adr(1280), 0x80 | 12);
    assert_eq!(convert_millis_sustain(0), 255);
    assert_eq!(convert_millis_sustain(1), 0);
    assert_eq!(convert_millis_sustain(12799), 127);
    assert_eq!(convert_millis_sustain(12800), 0x80 | 12);
}

#[test]
fn duration_encoding_monotone_samples() {
    let mut prev = convert_millis_adr(0);
    for ms in 1..1280u32 {
        let b = convert_millis_adr(ms);
        assert!(b >= prev);
        prev = b;
    }
    let mut prev = convert_millis_sustain(1);
    for ms in 2..12800u32 {
        let b = convert_millis_sustain(ms);
        assert!(b >= prev);
        prev = b;
    }
}

#[test]
fn show_frame_round_trip() {
    let original = ShowPacket {
        effect: EffectId::Wave,
        color: Color { h: 7, s: 8, v: 9 },
        attack: 25,
        sustain: 158,
        release: 25,
        param1: 3,
        param2: 4,
        tempo: 90,
    };
    let p = Packet { recipients: vec![80, 81, 82], payload: PacketPayload::Show(original) };
    let frame = p.marshal(1, 0, 0);
    assert_eq!(decode_show_frame(&frame), Some(original));
    let control = Packet {
        recipients: vec![],
        payload: PacketPayload::Control(Command::Reset),
    };
    assert_eq!(decode_show_frame(&control.marshal(1, 0, 0)), None);
}

#[test]
fn effect_param_packing() {
    let mut p = ShowPacket::off_packet();
    Effect::Chase { chase_length: 5, reverse: true }.populate_effect_params(&mut p);
    assert_eq!((p.param1, p.param2), (5, 1));

    let mut p = ShowPacket::off_packet();
    p.sustain = 99;
    Effect::OneShotChase { chase_length: 4, reverse: false, beat_denominator: 2 }
        .populate_effect_params(&mut p);
    assert_eq!((p.param1, p.param2, p.sustain), (4, 0, 2));

    let mut p = ShowPacket::off_packet();
    Effect::Wave {
        alternate_hue: 0xF0,
        alternate_brightness: 0x80,
        colorspace_phase: 0x40,
        colorspace_range: 0x0F,
    }
    .populate_effect_params(&mut p);
    assert_eq!(p.param1, 0xF0 | (0x80 >> 4));
    assert_eq!(p.param2, 0x0F | (0x40 >> 4));

    let mut p = ShowPacket::off_packet();
    p.tempo = 120;
    Effect::PinAndSpin { pin: 3, rpm: 45 }.populate_effect_params(&mut p);
    assert_eq!((p.param1, p.tempo), (3, 45));

    let mut p = ShowPacket::off_packet();
    Effect::Twinkle { twinkle_brightness: 9, twinkle_factor: 128 }.populate_effect_params(&mut p);
    assert_eq!((p.param1, p.param2), (9, 128));

    let mut p = ShowPacket::off_packet();
    Effect::Rainbow { secondary_hue: 33 }.populate_effect_params(&mut p);
    assert_eq!((p.param1, p.param2), (0, 0));
}

#[test]
fn effect_ids_match_catalog() {
    assert_eq!(Effect::Pop.to_effect_id().to_byte(), 1);
    assert_eq!(
        Effect::OneShotChase { chase_length: 1, reverse: false, beat_denominator: 1 }
            .to_effect_id()
            .to_byte(),
        6
    );
    assert_eq!(Effect::BatteryTest.to_effect_id().to_byte(), 15);
    assert_eq!(Effect::PopAndSpin { rpm: 1 }.to_effect_id().to_byte(), 20);
    assert_eq!(EffectId::from_byte(0), Some(EffectId::Off));
    assert_eq!(EffectId::from_byte(20), Some(EffectId::PopAndSpin));
    assert_eq!(EffectId::from_byte(21), None);
}

#[test]
fn tempo_byte_rounds_and_saturates() {
    assert_eq!(tempo_byte(120_000), 120);
    assert_eq!(tempo_byte(120_499), 120);
    assert_eq!(tempo_byte(120_500), 121);
    assert_eq!(tempo_byte(999_000_000), 255);
}

#[test]
fn test_packet_contents() {
    let t = ShowPacket::test_packet();
    assert_eq!(t.effect, EffectId::BatteryTest);
    assert_eq!((t.color.h, t.color.s, t.color.v), (96, 255, 255));
    assert_eq!((t.attack, t.sustain, t.release), (25, 158, 25));
}
