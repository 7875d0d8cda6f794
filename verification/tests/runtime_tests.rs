//! Show runtime scenarios: activation and deactivation with shared
//! receivers, one-shots, clips, sustain buffering, the lights-out
//! keepalive, and raw-MIDI dispatch.

use band_lights::config::ConfigFile;
use band_lights::director::reset_requested;
use band_lights::midi::{parse_live_event, parse_note_name, MidiEvent};
use band_lights::packet::{Command, EffectId, Packet, PacketPayload, ShowPacket};
use band_lights::show::{
    ClipStep, Color, Effect, LightMapping, LightMappingType, MidiMappingType,
    ReceiverConfiguration, ShowDefinition, Target,
};
use band_lights::showstate::{MutableShowState, ShowState};

fn config() -> ConfigFile {
    ConfigFile {
        spi_device: String::new(),
        frequency: 915_000_000,
        transmitter_id: 1,
        transmitter_power: 13,
        settle_time_millis: None,
        midi_client_name: String::new(),
        midi_port: String::new(),
        midi_control_channel: 0,
        show_file: String::new(),
        channel_buf_depth: None,
        lights_out_window_open_millis: 2000,
        lights_out_window_close_millis: 60000,
        lights_out_period_millis: 1000,
    }
}

fn receiver(id: u8, name: &str) -> ReceiverConfiguration {
    ReceiverConfiguration {
        id,
        name: Some(name.to_string()),
        group_name: Some("G".to_string()),
        led_count: 30,
        comment: None,
    }
}

fn mapping(cue: &str, light: LightMappingType, targets: Option<Vec<Target>>) -> LightMapping {
    LightMapping {
        id: 0,
        cue: cue.to_string(),
        midi: Some(MidiMappingType::Controller { channel: 1, cc: 20 }),
        light,
        color: "red".to_string(),
        override_clip_color: None,
        attack: None,
        sustain: None,
        release: None,
        one_shot: None,
        tempo: None,
        modulation: None,
        targets,
    }
}

fn show_with(mappings: Vec<LightMapping>, clips: Vec<(String, Vec<ClipStep>)>) -> ShowDefinition {
    ShowDefinition {
        receivers: vec![receiver(80, "A"), receiver(81, "B")],
        colors: vec![("red".to_string(), Color { h: 0, s: 255, v: 255 })],
        mappings,
        clips,
    }
}

fn setup(show: &ShowDefinition) -> (ShowState, MutableShowState) {
    let st = ShowState::new(show, &config()).unwrap();
    let state = st.create_mutable_state(0);
    (st, state)
}

fn off_to(recipients: Vec<u8>) -> (Vec<u8>, PacketPayload) {
    (recipients, PacketPayload::Show(ShowPacket::off_packet()))
}

fn as_pairs(out: &[Packet]) -> Vec<(Vec<u8>, PacketPayload)> {
    out.iter().map(|p| (p.recipients.clone(), p.payload)).collect()
}

#[test]
fn broadcast_effect_then_off() {
    let show = show_with(
        vec![mapping("m1", LightMappingType::Effect(Effect::Pop), Some(vec![Target::Name("G".to_string())]))],
        vec![],
    );
    let (st, mut state) = setup(&show);
    let mut out = Vec::new();
    st.activate(1, None, &mut state, 10, &mut out);
    assert_eq!(out.len(), 1);
    assert_eq!(out[0].recipients, vec![10]);
    assert_eq!(
        out[0].payload,
        PacketPayload::Show(ShowPacket {
            effect: EffectId::Pop,
            color: Color { h: 0, s: 255, v: 255 },
            attack: 0,
            sustain: 255,
            release: 0,
            param1: 0,
            param2: 0,
            tempo: 120,
        })
    );
    let frame = out[0].marshal(1, 0, 0);
    assert_eq!(
        frame,
        vec![15, 0xFF, 1, 0, 0, 1, 0, 255, 255, 0, 255, 0, 0, 0, 120, 10]
    );
    assert_eq!(state.receiver_state[0].trigger_mapping, 1);
    assert_eq!(state.receiver_state[1].trigger_mapping, 1);

    let mut out2 = Vec::new();
    st.deactivate(1, &mut state, &mut out2);
    assert_eq!(as_pairs(&out2), vec![off_to(vec![10])]);
    assert_eq!(state.receiver_state[0].trigger_mapping, 0);
    assert_eq!(state.receiver_state[1].trigger_mapping, 0);
}

#[test]
fn overlapping_ownership_takes_dynamic_off_path() {
    let show = show_with(
        vec![
            mapping("m1", LightMappingType::Effect(Effect::Pop), Some(vec![Target::Name("G".to_string())])),
            mapping(
                "m2",
                LightMappingType::Effect(Effect::Chase { chase_length: 5, reverse: false }),
                Some(vec![Target::Name("A".to_string())]),
            ),
        ],
        vec![],
    );
    let (st, mut state) = setup(&show);
    let mut out = Vec::new();
    st.activate(1, None, &mut state, 0, &mut out);
    st.activate(2, None, &mut state, 1, &mut out);
    assert_eq!(state.receiver_state[0].trigger_mapping, 2);
    assert_eq!(state.receiver_state[1].trigger_mapping, 1);

    // m1 no longer owns A, so its off packet goes to B alone
    let mut out2 = Vec::new();
    st.deactivate(1, &mut state, &mut out2);
    assert_eq!(as_pairs(&out2), vec![off_to(vec![81])]);
    assert_eq!(state.receiver_state[0].trigger_mapping, 2);
    assert_eq!(state.receiver_state[1].trigger_mapping, 0);

    // m2 still owns everything it touched: simple off to its target
    let mut out3 = Vec::new();
    st.deactivate(2, &mut state, &mut out3);
    assert_eq!(as_pairs(&out3), vec![off_to(vec![80])]);
    assert_eq!(state.receiver_state[0].trigger_mapping, 0);

    // a second deactivation finds nothing owned and emits nothing
    let mut out4 = Vec::new();
    st.deactivate(1, &mut state, &mut out4);
    assert!(out4.is_empty());
}

#[test]
fn one_shot_claims_nothing_and_ignores_deactivate() {
    let mut m = mapping(
        "m3",
        LightMappingType::Effect(Effect::OneShotChase {
            chase_length: 4,
            reverse: false,
            beat_denominator: 2,
        }),
        Some(vec![Target::Name("G".to_string())]),
    );
    m.one_shot = Some(true);
    let show = show_with(vec![m], vec![]);
    let (st, mut state) = setup(&show);
    let mut out = Vec::new();
    st.activate(1, None, &mut state, 0, &mut out);
    assert_eq!(out.len(), 1);
    match out[0].payload {
        PacketPayload::Show(p) => {
            assert_eq!(p.effect, EffectId::OneShotChase);
            assert_eq!(p.sustain, 2);
            assert_eq!((p.param1, p.param2), (4, 0));
        },
        _ => panic!("expected a show payload"),
    }
    assert_eq!(state.receiver_state[0].trigger_mapping, 0);
    assert_eq!(state.receiver_state[1].trigger_mapping, 0);
    let mut out2 = Vec::new();
    st.deactivate(1, &mut state, &mut out2);
    assert!(out2.is_empty());
}

#[test]
fn clip_with_wait_fires_on_then_off() {
    let mut inner = mapping("m4", LightMappingType::Effect(Effect::Pop), Some(vec![Target::Name("G".to_string())]));
    inner.midi = None;
    let clip = (
        "intro".to_string(),
        vec![
            ClipStep::MappingOn(inner),
            ClipStep::WaitBeats(1000),
            ClipStep::MappingOff(0),
            ClipStep::End,
        ],
    );
    let show = show_with(
        vec![mapping("start", LightMappingType::Clip("intro".to_string()), None)],
        vec![clip],
    );
    let (st, mut state) = setup(&show);
    let mut out = Vec::new();
    st.activate(1, None, &mut state, 0, &mut out);
    assert!(out.is_empty());

    // the on step fires immediately; the wait parks the clip 500 ms out
    let wake = st.tick(&mut state, 0, &mut out);
    assert_eq!(out.len(), 1);
    match out[0].payload {
        PacketPayload::Show(p) => assert_eq!(p.effect, EffectId::Pop),
        _ => panic!("expected a show payload"),
    }
    assert_eq!(wake, 500);
    assert_eq!(state.receiver_state[0].trigger_mapping, 2);

    // at 500 ms the off step fires and the clip ends
    let mut out2 = Vec::new();
    st.tick(&mut state, 500, &mut out2);
    assert_eq!(as_pairs(&out2), vec![off_to(vec![10])]);
    assert_eq!(state.receiver_state[0].trigger_mapping, 0);
    assert!(!state.clip_engine.clips[0].playing);
}

#[test]
fn stopping_a_clip_deactivates_what_it_owns() {
    let mut inner = mapping("m4", LightMappingType::Effect(Effect::Pop), Some(vec![Target::Name("G".to_string())]));
    inner.midi = None;
    let clip = (
        "loop".to_string(),
        vec![ClipStep::MappingOn(inner), ClipStep::WaitMillis(10_000), ClipStep::Loop(1)],
    );
    let show = show_with(
        vec![mapping("start", LightMappingType::Clip("loop".to_string()), None)],
        vec![clip],
    );
    let (st, mut state) = setup(&show);
    let mut out = Vec::new();
    st.activate(1, None, &mut state, 0, &mut out);
    st.tick(&mut state, 0, &mut out);
    assert_eq!(state.receiver_state[0].trigger_mapping, 2);
    assert!(state.clip_engine.clips[0].playing);

    // deactivating the clip mapping stops the clip and turns its
    // mapping off
    let mut out2 = Vec::new();
    st.deactivate(1, &mut state, &mut out2);
    assert_eq!(as_pairs(&out2), vec![off_to(vec![10])]);
    assert!(!state.clip_engine.clips[0].playing);
    assert_eq!(state.receiver_state[0].trigger_mapping, 0);
}

#[test]
fn sustain_buffers_note_offs_until_release() {
    let mut m5 = mapping("m5", LightMappingType::Effect(Effect::Pop), Some(vec![Target::Name("A".to_string())]));
    m5.midi = Some(MidiMappingType::Note { channel: 1, note: "c4".to_string() });
    let mut m6 = mapping("m6", LightMappingType::Effect(Effect::Pop), Some(vec![Target::Name("B".to_string())]));
    m6.midi = Some(MidiMappingType::Note { channel: 1, note: "d4".to_string() });
    let show = show_with(vec![m5, m6], vec![]);
    let (st, mut state) = setup(&show);
    let c4 = parse_note_name("c4").unwrap();
    let d4 = parse_note_name("d4").unwrap();

    let mut out = Vec::new();
    st.process_midi_event(&MidiEvent::NoteOn { channel: 1, key: c4, velocity: 100 }, &mut state, 0, &mut out);
    st.process_midi_event(&MidiEvent::NoteOn { channel: 1, key: d4, velocity: 100 }, &mut state, 1, &mut out);
    assert_eq!(out.len(), 2);

    // hold the sustain pedal on the control channel
    let mut out2 = Vec::new();
    st.process_midi_event(&MidiEvent::Controller { channel: 0, controller: 64, value: 127 }, &mut state, 2, &mut out2);
    st.process_midi_event(&MidiEvent::NoteOff { channel: 1, key: c4, velocity: 0 }, &mut state, 3, &mut out2);
    st.process_midi_event(&MidiEvent::NoteOff { channel: 1, key: d4, velocity: 0 }, &mut state, 4, &mut out2);
    assert!(out2.is_empty());
    assert_eq!(state.pending_off, vec![1, 2]);

    // release performs the buffered deactivations in arrival order
    let mut out3 = Vec::new();
    st.process_midi_event(&MidiEvent::Controller { channel: 0, controller: 64, value: 0 }, &mut state, 5, &mut out3);
    assert_eq!(as_pairs(&out3), vec![off_to(vec![80]), off_to(vec![81])]);
    assert!(state.pending_off.is_empty());
}

#[test]
fn test_controller_fires_test_packet_and_off_on_release() {
    let show = show_with(vec![mapping("m", LightMappingType::Effect(Effect::Pop), None)], vec![]);
    let (st, mut state) = setup(&show);
    let mut out = Vec::new();
    st.process_midi_event(&MidiEvent::Controller { channel: 0, controller: 102, value: 127 }, &mut state, 7, &mut out);
    assert_eq!(out.len(), 1);
    assert_eq!(out[0].recipients, Vec::<u8>::new());
    assert_eq!(out[0].payload, PacketPayload::Show(ShowPacket::test_packet()));
    assert_eq!(state.last_effect, 7);

    // any other value, the release included, sends a global off
    let mut out2 = Vec::new();
    st.process_midi_event(&MidiEvent::Controller { channel: 0, controller: 102, value: 0 }, &mut state, 8, &mut out2);
    assert_eq!(as_pairs(&out2), vec![off_to(vec![])]);
}

#[test]
fn lights_out_window_and_period() {
    let show = show_with(vec![mapping("m", LightMappingType::Effect(Effect::Pop), None)], vec![]);
    let (st, mut state) = setup(&show);

    let mut out = Vec::new();
    st.tick(&mut state, 1900, &mut out);
    assert!(out.is_empty());

    let wake = st.tick(&mut state, 2000, &mut out);
    assert_eq!(as_pairs(&out), vec![off_to(vec![])]);
    assert_eq!(state.last_lights_out, 2000);
    assert_eq!(wake, 1000);

    let mut out2 = Vec::new();
    st.tick(&mut state, 2500, &mut out2);
    assert!(out2.is_empty());

    st.tick(&mut state, 3000, &mut out2);
    assert_eq!(as_pairs(&out2), vec![off_to(vec![])]);

    // an owned receiver holds the keepalive back
    let mut out3 = Vec::new();
    st.activate(1, None, &mut state, 3500, &mut out3);
    let mut out4 = Vec::new();
    st.tick(&mut state, 9000, &mut out4);
    assert!(out4.is_empty());
}

#[test]
fn configure_receivers_sends_groups_counts_and_resets() {
    let show = show_with(vec![mapping("m", LightMappingType::Effect(Effect::Pop), None)], vec![]);
    let (st, _state) = setup(&show);
    let mut out = Vec::new();
    st.configure_receivers(&mut out);
    assert_eq!(
        as_pairs(&out),
        vec![
            (vec![], PacketPayload::Control(Command::Reset)),
            (vec![80], PacketPayload::Control(Command::SetGroup { group_id: 10 })),
            (vec![80], PacketPayload::Control(Command::SetLedCount { led_count: 30 })),
            (vec![81], PacketPayload::Control(Command::SetGroup { group_id: 10 })),
            (vec![81], PacketPayload::Control(Command::SetLedCount { led_count: 30 })),
            (vec![], PacketPayload::Control(Command::Reset)),
        ]
    );
}

#[test]
fn raw_midi_bytes_drive_the_show() {
    let mut m = mapping("m", LightMappingType::Effect(Effect::Pop), Some(vec![Target::Name("G".to_string())]));
    m.midi = Some(MidiMappingType::Note { channel: 1, note: "c4".to_string() });
    let show = show_with(vec![m], vec![]);
    let (st, mut state) = setup(&show);
    let key = parse_note_name("c4").unwrap();

    let mut out = Vec::new();
    st.process_midi(&[0x91, key, 100], &mut state, 0, &mut out);
    assert_eq!(out.len(), 1);
    assert_eq!(state.receiver_state[0].trigger_mapping, 1);

    let mut out2 = Vec::new();
    st.process_midi(&[0x81, key, 0], &mut state, 1, &mut out2);
    assert_eq!(as_pairs(&out2), vec![off_to(vec![10])]);

    // a malformed buffer is ignored
    let mut out3 = Vec::new();
    st.process_midi(&[0x91], &mut state, 2, &mut out3);
    assert!(out3.is_empty());
}

#[test]
fn live_event_parsing_matches_the_wire() {
    assert_eq!(
        parse_live_event(&[0x90, 60, 100]),
        Some(MidiEvent::NoteOn { channel: 0, key: 60, velocity: 100 })
    );
    assert_eq!(
        parse_live_event(&[0x82, 61, 1]),
        Some(MidiEvent::NoteOff { channel: 2, key: 61, velocity: 1 })
    );
    assert_eq!(
        parse_live_event(&[0xB0, 64, 127]),
        Some(MidiEvent::Controller { channel: 0, controller: 64, value: 127 })
    );
    assert_eq!(parse_live_event(&[0xF8]), Some(MidiEvent::Other));
    assert_eq!(parse_live_event(&[0x90]), None);
}

#[test]
fn reset_controller_is_the_directors_business() {
    let ev = MidiEvent::Controller { channel: 0, controller: 103, value: 127 };
    assert!(reset_requested(&ev, 0));
    assert!(!reset_requested(&ev, 1));
    assert!(!reset_requested(
        &MidiEvent::Controller { channel: 0, controller: 103, value: 0 },
        0
    ));
    assert!(!reset_requested(&MidiEvent::NoteOn { channel: 0, key: 1, velocity: 1 }, 0));
}
