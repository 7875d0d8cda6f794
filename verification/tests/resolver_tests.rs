//! Resolver tests: group id assignment, target resolution, trigger
//! tables and every rejection the resolver can report.

use band_lights::config::ConfigFile;
use band_lights::midi::parse_note_name;
use band_lights::show::{
    ClipStep, Color, Effect, LightMapping, LightMappingType, MidiMappingType,
    ReceiverConfiguration, ShowDefinition, Target,
};
use band_lights::showstate::{ResolvedLight, ShowError, ShowState};

fn config() -> ConfigFile {
    ConfigFile {
        spi_device: String::new(),
        frequency: 915_000_000,
        transmitter_id: 1,
        transmitter_power: 13,
        settle_time_millis: None,
        midi_client_name: String::new(),
        midi_port: String::new(),
        midi_control_channel: 0,
        show_file: String::new(),
        channel_buf_depth: None,
        lights_out_window_open_millis: 2000,
        lights_out_window_close_millis: 60000,
        lights_out_period_millis: 1000,
    }
}

fn receiver(id: u8, name: &str, group: Option<&str>) -> ReceiverConfiguration {
    ReceiverConfiguration {
        id,
        name: Some(name.to_string()),
        group_name: group.map(|g| g.to_string()),
        led_count: 30,
        comment: None,
    }
}

fn effect_mapping(cue: &str, cc: u8, targets: Option<Vec<Target>>) -> LightMapping {
    LightMapping {
        id: 0,
        cue: cue.to_string(),
        midi: Some(MidiMappingType::Controller { channel: 1, cc }),
        light: LightMappingType::Effect(Effect::Pop),
        color: "red".to_string(),
        override_clip_color: None,
        attack: None,
        sustain: None,
        release: None,
        one_shot: None,
        tempo: None,
        modulation: None,
        targets,
    }
}

fn base_show() -> ShowDefinition {
    ShowDefinition {
        receivers: vec![
            receiver(80, "A", Some("G")),
            receiver(81, "B", Some("G")),
            receiver(90, "C", Some("H")),
        ],
        colors: vec![("red".to_string(), Color { h: 0, s: 255, v: 255 })],
        mappings: vec![effect_mapping("cue1", 20, Some(vec![Target::Name("G".to_string())]))],
        clips: vec![],
    }
}

#[test]
fn group_ids_count_up_in_first_seen_order() {
    let st = ShowState::new(&base_show(), &config()).unwrap();
    assert_eq!(st.groups.len(), 2);
    assert_eq!(st.groups[0].name, "G");
    assert_eq!(st.groups[0].gid, 10);
    assert_eq!(st.groups[1].name, "H");
    assert_eq!(st.groups[1].gid, 11);
    assert_eq!(st.groups[0].member_idxs, vec![0, 1]);
    assert_eq!(st.groups[1].member_idxs, vec![2]);
    assert_eq!(st.receivers[0].group_id, Some(10));
    assert_eq!(st.receivers[2].group_id, Some(11));
}

#[test]
fn group_target_expands_to_members() {
    let st = ShowState::new(&base_show(), &config()).unwrap();
    let meta = &st.mappings[0];
    assert_eq!(meta.id, 1);
    assert_eq!(meta.targets, vec![10]);
    assert_eq!(meta.receivers, vec![0, 1]);
    assert!(matches!(meta.light, ResolvedLight::Effect(Effect::Pop)));
}

#[test]
fn absent_target_list_means_all_receivers() {
    let mut show = base_show();
    show.mappings = vec![effect_mapping("all", 20, None)];
    let st = ShowState::new(&show, &config()).unwrap();
    assert_eq!(st.mappings[0].targets, Vec::<u8>::new());
    assert_eq!(st.mappings[0].receivers, vec![0, 1, 2]);
}

#[test]
fn numeric_and_named_targets_resolve() {
    let mut show = base_show();
    show.mappings = vec![effect_mapping(
        "mixed",
        20,
        Some(vec![Target::Number(90), Target::Name("B".to_string())]),
    )];
    let st = ShowState::new(&show, &config()).unwrap();
    assert_eq!(st.mappings[0].targets, vec![90, 81]);
    assert_eq!(st.mappings[0].receivers, vec![1, 2]);
}

#[test]
fn digit_string_targets_resolve_as_receiver_ids() {
    let mut show = base_show();
    show.mappings = vec![effect_mapping("byidstring", 20, Some(vec![Target::Name("80".to_string())]))];
    let st = ShowState::new(&show, &config()).unwrap();
    assert_eq!(st.mappings[0].targets, vec![80]);
    assert_eq!(st.mappings[0].receivers, vec![0]);

    // a non-canonical digit string is no id; with no receiver or group
    // of that name, the token is unknown
    show.mappings = vec![effect_mapping("padded", 20, Some(vec![Target::Name("0080".to_string())]))];
    assert_eq!(
        ShowState::new(&show, &config()).unwrap_err(),
        ShowError::UnknownTarget("0080".to_string())
    );

    // a digit string naming no declared receiver falls back to the
    // name lookup and is unknown there
    show.mappings = vec![effect_mapping("absent", 20, Some(vec![Target::Name("200".to_string())]))];
    assert_eq!(
        ShowState::new(&show, &config()).unwrap_err(),
        ShowError::UnknownTarget("200".to_string())
    );
}

#[test]
fn defaults_and_fields_carry_into_meta() {
    let mut show = base_show();
    show.mappings[0].attack = Some(100);
    show.mappings[0].tempo = Some(90_000);
    show.mappings[0].one_shot = Some(true);
    let st = ShowState::new(&show, &config()).unwrap();
    let meta = &st.mappings[0];
    assert_eq!(meta.attack, 100);
    assert_eq!(meta.sustain, 0);
    assert_eq!(meta.release, 0);
    assert_eq!(meta.tempo, 90_000);
    assert!(meta.one_shot);
    assert_eq!(meta.color, Color { h: 0, s: 255, v: 255 });
}

#[test]
fn controller_trigger_is_bound() {
    let st = ShowState::new(&base_show(), &config()).unwrap();
    assert_eq!(st.controller_triggers.len(), 1);
    assert_eq!(st.controller_triggers[0].channel, 1);
    assert_eq!(st.controller_triggers[0].number, 20);
    assert_eq!(st.controller_triggers[0].mapping_id, 1);
}

#[test]
fn note_trigger_uses_parsed_note_number() {
    let mut show = base_show();
    show.mappings[0].midi = Some(MidiMappingType::Note { channel: 2, note: "c4".to_string() });
    let st = ShowState::new(&show, &config()).unwrap();
    let expected = parse_note_name("c4").unwrap();
    assert_eq!(st.note_triggers.len(), 1);
    assert_eq!(st.note_triggers[0].channel, 2);
    assert_eq!(st.note_triggers[0].number, expected);
}

#[test]
fn note_name_parsing_is_deterministic() {
    let a = parse_note_name("cis3");
    let b = parse_note_name("cis3");
    assert!(a.is_some());
    assert_eq!(a, b);
    // well-shaped but spelling no note
    assert_eq!(parse_note_name("zz9"), None);
}

#[test]
fn unknown_color_is_refused() {
    let mut show = base_show();
    show.mappings[0].color = "mauve".to_string();
    assert_eq!(
        ShowState::new(&show, &config()).unwrap_err(),
        ShowError::UnknownColor("mauve".to_string())
    );
}

#[test]
fn unknown_target_name_is_refused() {
    let mut show = base_show();
    show.mappings[0].targets = Some(vec![Target::Name("nobody".to_string())]);
    assert_eq!(
        ShowState::new(&show, &config()).unwrap_err(),
        ShowError::UnknownTarget("nobody".to_string())
    );
}

#[test]
fn undeclared_numeric_target_is_refused() {
    let mut show = base_show();
    show.mappings[0].targets = Some(vec![Target::Number(200)]);
    assert_eq!(
        ShowState::new(&show, &config()).unwrap_err(),
        ShowError::UnknownTargetId(200)
    );
}

#[test]
fn out_of_range_numeric_target_is_refused() {
    let mut show = base_show();
    show.mappings[0].targets = Some(vec![Target::Number(0)]);
    assert_eq!(
        ShowState::new(&show, &config()).unwrap_err(),
        ShowError::TargetOutOfRange(0)
    );
    show.mappings[0].targets = Some(vec![Target::Number(256)]);
    assert_eq!(
        ShowState::new(&show, &config()).unwrap_err(),
        ShowError::TargetOutOfRange(256)
    );
}

#[test]
fn unsupported_target_kind_is_refused() {
    let mut show = base_show();
    show.mappings[0].targets = Some(vec![Target::Unsupported]);
    assert_eq!(
        ShowState::new(&show, &config()).unwrap_err(),
        ShowError::UnsupportedTarget
    );
}

#[test]
fn top_level_mapping_without_midi_is_refused() {
    let mut show = base_show();
    show.mappings[0].midi = None;
    assert_eq!(
        ShowState::new(&show, &config()).unwrap_err(),
        ShowError::MissingMidi("cue1".to_string())
    );
}

#[test]
fn unparsable_note_name_is_refused() {
    let mut show = base_show();
    show.mappings[0].midi = Some(MidiMappingType::Note { channel: 0, note: "xx".to_string() });
    assert_eq!(
        ShowState::new(&show, &config()).unwrap_err(),
        ShowError::UnknownNote("xx".to_string())
    );
    // a name outside the letters-then-digit shape never reaches the
    // note parser: it is refused up front
    show.mappings[0].midi = Some(MidiMappingType::Note { channel: 0, note: "c#4".to_string() });
    assert_eq!(
        ShowState::new(&show, &config()).unwrap_err(),
        ShowError::UnknownNote("c#4".to_string())
    );
    show.mappings[0].midi = Some(MidiMappingType::Note { channel: 0, note: "c-1".to_string() });
    assert_eq!(
        ShowState::new(&show, &config()).unwrap_err(),
        ShowError::UnknownNote("c-1".to_string())
    );
    // well-shaped but spelling no note
    show.mappings[0].midi = Some(MidiMappingType::Note { channel: 0, note: "zz9".to_string() });
    assert_eq!(
        ShowState::new(&show, &config()).unwrap_err(),
        ShowError::UnknownNote("zz9".to_string())
    );
}

#[test]
fn unknown_clip_name_is_refused() {
    let mut show = base_show();
    show.mappings[0].light = LightMappingType::Clip("nope".to_string());
    assert_eq!(
        ShowState::new(&show, &config()).unwrap_err(),
        ShowError::UnknownClip("nope".to_string())
    );
}

#[test]
fn too_many_receivers_is_refused() {
    let mut show = base_show();
    show.receivers = (0..241u32)
        .map(|i| ReceiverConfiguration {
            id: (i % 200) as u8,
            name: None,
            group_name: None,
            led_count: 1,
            comment: None,
        })
        .collect();
    assert_eq!(
        ShowState::new(&show, &config()).unwrap_err(),
        ShowError::TooManyReceivers
    );
}

#[test]
fn too_many_groups_is_refused() {
    let mut show = base_show();
    show.receivers = (0..71u32)
        .map(|i| ReceiverConfiguration {
            id: 80u8.wrapping_add(i as u8),
            name: None,
            group_name: Some(format!("g{}", i)),
            led_count: 1,
            comment: None,
        })
        .collect();
    assert_eq!(
        ShowState::new(&show, &config()).unwrap_err(),
        ShowError::TooManyGroups
    );
}

#[test]
fn too_many_targets_is_refused() {
    let mut show = base_show();
    show.mappings[0].targets = Some(vec![Target::Number(80); 241]);
    assert_eq!(
        ShowState::new(&show, &config()).unwrap_err(),
        ShowError::TooManyTargets
    );
}

#[test]
fn clip_steps_resolve_and_embedded_mappings_get_ids() {
    let mut show = base_show();
    let mut inner = effect_mapping("inner", 21, Some(vec![Target::Name("G".to_string())]));
    inner.midi = None;
    show.clips = vec![(
        "intro".to_string(),
        vec![
            ClipStep::MappingOn(inner),
            ClipStep::WaitBeats(1000),
            ClipStep::MappingOff(0),
            ClipStep::StopOther("other".to_string()),
            ClipStep::End,
        ],
    )];
    show.mappings[0].light = LightMappingType::Clip("intro".to_string());
    let st = ShowState::new(&show, &config()).unwrap();
    assert_eq!(st.clips.len(), 1);
    assert_eq!(st.clips[0].name, "intro");
    assert_eq!(st.clips[0].steps.len(), 5);
    // the clip-embedded mapping continues the id sequence
    assert_eq!(st.mappings.len(), 2);
    assert_eq!(st.mappings[1].id, 2);
    assert!(matches!(st.mappings[0].light, ResolvedLight::Clip(0)));
    // a StopOther naming no clip resolves to an ignored step
    assert!(matches!(
        st.clips[0].steps[3],
        band_lights::clip::ResolvedStep::StopOther(None)
    ));
}
