use musical_joycons::events::{EventKind, MidiEvent};
use musical_joycons::track_analysis::analyze_track;
use musical_joycons::track_types::TrackType;

fn create_note_on(delta: u32, key: u8, velocity: u8) -> MidiEvent {
    MidiEvent { delta, kind: EventKind::NoteOn { channel: 0, key, velocity } }
}

fn create_note_off(delta: u32, key: u8) -> MidiEvent {
    MidiEvent { delta, kind: EventKind::NoteOff { channel: 0, key, velocity: 0 } }
}

fn create_track_name(name: &str) -> MidiEvent {
    MidiEvent { delta: 0, kind: EventKind::TrackName { text: name.as_bytes().to_vec() } }
}

#[test]
fn test_empty_track() {
    let track: Vec<MidiEvent> = vec![];
    let metrics = analyze_track(&track, 480, 500_000);

    assert_eq!(metrics.note_count, 0);
    assert_eq!(metrics.unique_notes, 0);
    assert_eq!(metrics.note_density, 0);
    assert_eq!(metrics.velocity_variance, 0);
    assert!(!metrics.is_percussion);
}

#[test]
fn test_single_note() {
    let track = vec![create_note_on(0, 60, 100), create_note_off(480, 60)];
    let metrics = analyze_track(&track, 480, 500_000);

    assert_eq!(metrics.note_count, 1);
    assert_eq!(metrics.unique_notes, 1);
    assert_eq!(metrics.pitch_range, 0);
    assert!(metrics.note_density > 0);
}

#[test]
fn test_track_name_and_type() {
    let track = vec![create_track_name("Bass Guitar"), create_note_on(0, 40, 100), create_note_off(480, 40)];
    let metrics = analyze_track(&track, 480, 500_000);

    assert_eq!(metrics.track_name, Some("Bass Guitar".to_string()));
    assert_eq!(metrics.track_type, TrackType::Bass);
}

#[test]
fn test_percussion_channel() {
    let mut percussion_event = create_note_on(0, 60, 100);
    if let EventKind::NoteOn { channel, .. } = &mut percussion_event.kind {
        *channel = 9;
    }
    let track = vec![percussion_event];
    let metrics = analyze_track(&track, 480, 500_000);

    assert!(metrics.is_percussion);
    assert_eq!(metrics.track_type, TrackType::Drums);
}

#[test]
fn test_note_density_calculation() {
    let track = vec![
        create_note_on(0, 60, 100),
        create_note_off(240, 60),
        create_note_on(0, 64, 100),
        create_note_off(240, 64),
    ];
    let metrics = analyze_track(&track, 480, 500_000);
    assert!(metrics.note_density > 0);
    assert_eq!(metrics.note_count, 2);
    assert_eq!(metrics.unique_notes, 2);
}

#[test]
fn test_pitch_range() {
    let track = vec![
        create_note_on(0, 60, 100),
        create_note_off(240, 60),
        create_note_on(0, 72, 100),
        create_note_off(240, 72),
    ];
    let metrics = analyze_track(&track, 480, 500_000);
    assert_eq!(metrics.pitch_range, 12);
}

#[test]
fn test_velocity_variance() {
    let track = vec![
        create_note_on(0, 60, 50),
        create_note_off(240, 60),
        create_note_on(0, 60, 100),
        create_note_off(240, 60),
    ];
    let metrics = analyze_track(&track, 480, 500_000);
    assert!(metrics.velocity_variance > 0);
    assert_eq!(metrics.note_count, 2);
}

#[test]
fn analysis_exact_values() {
    // Two quarter notes at 120 BPM: 0.25 s each, back to back.
    let track = vec![
        create_note_on(0, 60, 50),
        create_note_off(240, 60),
        create_note_on(0, 64, 100),
        create_note_off(240, 64),
    ];
    let m = analyze_track(&track, 480, 500_000);
    assert_eq!(m.total_duration, 500_000);
    assert_eq!(m.avg_velocity, 75_000_000);
    // Sample variance of {50, 100}: 1250.
    assert_eq!(m.velocity_variance, 1_250_000_000);
    assert_eq!(m.avg_note_duration, 250_000);
    assert_eq!(m.note_density, 4_000_000);
    assert_eq!(m.melodic_movement, 4_000_000);
    assert_eq!(m.sustain_ratio, 1_000_000);
    // A single onset gap: no spread, perfectly regular.
    assert_eq!(m.rhythmic_regularity, 1_000_000);
}

#[test]
fn program_change_decides_role() {
    let track = vec![
        MidiEvent { delta: 0, kind: EventKind::ProgramChange { channel: 0, program: 33 } },
        create_track_name("Lead Vocals"),
        create_note_on(0, 40, 100),
        create_note_off(480, 40),
    ];
    assert_eq!(analyze_track(&track, 480, 500_000).track_type, TrackType::Bass);
    let named = vec![create_track_name("Lead Vocals"), create_note_on(0, 40, 100), create_note_off(480, 40)];
    assert_eq!(analyze_track(&named, 480, 500_000).track_type, TrackType::Vocals);
}

#[test]
fn note_on_with_zero_velocity_ends_note() {
    let track = vec![create_note_on(0, 60, 100), create_note_on(480, 60, 0)];
    let m = analyze_track(&track, 480, 500_000);
    assert_eq!(m.note_count, 1);
    assert_eq!(m.avg_note_duration, 500_000);
}
