use musical_joycons::decode::{decode_midi, ParseError};
use musical_joycons::pipeline::{parse_midi_to_rumble, rumble_tracks_from_file};
use musical_joycons::rumble::{convert_track_with_tempo, note_to_frequency, RumbleCommand};
use musical_joycons::tempo::{collect_tempo_changes, ticks_to_duration, TempoChange};
use musical_joycons::track_analysis::analyze_track;

fn vlq(mut v: u32) -> Vec<u8> {
    let mut out = vec![(v & 0x7f) as u8];
    v >>= 7;
    while v > 0 {
        out.insert(0, 0x80 | (v & 0x7f) as u8);
        v >>= 7;
    }
    out
}

/// (delta, bytes of the event after the delta)
fn track_chunk(events: &[(u32, Vec<u8>)]) -> Vec<u8> {
    let mut body = Vec::new();
    for (delta, bytes) in events {
        body.extend(vlq(*delta));
        body.extend(bytes);
    }
    body.extend([0x00, 0xff, 0x2f, 0x00]);
    let mut chunk = b"MTrk".to_vec();
    chunk.extend((body.len() as u32).to_be_bytes());
    chunk.extend(body);
    chunk
}

fn smf(tracks: &[Vec<(u32, Vec<u8>)>], division: u16) -> Vec<u8> {
    let mut out = b"MThd".to_vec();
    out.extend(6u32.to_be_bytes());
    out.extend((if tracks.len() == 1 { 0u16 } else { 1u16 }).to_be_bytes());
    out.extend((tracks.len() as u16).to_be_bytes());
    out.extend(division.to_be_bytes());
    for t in tracks {
        out.extend(track_chunk(t));
    }
    out
}

fn on(ch: u8, key: u8, vel: u8) -> Vec<u8> {
    vec![0x90 | ch, key, vel]
}

fn off(ch: u8, key: u8) -> Vec<u8> {
    vec![0x80 | ch, key, 0]
}

fn two_half_notes() -> Vec<(u32, Vec<u8>)> {
    vec![(0, on(0, 60, 100)), (960, off(0, 60)), (0, on(0, 64, 100)), (960, off(0, 64))]
}

#[test]
fn single_track_two_half_notes() {
    let bytes = smf(&[two_half_notes()], 480);
    let tracks = parse_midi_to_rumble(&bytes, vec![]).unwrap();
    assert_eq!(tracks.len(), 1);
    let t = &tracks[0];
    assert_eq!(t.track_index, 0);
    // The loudest note of the file reaches full amplitude.
    assert_eq!(
        t.commands,
        vec![
            RumbleCommand { frequency: 261_625, amplitude: 1_000_000, wait_before: 0 },
            RumbleCommand { frequency: 0, amplitude: 0, wait_before: 1_000_000 },
            RumbleCommand { frequency: 329_627, amplitude: 1_000_000, wait_before: 0 },
            RumbleCommand { frequency: 0, amplitude: 0, wait_before: 1_000_000 },
        ]
    );
    assert_eq!(t.total_duration, 2_000_000);
    let last = t.commands.last().unwrap();
    assert!(last.frequency == 0 && last.amplitude == 0);
    // Before normalisation the first command carries 100/127.
    let file = decode_midi(&bytes).unwrap();
    let tempo = collect_tempo_changes(&file);
    let metrics = analyze_track(&file.tracks[0], 480, 500_000);
    let raw = convert_track_with_tempo(&file.tracks[0], &tempo, 480, 0, metrics, 127);
    assert_eq!(raw.commands[0].amplitude, 100 * 1_000_000 / 127);
    assert_eq!(raw.commands.last().unwrap().amplitude, 0);
}

#[test]
fn percussion_track_is_never_selected() {
    let drums = vec![(0, on(9, 36, 120)), (240, off(9, 36)), (0, on(9, 38, 120)), (240, off(9, 38))];
    let bytes = smf(&[drums, two_half_notes()], 480);
    let tracks = parse_midi_to_rumble(&bytes, vec![]).unwrap();
    assert_eq!(tracks.len(), 1);
    assert_eq!(tracks[0].track_index, 1);
    assert!(!tracks[0].metrics.is_percussion);
    assert_eq!(tracks[0].metrics.calculate_score() > 0, true);
    let all_none = parse_midi_to_rumble(&bytes, vec![None, None]).unwrap();
    assert_eq!(all_none.len(), 1);
    assert_eq!(all_none[0].track_index, 1);
}

#[test]
fn explicit_selection_returns_requested_track() {
    let quiet = vec![(0, on(0, 50, 40)), (480, off(0, 50))];
    let bytes = smf(&[quiet, two_half_notes()], 480);
    let chosen = parse_midi_to_rumble(&bytes, vec![Some(0)]).unwrap();
    assert_eq!(chosen.len(), 1);
    assert_eq!(chosen[0].track_index, 0);
    let file = decode_midi(&bytes).unwrap();
    let tempo = collect_tempo_changes(&file);
    let metrics = analyze_track(&file.tracks[0], 480, 500_000);
    let direct = convert_track_with_tempo(&file.tracks[0], &tempo, 480, 0, metrics, 100);
    assert_eq!(chosen[0].commands, direct.commands);
    // Out-of-range choices are skipped; order and repeats are kept.
    let several = parse_midi_to_rumble(&bytes, vec![Some(1), Some(7), None, Some(0), Some(1)]).unwrap();
    let idx: Vec<usize> = several.iter().map(|t| t.track_index).collect();
    assert_eq!(idx, vec![1, 0, 1]);
    assert!(matches!(parse_midi_to_rumble(&bytes, vec![Some(5)]), Err(ParseError::NoTracks)));
}

#[test]
fn malformed_bytes_are_a_parse_error() {
    assert!(matches!(parse_midi_to_rumble(&[0x12, 0x34, 0x56, 0x78], vec![]), Err(ParseError::MidiError(_))));
    assert!(matches!(parse_midi_to_rumble(&[0x00, 0x01, 0x02, 0x03], vec![]), Err(ParseError::MidiError(_))));
    assert!(parse_midi_to_rumble(b"MThd", vec![]).is_err());
    assert!(parse_midi_to_rumble(&[], vec![]).is_err());
    assert!(matches!(decode_midi(&[0xde, 0xad, 0xbe, 0xef]), Err(ParseError::MidiError(_))));
}

#[test]
fn only_percussion_gives_no_tracks() {
    let drums = vec![(0, on(9, 36, 120)), (240, off(9, 36))];
    let bytes = smf(&[drums], 480);
    assert!(matches!(parse_midi_to_rumble(&bytes, vec![]), Err(ParseError::NoTracks)));
    let file = decode_midi(&bytes).unwrap();
    assert!(matches!(rumble_tracks_from_file(&file, &vec![]), Err(ParseError::NoTracks)));
}

#[test]
fn tempo_meta_events_change_timing() {
    // A tempo of 1 s per beat at tick 480 doubles the second note's length.
    let conductor = vec![(480, vec![0xff, 0x51, 0x03, 0x0f, 0x42, 0x40])];
    let notes = vec![(0, on(0, 60, 100)), (480, off(0, 60)), (0, on(0, 62, 100)), (480, off(0, 62))];
    let bytes = smf(&[conductor, notes], 480);
    let file = decode_midi(&bytes).unwrap();
    let tempo = collect_tempo_changes(&file);
    assert_eq!(
        tempo,
        vec![
            TempoChange { tick: 0, microseconds_per_beat: 500_000 },
            TempoChange { tick: 480, microseconds_per_beat: 1_000_000 },
        ]
    );
    let tracks = parse_midi_to_rumble(&bytes, vec![]).unwrap();
    assert_eq!(tracks.len(), 1);
    assert_eq!(tracks[0].total_duration, 1_500_000);
    let waits: u64 = tracks[0].commands.iter().map(|c| c.wait_before).sum();
    assert_eq!(waits, tracks[0].total_duration);
}

#[test]
fn silence_gaps_name_an_alternative() {
    // Track 0 rests from 0.5 s to 1.5 s; track 1 plays a note at 0.75 s.
    let a = vec![(0, on(0, 60, 100)), (480, off(0, 60)), (960, on(0, 62, 100)), (480, off(0, 62))];
    let b = vec![(720, on(0, 67, 90)), (240, off(0, 67))];
    let bytes = smf(&[a, b], 480);
    let tracks = parse_midi_to_rumble(&bytes, vec![]).unwrap();
    assert_eq!(tracks.len(), 2);
    let a = tracks.iter().find(|t| t.track_index == 0).unwrap();
    let b = tracks.iter().find(|t| t.track_index == 1).unwrap();
    let gap = a.switch_points.iter().find(|p| p.time == 500_000).unwrap();
    assert_eq!(gap.alternative_track_index, 1);
    // Track 1 starts silent for 0.75 s: a switch point at 0, track 0 sounds then.
    assert_eq!(b.switch_points[0].time, 0);
    assert_eq!(b.switch_points[0].alternative_track_index, 0);
}

#[test]
fn ticks_to_duration_is_additive() {
    let tempo = vec![
        TempoChange { tick: 0, microseconds_per_beat: 500_000 },
        TempoChange { tick: 480, microseconds_per_beat: 1_000_000 },
        TempoChange { tick: 700, microseconds_per_beat: 333_333 },
    ];
    assert_eq!(ticks_to_duration(0, 960, &tempo, 480), 500_000 + 458_333 + 180_555);
    for (a, b, c) in [(0u32, 100u32, 960u32), (13, 480, 481), (479, 700, 5000), (10, 10, 10)] {
        assert_eq!(ticks_to_duration(a, c, &tempo, 480), ticks_to_duration(a, b, &tempo, 480) + ticks_to_duration(b, c, &tempo, 480));
    }
    assert_eq!(ticks_to_duration(960, 0, &tempo, 480), 0);
}

#[test]
fn pitch_to_frequency() {
    assert_eq!(note_to_frequency(81), 880_000);
    assert_eq!(note_to_frequency(69), 440_000);
    assert_eq!(note_to_frequency(60), 261_625);
    for n in 0..116u8 {
        let lo = note_to_frequency(n) as u64;
        let hi = note_to_frequency(n + 12) as u64;
        assert!(2 * lo <= hi && hi <= 2 * lo + 1);
    }
}

#[test]
fn tempo_at_tick_zero_replaces_the_default() {
    // 1 s per beat from the start.
    let notes = vec![(0, vec![0xff, 0x51, 0x03, 0x0f, 0x42, 0x40]), (0, on(0, 60, 100)), (480, off(0, 60))];
    let bytes = smf(&[notes], 480);
    let file = decode_midi(&bytes).unwrap();
    assert_eq!(collect_tempo_changes(&file), vec![TempoChange { tick: 0, microseconds_per_beat: 1_000_000 }]);
    let tracks = parse_midi_to_rumble(&bytes, vec![]).unwrap();
    assert_eq!(tracks[0].total_duration, 1_000_000);
}

#[test]
fn automatic_selection_is_ordered_by_score() {
    // Track 0 holds one long note; track 1 moves by steps at a lively pace.
    let slow = vec![(0, on(0, 40, 100)), (3840, off(0, 40))];
    let mut lively = Vec::new();
    for (i, key) in [60u8, 62, 64, 65, 67, 69, 71, 72, 71, 69, 67, 65].iter().enumerate() {
        lively.push((0, on(0, *key, 60 + (i as u8) * 5)));
        lively.push((160, off(0, *key)));
    }
    let bytes = smf(&[slow, lively], 480);
    let tracks = parse_midi_to_rumble(&bytes, vec![]).unwrap();
    assert_eq!(tracks.len(), 2);
    let scores: Vec<u64> = tracks.iter().map(|t| t.metrics.calculate_score()).collect();
    assert!(scores[0] >= scores[1]);
    assert_eq!(tracks[0].track_index, 1);
    assert_eq!(tracks[1].track_index, 0);
}
