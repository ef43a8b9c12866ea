use musical_joycons::merge::{evaluate_track_section, find_commands_at_time, TrackMergeController};
use musical_joycons::playback::{initial_assignments, is_note_off, rank_tracks, ChannelWorker, WorkerAction};
use musical_joycons::rumble::{RumbleCommand, RumbleTrack};
use musical_joycons::track_types::{TrackMetrics, TrackType};

fn metrics(index: usize, density: u64, percussion: bool, role: TrackType) -> TrackMetrics {
    TrackMetrics {
        track_index: index,
        note_count: 10,
        unique_notes: 5,
        avg_velocity: 100_000_000,
        velocity_variance: if density > 0 { 300_000_000 } else { 0 },
        avg_note_duration: 300_000,
        total_duration: 5_000_000,
        note_density: density,
        is_percussion: percussion,
        track_name: None,
        track_instrument: None,
        track_type: role,
        pitch_range: 38,
        melodic_movement: 2_000_000,
        sustain_ratio: 600_000,
        rhythmic_regularity: 1_000_000,
    }
}

fn cmd(frequency: u32, amplitude: u32, wait_before: u64) -> RumbleCommand {
    RumbleCommand { frequency, amplitude, wait_before }
}

fn track(index: usize, commands: Vec<RumbleCommand>, m: TrackMetrics) -> RumbleTrack {
    let total = commands.iter().map(|c| c.wait_before).sum();
    RumbleTrack { commands, total_duration: total, switch_points: vec![], track_index: index, metrics: m }
}

/// Silent until 2 s, then notes at 2.0, 2.2 and 2.4 s.
fn busy_track() -> RumbleTrack {
    track(
        1,
        vec![
            cmd(440_000, 1_000_000, 2_000_000),
            cmd(0, 0, 100_000),
            cmd(440_000, 1_000_000, 100_000),
            cmd(0, 0, 100_000),
            cmd(440_000, 1_000_000, 100_000),
            cmd(0, 0, 100_000),
        ],
        metrics(1, 3_000_000, false, TrackType::Harmony),
    )
}

#[test]
fn scores_have_exact_values() {
    assert_eq!(metrics(0, 3_000_000, false, TrackType::Unknown).calculate_score(), 999_881);
    assert_eq!(metrics(0, 3_000_000, false, TrackType::Melody).calculate_score(), 1_299_845);
    assert_eq!(metrics(0, 3_000_000, false, TrackType::Harmony).calculate_score(), 1_499_821);
    assert_eq!(metrics(0, 0, false, TrackType::Unknown).calculate_score(), 749_881);
    let mut busy = metrics(0, 3_000_000, false, TrackType::Unknown);
    busy.note_count = 300;
    busy.unique_notes = 5;
    assert_eq!(busy.calculate_score(), 927_381 * 13 / 10);
    // A role of Drums from a program number scores nothing.
    assert_eq!(metrics(0, 3_000_000, false, TrackType::Drums).calculate_score(), 0);
}

#[test]
fn percussion_scores_zero() {
    for role in [TrackType::Melody, TrackType::Harmony, TrackType::Bass, TrackType::Vocals, TrackType::Unknown] {
        let m = metrics(0, 3_000_000, true, role);
        assert_eq!(m.calculate_score(), 0);
        assert_eq!(m.calculate_window_score(12, 500_000), 0);
    }
}

#[test]
fn window_scores_have_exact_values() {
    let m = metrics(0, 3_000_000, false, TrackType::Unknown);
    // 8 notes per second: no density bonus.
    assert_eq!(m.calculate_window_score(4, 500_000), 3_200_000);
    // 3 notes per second: the full 20% bonus, times 1.15 for a melody.
    let melody = metrics(0, 3_000_000, false, TrackType::Melody);
    assert_eq!(melody.calculate_window_score(3, 1_000_000), 2_400_000 * 12 / 10 * 115 / 100);
    assert_eq!(m.calculate_window_score(0, 0), 0);
}

#[test]
fn determine_track_type_from_program() {
    let mut m = metrics(0, 0, false, TrackType::Unknown);
    m.determine_track_type(Some(0));
    assert_eq!(m.track_type, TrackType::Melody);
    m.determine_track_type(Some(40));
    assert_eq!(m.track_type, TrackType::Harmony);
    m.determine_track_type(Some(115));
    assert_eq!(m.track_type, TrackType::Drums);
    m.determine_track_type(Some(127));
    assert_eq!(m.track_type, TrackType::Unknown);
    m.determine_track_type(None);
    assert_eq!(m.track_type, TrackType::Unknown);
    m.sustain_ratio = 800_000;
    m.determine_track_type(None);
    assert_eq!(m.track_type, TrackType::Harmony);
    m.track_instrument = Some("Synth LEAD".to_string());
    m.determine_track_type(None);
    assert_eq!(m.track_type, TrackType::Melody);
}

#[test]
fn section_and_position() {
    let t = busy_track();
    assert_eq!(evaluate_track_section(&t.commands, 2_000_000, 500_000), (3, 1_000_000));
    assert_eq!(evaluate_track_section(&t.commands, 2_100_000, 200_000), (1, 1_000_000));
    assert_eq!(evaluate_track_section(&t.commands, 0, 1_000_000), (0, 0));
    assert_eq!(find_commands_at_time(&t.commands, 2_150_000), 2);
    assert_eq!(find_commands_at_time(&t.commands, 9_000_000), 6);
}

#[test]
fn switch_needs_the_minimum_interval() {
    let quiet = track(0, vec![cmd(0, 0, 5_000_000)], metrics(0, 0, false, TrackType::Unknown));
    let mut c = TrackMergeController::new(vec![quiet, busy_track()], 1);
    assert!(!c.should_switch_tracks(0, 0, 1, 0));
    c.update_time(2_000_000);
    assert!(c.should_switch_tracks(0, 0, 1, 0));
    c.record_switch(0);
    assert!(!c.should_switch_tracks(0, 0, 1, 0));
    c.update_time(1_999_999);
    assert!(!c.should_switch_tracks(0, 0, 1, 0));
}

#[test]
fn initial_assignment_by_score() {
    let tracks = vec![
        track(0, vec![cmd(0, 0, 0)], metrics(0, 3_000_000, false, TrackType::Unknown)),
        track(1, vec![cmd(0, 0, 0)], metrics(1, 3_000_000, true, TrackType::Melody)),
        track(2, vec![cmd(0, 0, 0)], metrics(2, 3_000_000, false, TrackType::Melody)),
    ];
    assert_eq!(initial_assignments(&tracks, 2), vec![2, 0]);
    assert_eq!(initial_assignments(&tracks, 5), vec![2, 0]);
    assert_eq!(initial_assignments(&tracks, 1), vec![2]);
}

#[test]
fn ranking_prefers_local_activity() {
    let quiet = track(0, vec![cmd(0, 0, 5_000_000)], metrics(0, 3_000_000, false, TrackType::Melody));
    let tracks = vec![quiet, busy_track()];
    let (top, publish) = rank_tracks(&tracks, &vec![true, true], 2_000_000, &vec![0], 1);
    assert_eq!(top, vec![1]);
    assert!(publish);
    let (top, publish) = rank_tracks(&tracks, &vec![true, true], 2_000_000, &vec![1], 1);
    assert_eq!(top, vec![1]);
    assert!(!publish);
    // Nothing sounds at 10 s: no reassignment into silence.
    let (_, publish) = rank_tracks(&tracks, &vec![true, true], 10_000_000, &vec![7], 1);
    assert!(!publish);
    let (top, _) = rank_tracks(&tracks, &vec![true, false], 2_000_000, &vec![0], 2);
    assert_eq!(top, vec![0]);
}

#[test]
fn note_off_detection() {
    let on = cmd(440_000, 500_000, 0);
    let silent = cmd(0, 0, 10);
    assert!(is_note_off(&silent, Some(&on)));
    assert!(!is_note_off(&silent, None));
    assert!(!is_note_off(&on, Some(&silent)));
}

#[test]
fn worker_plays_then_finishes() {
    let t = track(0, vec![cmd(440_000, 1_000_000, 0), cmd(0, 0, 500_000)], metrics(0, 3_000_000, false, TrackType::Melody));
    let c = TrackMergeController::new(vec![t], 1);
    let mut w = ChannelWorker::new(0, 0);
    assert_eq!(w.step(0, &c), WorkerAction::Play { command: cmd(440_000, 1_000_000, 0) });
    assert_eq!(w.step(0, &c), WorkerAction::Play { command: cmd(0, 0, 500_000) });
    assert_eq!(w.time, 500_000);
    assert_eq!(w.step(0, &c), WorkerAction::Finished { track: 0 });
}

#[test]
fn worker_switches_at_note_off() {
    let current = track(
        0,
        vec![cmd(440_000, 1_000_000, 0), cmd(0, 0, 2_000_000), cmd(0, 0, 3_000_000)],
        metrics(0, 0, false, TrackType::Unknown),
    );
    let mut c = TrackMergeController::new(vec![current, busy_track()], 1);
    c.update_time(2_000_000);
    let mut w = ChannelWorker::new(0, 0);
    assert_eq!(w.step(1, &c), WorkerAction::Play { command: cmd(440_000, 1_000_000, 0) });
    assert_eq!(w.pending_switch, Some(1));
    assert_eq!(w.step(1, &c), WorkerAction::Switched { track: 1 });
    assert_eq!(w.current_track, 1);
    assert_eq!(w.command_index, 0);
    assert_eq!(w.pending_switch, None);
}

#[test]
fn default_metrics_are_empty() {
    let m = TrackMetrics::default();
    assert_eq!(m.note_count, 0);
    assert_eq!(m.track_type, TrackType::Unknown);
    assert!(m.track_name.is_none());
    assert_eq!(m.calculate_score(), 488_333);
}
