//! Rumble commands: pitch to frequency, the command generator, silence gaps
//! and switch points.
use vstd::prelude::*;
use crate::events::{EventKind, MidiEvent, track_wf, tick_after, MAX_TICK, lemma_tick_after_monotone};
use crate::tempo::{TempoChange, tempos_wf, duration_between, micros_at, ticks_to_duration, lemma_micros_monotone};
use crate::track_types::TrackMetrics;

verus! {

/// Full amplitude: amplitudes are in millionths.
pub const FULL_AMPLITUDE: u32 = 1_000_000;

/// A silence gap at least this long (in microseconds) is a switch point.
pub const SILENCE_THRESHOLD: u64 = 300_000;

/// A timed motor instruction: after waiting `wait_before` microseconds, play
/// `frequency` (millihertz, 0 for silence) at `amplitude` (millionths).
#[derive(Debug, Clone, Copy, PartialEq, Eq, Structural)]
pub struct RumbleCommand {
    pub frequency: u32,
    pub amplitude: u32,
    pub wait_before: u64,
}

/// A moment (microseconds from the track start) where the track falls silent
/// long enough to hand its channel to another track.
#[derive(Debug, Clone, Copy, PartialEq, Eq, Structural)]
pub struct TrackSwitchPoint {
    pub time: u64,
    pub alternative_track_index: usize,
}

/// A track converted to rumble commands.
#[derive(Debug)]
pub struct RumbleTrack {
    pub commands: Vec<RumbleCommand>,
    pub total_duration: u64,
    pub switch_points: Vec<TrackSwitchPoint>,
    pub track_index: usize,
    pub metrics: TrackMetrics,
}

// ---------------------------------------------------------------------------
// Pitch to frequency

/// Frequencies (millihertz) of the notes 120 to 131, that is of
/// `880 Hz * 2^((note - 81) / 12)` rounded; note 129 is 16 * 880 Hz exactly.
pub open spec fn top_octave(pitch_class: int) -> int {
    if pitch_class == 0 { 8_372_018 }
    else if pitch_class == 1 { 8_869_844 }
    else if pitch_class == 2 { 9_397_273 }
    else if pitch_class == 3 { 9_956_063 }
    else if pitch_class == 4 { 10_548_082 }
    else if pitch_class == 5 { 11_175_303 }
    else if pitch_class == 6 { 11_839_822 }
    else if pitch_class == 7 { 12_543_854 }
    else if pitch_class == 8 { 13_289_750 }
    else if pitch_class == 9 { 14_080_000 }
    else if pitch_class == 10 { 14_917_240 }
    else { 15_804_266 }
}

/// `f` halved `n` times, rounding down each time.
pub open spec fn halved(f: int, n: nat) -> int
    decreases n,
{
    if n == 0 { f } else { halved(f, (n - 1) as nat) / 2 }
}

/// Frequency of a MIDI note in millihertz: its top-octave value halved once
/// for each octave below the top one.
pub open spec fn frequency_of(note: int) -> int {
    halved(top_octave(note % 12), (10 - note / 12) as nat)
}

/// One octave up doubles the frequency, up to the rounding of one halving;
/// note 81 is 880 Hz.
pub proof fn lemma_octave(note: int)
    requires
        0 <= note,
        note + 12 < 128,
    ensures
        frequency_of(note) == frequency_of(note + 12) / 2,
        2 * frequency_of(note) <= frequency_of(note + 12) <= 2 * frequency_of(note) + 1,
        frequency_of(81) == 880_000,
{
    assert((note + 12) % 12 == note % 12);
    assert((note + 12) / 12 == note / 12 + 1);
    assert(halved(14_080_000, 0) == 14_080_000);
    assert(halved(14_080_000, 1) == 7_040_000);
    assert(halved(14_080_000, 2) == 3_520_000);
    assert(halved(14_080_000, 3) == 1_760_000);
    assert(halved(14_080_000, 4) == 880_000);
    assert(81int % 12 == 9 && 81int / 12 == 6);
}

/// `2^n`.
pub open spec fn pow2(n: nat) -> int
    decreases n,
{
    if n == 0 { 1 } else { 2 * pow2((n - 1) as nat) }
}

pub proof fn lemma_pow2_positive(n: nat)
    ensures
        pow2(n) >= 1,
    decreases n,
{
    if n > 0 {
        lemma_pow2_positive((n - 1) as nat);
    }
}

/// Frequency of a MIDI note in millihertz.
pub fn note_to_frequency(note: u8) -> (r: u32)
    requires
        note < 128,
    ensures
        r == frequency_of(note as int),
        0 < r <= 12_543_854,
{
    let top: u32 = match note % 12 {
        0 => 8_372_018,
        1 => 8_869_844,
        2 => 9_397_273,
        3 => 9_956_063,
        4 => 10_548_082,
        5 => 11_175_303,
        6 => 11_839_822,
        7 => 12_543_854,
        8 => 13_289_750,
        9 => 14_080_000,
        10 => 14_917_240,
        _ => 15_804_266,
    };
    let octaves_down: u8 = 10 - note / 12;
    assert(pow2(10) == 1024) by {
        reveal_with_fuel(pow2, 11);
    }
    let mut f = top;
    let mut k: u8 = 0;
    while k < octaves_down
        invariant
            k <= octaves_down <= 10,
            8_000 * 1024 <= top <= 15_804_266,
            f == halved(top as int, k as nat),
            0 <= f <= top,
            k >= 1 ==> f <= 7_902_133,
            f >= 8_000 * pow2((10 - k) as nat),
        decreases octaves_down - k,
    {
        assert(pow2((10 - k) as nat) == 2 * pow2((10 - k - 1) as nat));
        f = f / 2;
        k = k + 1;
    }
    proof {
        lemma_pow2_positive((10 - k) as nat);
        if k == 0 {
            assert(note % 12 <= 7);
        }
        assert(f == frequency_of(note as int));
    }
    f
}

// ---------------------------------------------------------------------------
// Command generation

/// Amplitude (millionths) of a velocity, relative to the loudest velocity.
pub open spec fn amplitude_of(velocity: int, loudest: int) -> int {
    velocity * 1_000_000 / loudest
}

/// The held notes `(key, amplitude)`, oldest first, without those of `key`.
pub open spec fn without_key(active: Seq<(u8, u32)>, key: u8) -> Seq<(u8, u32)>
    decreases active.len(),
{
    if active.len() == 0 {
        active
    } else {
        let rest = without_key(active.drop_last(), key);
        if active.last().0 == key {
            rest
        } else {
            rest.push(active.last())
        }
    }
}

/// Frequency and amplitude of the most recently started note still held, or
/// silence when none is.
pub open spec fn sounding(active: Seq<(u8, u32)>) -> (u32, u32) {
    if active.len() == 0 {
        (0, 0)
    } else {
        (frequency_of(active.last().0 as int) as u32, active.last().1)
    }
}

/// A note change at the current tick: it takes the place of the sound of the
/// wait command just appended, or else comes as a command of its own.
pub open spec fn emit(cmds: Seq<RumbleCommand>, waited: bool, fa: (u32, u32)) -> Seq<RumbleCommand> {
    if waited && cmds.len() > 0 {
        cmds.update(
            cmds.len() - 1,
            RumbleCommand { frequency: fa.0, amplitude: fa.1, wait_before: cmds.last().wait_before },
        )
    } else {
        cmds.push(RumbleCommand { frequency: fa.0, amplitude: fa.1, wait_before: 0 })
    }
}

/// A note-on with a non-zero velocity.
pub open spec fn starts_note(k: EventKind) -> bool {
    k matches EventKind::NoteOn { velocity, .. } && velocity > 0
}

/// A note-off, or a note-on with velocity 0.
pub open spec fn ends_note(k: EventKind) -> bool {
    ||| k is NoteOff
    ||| (k matches EventKind::NoteOn { velocity, .. } && velocity == 0)
}

pub open spec fn key_of(k: EventKind) -> u8 {
    match k {
        EventKind::NoteOn { key, .. } => key,
        EventKind::NoteOff { key, .. } => key,
        _ => 0,
    }
}

pub open spec fn velocity_of(k: EventKind) -> u8 {
    match k {
        EventKind::NoteOn { velocity, .. } => velocity,
        EventKind::NoteOff { velocity, .. } => velocity,
        _ => 0,
    }
}

/// Generator state: commands so far, current tick, held notes, and whether
/// the last command is a wait that no note change has followed yet.
pub type GenState = (Seq<RumbleCommand>, int, Seq<(u8, u32)>, bool);

/// One event: first the time since the previous event (a wait command that
/// keeps the current sound, when the wait is not zero), then the event itself.
pub open spec fn gen_step(s: GenState, e: MidiEvent, ts: Seq<TempoChange>, tpb: int, loudest: int) -> GenState {
    let wait = duration_between(ts, tpb, s.1, s.1 + e.delta);
    let now = sounding(s.2);
    let (c1, w1) = if wait != 0 {
        (s.0.push(RumbleCommand { frequency: now.0, amplitude: now.1, wait_before: wait as u64 }), true)
    } else {
        (s.0, s.3)
    };
    let t1 = s.1 + e.delta;
    if starts_note(e.kind) {
        let a2 = s.2.push((key_of(e.kind), amplitude_of(velocity_of(e.kind) as int, loudest) as u32));
        (emit(c1, w1, sounding(a2)), t1, a2, false)
    } else if ends_note(e.kind) {
        let a2 = without_key(s.2, key_of(e.kind));
        (emit(c1, w1, sounding(a2)), t1, a2, false)
    } else {
        (c1, t1, s.2, w1)
    }
}

/// Generator state after the first `n` events.
pub open spec fn gen_state(events: Seq<MidiEvent>, n: int, ts: Seq<TempoChange>, tpb: int, loudest: int) -> GenState
    decreases n,
{
    if n <= 0 || n > events.len() {
        (seq![], 0, seq![], false)
    } else {
        gen_step(gen_state(events, n - 1, ts, tpb, loudest), events[n - 1], ts, tpb, loudest)
    }
}

pub open spec fn is_silent(c: RumbleCommand) -> bool {
    c.frequency == 0 && c.amplitude == 0
}

pub open spec fn silence() -> RumbleCommand {
    RumbleCommand { frequency: 0, amplitude: 0, wait_before: 0 }
}

/// Appends a silence command unless the sequence already ends silent.
pub open spec fn end_silent(cmds: Seq<RumbleCommand>) -> Seq<RumbleCommand> {
    if cmds.len() > 0 && is_silent(cmds.last()) {
        cmds
    } else {
        cmds.push(silence())
    }
}

/// The commands generated for a track.
pub open spec fn generated_commands(events: Seq<MidiEvent>, ts: Seq<TempoChange>, tpb: int, loudest: int) -> Seq<RumbleCommand> {
    end_silent(gen_state(events, events.len() as int, ts, tpb, loudest).0)
}

/// Sum of the waits of a command sequence: the time its last command starts.
pub open spec fn sum_waits(cmds: Seq<RumbleCommand>) -> int
    decreases cmds.len(),
{
    if cmds.len() == 0 {
        0
    } else {
        sum_waits(cmds.drop_last()) + cmds.last().wait_before
    }
}

/// Time at which command `j` takes effect.
pub open spec fn start_time(cmds: Seq<RumbleCommand>, j: int) -> int {
    sum_waits(cmds.subrange(0, j + 1))
}

proof fn lemma_sum_waits_push(cmds: Seq<RumbleCommand>, c: RumbleCommand)
    ensures
        sum_waits(cmds.push(c)) == sum_waits(cmds) + c.wait_before,
{
    assert(cmds.push(c).drop_last() =~= cmds);
}

proof fn lemma_sum_waits_emit(cmds: Seq<RumbleCommand>, waited: bool, fa: (u32, u32))
    ensures
        sum_waits(emit(cmds, waited, fa)) == sum_waits(cmds),
        emit(cmds, waited, fa).len() > 0,
{
    if waited && cmds.len() > 0 {
        let e = emit(cmds, waited, fa);
        assert(e.drop_last() =~= cmds.drop_last());
    } else {
        lemma_sum_waits_push(cmds, RumbleCommand { frequency: fa.0, amplitude: fa.1, wait_before: 0 });
    }
}

/// After `n` events the waits add up to the wall-clock position of the
/// current tick.
proof fn lemma_gen_timing(events: Seq<MidiEvent>, n: int, ts: Seq<TempoChange>, tpb: int, loudest: int)
    requires
        tempos_wf(ts),
        tpb > 0,
        0 <= n <= events.len(),
        tick_after(events, events.len() as int) <= MAX_TICK,
    ensures
        gen_state(events, n, ts, tpb, loudest).1 == tick_after(events, n),
        sum_waits(gen_state(events, n, ts, tpb, loudest).0) == micros_at(ts, tpb, tick_after(events, n)),
    decreases n,
{
    if n == 0 {
        lemma_micros_monotone(ts, tpb, 0, 0);
        crate::tempo::lemma_micros_zero(ts, tpb);
    } else {
        lemma_gen_timing(events, n - 1, ts, tpb, loudest);
        let s = gen_state(events, n - 1, ts, tpb, loudest);
        let e = events[n - 1];
        lemma_tick_after_monotone(events, n - 1, n);
        lemma_tick_after_monotone(events, n, events.len() as int);
        lemma_micros_monotone(ts, tpb, s.1, s.1 + e.delta);
        let wait = duration_between(ts, tpb, s.1, s.1 + e.delta);
        let now = sounding(s.2);
        let c = RumbleCommand { frequency: now.0, amplitude: now.1, wait_before: wait as u64 };
        crate::tempo::lemma_micros_fit(ts, tpb, s.1 + e.delta);
        lemma_sum_waits_push(s.0, c);
        let (c1, w1) = if wait != 0 { (s.0.push(c), true) } else { (s.0, s.3) };
        if starts_note(e.kind) {
            let a2 = s.2.push((key_of(e.kind), amplitude_of(velocity_of(e.kind) as int, loudest) as u32));
            lemma_sum_waits_emit(c1, w1, sounding(a2));
        } else if ends_note(e.kind) {
            lemma_sum_waits_emit(c1, w1, sounding(without_key(s.2, key_of(e.kind))));
        }
    }
}

/// The waits of the generated commands add up to the track's length, and the
/// commands end in silence.
pub proof fn lemma_generated_commands(events: Seq<MidiEvent>, ts: Seq<TempoChange>, tpb: int, loudest: int)
    requires
        tempos_wf(ts),
        tpb > 0,
        tick_after(events, events.len() as int) <= MAX_TICK,
    ensures
        sum_waits(generated_commands(events, ts, tpb, loudest))
            == duration_between(ts, tpb, 0, tick_after(events, events.len() as int)),
        generated_commands(events, ts, tpb, loudest).len() > 0,
        is_silent(generated_commands(events, ts, tpb, loudest).last()),
{
    let n = events.len() as int;
    lemma_gen_timing(events, n, ts, tpb, loudest);
    lemma_tick_after_monotone(events, 0, n);
    crate::tempo::lemma_micros_zero(ts, tpb);
    let cmds = gen_state(events, n, ts, tpb, loudest).0;
    if !(cmds.len() > 0 && is_silent(cmds.last())) {
        lemma_sum_waits_push(cmds, silence());
    }
}

pub open spec fn keys_in_range(active: Seq<(u8, u32)>) -> bool {
    forall|i: int| 0 <= i < active.len() ==> #[trigger] active[i].0 < 128
}

fn current_sound(active: &Vec<(u8, u32)>) -> (r: (u32, u32))
    requires
        keys_in_range(active@),
    ensures
        r == sounding(active@),
{
    if active.len() == 0 {
        (0, 0)
    } else {
        let top = active[active.len() - 1];
        (note_to_frequency(top.0), top.1)
    }
}

fn remove_key(active: &Vec<(u8, u32)>, key: u8) -> (r: Vec<(u8, u32)>)
    requires
        keys_in_range(active@),
    ensures
        r@ == without_key(active@, key),
        keys_in_range(r@),
{
    let mut r: Vec<(u8, u32)> = Vec::new();
    let mut i: usize = 0;
    while i < active.len()
        invariant
            i <= active@.len(),
            keys_in_range(active@),
            keys_in_range(r@),
            r@ == without_key(active@.subrange(0, i as int), key),
        decreases active@.len() - i,
    {
        assert(active@.subrange(0, i as int + 1).drop_last() =~= active@.subrange(0, i as int));
        if active[i].0 != key {
            r.push(active[i]);
        }
        i = i + 1;
    }
    assert(active@.subrange(0, active@.len() as int) =~= active@);
    r
}

fn emit_change(commands: &mut Vec<RumbleCommand>, waited: bool, fa: (u32, u32))
    ensures
        final(commands)@ == emit(old(commands)@, waited, fa),
{
    let n = commands.len();
    if waited && n > 0 {
        let wait = commands[n - 1].wait_before;
        commands[n - 1] = RumbleCommand { frequency: fa.0, amplitude: fa.1, wait_before: wait };
    } else {
        commands.push(RumbleCommand { frequency: fa.0, amplitude: fa.1, wait_before: 0 });
    }
}

/// Converts one track's events to rumble commands (see `generated_commands`),
/// with amplitudes relative to `loudest`, and marks its silence gaps as switch
/// points that name the track itself as the alternative.
pub fn convert_track_with_tempo(
    events: &[MidiEvent],
    tempo_changes: &[TempoChange],
    ticks_per_beat: u16,
    track_index: usize,
    metrics: TrackMetrics,
    loudest: u8,
) -> (r: RumbleTrack)
    requires
        track_wf(events@),
        tempos_wf(tempo_changes@),
        ticks_per_beat > 0,
        loudest > 0,
    ensures
        r.commands@ == generated_commands(events@, tempo_changes@, ticks_per_beat as int, loudest as int),
        r.total_duration == duration_between(tempo_changes@, ticks_per_beat as int, 0, tick_after(events@, events@.len() as int)),
        sum_waits(r.commands@) == r.total_duration,
        r.commands@.len() > 0,
        is_silent(r.commands@.last()),
        r.switch_points@ == switch_points_of(r.commands@, track_index),
        r.track_index == track_index,
        r.metrics == metrics,
{
    let ghost ev = events@;
    let ghost ts = tempo_changes@;
    let ghost tpb = ticks_per_beat as int;
    let ghost ld = loudest as int;
    let mut commands: Vec<RumbleCommand> = Vec::new();
    let mut tick: u32 = 0;
    let mut active: Vec<(u8, u32)> = Vec::new();
    let mut waited = false;
    let mut i: usize = 0;
    while i < events.len()
        invariant
            ev == events@,
            track_wf(ev),
            tempos_wf(ts),
            ts == tempo_changes@,
            tpb == ticks_per_beat as int,
            tpb > 0,
            ld == loudest as int,
            ld > 0,
            i <= ev.len(),
            tick == tick_after(ev, i as int),
            keys_in_range(active@),
            gen_state(ev, i as int, ts, tpb, ld) == (commands@, tick as int, active@, waited),
        decreases ev.len() - i,
    {
        proof {
            lemma_tick_after_monotone(ev, i as int + 1, ev.len() as int);
        }
        let e = &events[i];
        let next: u32 = tick + e.delta;
        if e.delta > 0 {
            let wait = ticks_to_duration(tick, next, tempo_changes, ticks_per_beat);
            if wait != 0 {
                let now = current_sound(&active);
                commands.push(RumbleCommand { frequency: now.0, amplitude: now.1, wait_before: wait });
                waited = true;
            }
        }
        tick = next;
        assert(crate::events::kind_wf(e.kind));
        match &e.kind {
            EventKind::NoteOn { key, velocity, .. } => {
                if *velocity > 0 {
                    let amplitude = (*velocity as u64 * 1_000_000 / loudest as u64) as u32;
                    active.push((*key, amplitude));
                } else {
                    active = remove_key(&active, *key);
                }
                let now = current_sound(&active);
                emit_change(&mut commands, waited, now);
                waited = false;
            },
            EventKind::NoteOff { key, .. } => {
                active = remove_key(&active, *key);
                let now = current_sound(&active);
                emit_change(&mut commands, waited, now);
                waited = false;
            },
            _ => {},
        }
        i = i + 1;
    }
    let total = ticks_to_duration(0, tick, tempo_changes, ticks_per_beat);
    let n = commands.len();
    if n == 0 || commands[n - 1].frequency != 0 || commands[n - 1].amplitude != 0 {
        commands.push(RumbleCommand { frequency: 0, amplitude: 0, wait_before: 0 });
    }
    proof {
        assert(ev.len() == events@.len());
        lemma_generated_commands(ev, ts, tpb, ld);
    }
    let periods = find_silent_periods(&commands);
    let switch_points = switch_points_from(&periods, track_index);
    RumbleTrack { commands, total_duration: total, switch_points, track_index, metrics }
}

// ---------------------------------------------------------------------------
// Silence gaps

/// Silence scan state: gaps found `(start, end)`, start of the silence under
/// way, whether any command has sounded yet, time elapsed.
pub type SilenceScan = (Seq<(u64, u64)>, Option<u64>, bool, u64);

/// A track starts silent at time 0.
pub open spec fn scan_start(cmds: Seq<RumbleCommand>) -> SilenceScan {
    (seq![], Some(0u64), false, 0)
}

/// A sounding command closes the silence under way (a gap when it lasted at
/// least the threshold); a silent one opens a silence unless one is under way.
pub open spec fn scan_step(s: SilenceScan, c: RumbleCommand) -> SilenceScan {
    let t = (s.3 + c.wait_before) as u64;
    if c.amplitude > 0 {
        let found = match s.1 {
            Some(st) => if t - st >= SILENCE_THRESHOLD { s.0.push((st, t)) } else { s.0 },
            None => s.0,
        };
        (found, None, true, t)
    } else if s.1 is None {
        (s.0, Some(t), s.2, t)
    } else {
        (s.0, s.1, s.2, t)
    }
}

pub open spec fn scan(cmds: Seq<RumbleCommand>, n: int) -> SilenceScan
    decreases n,
{
    if n <= 0 || n > cmds.len() {
        scan_start(cmds)
    } else {
        scan_step(scan(cmds, n - 1), cmds[n - 1])
    }
}

/// The silence gaps of a command sequence, a trailing one included when the
/// track sounded before it or is silent throughout.
pub open spec fn silent_periods(cmds: Seq<RumbleCommand>) -> Seq<(u64, u64)> {
    let s = scan(cmds, cmds.len() as int);
    match s.1 {
        Some(st) => if (s.2 || st == 0) && s.3 - st >= SILENCE_THRESHOLD { s.0.push((st, s.3)) } else { s.0 },
        None => s.0,
    }
}

/// One switch point at the start of each silence gap, naming `index`.
pub open spec fn switch_points_of(cmds: Seq<RumbleCommand>, index: usize) -> Seq<TrackSwitchPoint> {
    silent_periods(cmds).map_values(|p: (u64, u64)| TrackSwitchPoint { time: p.0, alternative_track_index: index })
}

pub proof fn lemma_prefix_waits(cmds: Seq<RumbleCommand>, n: int)
    requires
        0 <= n <= cmds.len(),
    ensures
        0 <= sum_waits(cmds.subrange(0, n)) <= sum_waits(cmds),
    decreases cmds.len() - n,
{
    if n < cmds.len() {
        lemma_prefix_waits(cmds, n + 1);
        assert(cmds.subrange(0, n + 1).drop_last() =~= cmds.subrange(0, n));
        lemma_sum_waits_nonneg(cmds.subrange(0, n));
    } else {
        assert(cmds.subrange(0, n) =~= cmds);
        lemma_sum_waits_nonneg(cmds);
    }
}

proof fn lemma_sum_waits_nonneg(cmds: Seq<RumbleCommand>)
    ensures
        sum_waits(cmds) >= 0,
    decreases cmds.len(),
{
    if cmds.len() > 0 {
        lemma_sum_waits_nonneg(cmds.drop_last());
    }
}

fn find_silent_periods(commands: &Vec<RumbleCommand>) -> (r: Vec<(u64, u64)>)
    requires
        sum_waits(commands@) <= u64::MAX,
    ensures
        r@ == silent_periods(commands@),
{
    let ghost cs = commands@;
    let mut found: Vec<(u64, u64)> = Vec::new();
    let mut start: Option<u64> = Some(0);
    let mut sounded = false;
    let mut time: u64 = 0;
    let mut i: usize = 0;
    assert(cs.subrange(0, 0) =~= seq![]);
    while i < commands.len()
        invariant
            cs == commands@,
            sum_waits(cs) <= u64::MAX,
            i <= cs.len(),
            time == sum_waits(cs.subrange(0, i as int)),
            scan(cs, i as int) == (found@, start, sounded, time),
            start matches Some(st) ==> st <= time,
        decreases cs.len() - i,
    {
        proof {
            lemma_prefix_waits(cs, i as int + 1);
            assert(cs.subrange(0, i as int + 1).drop_last() =~= cs.subrange(0, i as int));
        }
        let c = commands[i];
        time = time + c.wait_before;
        if c.amplitude > 0 {
            match start {
                Some(st) => {
                    if time - st >= SILENCE_THRESHOLD {
                        found.push((st, time));
                    }
                },
                None => {},
            }
            start = None;
            sounded = true;
        } else if start.is_none() {
            start = Some(time);
        }
        i = i + 1;
    }
    match start {
        Some(st) => {
            if (sounded || st == 0) && time - st >= SILENCE_THRESHOLD {
                found.push((st, time));
            }
        },
        None => {},
    }
    found
}

fn switch_points_from(periods: &Vec<(u64, u64)>, index: usize) -> (r: Vec<TrackSwitchPoint>)
    ensures
        r@ == periods@.map_values(|p: (u64, u64)| TrackSwitchPoint { time: p.0, alternative_track_index: index }),
{
    let mut r: Vec<TrackSwitchPoint> = Vec::new();
    let mut i: usize = 0;
    while i < periods.len()
        invariant
            i <= periods@.len(),
            r@ == periods@.subrange(0, i as int).map_values(|p: (u64, u64)| TrackSwitchPoint { time: p.0, alternative_track_index: index }),
        decreases periods@.len() - i,
    {
        r.push(TrackSwitchPoint { time: periods[i].0, alternative_track_index: index });
        i = i + 1;
        assert(r@ =~= periods@.subrange(0, i as int).map_values(|p: (u64, u64)| TrackSwitchPoint { time: p.0, alternative_track_index: index }));
    }
    assert(periods@.subrange(0, periods@.len() as int) =~= periods@);
    r
}

} // verus!
