//! From MIDI bytes to rumble tracks: analysis, track selection, loudness
//! normalisation, conversion and switch-point alternatives.
use vstd::prelude::*;
use crate::decode::{ParseError, decode_midi, starts_as_midi, midi_of, model_ok, file_matches};
use crate::events::{MidiEvent, MidiFile, track_wf, tick_after};
use crate::rumble::{
    RumbleCommand, RumbleTrack, TrackSwitchPoint, convert_track_with_tempo, generated_commands,
    switch_points_of, starts_note, velocity_of, sum_waits, start_time, is_silent,
};
use crate::tempo::{TempoChange, DEFAULT_TEMPO, collect_tempo_changes, duration_between, timeline_of, tempos_wf, tempo_candidates};
use crate::track_analysis::{analyze_track, analysis_of, features};
use crate::track_types::TrackMetrics;
use crate::playback::{is_top, ranks_before, top_positions};

verus! {

/// How far past a switch point another track must sound to be its
/// alternative, in microseconds.
pub const LOOK_AHEAD: u64 = 500_000;

/// A track worth playing: not percussion, with at least one note.
pub open spec fn playable(m: TrackMetrics) -> bool {
    !m.is_percussion && m.note_count > 0
}

/// The same, from a track's events.
pub open spec fn track_playable(events: Seq<MidiEvent>, tpb: int) -> bool {
    let f = features(events, events.len() as int, tpb, DEFAULT_TEMPO as int);
    !f.percussion && f.pitches.len() > 0
}

/// Tracks chosen by hand: every `Some` that names one of `n` tracks, in order.
pub open spec fn chosen(sel: Seq<Option<usize>>, n: int) -> Seq<usize>
    decreases sel.len(),
{
    if sel.len() == 0 {
        seq![]
    } else {
        let rest = chosen(sel.drop_last(), n);
        match sel.last() {
            Some(i) => if i < n { rest.push(i) } else { rest },
            None => rest,
        }
    }
}

/// No track chosen by hand.
pub open spec fn automatic(sel: Seq<Option<usize>>) -> bool {
    forall|i: int| 0 <= i < sel.len() ==> #[trigger] sel[i] is None
}

/// Loudest note-on velocity among the first `n` events (0 when none).
pub open spec fn track_loudest(events: Seq<MidiEvent>, n: int) -> int
    decreases n,
{
    if n <= 0 || n > events.len() {
        0
    } else {
        let m = track_loudest(events, n - 1);
        let k = events[n - 1].kind;
        if starts_note(k) && velocity_of(k) > m { velocity_of(k) as int } else { m }
    }
}

/// Loudest note-on velocity of the first `k` tracks, at least 1.
pub open spec fn file_loudest(tracks: Seq<Vec<MidiEvent>>, k: int) -> int
    decreases k,
{
    if k <= 0 || k > tracks.len() {
        1
    } else {
        let m = file_loudest(tracks, k - 1);
        let t = track_loudest(tracks[k - 1]@, tracks[k - 1]@.len() as int);
        if t > m { t } else { m }
    }
}

/// Some command of `cmds` sounds within `LOOK_AHEAD` after `t`.
pub open spec fn sounds_within(cmds: Seq<RumbleCommand>, t: int) -> bool {
    exists|j: int| 0 <= j < cmds.len() && cmds[j].amplitude > 0 && t <= #[trigger] start_time(cmds, j) <= t + LOOK_AHEAD
}

/// Track `j` could take over from track `own` at time `t`.
pub open spec fn candidate(ts: Seq<RumbleTrack>, own: usize, j: int, t: int) -> bool {
    &&& ts[j].track_index != own
    &&& playable(ts[j].metrics)
    &&& sounds_within(ts[j].commands@, t)
}

/// Position of the best-scoring candidate among the first `k` tracks (the
/// first of equal scores).
pub open spec fn best_before(ts: Seq<RumbleTrack>, own: usize, t: int, k: int) -> Option<int>
    decreases k,
{
    if k <= 0 {
        None
    } else {
        let prev = best_before(ts, own, t, k - 1);
        if candidate(ts, own, k - 1, t) && (prev is None || ts[k - 1].metrics.score() > ts[prev->0].metrics.score()) {
            Some(k - 1)
        } else {
            prev
        }
    }
}

/// The track to hand over to at time `t`: the best-scoring other playable
/// track that sounds within `LOOK_AHEAD`, else `own` itself.
pub open spec fn best_alternative(ts: Seq<RumbleTrack>, own: usize, t: int) -> usize {
    match best_before(ts, own, t, ts.len() as int) {
        Some(j) => ts[j].track_index,
        None => own,
    }
}

/// `m` is the analysis of track `i` of `file`, indexed `i`.
pub open spec fn analysed(file: MidiFile, i: int, m: TrackMetrics) -> bool {
    &&& m.track_index == i
    &&& analysis_of(file.tracks@[i]@, file.ticks_per_beat as int, DEFAULT_TEMPO as int, TrackMetrics { track_index: 0, ..m })
}

fn analyze_all(file: &MidiFile) -> (r: Vec<TrackMetrics>)
    requires
        file.wf(),
    ensures
        r@.len() == file.tracks@.len(),
        forall|i: int| 0 <= i < r@.len() ==> analysed(*file, i, #[trigger] r@[i]),
{
    let mut r: Vec<TrackMetrics> = Vec::new();
    let mut i: usize = 0;
    while i < file.tracks.len()
        invariant
            file.wf(),
            i <= file.tracks@.len(),
            r@.len() == i,
            forall|k: int| 0 <= k < r@.len() ==> analysed(*file, k, #[trigger] r@[k]),
        decreases file.tracks@.len() - i,
    {
        assert(track_wf(file.tracks@[i as int]@));
        let mut m = analyze_track(file.tracks[i].as_slice(), file.ticks_per_beat, DEFAULT_TEMPO);
        let ghost m0 = m;
        m.track_index = i;
        assert(TrackMetrics { track_index: 0, ..m } == m0);
        r.push(m);
        i = i + 1;
    }
    r
}

fn loudest_velocity(file: &MidiFile) -> (r: u8)
    requires
        file.wf(),
    ensures
        r == file_loudest(file.tracks@, file.tracks@.len() as int),
        r > 0,
{
    let mut loudest: u8 = 1;
    let mut t: usize = 0;
    while t < file.tracks.len()
        invariant
            file.wf(),
            t <= file.tracks@.len(),
            loudest == file_loudest(file.tracks@, t as int),
            0 < loudest < 128,
        decreases file.tracks@.len() - t,
    {
        let events = &file.tracks[t];
        assert(track_wf(file.tracks@[t as int]@));
        let mut m: u8 = 0;
        let mut i: usize = 0;
        while i < events.len()
            invariant
                events@ == file.tracks@[t as int]@,
                track_wf(events@),
                i <= events@.len(),
                m == track_loudest(events@, i as int),
                m < 128,
            decreases events@.len() - i,
        {
            assert(crate::events::kind_wf(events@[i as int].kind));
            match &events[i].kind {
                crate::events::EventKind::NoteOn { velocity, .. } => {
                    if *velocity > 0 && *velocity > m {
                        m = *velocity;
                    }
                },
                _ => {},
            }
            i = i + 1;
        }
        if m > loudest {
            loudest = m;
        }
        t = t + 1;
    }
    loudest
}

/// Ranking keys of the automatic selection: the whole-track score.
pub open spec fn metric_keys(ms: Seq<TrackMetrics>) -> Seq<(u128, u128)> {
    Seq::new(ms.len(), |j: int| (ms[j].score() as u128, 0u128))
}

pub open spec fn metric_flags(ms: Seq<TrackMetrics>) -> Seq<bool> {
    Seq::new(ms.len(), |j: int| playable(ms[j]))
}

fn select_tracks(ms: &Vec<TrackMetrics>, sel: &Vec<Option<usize>>) -> (r: Vec<usize>)
    ensures
        forall|k: int| 0 <= k < r@.len() ==> #[trigger] r@[k] < ms@.len(),
        forall|e: int| 0 <= e < ms@.len() ==> 0 <= (#[trigger] ms@[e]).score() <= u64::MAX,
        automatic(sel@) ==> is_top(metric_keys(ms@), metric_flags(ms@), ms@.len() as int, r@),
        automatic(sel@) ==> forall|e: int| 0 <= e < ms@.len() && #[trigger] playable(ms@[e]) ==> r@.contains(e as usize),
        !automatic(sel@) ==> r@ == chosen(sel@, ms@.len() as int),
{
    let n = ms.len();
    let mut keys: Vec<(u128, u128)> = Vec::new();
    let mut flags: Vec<bool> = Vec::new();
    let mut i: usize = 0;
    while i < n
        invariant
            n == ms@.len(),
            i <= n,
            keys@.len() == i,
            flags@.len() == i,
            forall|e: int| 0 <= e < i ==> (#[trigger] keys@[e]).0 == ms@[e].score() && keys@[e].1 == 0,
            forall|e: int| 0 <= e < i ==> #[trigger] flags@[e] == playable(ms@[e]),
            forall|e: int| 0 <= e < i ==> 0 <= (#[trigger] ms@[e]).score() <= u64::MAX,
        decreases n - i,
    {
        let score = ms[i].calculate_score();
        keys.push((score as u128, 0));
        flags.push(!ms[i].is_percussion && ms[i].note_count > 0);
        i = i + 1;
    }
    assert(keys@ =~= metric_keys(ms@));
    assert(flags@ =~= metric_flags(ms@));
    let mut auto = true;
    let mut j: usize = 0;
    while j < sel.len()
        invariant
            j <= sel@.len(),
            auto == (forall|q: int| 0 <= q < j ==> #[trigger] sel@[q] is None),
        decreases sel@.len() - j,
    {
        if sel[j].is_some() {
            auto = false;
        }
        j = j + 1;
    }
    if auto {
        let r = top_positions(&keys, &flags, n);
        assert forall|e: int| 0 <= e < ms@.len() && #[trigger] playable(ms@[e]) implies r@.contains(e as usize) by {
            assert(flags@[e]);
        }
        return r;
    }
    let mut r: Vec<usize> = Vec::new();
    let mut i: usize = 0;
    while i < sel.len()
        invariant
            n == ms@.len(),
            i <= sel@.len(),
            r@ == chosen(sel@.subrange(0, i as int), n as int),
            forall|k: int| 0 <= k < r@.len() ==> #[trigger] r@[k] < n,
        decreases sel@.len() - i,
    {
        assert(sel@.subrange(0, i as int + 1).drop_last() =~= sel@.subrange(0, i as int));
        match sel[i] {
            Some(idx) => {
                if idx < n {
                    r.push(idx);
                }
            },
            None => {},
        }
        i = i + 1;
    }
    assert(sel@.subrange(0, sel@.len() as int) =~= sel@);
    r
}

/// `t` is track `idx` of `file` converted under timeline `tl` with
/// amplitudes relative to `loudest` (switch points aside).
pub open spec fn converted(file: MidiFile, tl: Seq<TempoChange>, loudest: int, idx: usize, t: RumbleTrack) -> bool {
    let events = file.tracks@[idx as int]@;
    let tpb = file.ticks_per_beat as int;
    &&& t.track_index == idx
    &&& analysed(file, idx as int, t.metrics)
    &&& t.commands@ == generated_commands(events, tl, tpb, loudest)
    &&& t.commands@.len() > 0
    &&& is_silent(t.commands@.last())
    &&& t.total_duration == duration_between(tl, tpb, 0, tick_after(events, events.len() as int))
    &&& sum_waits(t.commands@) == t.total_duration
}

fn convert_selected(
    file: &MidiFile,
    tl: &Vec<TempoChange>,
    idxs: &Vec<usize>,
    ms: &Vec<TrackMetrics>,
    loudest: u8,
) -> (r: Vec<RumbleTrack>)
    requires
        file.wf(),
        tempos_wf(tl@),
        loudest > 0,
        ms@.len() == file.tracks@.len(),
        forall|i: int| 0 <= i < ms@.len() ==> analysed(*file, i, #[trigger] ms@[i]),
        forall|k: int| 0 <= k < idxs@.len() ==> #[trigger] idxs@[k] < ms@.len(),
    ensures
        r@.len() == idxs@.len(),
        forall|k: int| 0 <= k < r@.len() ==> converted(*file, tl@, loudest as int, idxs@[k], #[trigger] r@[k]),
        forall|k: int| 0 <= k < r@.len() ==> (#[trigger] r@[k]).switch_points@ == switch_points_of(r@[k].commands@, idxs@[k]),
        forall|k: int| 0 <= k < r@.len() ==> (#[trigger] r@[k]).metrics == ms@[idxs@[k] as int],
{
    let mut r: Vec<RumbleTrack> = Vec::new();
    let mut k: usize = 0;
    while k < idxs.len()
        invariant
            file.wf(),
            tempos_wf(tl@),
            loudest > 0,
            ms@.len() == file.tracks@.len(),
            forall|i: int| 0 <= i < ms@.len() ==> analysed(*file, i, #[trigger] ms@[i]),
            forall|j: int| 0 <= j < idxs@.len() ==> #[trigger] idxs@[j] < ms@.len(),
            k <= idxs@.len(),
            r@.len() == k,
            forall|j: int| 0 <= j < r@.len() ==> converted(*file, tl@, loudest as int, idxs@[j], #[trigger] r@[j]),
            forall|j: int| 0 <= j < r@.len() ==> (#[trigger] r@[j]).switch_points@ == switch_points_of(r@[j].commands@, idxs@[j]),
            forall|j: int| 0 <= j < r@.len() ==> (#[trigger] r@[j]).metrics == ms@[idxs@[j] as int],
        decreases idxs@.len() - k,
    {
        let idx = idxs[k];
        assert(idxs@[k as int] < ms@.len());
        assert(track_wf(file.tracks@[idx as int]@));
        assert(analysed(*file, idx as int, ms@[idx as int]));
        let m = ms[idx].duplicate();
        let t = convert_track_with_tempo(file.tracks[idx].as_slice(), tl.as_slice(), file.ticks_per_beat, idx, m, loudest);
        r.push(t);
        k = k + 1;
    }
    r
}

fn sounds_within_exec(cmds: &Vec<RumbleCommand>, t: u64) -> (r: bool)
    requires
        sum_waits(cmds@) <= u64::MAX,
    ensures
        r == sounds_within(cmds@, t as int),
{
    let mut time: u64 = 0;
    let mut j: usize = 0;
    assert(cmds@.subrange(0, 0) =~= seq![]);
    while j < cmds.len()
        invariant
            sum_waits(cmds@) <= u64::MAX,
            j <= cmds@.len(),
            time == sum_waits(cmds@.subrange(0, j as int)),
            forall|i: int| 0 <= i < j ==> !(cmds@[i].amplitude > 0 && t <= #[trigger] start_time(cmds@, i) <= t + LOOK_AHEAD),
        decreases cmds@.len() - j,
    {
        proof {
            crate::rumble::lemma_prefix_waits(cmds@, j as int + 1);
            assert(cmds@.subrange(0, j as int + 1).drop_last() =~= cmds@.subrange(0, j as int));
        }
        time = time + cmds[j].wait_before;
        assert(time == start_time(cmds@, j as int));
        if cmds[j].amplitude > 0 && t <= time && time - t <= LOOK_AHEAD {
            return true;
        }
        j = j + 1;
    }
    false
}

fn best_alternative_exec(ts: &Vec<RumbleTrack>, own: usize, t: u64) -> (r: usize)
    requires
        forall|j: int| 0 <= j < ts@.len() ==> sum_waits((#[trigger] ts@[j]).commands@) <= u64::MAX,
    ensures
        r == best_alternative(ts@, own, t as int),
{
    let mut best: Option<usize> = None;
    let mut best_score: u64 = 0;
    let mut k: usize = 0;
    while k < ts.len()
        invariant
            forall|j: int| 0 <= j < ts@.len() ==> sum_waits((#[trigger] ts@[j]).commands@) <= u64::MAX,
            k <= ts@.len(),
            best_before(ts@, own, t as int, k as int) == (match best { Some(b) => Some(b as int), None => None }),
            best matches Some(b) ==> b < k && best_score == ts@[b as int].metrics.score(),
        decreases ts@.len() - k,
    {
        let tr = &ts[k];
        if tr.track_index != own && !tr.metrics.is_percussion && tr.metrics.note_count > 0 {
            let active = sounds_within_exec(&tr.commands, t);
            if active {
                let score = tr.metrics.calculate_score();
                match best {
                    None => {
                        best = Some(k);
                        best_score = score;
                    },
                    Some(_) => {
                        if score > best_score {
                            best = Some(k);
                            best_score = score;
                        }
                    },
                }
            }
        }
        k = k + 1;
    }
    match best {
        Some(b) => ts[b].track_index,
        None => own,
    }
}

/// The switch points of `t` with each alternative resolved among `ts`.
pub open spec fn resolved(ts: Seq<RumbleTrack>, t: RumbleTrack, sp: Seq<TrackSwitchPoint>) -> bool {
    &&& sp.len() == t.switch_points@.len()
    &&& forall|s: int| 0 <= s < sp.len() ==> (#[trigger] sp[s]).time == t.switch_points@[s].time
        && sp[s].alternative_track_index == best_alternative(ts, t.track_index, sp[s].time as int)
}

fn resolve_switch_points(ts: &Vec<RumbleTrack>, i: usize) -> (r: Vec<TrackSwitchPoint>)
    requires
        i < ts@.len(),
        forall|j: int| 0 <= j < ts@.len() ==> sum_waits((#[trigger] ts@[j]).commands@) <= u64::MAX,
    ensures
        resolved(ts@, ts@[i as int], r@),
{
    let own = ts[i].track_index;
    let mut r: Vec<TrackSwitchPoint> = Vec::new();
    let mut s: usize = 0;
    while s < ts[i].switch_points.len()
        invariant
            i < ts@.len(),
            own == ts@[i as int].track_index,
            forall|j: int| 0 <= j < ts@.len() ==> sum_waits((#[trigger] ts@[j]).commands@) <= u64::MAX,
            s <= ts@[i as int].switch_points@.len(),
            r@.len() == s,
            forall|q: int| 0 <= q < s ==> (#[trigger] r@[q]).time == ts@[i as int].switch_points@[q].time
                && r@[q].alternative_track_index == best_alternative(ts@, own, r@[q].time as int),
        decreases ts@[i as int].switch_points@.len() - s,
    {
        let time = ts[i].switch_points[s].time;
        let alt = best_alternative_exec(ts, own, time);
        r.push(TrackSwitchPoint { time, alternative_track_index: alt });
        s = s + 1;
    }
    r
}

/// Two track lists that agree on what `best_alternative` reads.
pub open spec fn same_candidates(a: Seq<RumbleTrack>, b: Seq<RumbleTrack>) -> bool {
    &&& a.len() == b.len()
    &&& forall|j: int| 0 <= j < a.len() ==> (#[trigger] a[j]).track_index == b[j].track_index
        && a[j].metrics == b[j].metrics && a[j].commands@ == b[j].commands@
}

proof fn lemma_same_best(a: Seq<RumbleTrack>, b: Seq<RumbleTrack>, own: usize, t: int, k: int)
    requires
        same_candidates(a, b),
        k <= a.len(),
    ensures
        best_before(a, own, t, k) == best_before(b, own, t, k),
    decreases k,
{
    if k > 0 {
        lemma_same_best(a, b, own, t, k - 1);
        assert(a[k - 1].track_index == b[k - 1].track_index);
        let prev = best_before(a, own, t, k - 1);
        if prev is Some {
            assert(0 <= prev->0 < k - 1) by {
                lemma_best_range(a, own, t, k - 1);
            }
            assert(a[prev->0].metrics == b[prev->0].metrics);
        }
    }
}

proof fn lemma_best_range(a: Seq<RumbleTrack>, own: usize, t: int, k: int)
    ensures
        best_before(a, own, t, k) matches Some(j) ==> 0 <= j < k,
    decreases k,
{
    if k > 0 {
        lemma_best_range(a, own, t, k - 1);
    }
}

fn with_alternatives(raw: Vec<RumbleTrack>) -> (r: Vec<RumbleTrack>)
    requires
        forall|j: int| 0 <= j < raw@.len() ==> sum_waits((#[trigger] raw@[j]).commands@) <= u64::MAX,
    ensures
        same_candidates(r@, raw@),
        forall|k: int| 0 <= k < r@.len() ==> (#[trigger] r@[k]).total_duration == raw@[k].total_duration,
        forall|k: int| 0 <= k < r@.len() ==> resolved(r@, raw@[k], (#[trigger] r@[k]).switch_points@),
{
    let ghost raw0 = raw@;
    let n = raw.len();
    let mut alts: Vec<Vec<TrackSwitchPoint>> = Vec::new();
    let mut i: usize = 0;
    while i < n
        invariant
            n == raw@.len(),
            raw@ == raw0,
            forall|j: int| 0 <= j < raw@.len() ==> sum_waits((#[trigger] raw@[j]).commands@) <= u64::MAX,
            i <= n,
            alts@.len() == i,
            forall|k: int| 0 <= k < i ==> resolved(raw0, raw0[k], (#[trigger] alts@[k])@),
        decreases n - i,
    {
        let sp = resolve_switch_points(&raw, i);
        alts.push(sp);
        i = i + 1;
    }
    let ghost alts0 = alts@;
    let mut rest = raw;
    let mut out: Vec<RumbleTrack> = Vec::new();
    while rest.len() > 0
        invariant
            n == raw0.len(),
            alts0.len() == n,
            out@.len() + rest@.len() == n,
            rest@ == raw0.subrange(out@.len() as int, n as int),
            alts@ == alts0.subrange(out@.len() as int, n as int),
            forall|k: int| 0 <= k < out@.len() ==> (#[trigger] out@[k]).track_index == raw0[k].track_index
                && out@[k].metrics == raw0[k].metrics && out@[k].commands@ == raw0[k].commands@
                && out@[k].total_duration == raw0[k].total_duration && out@[k].switch_points@ == alts0[k]@,
        decreases rest@.len(),
    {
        let k = out.len();
        let tr = rest.remove(0);
        let sp = alts.remove(0);
        assert(tr == raw0[k as int]);
        assert(sp == alts0[k as int]);
        out.push(RumbleTrack {
            commands: tr.commands,
            total_duration: tr.total_duration,
            switch_points: sp,
            track_index: tr.track_index,
            metrics: tr.metrics,
        });
        assert(rest@ =~= raw0.subrange(out@.len() as int, n as int));
        assert(alts@ =~= alts0.subrange(out@.len() as int, n as int));
    }
    proof {
        assert(same_candidates(out@, raw0));
        assert forall|k: int| 0 <= k < out@.len() implies resolved(out@, raw0[k], (#[trigger] out@[k]).switch_points@) by {
            assert(resolved(raw0, raw0[k], alts0[k]@));
            assert forall|t: int| true implies best_alternative(out@, raw0[k].track_index, t) == best_alternative(raw0, raw0[k].track_index, t) by {
                lemma_same_best(out@, raw0, raw0[k].track_index, t, n as int);
                lemma_best_range(raw0, raw0[k].track_index, t, n as int);
                let b = best_before(raw0, raw0[k].track_index, t, n as int);
                if b is Some {
                    assert(out@[b->0].track_index == raw0[b->0].track_index);
                }
            }
        }
    }
    out
}

/// Track `k` of `ts` is placed as track `idx`: its switch points are those of
/// its commands, each with its alternative resolved among `ts`.
pub open spec fn switch_points_placed(ts: Seq<RumbleTrack>, k: int, idx: usize) -> bool {
    let sp = ts[k].switch_points@;
    let own = switch_points_of(ts[k].commands@, idx);
    &&& sp.len() == own.len()
    &&& forall|s: int| 0 <= s < sp.len() ==> (#[trigger] sp[s]).time == own[s].time
        && sp[s].alternative_track_index == best_alternative(ts, idx, sp[s].time as int)
}

/// The automatic selection: every playable track of `file` once, none other,
/// by whole-track score, highest first (equal scores in file order).
pub open spec fn auto_order(file: MidiFile, ts: Seq<RumbleTrack>) -> bool {
    let tpb = file.ticks_per_beat as int;
    &&& forall|k: int| 0 <= k < ts.len() ==> (#[trigger] ts[k]).track_index < file.tracks@.len()
        && track_playable(file.tracks@[ts[k].track_index as int]@, tpb)
    &&& forall|i: int| 0 <= i < file.tracks@.len() && #[trigger] track_playable(file.tracks@[i]@, tpb)
        ==> exists|k: int| 0 <= k < ts.len() && ts[k].track_index == i
    &&& forall|k: int, j: int| 0 <= k < j < ts.len() ==> {
        ||| ts[k].metrics.score() > ts[j].metrics.score()
        ||| (ts[k].metrics.score() == ts[j].metrics.score() && ts[k].track_index < ts[j].track_index)
    }
}

/// What `rumble_tracks_from_file` gives for `file` and the selection `sel`.
/// With no track chosen by hand, every playable track by score (see
/// `auto_order`); else the chosen ones in order. `NoTracks` when that leaves
/// none. Each track is converted under the file's tempo timeline
/// (`timeline_of`) with amplitudes relative to the loudest note of the file,
/// and its switch points name their best alternatives.
pub open spec fn rumble_tracks_of(file: MidiFile, sel: Seq<Option<usize>>, r: Result<Vec<RumbleTrack>, ParseError>) -> bool {
    let n = file.tracks@.len() as int;
    let tpb = file.ticks_per_beat as int;
    let loudest = file_loudest(file.tracks@, n);
    match r {
        Err(e) => e is NoTracks && if automatic(sel) {
            forall|i: int| 0 <= i < n ==> !track_playable(#[trigger] file.tracks@[i]@, tpb)
        } else {
            chosen(sel, n).len() == 0
        },
        Ok(ts) => {
            &&& ts@.len() > 0
            &&& if automatic(sel) {
                auto_order(file, ts@)
            } else {
                ts@.map_values(|t: RumbleTrack| t.track_index) == chosen(sel, n)
            }
            &&& forall|k: int| 0 <= k < ts@.len() ==> converted(file, timeline_of(file), loudest, (#[trigger] ts@[k]).track_index, ts@[k])
                && switch_points_placed(ts@, k, ts@[k].track_index)
        },
    }
}

/// Converts the selected tracks of a file (see `rumble_tracks_of`): every
/// playable track when `track_selections` chooses none, else the chosen ones.
pub fn rumble_tracks_from_file(file: &MidiFile, track_selections: &Vec<Option<usize>>) -> (r: Result<Vec<RumbleTrack>, ParseError>)
    requires
        file.wf(),
    ensures
        rumble_tracks_of(*file, track_selections@, r),
{
    let tl = collect_tempo_changes(file);
    let ms = analyze_all(file);
    let ghost tpb = file.ticks_per_beat as int;
    assert forall|i: int| 0 <= i < ms@.len() implies playable(#[trigger] ms@[i]) == track_playable(file.tracks@[i]@, tpb) by {
        assert(analysed(*file, i, ms@[i]));
    }
    let idxs = select_tracks(&ms, track_selections);
    if idxs.len() == 0 {
        proof {
            if automatic(track_selections@) {
                assert forall|i: int| 0 <= i < ms@.len() implies !track_playable(#[trigger] file.tracks@[i]@, tpb) by {
                    if playable(ms@[i]) {
                        assert(idxs@.contains(i as usize));
                    }
                }
            }
        }
        return Err(ParseError::NoTracks);
    }
    let loudest = loudest_velocity(file);
    let raw = convert_selected(file, &tl, &idxs, &ms, loudest);
    let ghost raw0 = raw@;
    let ts = with_alternatives(raw);
    proof {
        let loud = loudest as int;
        assert forall|k: int| 0 <= k < ts@.len() implies (#[trigger] ts@[k]).track_index == idxs@[k]
            && ts@[k].metrics == ms@[idxs@[k] as int] by {
            assert(converted(*file, tl@, loud, idxs@[k], raw0[k]));
        }
        assert forall|k: int| 0 <= k < ts@.len() implies converted(*file, tl@, loud, (#[trigger] ts@[k]).track_index, ts@[k])
            && switch_points_placed(ts@, k, ts@[k].track_index) by {
            assert(converted(*file, tl@, loud, idxs@[k], raw0[k]));
            assert(resolved(ts@, raw0[k], ts@[k].switch_points@));
        }
        if automatic(track_selections@) {
            let keys = metric_keys(ms@);
            assert forall|k: int| 0 <= k < ts@.len() implies (#[trigger] ts@[k]).track_index < file.tracks@.len()
                && track_playable(file.tracks@[ts@[k].track_index as int]@, tpb) by {
                assert(metric_flags(ms@)[idxs@[k] as int]);
            }
            assert forall|i: int| 0 <= i < file.tracks@.len() && #[trigger] track_playable(file.tracks@[i]@, tpb)
                implies exists|k: int| 0 <= k < ts@.len() && ts@[k].track_index == i by {
                assert(playable(ms@[i]));
                assert(idxs@.contains(i as usize));
                let k = choose|k: int| 0 <= k < idxs@.len() && idxs@[k] == i as usize;
                assert(ts@[k].track_index == i);
            }
            assert forall|k: int, j: int| 0 <= k < j < ts@.len() implies {
                ||| ts@[k].metrics.score() > ts@[j].metrics.score()
                ||| (ts@[k].metrics.score() == ts@[j].metrics.score() && ts@[k].track_index < ts@[j].track_index)
            } by {
                assert(ranks_before(keys, idxs@[k] as int, idxs@[j] as int));
                let a = ms@[idxs@[k] as int].score();
                let b = ms@[idxs@[j] as int].score();
                assert(0 <= a <= u64::MAX && 0 <= b <= u64::MAX);
            }
        } else {
            assert(ts@.map_values(|t: RumbleTrack| t.track_index) =~= idxs@);
        }
    }
    Ok(ts)
}

/// Parses MIDI bytes and converts the selected tracks. Bytes the parser
/// refuses (any that start like no MIDI file among them) give `MidiError`; a
/// file that cannot be timed gives `Malformed`; else the result is that of
/// `rumble_tracks_of` for the file that holds the parse (see `midi_of`).
pub fn parse_midi_to_rumble(midi_data: &[u8], track_selections: Vec<Option<usize>>) -> (r: Result<Vec<RumbleTrack>, ParseError>)
    ensures
        match midi_of(midi_data@) {
            None => r matches Err(ParseError::MidiError(_)),
            Some(m) => if model_ok(m) {
                exists|f: MidiFile| #[trigger] file_matches(f, m) && f.wf() && rumble_tracks_of(f, track_selections@, r)
            } else {
                r matches Err(ParseError::Malformed)
            },
        },
        !starts_as_midi(midi_data@) ==> r matches Err(ParseError::MidiError(_)),
{
    let file = match decode_midi(midi_data) {
        Ok(f) => f,
        Err(e) => return Err(e),
    };
    let r = rumble_tracks_from_file(&file, &track_selections);
    assert(file_matches(file, midi_of(midi_data@)->0) && file.wf() && rumble_tracks_of(file, track_selections@, r));
    r
}

/// A track chosen by hand comes out the same from any two files that agree
/// on its events, on ticks per beat, on their tempo events and on their
/// loudest note: other tracks and their scores play no part.
pub proof fn lemma_chosen_track_independent(
    f1: MidiFile,
    f2: MidiFile,
    k: usize,
    r1: Result<Vec<RumbleTrack>, ParseError>,
    r2: Result<Vec<RumbleTrack>, ParseError>,
)
    requires
        rumble_tracks_of(f1, seq![Some(k)], r1),
        rumble_tracks_of(f2, seq![Some(k)], r2),
        k < f1.tracks@.len(),
        k < f2.tracks@.len(),
        f1.tracks@[k as int]@ == f2.tracks@[k as int]@,
        f1.ticks_per_beat == f2.ticks_per_beat,
        tempo_candidates(f1) == tempo_candidates(f2),
        file_loudest(f1.tracks@, f1.tracks@.len() as int) == file_loudest(f2.tracks@, f2.tracks@.len() as int),
    ensures
        r1 matches Ok(v1) && r2 matches Ok(v2) && v1@.len() == 1 && v2@.len() == 1
            && v1@[0].track_index == k && v2@[0].track_index == k
            && v1@[0].commands@ == v2@[0].commands@
            && v1@[0].total_duration == v2@[0].total_duration,
{
    let sel = seq![Some(k)];
    assert(!automatic(sel)) by {
        assert(sel[0] is Some);
    }
    assert(sel.drop_last() =~= seq![]);
    assert(sel.last() == Some(k));
    assert(chosen(sel.drop_last(), f1.tracks@.len() as int) =~= seq![]);
    assert(chosen(sel.drop_last(), f2.tracks@.len() as int) =~= seq![]);
    assert(chosen(sel, f1.tracks@.len() as int) =~= seq![k]);
    assert(chosen(sel, f2.tracks@.len() as int) =~= seq![k]);
    let v1 = r1->Ok_0;
    let v2 = r2->Ok_0;
    assert(v1@.map_values(|t: RumbleTrack| t.track_index)[0] == k);
    assert(v2@.map_values(|t: RumbleTrack| t.track_index)[0] == k);
    assert(converted(f1, timeline_of(f1), file_loudest(f1.tracks@, f1.tracks@.len() as int), v1@[0].track_index, v1@[0]));
    assert(converted(f2, timeline_of(f2), file_loudest(f2.tracks@, f2.tracks@.len() as int), v2@[0].track_index, v2@[0]));
}

/// With no track chosen by hand, every converted track is playable: not
/// percussion, with notes.
pub proof fn lemma_automatic_tracks_playable(file: MidiFile, sel: Seq<Option<usize>>, ts: Vec<RumbleTrack>)
    requires
        automatic(sel),
        rumble_tracks_of(file, sel, Ok(ts)),
    ensures
        forall|k: int| 0 <= k < ts@.len() ==> playable(#[trigger] ts@[k].metrics),
{
    assert forall|k: int| 0 <= k < ts@.len() implies playable(#[trigger] ts@[k].metrics) by {
        let t = ts@[k];
        assert(converted(file, timeline_of(file), file_loudest(file.tracks@, file.tracks@.len() as int), t.track_index, t));
        assert(track_playable(file.tracks@[t.track_index as int]@, file.ticks_per_beat as int));
    }
}

} // verus!
