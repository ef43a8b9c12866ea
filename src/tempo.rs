//! The tempo timeline: tempo changes by tick, and the tick to wall-clock map.
use vstd::prelude::*;
use crate::events::{EventKind, MidiEvent, MidiFile, tick_after, track_wf, lemma_tick_after_monotone};

verus! {

/// Tempo in force from `tick` on, in microseconds per beat.
#[derive(Debug, Clone, Copy, PartialEq, Eq)]
pub struct TempoChange {
    pub tick: u32,
    pub microseconds_per_beat: u32,
}

/// 120 beats per minute.
pub const DEFAULT_TEMPO: u32 = 500_000;

/// A timeline: starts at tick 0, ticks strictly increasing.
pub open spec fn tempos_wf(ts: Seq<TempoChange>) -> bool {
    &&& ts.len() > 0
    &&& ts[0].tick == 0
    &&& forall|i: int, j: int| 0 <= i < j < ts.len() ==> ts[i].tick < ts[j].tick
}

/// Last tick (exclusive) of segment `i` that lies before tick `t`.
pub open spec fn segment_end(ts: Seq<TempoChange>, i: int, t: int) -> int {
    if i + 1 < ts.len() && ts[i + 1].tick < t {
        ts[i + 1].tick as int
    } else {
        t
    }
}

/// Microseconds times ticks-per-beat spent in segment `i` before tick `t`.
pub open spec fn segment_part(ts: Seq<TempoChange>, i: int, t: int) -> int {
    if segment_end(ts, i, t) > ts[i].tick {
        (segment_end(ts, i, t) - ts[i].tick) * ts[i].microseconds_per_beat
    } else {
        0
    }
}

/// Scaled time (microseconds times ticks-per-beat) spent before tick `t` in
/// segments `i` and later.
pub open spec fn scaled_from(ts: Seq<TempoChange>, i: int, t: int) -> int
    decreases ts.len() - i,
{
    if i < 0 || i >= ts.len() {
        0
    } else {
        segment_part(ts, i, t) + scaled_from(ts, i + 1, t)
    }
}

/// Wall-clock position of tick `t`, in whole microseconds.
pub open spec fn micros_at(ts: Seq<TempoChange>, tpb: int, t: int) -> int {
    scaled_from(ts, 0, t) / tpb
}

/// Wall-clock time from tick `a` to tick `b` (none when `b` comes first).
pub open spec fn duration_between(ts: Seq<TempoChange>, tpb: int, a: int, b: int) -> int {
    if a <= b {
        micros_at(ts, tpb, b) - micros_at(ts, tpb, a)
    } else {
        0
    }
}

proof fn lemma_scaled_bound(ts: Seq<TempoChange>, i: int, t: int)
    requires
        tempos_wf(ts),
        0 <= i <= ts.len(),
        t >= 0,
    ensures
        0 <= scaled_from(ts, i, t),
        i < ts.len() && t > ts[i].tick ==> scaled_from(ts, i, t) <= (t - ts[i].tick) * 0xffff_ffff,
        i < ts.len() && t <= ts[i].tick ==> scaled_from(ts, i, t) == 0,
    decreases ts.len() - i,
{
    if i < ts.len() {
        lemma_scaled_bound(ts, i + 1, t);
        let lo = ts[i].tick as int;
        let hi = segment_end(ts, i, t);
        let m = ts[i].microseconds_per_beat as int;
        if hi > lo {
            assert((hi - lo) * m <= (hi - lo) * 0xffff_ffff) by (nonlinear_arith)
                requires hi - lo > 0, m <= 0xffff_ffff;
            assert((hi - lo) * m >= 0) by (nonlinear_arith)
                requires hi - lo > 0, m >= 0;
        }
        if i + 1 < ts.len() {
            assert(ts[i].tick < ts[i + 1].tick);
        }
    }
}

proof fn lemma_scaled_monotone(ts: Seq<TempoChange>, i: int, t1: int, t2: int)
    requires
        tempos_wf(ts),
        0 <= i <= ts.len(),
        0 <= t1 <= t2,
    ensures
        scaled_from(ts, i, t1) <= scaled_from(ts, i, t2),
    decreases ts.len() - i,
{
    if i < ts.len() {
        lemma_scaled_monotone(ts, i + 1, t1, t2);
        let lo = ts[i].tick as int;
        let h1 = segment_end(ts, i, t1);
        let h2 = segment_end(ts, i, t2);
        let m = ts[i].microseconds_per_beat as int;
        assert(h1 <= h2);
        if h1 > lo {
            assert((h1 - lo) * m <= (h2 - lo) * m) by (nonlinear_arith)
                requires h1 - lo <= h2 - lo, m >= 0;
        } else if h2 > lo {
            assert((h2 - lo) * m >= 0) by (nonlinear_arith)
                requires h2 - lo > 0, m >= 0;
        }
    }
}

/// Wall-clock positions never go back as ticks advance.
pub proof fn lemma_micros_monotone(ts: Seq<TempoChange>, tpb: int, t1: int, t2: int)
    requires
        tempos_wf(ts),
        tpb > 0,
        0 <= t1 <= t2,
    ensures
        0 <= micros_at(ts, tpb, t1) <= micros_at(ts, tpb, t2),
{
    lemma_scaled_monotone(ts, 0, t1, t2);
    lemma_scaled_bound(ts, 0, t1);
    vstd::arithmetic::div_mod::lemma_div_is_ordered(scaled_from(ts, 0, t1), scaled_from(ts, 0, t2), tpb);
    vstd::arithmetic::div_mod::lemma_div_pos_is_pos(scaled_from(ts, 0, t1), tpb);
}

/// The time from `a` to `c` is the time from `a` to `b` plus the time from
/// `b` to `c`, for any `a <= b <= c`.
pub proof fn lemma_duration_additive(ts: Seq<TempoChange>, tpb: int, a: int, b: int, c: int)
    requires
        tempos_wf(ts),
        tpb > 0,
        0 <= a <= b <= c,
    ensures
        duration_between(ts, tpb, a, c) == duration_between(ts, tpb, a, b) + duration_between(ts, tpb, b, c),
        duration_between(ts, tpb, a, b) >= 0,
{
    lemma_micros_monotone(ts, tpb, a, b);
}

/// Scaled time from tick 0 to tick `t`.
fn scaled_position(tempo_changes: &[TempoChange], t: u32) -> (r: u128)
    requires
        tempos_wf(tempo_changes@),
    ensures
        r == scaled_from(tempo_changes@, 0, t as int),
        r <= t as int * 0xffff_ffff,
{
    let ghost ts = tempo_changes@;
    let n = tempo_changes.len();
    let mut i: usize = n;
    let mut acc: u128 = 0;
    while i > 0
        invariant
            ts == tempo_changes@,
            tempos_wf(ts),
            n == ts.len(),
            i <= n,
            acc == scaled_from(ts, i as int, t as int),
            acc <= t as int * 0xffff_ffff,
        decreases i,
    {
        i = i - 1;
        let lo = tempo_changes[i].tick;
        let hi = if i + 1 < n && tempo_changes[i + 1].tick < t {
            tempo_changes[i + 1].tick
        } else {
            t
        };
        proof {
            lemma_scaled_bound(ts, i as int, t as int);
        }
        if hi > lo {
            let part = (hi - lo) as u128 * tempo_changes[i].microseconds_per_beat as u128;
            acc = part + acc;
        }
        proof {
            if t as int <= ts[i as int].tick {
                assert(scaled_from(ts, i as int, t as int) == 0);
            }
        }
    }
    proof {
        lemma_scaled_bound(ts, 0, t as int);
    }
    acc
}

/// Wall-clock position of tick `t`, in microseconds.
pub fn micros_at_tick(tempo_changes: &[TempoChange], t: u32, ticks_per_beat: u16) -> (r: u64)
    requires
        tempos_wf(tempo_changes@),
        ticks_per_beat > 0,
    ensures
        r == micros_at(tempo_changes@, ticks_per_beat as int, t as int),
{
    let s = scaled_position(tempo_changes, t);
    proof {
        vstd::arithmetic::div_mod::lemma_div_is_ordered(s as int, t as int * 0xffff_ffff, ticks_per_beat as int);
        vstd::arithmetic::div_mod::lemma_div_nonincreasing(t as int * 0xffff_ffff, ticks_per_beat as int);
    }
    (s / ticks_per_beat as u128) as u64
}

/// Wall-clock time from `start_tick` to `end_tick`, integrating each tempo
/// segment that overlaps the interval. Measured between the two rounded
/// positions, so that consecutive intervals add up exactly.
pub fn ticks_to_duration(start_tick: u32, end_tick: u32, tempo_changes: &[TempoChange], ticks_per_beat: u16) -> (r: u64)
    requires
        tempos_wf(tempo_changes@),
        ticks_per_beat > 0,
    ensures
        r == duration_between(tempo_changes@, ticks_per_beat as int, start_tick as int, end_tick as int),
{
    if start_tick > end_tick {
        return 0;
    }
    let a = micros_at_tick(tempo_changes, start_tick, ticks_per_beat);
    let b = micros_at_tick(tempo_changes, end_tick, ticks_per_beat);
    proof {
        lemma_micros_monotone(tempo_changes@, ticks_per_beat as int, start_tick as int, end_tick as int);
    }
    b - a
}

/// Tempo events among the first `n` events of a track, each at its tick.
pub open spec fn tempo_events(events: Seq<MidiEvent>, n: int) -> Seq<TempoChange>
    decreases n,
{
    if n <= 0 || n > events.len() {
        seq![]
    } else {
        let prev = tempo_events(events, n - 1);
        match events[n - 1].kind {
            EventKind::Tempo { microseconds_per_beat } => prev.push(
                TempoChange { tick: tick_after(events, n) as u32, microseconds_per_beat },
            ),
            _ => prev,
        }
    }
}

/// Tempo events of the first `k` tracks, track after track.
pub open spec fn file_tempo_events(tracks: Seq<Vec<MidiEvent>>, k: int) -> Seq<TempoChange>
    decreases k,
{
    if k <= 0 || k > tracks.len() {
        seq![]
    } else {
        file_tempo_events(tracks, k - 1) + tempo_events(tracks[k - 1]@, tracks[k - 1]@.len() as int)
    }
}

/// Every tempo event of the file, then the default tempo at tick 0, which
/// thus stands only where no track sets a tempo at tick 0.
pub open spec fn tempo_candidates(file: MidiFile) -> Seq<TempoChange> {
    file_tempo_events(file.tracks@, file.tracks@.len() as int)
        + seq![TempoChange { tick: 0, microseconds_per_beat: DEFAULT_TEMPO }]
}

/// Entry `i` is the first of `cands` at its tick.
pub open spec fn first_at_tick(cands: Seq<TempoChange>, i: int) -> bool {
    &&& 0 <= i < cands.len()
    &&& forall|j: int| 0 <= j < i ==> cands[j].tick != cands[i].tick
}

/// `r` holds, sorted by tick, the first entry of `cands` at each tick that
/// `cands` mentions, and nothing else.
pub open spec fn is_timeline_of(r: Seq<TempoChange>, cands: Seq<TempoChange>) -> bool {
    &&& forall|a: int, b: int| 0 <= a < b < r.len() ==> r[a].tick < r[b].tick
    &&& forall|k: int| 0 <= k < r.len() ==> first_in(cands, #[trigger] r[k])
    &&& forall|i: int| 0 <= i < cands.len() ==> has_tick(r, #[trigger] cands[i].tick)
}

/// `x` is the first entry of `cands` at its tick.
pub open spec fn first_in(cands: Seq<TempoChange>, x: TempoChange) -> bool {
    exists|i: int| first_at_tick(cands, i) && cands[i] == x
}

pub open spec fn has_tick(r: Seq<TempoChange>, tick: u32) -> bool {
    exists|k: int| 0 <= k < r.len() && r[k].tick == tick
}

fn add_tempo(r: &mut Vec<TempoChange>, c: TempoChange, Ghost(cands): Ghost<Seq<TempoChange>>)
    requires
        is_timeline_of(old(r)@, cands),
    ensures
        is_timeline_of(final(r)@, cands.push(c)),
{
    let ghost old_r = r@;
    let ghost cs = cands.push(c);
    let mut p: usize = 0;
    while p < r.len() && r[p].tick < c.tick
        invariant
            r@ == old_r,
            p <= r.len(),
            forall|k: int| 0 <= k < p ==> r@[k].tick < c.tick,
        decreases r.len() - p,
    {
        p = p + 1;
    }
    assert forall|i: int| 0 <= i < cands.len() implies cs[i] == cands[i] by {}
    assert forall|i: int| #![trigger cs[i]] first_at_tick(cands, i) implies first_at_tick(cs, i) by {}
    if p < r.len() && r[p].tick == c.tick {
        assert forall|k: int| 0 <= k < old_r.len() implies first_in(cs, old_r[k]) by {
            let i = choose|i: int| first_at_tick(cands, i) && cands[i] == old_r[k];
            assert(first_at_tick(cs, i));
        }
        assert forall|i: int| 0 <= i < cs.len() implies has_tick(old_r, cs[i].tick) by {
            if i == cands.len() {
                assert(old_r[p as int].tick == cs[i].tick);
            } else {
                assert(cs[i] == cands[i]);
            }
        }
        return;
    }
    assert forall|k: int| p <= k < old_r.len() implies old_r[k].tick > c.tick by {
        if k > p {
            assert(old_r[p as int].tick < old_r[k].tick);
        }
    }
    r.insert(p, c);
    let ghost nr = r@;
    assert(nr.len() == old_r.len() + 1);
    assert forall|k: int| 0 <= k < nr.len() implies nr[k] == (if k < p { old_r[k] } else if k == p { c } else { old_r[k - 1] }) by {}
    assert forall|a: int, b: int| 0 <= a < b < nr.len() implies nr[a].tick < nr[b].tick by {
        if b < p {
        } else if b == p {
        } else if a < p {
        } else if a == p {
        } else {
            assert(old_r[a - 1].tick < old_r[b - 1].tick);
        }
    }
    assert forall|j: int| 0 <= j < cands.len() implies cands[j].tick != c.tick by {
        let k = choose|k: int| 0 <= k < old_r.len() && old_r[k].tick == cands[j].tick;
        if k < p {
        } else {
        }
    }
    assert forall|k: int| 0 <= k < nr.len() implies first_in(cs, nr[k]) by {
        if k == p {
            assert(first_at_tick(cs, cands.len() as int));
        } else {
            let k0 = if k < p { k } else { k - 1 };
            let i = choose|i: int| first_at_tick(cands, i) && cands[i] == old_r[k0];
            assert(first_at_tick(cs, i));
        }
    }
    assert forall|i: int| 0 <= i < cs.len() implies has_tick(nr, cs[i].tick) by {
        if i == cands.len() {
            assert(nr[p as int].tick == cs[i].tick);
        } else {
            let k = choose|k: int| 0 <= k < old_r.len() && old_r[k].tick == cands[i].tick;
            if k < p {
                assert(nr[k].tick == cs[i].tick);
            } else {
                assert(nr[k + 1].tick == cs[i].tick);
            }
        }
    }
}

/// The timeline of a file: every tempo event and the default tempo at tick 0,
/// sorted by tick, keeping at each tick the entry met first (tracks in order,
/// events in order, the default after all, so that a tempo set at tick 0
/// replaces it).
pub fn collect_tempo_changes(file: &MidiFile) -> (r: Vec<TempoChange>)
    requires
        file.wf(),
    ensures
        r@ == timeline_of(*file),
        is_timeline_of(r@, tempo_candidates(*file)),
        tempos_wf(r@),
{
    let default = TempoChange { tick: 0, microseconds_per_beat: DEFAULT_TEMPO };
    let mut r: Vec<TempoChange> = Vec::new();
    assert(file_tempo_events(file.tracks@, 0) =~= seq![]);
    let ghost tracks = file.tracks@;
    let mut t: usize = 0;
    while t < file.tracks.len()
        invariant
            file.wf(),
            tracks == file.tracks@,
            t <= tracks.len(),
            is_timeline_of(r@, file_tempo_events(tracks, t as int)),
        decreases tracks.len() - t,
    {
        let events = &file.tracks[t];
        let ghost ev = events@;
        let ghost before = file_tempo_events(tracks, t as int);
        assert(track_wf(tracks[t as int]@));
        let mut e: usize = 0;
        let mut tick: u64 = 0;
        assert(tempo_events(ev, 0) =~= seq![]);
        assert(before + tempo_events(ev, 0) =~= before);
        while e < events.len()
            invariant
                ev == events@,
                track_wf(ev),
                e <= ev.len(),
                tick == tick_after(ev, e as int),
                is_timeline_of(r@, before + tempo_events(ev, e as int)),
            decreases ev.len() - e,
        {
            proof {
                lemma_tick_after_monotone(ev, e as int + 1, ev.len() as int);
            }
            tick = tick + events[e].delta as u64;
            let ghost so_far = before + tempo_events(ev, e as int);
            match &events[e].kind {
                EventKind::Tempo { microseconds_per_beat } => {
                    let c = TempoChange { tick: tick as u32, microseconds_per_beat: *microseconds_per_beat };
                    add_tempo(&mut r, c, Ghost(so_far));
                    assert(so_far.push(c) =~= before + tempo_events(ev, e as int + 1));
                },
                _ => {
                    assert(so_far =~= before + tempo_events(ev, e as int + 1));
                },
            }
            e = e + 1;
        }
        assert(tempo_events(ev, ev.len() as int) == tempo_events(tracks[t as int]@, tracks[t as int]@.len() as int));
        assert(before + tempo_events(ev, ev.len() as int) =~= file_tempo_events(tracks, t as int + 1));
        t = t + 1;
    }
    add_tempo(&mut r, default, Ghost(file_tempo_events(tracks, tracks.len() as int)));
    proof {
        let cands = tempo_candidates(*file);
        let last = cands.len() - 1;
        assert(cands =~= file_tempo_events(tracks, tracks.len() as int).push(default));
        assert(cands[last] == default);
        assert(has_tick(r@, cands[last].tick));
        let k = choose|k: int| 0 <= k < r@.len() && r@[k].tick == 0;
        if k > 0 {
            assert(r@[0].tick < r@[k].tick);
        }
        lemma_is_the_timeline(*file, r@);
    }
    r
}

/// Tick 0 is at time 0.
pub proof fn lemma_micros_zero(ts: Seq<TempoChange>, tpb: int)
    requires
        tempos_wf(ts),
        tpb > 0,
    ensures
        micros_at(ts, tpb, 0) == 0,
{
    lemma_scaled_bound(ts, 0, 0);
}

/// Positions of `u32` ticks fit a `u64`.
pub proof fn lemma_micros_fit(ts: Seq<TempoChange>, tpb: int, t: int)
    requires
        tempos_wf(ts),
        tpb > 0,
        0 <= t <= 0xffff_ffff,
    ensures
        0 <= micros_at(ts, tpb, t) <= 0xffff_ffff * 0xffff_ffff,
{
    lemma_scaled_bound(ts, 0, t);
    vstd::arithmetic::div_mod::lemma_div_is_ordered(scaled_from(ts, 0, t), t * 0xffff_ffff, tpb);
    vstd::arithmetic::div_mod::lemma_div_nonincreasing(t * 0xffff_ffff, tpb);
    vstd::arithmetic::div_mod::lemma_div_pos_is_pos(scaled_from(ts, 0, t), tpb);
    assert(t * 0xffff_ffff <= 0xffff_ffff * 0xffff_ffff) by (nonlinear_arith)
        requires 0 <= t <= 0xffff_ffff;
}

/// Each tick of `a` is a tick of `b`.
proof fn lemma_tick_in_other(a: Seq<TempoChange>, b: Seq<TempoChange>, cands: Seq<TempoChange>, k: int)
    requires
        is_timeline_of(a, cands),
        is_timeline_of(b, cands),
        0 <= k < a.len(),
    ensures
        exists|m: int| 0 <= m < b.len() && b[m].tick == a[k].tick,
{
    assert(first_in(cands, a[k]));
    let i = choose|i: int| first_at_tick(cands, i) && cands[i] == a[k];
    assert(has_tick(b, cands[i].tick));
}

proof fn lemma_ticks_agree(a: Seq<TempoChange>, b: Seq<TempoChange>, cands: Seq<TempoChange>, k: int)
    requires
        is_timeline_of(a, cands),
        is_timeline_of(b, cands),
        0 <= k <= a.len(),
        k <= b.len(),
    ensures
        forall|j: int| 0 <= j < k ==> a[j].tick == b[j].tick,
    decreases k,
{
    if k > 0 {
        lemma_ticks_agree(a, b, cands, k - 1);
        let j = k - 1;
        lemma_tick_in_other(a, b, cands, j);
        lemma_tick_in_other(b, a, cands, j);
        let m = choose|m: int| 0 <= m < b.len() && b[m].tick == a[j].tick;
        let n = choose|n: int| 0 <= n < a.len() && a[n].tick == b[j].tick;
        if m < j {
            assert(a[m].tick < a[j].tick);
        } else if m > j {
            assert(b[j].tick < b[m].tick);
            if n < j {
                assert(b[n].tick < b[j].tick);
            } else if n > j {
                assert(a[j].tick < a[n].tick);
            }
        }
    }
}

/// A file's candidates have a single timeline.
pub proof fn lemma_timeline_unique(a: Seq<TempoChange>, b: Seq<TempoChange>, cands: Seq<TempoChange>)
    requires
        is_timeline_of(a, cands),
        is_timeline_of(b, cands),
    ensures
        a == b,
{
    if a.len() < b.len() {
        lemma_ticks_agree(a, b, cands, a.len() as int);
        lemma_tick_in_other(b, a, cands, a.len() as int);
        let n = choose|n: int| 0 <= n < a.len() && a[n].tick == b[a.len() as int].tick;
        assert(b[n].tick < b[a.len() as int].tick);
    } else if b.len() < a.len() {
        lemma_ticks_agree(b, a, cands, b.len() as int);
        lemma_tick_in_other(a, b, cands, b.len() as int);
        let n = choose|n: int| 0 <= n < b.len() && b[n].tick == a[b.len() as int].tick;
        assert(a[n].tick < a[b.len() as int].tick);
    } else {
        lemma_ticks_agree(a, b, cands, a.len() as int);
        assert forall|k: int| 0 <= k < a.len() implies a[k] == b[k] by {
            assert(first_in(cands, a[k]));
            assert(first_in(cands, b[k]));
            let i = choose|i: int| first_at_tick(cands, i) && cands[i] == a[k];
            let i2 = choose|i: int| first_at_tick(cands, i) && cands[i] == b[k];
            if i < i2 {
                assert(cands[i].tick != cands[i2].tick);
            } else if i2 < i {
                assert(cands[i2].tick != cands[i].tick);
            }
        }
        assert(a =~= b);
    }
}

/// The tempo timeline of a file (see `collect_tempo_changes`).
pub open spec fn timeline_of(file: MidiFile) -> Seq<TempoChange> {
    choose|r: Seq<TempoChange>| is_timeline_of(r, tempo_candidates(file))
}

/// A timeline of the file's candidates is the file's timeline.
pub proof fn lemma_is_the_timeline(file: MidiFile, r: Seq<TempoChange>)
    requires
        is_timeline_of(r, tempo_candidates(file)),
    ensures
        r == timeline_of(file),
{
    let t = timeline_of(file);
    assert(is_timeline_of(t, tempo_candidates(file)));
    lemma_timeline_unique(r, t, tempo_candidates(file));
}

} // verus!
