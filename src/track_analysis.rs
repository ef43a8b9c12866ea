//! The feature extractor: note statistics of one track.
use vstd::prelude::*;
use crate::events::{EventKind, MidiEvent, track_wf, tick_after, lemma_tick_after_monotone, kind_wf};
use crate::track_types::{ONE, TrackMetrics, TrackType, role_of};

verus! {

/// Sum of a sequence of bytes.
pub open spec fn byte_sum(s: Seq<u8>) -> int
    decreases s.len(),
{
    if s.len() == 0 { 0 } else { byte_sum(s.drop_last()) + s.last() }
}

/// Sum of the squares of a sequence of bytes.
pub open spec fn byte_square_sum(s: Seq<u8>) -> int
    decreases s.len(),
{
    if s.len() == 0 { 0 } else { byte_square_sum(s.drop_last()) + s.last() * s.last() }
}

/// Sum of the absolute steps between consecutive entries.
pub open spec fn step_sum(s: Seq<u8>) -> int
    decreases s.len(),
{
    if s.len() < 2 {
        0
    } else {
        step_sum(s.drop_last()) + (if s.last() >= s[s.len() - 2] { s.last() - s[s.len() - 2] } else { s[s.len() - 2] - s.last() })
    }
}

pub open spec fn seq_max(s: Seq<u8>) -> int
    decreases s.len(),
{
    if s.len() == 0 { 0 } else if s.len() == 1 { s[0] as int } else {
        let m = seq_max(s.drop_last());
        if s.last() > m { s.last() as int } else { m }
    }
}

pub open spec fn seq_min(s: Seq<u8>) -> int
    decreases s.len(),
{
    if s.len() == 0 { 0 } else if s.len() == 1 { s[0] as int } else {
        let m = seq_min(s.drop_last());
        if s.last() < m { s.last() as int } else { m }
    }
}

/// How many of the values `0..k` occur in `s`.
pub open spec fn distinct_below(s: Seq<u8>, k: int) -> int
    decreases k,
{
    if k <= 0 { 0 } else { distinct_below(s, k - 1) + (if s.contains((k - 1) as u8) { 1int } else { 0 }) }
}

/// Sum of the gaps between consecutive times.
pub open spec fn gap_sum(t: Seq<u64>) -> int
    decreases t.len(),
{
    if t.len() < 2 { 0 } else { gap_sum(t.drop_last()) + (t.last() - t[t.len() - 2]) }
}

/// Sum of the squared gaps between consecutive times.
pub open spec fn gap_square_sum(t: Seq<u64>) -> int
    decreases t.len(),
{
    if t.len() < 2 { 0 } else {
        gap_square_sum(t.drop_last()) + (t.last() - t[t.len() - 2]) * (t.last() - t[t.len() - 2])
    }
}

pub open spec fn sorted_times(t: Seq<u64>) -> bool {
    forall|a: int, b: int| 0 <= a <= b < t.len() ==> t[a] <= t[b]
}

/// Mean velocity times `ONE`.
pub open spec fn mean_velocity(v: Seq<u8>) -> int {
    if v.len() > 0 { byte_sum(v) * ONE / v.len() as int } else { 0 }
}

/// Sample variance (denominator `n - 1`) of the velocities, times `ONE`:
/// `(n * sum(v^2) - sum(v)^2) / (n * (n - 1))`.
pub open spec fn velocity_variance_of(v: Seq<u8>) -> int {
    let n = v.len() as int;
    if n > 1 {
        let d = n * byte_square_sum(v) - byte_sum(v) * byte_sum(v);
        (if d > 0 { d } else { 0 }) * ONE / (n * (n - 1))
    } else {
        0
    }
}

/// Mean absolute semitone step between consecutive onsets, times `ONE`.
pub open spec fn melodic_movement_of(p: Seq<u8>) -> int {
    if p.len() > 1 { step_sum(p) * ONE / (p.len() - 1) } else { 0 }
}

/// Integer square root.
pub open spec fn is_root(r: int, x: int) -> bool {
    r * r <= x < (r + 1) * (r + 1)
}

/// Spread of the onset gaps: `variance / mean` in microseconds, that is
/// `sum(g^2) / sum(g) - sum(g) / m` for `m` gaps, rounded down and at least 0.
pub open spec fn gap_spread(t: Seq<u64>) -> int {
    let m = t.len() - 1;
    let s = gap_sum(t);
    let d = gap_square_sum(t) / s - s / m;
    if d > 0 { d } else { 0 }
}

/// The integer square root of `x >= 0`.
pub open spec fn int_sqrt(x: int) -> int {
    choose|r: int| 0 <= r && is_root(r, x)
}

/// `1 / (1 + sqrt(variance / mean))` of the onset gaps in seconds, times
/// `ONE`; `ONE` when all onsets coincide, 0 with fewer than two onsets.
pub open spec fn regularity_of(t: Seq<u64>) -> int {
    if t.len() < 2 {
        0
    } else if gap_sum(t) == 0 {
        ONE as int
    } else {
        ONE * ONE / (ONE + int_sqrt(gap_spread(t) * ONE))
    }
}

proof fn lemma_root_unique(a: int, b: int, x: int)
    requires
        0 <= a,
        0 <= b,
        is_root(a, x),
        is_root(b, x),
    ensures
        a == b,
{
    if a < b {
        assert((a + 1) * (a + 1) <= b * b) by (nonlinear_arith)
            requires 0 <= a, a + 1 <= b;
    } else if b < a {
        assert((b + 1) * (b + 1) <= a * a) by (nonlinear_arith)
            requires 0 <= b, b + 1 <= a;
    }
}

/// Integer square root of `x`, by bisection.
fn isqrt(x: u128) -> (r: u64)
    requires
        x < 0x1_0000_0000_0000_0000_0000,
    ensures
        r == int_sqrt(x as int),
        is_root(r as int, x as int),
        r < 0x100_0000_0000,
{
    let mut lo: u128 = 0;
    let mut hi: u128 = 0x100_0000_0000;
    assert(hi * hi == 0x1_0000_0000_0000_0000_0000);
    while hi - lo > 1
        invariant
            lo < hi <= 0x100_0000_0000,
            lo * lo <= x,
            x < hi * hi,
        decreases hi - lo,
    {
        let mid = lo + (hi - lo) / 2;
        assert(mid * mid <= 0x1_0000_0000_0000_0000_0000) by (nonlinear_arith)
            requires mid <= 0x100_0000_0000;
        if mid * mid <= x {
            lo = mid;
        } else {
            hi = mid;
        }
    }
    assert(hi == lo + 1);
    proof {
        let w = lo as int;
        assert(0 <= w && is_root(w, x as int));
        let c = int_sqrt(x as int);
        lemma_root_unique(c, w, x as int);
    }
    lo as u64
}

/// Mean and sample variance of the velocities (see `mean_velocity` and
/// `velocity_variance_of`).
pub fn velocity_stats(v: &Vec<u8>) -> (r: (u64, u64))
    requires
        v@.len() <= 0xffff_ffff,
        forall|i: int| 0 <= i < v@.len() ==> v@[i] < 128,
    ensures
        r.0 == mean_velocity(v@),
        r.1 == velocity_variance_of(v@),
{
    let n = v.len();
    let mut s: u64 = 0;
    let mut q: u64 = 0;
    let mut i: usize = 0;
    while i < n
        invariant
            n == v@.len(),
            n <= 0xffff_ffff,
            forall|k: int| 0 <= k < v@.len() ==> v@[k] < 128,
            i <= n,
            s == byte_sum(v@.subrange(0, i as int)),
            q == byte_square_sum(v@.subrange(0, i as int)),
            s <= 127 * i,
            q <= 16129 * i,
        decreases n - i,
    {
        assert(v@.subrange(0, i as int + 1).drop_last() =~= v@.subrange(0, i as int));
        let x = v[i] as u64;
        assert(v@[i as int] < 128);
        assert(x * x <= 127 * 127) by (nonlinear_arith)
            requires x <= 127;
        let sq = x * x;
        assert(sq <= 127 * 127);
        s = s + x;
        q = q + sq;
        i = i + 1;
    }
    assert(v@.subrange(0, n as int) =~= v@);
    if n == 0 {
        return (0, 0);
    }
    let mean = (s as u128 * 1_000_000 / n as u128) as u64;
    assert((s as int * 1_000_000) / (n as int) <= 127 * 1_000_000) by {
        let top = (n as int) * 127_000_000int;
        assert(s * 1_000_000 <= top);
        vstd::arithmetic::div_mod::lemma_div_is_ordered(s * 1_000_000, top, n as int);
        vstd::arithmetic::div_mod::lemma_div_multiples_vanish(127_000_000int, n as int);
    }
    if n == 1 {
        return (mean, 0);
    }
    assert(n as int * q as int <= 0xffff_ffff * (127 * 127 * 0xffff_ffff)) by (nonlinear_arith)
        requires n <= 0xffff_ffff, q <= 127 * 127 * n, q >= 0;
    assert(s as int * s as int <= 0xffff_ffff_ffff_ffff * 0xffff_ffff_ffff_ffff) by (nonlinear_arith)
        requires s <= 0xffff_ffff_ffff_ffff, s >= 0;
    let nq = n as u128 * q as u128;
    let ss = s as u128 * s as u128;
    let d: u128 = if nq > ss { nq - ss } else { 0 };
    assert(n as int * (n as int - 1) <= 0xffff_ffff * 0xffff_ffff) by (nonlinear_arith)
        requires 2 <= n <= 0xffff_ffff;
    let den = n as u128 * (n as u128 - 1);
    proof {
        let big = 127 * 127 * 1_000_000 * (n * n);
        assert(nq <= 127 * 127 * (n * n)) by (nonlinear_arith)
            requires nq == n * q, q <= 127 * 127 * n, n >= 0;
        assert(d * 1_000_000 <= big) by (nonlinear_arith)
            requires d <= nq, nq <= 127 * 127 * (n * n), big == 127 * 127 * 1_000_000 * (n * n);
        assert(big <= (2 * 127 * 127 * 1_000_000) * (n * (n - 1))) by (nonlinear_arith)
            requires n >= 2, big == 127 * 127 * 1_000_000 * (n * n);
        assert(den == n * (n - 1));
        assert(den > 0) by (nonlinear_arith)
            requires den == n * (n - 1), n >= 2;
        vstd::arithmetic::div_mod::lemma_div_is_ordered(d * 1_000_000, (2 * 127 * 127 * 1_000_000) * den, den as int);
        vstd::arithmetic::div_mod::lemma_div_multiples_vanish(2int * 127 * 127 * 1_000_000, den as int);
    }
    (mean, (d * 1_000_000 / den) as u64)
}

/// Mean absolute step between consecutive pitches (see `melodic_movement_of`).
pub fn melodic_movement(p: &Vec<u8>) -> (r: u64)
    requires
        p@.len() <= 0xffff_ffff,
        forall|i: int| 0 <= i < p@.len() ==> p@[i] < 128,
    ensures
        r == melodic_movement_of(p@),
{
    let n = p.len();
    if n < 2 {
        return 0;
    }
    let mut total: u64 = 0;
    let mut i: usize = 1;
    assert(p@.subrange(0, 1).len() == 1);
    while i < n
        invariant
            n == p@.len(),
            2 <= n <= 0xffff_ffff,
            forall|k: int| 0 <= k < p@.len() ==> p@[k] < 128,
            1 <= i <= n,
            total == step_sum(p@.subrange(0, i as int)),
            total <= 127 * i,
        decreases n - i,
    {
        let ghost sub = p@.subrange(0, i as int + 1);
        assert(sub.drop_last() =~= p@.subrange(0, i as int));
        assert(sub[sub.len() - 2] == p@[i - 1]);
        assert(p@[i as int] < 128 && p@[i - 1] < 128);
        let step = if p[i] >= p[i - 1] { p[i] - p[i - 1] } else { p[i - 1] - p[i] };
        total = total + step as u64;
        i = i + 1;
    }
    assert(p@.subrange(0, n as int) =~= p@);
    total * 1_000_000 / (n as u64 - 1)
}

/// Highest minus lowest pitch; 0 for no pitches.
pub fn pitch_range(p: &Vec<u8>) -> (r: u8)
    ensures
        r == seq_max(p@) - seq_min(p@),
{
    let n = p.len();
    if n == 0 {
        return 0;
    }
    let mut hi = p[0];
    let mut lo = p[0];
    let mut i: usize = 1;
    assert(p@.subrange(0, 1).len() == 1);
    while i < n
        invariant
            n == p@.len(),
            1 <= i <= n,
            hi == seq_max(p@.subrange(0, i as int)),
            lo == seq_min(p@.subrange(0, i as int)),
            lo <= hi,
        decreases n - i,
    {
        assert(p@.subrange(0, i as int + 1).drop_last() =~= p@.subrange(0, i as int));
        if p[i] > hi {
            hi = p[i];
        }
        if p[i] < lo {
            lo = p[i];
        }
        i = i + 1;
    }
    assert(p@.subrange(0, n as int) =~= p@);
    hi - lo
}

/// Number of distinct pitches.
pub fn unique_pitches(p: &Vec<u8>) -> (r: usize)
    requires
        forall|i: int| 0 <= i < p@.len() ==> p@[i] < 128,
    ensures
        r == distinct_below(p@, 128),
        r <= 128,
{
    let mut seen: Vec<bool> = Vec::new();
    let mut k: usize = 0;
    while k < 128
        invariant
            k <= 128,
            seen@.len() == k,
            forall|j: int| 0 <= j < k ==> !seen@[j],
        decreases 128 - k,
    {
        seen.push(false);
        k = k + 1;
    }
    let n = p.len();
    let mut i: usize = 0;
    while i < n
        invariant
            n == p@.len(),
            i <= n,
            forall|m: int| 0 <= m < p@.len() ==> p@[m] < 128,
            seen@.len() == 128,
            forall|j: int| 0 <= j < 128 ==> #[trigger] seen@[j] == p@.subrange(0, i as int).contains(j as u8),
        decreases n - i,
    {
        let x = p[i];
        assert(x < 128);
        seen[x as usize] = true;
        proof {
            let old_sub = p@.subrange(0, i as int);
            let ghost sub = p@.subrange(0, i as int + 1);
            assert forall|j: int| 0 <= j < 128 implies #[trigger] seen@[j] == sub.contains(j as u8) by {
                if sub.contains(j as u8) {
                    let w = choose|w: int| 0 <= w < sub.len() && sub[w] == j as u8;
                    if w < i {
                        assert(old_sub[w] == j as u8);
                    }
                }
                if old_sub.contains(j as u8) {
                    let w = choose|w: int| 0 <= w < old_sub.len() && old_sub[w] == j as u8;
                    assert(sub[w] == j as u8);
                }
                if j == x as int {
                    assert(sub[i as int] == x);
                }
            }
        }
        i = i + 1;
    }
    assert(p@.subrange(0, n as int) =~= p@);
    let mut count: usize = 0;
    let mut j: usize = 0;
    while j < 128
        invariant
            j <= 128,
            seen@.len() == 128,
            forall|m: int| 0 <= m < 128 ==> #[trigger] seen@[m] == p@.contains(m as u8),
            count == distinct_below(p@, j as int),
            count <= j,
        decreases 128 - j,
    {
        if seen[j] {
            count = count + 1;
        }
        j = j + 1;
    }
    count
}

/// Largest onset time the extractor produces: a `u32` tick at a 24-bit tempo.
pub const MAX_TIME: u64 = 0x100_0000_0000_0000;

/// Rhythmic regularity of sorted onset times (see `regularity_of`).
pub fn rhythmic_regularity(t: &Vec<u64>) -> (r: u64)
    requires
        t@.len() <= 0xffff_ffff,
        sorted_times(t@),
        forall|i: int| 0 <= i < t@.len() ==> t@[i] < MAX_TIME,
    ensures
        r == regularity_of(t@),
{
    let n = t.len();
    if n < 2 {
        return 0;
    }
    let mut gs: u128 = 0;
    let mut gq: u128 = 0;
    let mut i: usize = 1;
    while i < n
        invariant
            n == t@.len(),
            2 <= n <= 0xffff_ffff,
            sorted_times(t@),
            forall|k: int| 0 <= k < t@.len() ==> t@[k] < MAX_TIME,
            1 <= i <= n,
            gs == gap_sum(t@.subrange(0, i as int)),
            gq == gap_square_sum(t@.subrange(0, i as int)),
            gs == t@[i - 1] - t@[0],
            gq <= gs * MAX_TIME,
        decreases n - i,
    {
        let ghost sub = t@.subrange(0, i as int + 1);
        assert(sub.drop_last() =~= t@.subrange(0, i as int));
        assert(sub[sub.len() - 2] == t@[i - 1]);
        assert(t@[i - 1] <= t@[i as int]);
        assert(t@[i as int] < MAX_TIME);
        let g = (t[i] - t[i - 1]) as u128;
        assert(g * g <= g * MAX_TIME) by (nonlinear_arith)
            requires 0 <= g < MAX_TIME;
        assert(gs * MAX_TIME + g * MAX_TIME == (gs + g) * MAX_TIME) by (nonlinear_arith);
        assert((gs + g) * MAX_TIME <= MAX_TIME * MAX_TIME) by (nonlinear_arith)
            requires gs + g <= MAX_TIME;
        gs = gs + g;
        gq = gq + g * g;
        i = i + 1;
    }
    assert(t@.subrange(0, n as int) =~= t@);
    if gs == 0 {
        return 1_000_000;
    }
    let m = (n - 1) as u128;
    let a = gq / gs;
    let b = gs / m;
    proof {
        vstd::arithmetic::div_mod::lemma_div_is_ordered(gq as int, gs * MAX_TIME, gs as int);
        vstd::arithmetic::div_mod::lemma_div_multiples_vanish(MAX_TIME as int, gs as int);
    }
    let spread: u128 = if a > b { a - b } else { 0 };
    let root = isqrt(spread * 1_000_000);
    1_000_000_000_000 / (1_000_000 + root)
}

// ---------------------------------------------------------------------------
// The walk over a track

/// What the walk has gathered after some events: current tick; pitch,
/// velocity and time (microseconds) of each onset; start time of the open note
/// of each key; total held time and number of closed notes; whether channel 9
/// was used; last program, track name and instrument name.
pub struct Features {
    pub tick: int,
    pub pitches: Seq<u8>,
    pub velocities: Seq<u8>,
    pub onsets: Seq<u64>,
    pub open: Seq<Option<u64>>,
    pub held: int,
    pub closed: int,
    pub percussion: bool,
    pub program: Option<u8>,
    pub name: Option<Seq<u8>>,
    pub instrument: Option<Seq<u8>>,
}

/// Microseconds at `tick` under one fixed tempo.
pub open spec fn time_at(tick: int, tpb: int, tempo: int) -> int {
    tick * tempo / tpb
}

pub open spec fn channel_of(k: EventKind) -> Option<u8> {
    match k {
        EventKind::NoteOn { channel, .. } => Some(channel),
        EventKind::NoteOff { channel, .. } => Some(channel),
        EventKind::ProgramChange { channel, .. } => Some(channel),
        EventKind::OtherChannelMessage { channel } => Some(channel),
        _ => None,
    }
}

/// Closes the open note of `key`, if any, at time `now`.
pub open spec fn close_note(f: Features, key: u8, now: int) -> Features {
    match f.open[key as int] {
        Some(start) => Features {
            open: f.open.update(key as int, None),
            held: f.held + (now - start),
            closed: f.closed + 1,
            ..f
        },
        None => f,
    }
}

pub open spec fn feature_step(f: Features, e: MidiEvent, tpb: int, tempo: int) -> Features {
    let tick = f.tick + e.delta;
    let now = time_at(tick, tpb, tempo) as u64;
    let g = Features { tick, percussion: f.percussion || channel_of(e.kind) == Some(9u8), ..f };
    match e.kind {
        EventKind::NoteOn { key, velocity, .. } => if velocity > 0 {
            Features {
                pitches: g.pitches.push(key),
                velocities: g.velocities.push(velocity),
                onsets: g.onsets.push(now),
                open: g.open.update(key as int, Some(now)),
                ..g
            }
        } else {
            close_note(g, key, now as int)
        },
        EventKind::NoteOff { key, .. } => close_note(g, key, now as int),
        EventKind::ProgramChange { program, .. } => Features { program: Some(program), ..g },
        EventKind::TrackName { text } => Features { name: Some(text@), ..g },
        EventKind::InstrumentName { text } => Features { instrument: Some(text@), ..g },
        _ => g,
    }
}

pub open spec fn no_features() -> Features {
    Features {
        tick: 0,
        pitches: seq![],
        velocities: seq![],
        onsets: seq![],
        open: Seq::new(128, |i: int| None),
        held: 0,
        closed: 0,
        percussion: false,
        program: None,
        name: None,
        instrument: None,
    }
}

/// Features after the first `n` events.
pub open spec fn features(events: Seq<MidiEvent>, n: int, tpb: int, tempo: int) -> Features
    decreases n,
{
    if n <= 0 || n > events.len() {
        no_features()
    } else {
        feature_step(features(events, n - 1, tpb, tempo), events[n - 1], tpb, tempo)
    }
}

pub open spec fn bytes_view(t: Option<Vec<u8>>) -> Option<Seq<u8>> {
    match t {
        Some(v) => Some(v@),
        None => None,
    }
}

/// What `String::from_utf8_lossy` makes of some bytes.
pub uninterp spec fn lossy_text_of(b: Seq<u8>) -> Seq<char>;

/// Relies on `String::from_utf8_lossy`: the text of a name's bytes, which
/// depends on the bytes alone.
#[verifier::external_body]
fn text_of(b: &[u8]) -> (r: String)
    ensures
        r@ == lossy_text_of(b@),
{
    String::from_utf8_lossy(b).into_owned()
}

fn text_of_name(t: &Option<Vec<u8>>) -> (r: Option<String>)
    ensures
        r is None <==> t is None,
        t matches Some(b) ==> r->0@ == lossy_text_of(b@),
{
    match t {
        Some(b) => Some(text_of(b.as_slice())),
        None => None,
    }
}

/// The name's text, when there is a name.
pub open spec fn text_matches(r: Option<String>, t: Option<Seq<u8>>) -> bool {
    &&& (r is None <==> t is None)
    &&& (t matches Some(b) ==> r->0@ == lossy_text_of(b))
}

/// Notes per second times `ONE`, at most `u64::MAX`; 0 for an empty span.
pub open spec fn density_of(count: int, total: int) -> int {
    if total > 0 {
        let d = count * ONE * 1_000_000 / total;
        if d > u64::MAX { u64::MAX as int } else { d }
    } else {
        0
    }
}

proof fn lemma_time_at(t1: int, t2: int, tpb: int, tempo: int)
    requires
        0 <= t1 <= t2 <= 0xffff_ffff,
        tpb > 0,
        0 <= tempo <= 0xff_ffff,
    ensures
        0 <= time_at(t1, tpb, tempo) <= time_at(t2, tpb, tempo) < MAX_TIME,
{
    assert(t1 * tempo <= t2 * tempo) by (nonlinear_arith)
        requires t1 <= t2, tempo >= 0;
    assert(t2 * tempo < MAX_TIME) by (nonlinear_arith)
        requires t2 <= 0xffff_ffff, 0 <= tempo <= 0xff_ffff;
    assert(0 <= t1 * tempo) by (nonlinear_arith)
        requires 0 <= t1, tempo >= 0;
    vstd::arithmetic::div_mod::lemma_div_is_ordered(t1 * tempo, t2 * tempo, tpb);
    vstd::arithmetic::div_mod::lemma_div_nonincreasing(t2 * tempo, tpb);
    vstd::arithmetic::div_mod::lemma_div_pos_is_pos(t1 * tempo, tpb);
}

/// `r` holds the statistics of `track` timed at `tempo` (see `analyze_track`).
pub open spec fn analysis_of(track: Seq<MidiEvent>, tpb: int, tempo: int, r: TrackMetrics) -> bool {
    let f = features(track, track.len() as int, tpb, tempo);
    let total = time_at(f.tick, tpb, tempo);
    &&& r.track_index == 0
    &&& r.note_count == f.pitches.len()
    &&& r.unique_notes == distinct_below(f.pitches, 128)
    &&& r.avg_velocity == mean_velocity(f.velocities)
    &&& r.velocity_variance == velocity_variance_of(f.velocities)
    &&& r.avg_note_duration == (if f.closed > 0 { f.held / f.closed } else { 0 })
    &&& r.total_duration == total
    &&& r.note_density == density_of(f.pitches.len() as int, total)
    &&& r.is_percussion == f.percussion
    &&& text_matches(r.track_name, f.name)
    &&& text_matches(r.track_instrument, f.instrument)
    &&& r.pitch_range == seq_max(f.pitches) - seq_min(f.pitches)
    &&& r.melodic_movement == melodic_movement_of(f.pitches)
    &&& r.sustain_ratio == (if total > 0 { f.held * ONE / total } else { 0 })
    &&& r.rhythmic_regularity == regularity_of(f.onsets)
    &&& r.track_type == role_of(TrackMetrics { track_type: TrackType::Unknown, ..r }, f.program)
}

pub open spec fn walk_bounds(f: Features, tpb: int, tempo: int) -> bool {
    let now = time_at(f.tick, tpb, tempo);
    &&& 0 <= f.tick <= 0xffff_ffff
    &&& f.open.len() == 128
    &&& forall|k: int| 0 <= k < 128 ==> (#[trigger] f.open[k] matches Some(st) ==> st <= now)
    &&& forall|k: int| 0 <= k < f.pitches.len() ==> #[trigger] f.pitches[k] < 128
    &&& forall|k: int| 0 <= k < f.velocities.len() ==> #[trigger] f.velocities[k] < 128
    &&& forall|k: int| 0 <= k < f.onsets.len() ==> #[trigger] f.onsets[k] <= now
    &&& sorted_times(f.onsets)
    &&& f.pitches.len() == f.onsets.len()
    &&& f.pitches.len() == f.velocities.len()
    &&& 0 <= f.closed
    &&& 0 <= f.held <= f.closed * now
}

/// Note statistics of one track, timed at the fixed `default_tempo`
/// (microseconds per beat). The track index is left at 0 and the role is
/// set by `determine_track_type` from the last program change.
pub fn analyze_track(track: &[MidiEvent], ticks_per_beat: u16, default_tempo: u32) -> (r: TrackMetrics)
    requires
        track_wf(track@),
        ticks_per_beat > 0,
        default_tempo <= 0xff_ffff,
    ensures
        analysis_of(track@, ticks_per_beat as int, default_tempo as int, r),
{
    let ghost ev = track@;
    let ghost tpb = ticks_per_beat as int;
    let ghost tempo = default_tempo as int;
    let mut tick: u64 = 0;
    let mut pitches: Vec<u8> = Vec::new();
    let mut velocities: Vec<u8> = Vec::new();
    let mut onsets: Vec<u64> = Vec::new();
    let mut open: Vec<Option<u64>> = Vec::new();
    let mut k: usize = 0;
    while k < 128
        invariant
            k <= 128,
            open@.len() == k,
            forall|j: int| 0 <= j < k ==> open@[j] is None,
        decreases 128 - k,
    {
        open.push(None);
        k = k + 1;
    }
    assert(open@ =~= no_features().open);
    let mut held: u128 = 0;
    let mut closed: u64 = 0;
    let mut percussion = false;
    let mut program: Option<u8> = None;
    let mut name: Option<Vec<u8>> = None;
    let mut instrument: Option<Vec<u8>> = None;
    let mut i: usize = 0;
    proof {
        lemma_time_at(0, 0, tpb, tempo);
    }
    while i < track.len()
        invariant
            ev == track@,
            track_wf(ev),
            tpb == ticks_per_beat as int,
            tpb > 0,
            tempo == default_tempo as int,
            tempo <= 0xff_ffff,
            i <= ev.len(),
            tick == tick_after(ev, i as int),
            closed <= i,
            pitches@.len() <= i,
            ev.len() <= 0xffff_ffff,
            features(ev, i as int, tpb, tempo) == (Features {
                tick: tick as int,
                pitches: pitches@,
                velocities: velocities@,
                onsets: onsets@,
                open: open@,
                held: held as int,
                closed: closed as int,
                percussion,
                program,
                name: bytes_view(name),
                instrument: bytes_view(instrument),
            }),
            walk_bounds(features(ev, i as int, tpb, tempo), tpb, tempo),
        decreases ev.len() - i,
    {
        let ghost f = features(ev, i as int, tpb, tempo);
        proof {
            lemma_tick_after_monotone(ev, i as int + 1, ev.len() as int);
            lemma_tick_after_monotone(ev, i as int, i as int + 1);
            lemma_time_at(tick as int, tick + ev[i as int].delta, tpb, tempo);
        }
        let e = &track[i];
        assert(kind_wf(e.kind));
        assert(tick as int * default_tempo as int <= 0xffff_ffff * 0xff_ffff) by (nonlinear_arith)
            requires tick <= 0xffff_ffff, default_tempo <= 0xff_ffff;
        let before = (tick as u128 * default_tempo as u128 / ticks_per_beat as u128) as u64;
        tick = tick + e.delta as u64;
        assert(tick as int * default_tempo as int <= 0xffff_ffff * 0xff_ffff) by (nonlinear_arith)
            requires tick <= 0xffff_ffff, default_tempo <= 0xff_ffff;
        let now = (tick as u128 * default_tempo as u128 / ticks_per_beat as u128) as u64;
        let ghost g = Features { tick: tick as int, percussion: f.percussion || channel_of(e.kind) == Some(9u8), ..f };
        assert(held <= closed * before);
        assert(closed * before <= closed * now) by (nonlinear_arith)
            requires before <= now, closed >= 0;
        match &e.kind {
            EventKind::NoteOn { channel, key, velocity } => {
                if *channel == 9 {
                    percussion = true;
                }
                if *velocity > 0 {
                    pitches.push(*key);
                    velocities.push(*velocity);
                    onsets.push(now);
                    open[*key as usize] = Some(now);
                } else {
                    close_open_note(&mut open, &mut held, &mut closed, *key, now, Ghost(g));
                }
            },
            EventKind::NoteOff { channel, key, .. } => {
                if *channel == 9 {
                    percussion = true;
                }
                close_open_note(&mut open, &mut held, &mut closed, *key, now, Ghost(g));
            },
            EventKind::ProgramChange { channel, program: p } => {
                if *channel == 9 {
                    percussion = true;
                }
                program = Some(*p);
            },
            EventKind::OtherChannelMessage { channel } => {
                if *channel == 9 {
                    percussion = true;
                }
            },
            EventKind::TrackName { text } => {
                let copy = text.clone();
                assert(copy@ =~= text@);
                name = Some(copy);
            },
            EventKind::InstrumentName { text } => {
                let copy = text.clone();
                assert(copy@ =~= text@);
                instrument = Some(copy);
            },
            _ => {},
        }
        i = i + 1;
        proof {
            let nf = features(ev, i as int, tpb, tempo);
            assert(nf == feature_step(f, ev[i - 1], tpb, tempo));
            assert(nf.pitches =~= pitches@);
            assert(nf.velocities =~= velocities@);
            assert(nf.onsets =~= onsets@);
            assert(nf.open =~= open@);
            assert forall|a: int, b: int| 0 <= a <= b < nf.onsets.len() implies nf.onsets[a] <= nf.onsets[b] by {
                if b == nf.onsets.len() - 1 && b == f.onsets.len() {
                    assert(nf.onsets[a] <= now);
                }
            }
            assert(walk_bounds(nf, tpb, tempo));
        }
    }
    let ghost f = features(ev, ev.len() as int, tpb, tempo);
    proof {
        lemma_time_at(tick as int, tick as int, tpb, tempo);
    }
    assert(tick as int * default_tempo as int <= 0xffff_ffff * 0xff_ffff) by (nonlinear_arith)
        requires tick <= 0xffff_ffff, default_tempo <= 0xff_ffff;
    let total = (tick as u128 * default_tempo as u128 / ticks_per_beat as u128) as u64;
    let n = pitches.len();
    let (avg_velocity, velocity_variance) = velocity_stats(&velocities);
    let avg_note_duration = if closed > 0 {
        proof {
            vstd::arithmetic::div_mod::lemma_div_is_ordered(held as int, closed * total, closed as int);
            vstd::arithmetic::div_mod::lemma_div_multiples_vanish(total as int, closed as int);
        }
        (held / closed as u128) as u64
    } else {
        0
    };
    let note_density = if total > 0 {
        let d = n as u128 * 1_000_000_000_000 / total as u128;
        if d > u64::MAX as u128 { u64::MAX } else { d as u64 }
    } else {
        0
    };
    let sustain_ratio = if total > 0 {
        proof {
            assert(held * 1_000_000 <= (closed * 1_000_000) * total) by (nonlinear_arith)
                requires held <= closed * total;
            assert((closed * 1_000_000) * total <= (0xffff_ffff * 1_000_000) * MAX_TIME) by (nonlinear_arith)
                requires closed <= 0xffff_ffff, total <= MAX_TIME, closed >= 0, total >= 0;
            vstd::arithmetic::div_mod::lemma_div_is_ordered(held * 1_000_000, (closed * 1_000_000) * total, total as int);
            vstd::arithmetic::div_mod::lemma_div_multiples_vanish(closed * 1_000_000, total as int);
        }
        (held * 1_000_000 / total as u128) as u64
    } else {
        0
    };
    let mut metrics = TrackMetrics {
        track_index: 0,
        note_count: n,
        unique_notes: unique_pitches(&pitches),
        avg_velocity,
        velocity_variance,
        avg_note_duration,
        total_duration: total,
        note_density,
        is_percussion: percussion,
        track_name: text_of_name(&name),
        track_instrument: text_of_name(&instrument),
        track_type: TrackType::Unknown,
        pitch_range: pitch_range(&pitches),
        melodic_movement: melodic_movement(&pitches),
        sustain_ratio,
        rhythmic_regularity: rhythmic_regularity(&onsets),
    };
    metrics.determine_track_type(program);
    metrics
}

fn close_open_note(
    open: &mut Vec<Option<u64>>,
    held: &mut u128,
    closed: &mut u64,
    key: u8,
    now: u64,
    Ghost(f): Ghost<Features>,
)
    requires
        key < 128,
        old(open)@ == f.open,
        *old(held) == f.held,
        *old(closed) == f.closed,
        f.open.len() == 128,
        forall|k: int| 0 <= k < 128 ==> (#[trigger] f.open[k] matches Some(st) ==> st <= now),
        0 <= f.held <= f.closed * now,
        f.closed < 0xffff_ffff,
        now < MAX_TIME,
    ensures
        ({
            let c = close_note(f, key, now as int);
            &&& final(open)@ == c.open
            &&& *final(held) == c.held
            &&& *final(closed) == c.closed
            &&& forall|k: int| 0 <= k < 128 ==> (#[trigger] c.open[k] matches Some(st) ==> st <= now)
            &&& 0 <= c.held <= c.closed * now
        }),
{
    match open[key as usize] {
        Some(start) => {
            assert(f.open[key as int] == Some(start));
            assert((f.closed + 1) * now == f.closed * now + now) by (nonlinear_arith);
            assert(f.closed * now <= 0xffff_ffff * MAX_TIME) by (nonlinear_arith)
                requires f.closed <= 0xffff_ffff, now <= MAX_TIME, f.closed >= 0;
            *held = *held + (now - start) as u128;
            *closed = *closed + 1;
            open[key as usize] = None;
        },
        None => {},
    }
}

} // verus!
