//! Playback decisions: the initial channel assignment, the live ranking, and
//! one step of a channel's playback. The caller runs the loops, sleeps and
//! sends; these functions decide.
use vstd::prelude::*;
use crate::merge::{TrackMergeController, section};
use crate::pipeline::playable;
use crate::rumble::{RumbleCommand, RumbleTrack, sum_waits, lemma_prefix_waits};

verus! {

/// Ranking window of the live ranking, in microseconds.
pub const RANKING_WINDOW: u64 = 500_000;
/// Loudest amplitude a track needs in the window to get a window score.
pub const RANKING_MIN_AMPLITUDE: u32 = 300_000;

/// Position `a` ranks before position `b`: a higher first key, then a higher
/// second key, then the lower position.
pub open spec fn ranks_before(keys: Seq<(u128, u128)>, a: int, b: int) -> bool {
    ||| keys[a].0 > keys[b].0
    ||| (keys[a].0 == keys[b].0 && keys[a].1 > keys[b].1)
    ||| (keys[a].0 == keys[b].0 && keys[a].1 == keys[b].1 && a < b)
}

/// `r` lists, best first, the `n` best-ranked eligible positions, or all of
/// them when fewer are eligible.
pub open spec fn is_top(keys: Seq<(u128, u128)>, eligible: Seq<bool>, n: int, r: Seq<usize>) -> bool {
    &&& r.len() <= n
    &&& forall|i: int| 0 <= i < r.len() ==> (#[trigger] r[i]) < keys.len() && r[i] < eligible.len() && eligible[r[i] as int]
    &&& forall|i: int, j: int| 0 <= i < j < r.len() ==> ranks_before(keys, r[i] as int, r[j] as int)
    &&& forall|e: int| 0 <= e < eligible.len() && e < keys.len() && eligible[e] && !r.contains(e as usize)
        ==> forall|i: int| 0 <= i < r.len() ==> ranks_before(keys, #[trigger] r[i] as int, e)
    &&& r.len() < n ==> forall|e: int| 0 <= e < eligible.len() && e < keys.len() && #[trigger] eligible[e] ==> r.contains(e as usize)
}

fn ranks_before_exec(keys: &Vec<(u128, u128)>, a: usize, b: usize) -> (r: bool)
    requires
        a < keys@.len(),
        b < keys@.len(),
    ensures
        r == ranks_before(keys@, a as int, b as int),
{
    let ka = keys[a];
    let kb = keys[b];
    ka.0 > kb.0 || (ka.0 == kb.0 && ka.1 > kb.1) || (ka.0 == kb.0 && ka.1 == kb.1 && a < b)
}

/// Number of `false` entries.
pub open spec fn count_false(s: Seq<bool>) -> int
    decreases s.len(),
{
    if s.len() == 0 { 0 } else { count_false(s.drop_last()) + (if s.last() { 0int } else { 1 }) }
}

proof fn lemma_count_false_set(s: Seq<bool>, i: int)
    requires
        0 <= i < s.len(),
        !s[i],
    ensures
        count_false(s.update(i, true)) == count_false(s) - 1,
    decreases s.len(),
{
    let u = s.update(i, true);
    if i < s.len() - 1 {
        assert(u.drop_last() =~= s.drop_last().update(i, true));
        lemma_count_false_set(s.drop_last(), i);
    } else {
        assert(u.drop_last() =~= s.drop_last());
    }
}

proof fn lemma_count_false_bounds(s: Seq<bool>)
    ensures
        0 <= count_false(s) <= s.len(),
        count_false(s) == 0 ==> forall|i: int| 0 <= i < s.len() ==> s[i],
    decreases s.len(),
{
    if s.len() > 0 {
        lemma_count_false_bounds(s.drop_last());
        if count_false(s) == 0 {
            assert forall|i: int| 0 <= i < s.len() implies s[i] by {
                if i < s.len() - 1 {
                    assert(s.drop_last()[i] == s[i]);
                }
            }
        }
    }
}

/// The best `n` eligible positions by `keys`, best first (see `is_top`);
/// all eligible positions when `n` is at least their number.
pub fn top_positions(keys: &Vec<(u128, u128)>, eligible: &Vec<bool>, n: usize) -> (r: Vec<usize>)
    requires
        keys@.len() == eligible@.len(),
    ensures
        is_top(keys@, eligible@, n as int, r@),
        n >= keys@.len() ==> forall|e: int| 0 <= e < keys@.len() && #[trigger] eligible@[e] ==> r@.contains(e as usize),
{
    let len = keys.len();
    let mut taken: Vec<bool> = Vec::new();
    let mut k: usize = 0;
    while k < len
        invariant
            k <= len,
            taken@.len() == k,
            forall|j: int| 0 <= j < k ==> !taken@[j],
            count_false(taken@) == k,
        decreases len - k,
    {
        let ghost before = taken@;
        taken.push(false);
        k = k + 1;
        proof {
            assert(taken@.drop_last() =~= before);
        }
    }
    let mut r: Vec<usize> = Vec::new();
    let mut done = false;
    while r.len() < n && !done
        invariant
            len == keys@.len(),
            len == eligible@.len(),
            taken@.len() == len,
            r@.len() <= n,
            forall|i: int| 0 <= i < r@.len() ==> (#[trigger] r@[i]) < len && eligible@[r@[i] as int],
            forall|e: int| 0 <= e < len ==> (#[trigger] taken@[e] <==> r@.contains(e as usize)),
            forall|i: int, j: int| 0 <= i < j < r@.len() ==> ranks_before(keys@, r@[i] as int, r@[j] as int),
            forall|e: int| 0 <= e < len && eligible@[e] && !r@.contains(e as usize)
                ==> forall|i: int| 0 <= i < r@.len() ==> ranks_before(keys@, #[trigger] r@[i] as int, e),
            done ==> forall|e: int| 0 <= e < len && #[trigger] eligible@[e] ==> r@.contains(e as usize),
            r@.len() + count_false(taken@) == len,
        decreases n - r@.len(), if done { 0int } else { 1int },
    {
        let mut best: Option<usize> = None;
        let mut j: usize = 0;
        while j < len
            invariant
                len == keys@.len(),
                len == eligible@.len(),
                taken@.len() == len,
                j <= len,
                best matches Some(b) ==> b < j && eligible@[b as int] && !taken@[b as int],
                best is None ==> forall|e: int| 0 <= e < j ==> !(#[trigger] eligible@[e] && !taken@[e]),
                best matches Some(b) ==> forall|e: int| 0 <= e < j && eligible@[e] && !taken@[e] && e != b
                    ==> #[trigger] ranks_before(keys@, b as int, e),
            decreases len - j,
        {
            if eligible[j] && !taken[j] {
                match best {
                    None => {
                        best = Some(j);
                    },
                    Some(b) => {
                        if ranks_before_exec(keys, j, b) {
                            proof {
                                assert forall|e: int| 0 <= e < j + 1 && eligible@[e] && !taken@[e] && e != j
                                    implies #[trigger] ranks_before(keys@, j as int, e) by {
                                    if e != b as int {
                                        assert(ranks_before(keys@, b as int, e));
                                    }
                                }
                            }
                            best = Some(j);
                        }
                    },
                }
            }
            j = j + 1;
        }
        match best {
            None => {
                done = true;
                assert forall|e: int| 0 <= e < len && #[trigger] eligible@[e] implies r@.contains(e as usize) by {
                    assert(!(eligible@[e] && !taken@[e]));
                }
            },
            Some(b) => {
                let ghost old_r = r@;
                assert(!old_r.contains(b));
                r.push(b);
                proof {
                    lemma_count_false_set(taken@, b as int);
                }
                taken.set(b, true);
                proof {
                    assert forall|e: int| 0 <= e < len implies (#[trigger] taken@[e] <==> r@.contains(e as usize)) by {
                        if r@.contains(e as usize) && e != b {
                            let w = choose|w: int| 0 <= w < r@.len() && r@[w] == e as usize;
                            assert(old_r[w] == e as usize);
                        }
                        if old_r.contains(e as usize) {
                            let w = choose|w: int| 0 <= w < old_r.len() && old_r[w] == e as usize;
                            assert(r@[w] == e as usize);
                        }
                        if e == b {
                            assert(r@[old_r.len() as int] == b);
                        }
                    }
                    assert forall|e: int| 0 <= e < len && eligible@[e] && !r@.contains(e as usize)
                        implies forall|i: int| 0 <= i < r@.len() ==> ranks_before(keys@, #[trigger] r@[i] as int, e) by {
                        assert(!old_r.contains(e as usize)) by {
                            if old_r.contains(e as usize) {
                                let w = choose|w: int| 0 <= w < old_r.len() && old_r[w] == e as usize;
                                assert(r@[w] == e as usize);
                            }
                        }
                        assert(e != b) by {
                            assert(r@[old_r.len() as int] == b);
                        }
                        assert(!taken@[e]);
                        assert forall|i: int| 0 <= i < r@.len() implies ranks_before(keys@, #[trigger] r@[i] as int, e) by {
                            if i < old_r.len() {
                                assert(r@[i] == old_r[i]);
                            }
                        }
                    }
                }
            },
        }
    }
    proof {
        lemma_count_false_bounds(taken@);
        if n >= len && !done {
            assert forall|e: int| 0 <= e < len && #[trigger] eligible@[e] implies r@.contains(e as usize) by {
                assert(taken@[e]);
            }
        }
    }
    r
}

/// Ranking keys of the initial assignment: the whole-track score.
pub open spec fn score_keys(tracks: Seq<RumbleTrack>) -> Seq<(u128, u128)> {
    Seq::new(tracks.len(), |j: int| (tracks[j].metrics.score() as u128, 0u128))
}

pub open spec fn playable_flags(tracks: Seq<RumbleTrack>) -> Seq<bool> {
    Seq::new(tracks.len(), |j: int| playable(tracks[j].metrics))
}

/// The first channel assignment: the positions of the `num_channels`
/// best-scoring playable tracks, best first.
pub fn initial_assignments(tracks: &Vec<RumbleTrack>, num_channels: usize) -> (r: Vec<usize>)
    ensures
        is_top(score_keys(tracks@), playable_flags(tracks@), num_channels as int, r@),
{
    let mut keys: Vec<(u128, u128)> = Vec::new();
    let mut eligible: Vec<bool> = Vec::new();
    let mut j: usize = 0;
    while j < tracks.len()
        invariant
            j <= tracks@.len(),
            keys@ == score_keys(tracks@).subrange(0, j as int),
            eligible@ == playable_flags(tracks@).subrange(0, j as int),
        decreases tracks@.len() - j,
    {
        let score = tracks[j].metrics.calculate_score();
        keys.push((score as u128, 0));
        eligible.push(!tracks[j].metrics.is_percussion && tracks[j].metrics.note_count > 0);
        j = j + 1;
        assert(keys@ =~= score_keys(tracks@).subrange(0, j as int));
        assert(eligible@ =~= playable_flags(tracks@).subrange(0, j as int));
    }
    assert(keys@ =~= score_keys(tracks@));
    assert(eligible@ =~= playable_flags(tracks@));
    top_positions(&keys, &eligible, num_channels)
}

/// Window statistics of a track for the live ranking at time `now`.
pub open spec fn ranking_section(t: RumbleTrack, now: int) -> (int, int) {
    section(t.commands@, 0, now, RANKING_WINDOW as int)
}

/// Ranking keys at time `now`: notes in the window, then the window score
/// (0 unless the window reaches `RANKING_MIN_AMPLITUDE`).
pub open spec fn ranking_keys(tracks: Seq<RumbleTrack>, now: int) -> Seq<(u128, u128)> {
    Seq::new(tracks.len(), |j: int| {
        let (notes, peak) = ranking_section(tracks[j], now);
        let score = if peak >= RANKING_MIN_AMPLITUDE && notes > 0 {
            tracks[j].metrics.window_score(notes, RANKING_WINDOW as int)
        } else {
            0
        };
        (notes as u128, score as u128)
    })
}

/// Tracks the ranking considers: still playing and not percussion.
pub open spec fn ranking_flags(tracks: Seq<RumbleTrack>, active: Seq<bool>) -> Seq<bool> {
    Seq::new(tracks.len(), |j: int| active[j] && !tracks[j].metrics.is_percussion)
}

/// One round of the live ranking at time `now`: the best `num_channels`
/// active, non-percussion tracks by notes in the coming window and then by
/// window score; and whether to publish them, that is whether they differ
/// from `current` and the best of them has a note in the window.
pub fn rank_tracks(
    tracks: &Vec<RumbleTrack>,
    active: &Vec<bool>,
    now: u64,
    current: &Vec<usize>,
    num_channels: usize,
) -> (r: (Vec<usize>, bool))
    requires
        active@.len() == tracks@.len(),
        forall|j: int| 0 <= j < tracks@.len() ==> sum_waits((#[trigger] tracks@[j]).commands@) <= u64::MAX,
    ensures
        is_top(ranking_keys(tracks@, now as int), ranking_flags(tracks@, active@), num_channels as int, r.0@),
        r.1 == (r.0@ != current@ && r.0@.len() > 0 && ranking_keys(tracks@, now as int)[r.0@[0] as int].0 > 0),
{
    let mut keys: Vec<(u128, u128)> = Vec::new();
    let mut eligible: Vec<bool> = Vec::new();
    let mut j: usize = 0;
    while j < tracks.len()
        invariant
            j <= tracks@.len(),
            active@.len() == tracks@.len(),
            forall|i: int| 0 <= i < tracks@.len() ==> sum_waits((#[trigger] tracks@[i]).commands@) <= u64::MAX,
            keys@ == ranking_keys(tracks@, now as int).subrange(0, j as int),
            eligible@ == ranking_flags(tracks@, active@).subrange(0, j as int),
        decreases tracks@.len() - j,
    {
        let t = &tracks[j];
        assert(sum_waits(tracks@[j as int].commands@) <= u64::MAX);
        let (notes, peak) = crate::merge::evaluate_track_section(t.commands.as_slice(), now, RANKING_WINDOW);
        let score: u128 = if peak >= RANKING_MIN_AMPLITUDE && notes > 0 {
            t.metrics.calculate_window_score(notes, RANKING_WINDOW)
        } else {
            0
        };
        keys.push((notes as u128, score));
        eligible.push(active[j] && !t.metrics.is_percussion);
        j = j + 1;
        assert(keys@ =~= ranking_keys(tracks@, now as int).subrange(0, j as int));
        assert(eligible@ =~= ranking_flags(tracks@, active@).subrange(0, j as int));
    }
    assert(keys@ =~= ranking_keys(tracks@, now as int));
    assert(eligible@ =~= ranking_flags(tracks@, active@));
    let top = top_positions(&keys, &eligible, num_channels);
    let mut same = top.len() == current.len();
    let mut i: usize = 0;
    while i < top.len() && same
        invariant
            i <= top@.len(),
            same ==> top@.len() == current@.len(),
            same == (top@.len() == current@.len() && forall|q: int| 0 <= q < i ==> top@[q] == current@[q]),
        decreases top@.len() - i,
    {
        if top[i] != current[i] {
            same = false;
        }
        i = i + 1;
    }
    if same {
        assert(top@ =~= current@);
    }
    let publish = !same && top.len() > 0 && keys[top[0]].0 > 0;
    (top, publish)
}

/// The previous command sounded and this one is silent.
pub fn is_note_off(cmd: &RumbleCommand, prev_cmd: Option<&RumbleCommand>) -> (r: bool)
    ensures
        r == (prev_cmd matches Some(p) && p.amplitude > 0 && cmd.amplitude == 0),
{
    match prev_cmd {
        Some(prev) => prev.amplitude > 0 && cmd.amplitude == 0,
        None => false,
    }
}

/// Where a channel stands: its track (a position in the controller's
/// tracks), the next command, a switch waiting for a note-off, and the
/// playback time in microseconds.
#[derive(Debug, Clone, Copy, PartialEq, Eq, Structural)]
pub struct ChannelWorker {
    pub channel: usize,
    pub current_track: usize,
    pub command_index: usize,
    pub pending_switch: Option<usize>,
    pub time: u64,
}

/// What the caller does after a step.
#[derive(Debug, Clone, Copy, PartialEq, Eq, Structural)]
pub enum WorkerAction {
    /// The track is exhausted: mark it inactive, send silence and stop.
    Finished { track: usize },
    /// The channel moved to `track`: record the switch with the controller.
    Switched { track: usize },
    /// Wait `command.wait_before`, advance the controller's time by as much,
    /// then send the command.
    Play { command: RumbleCommand },
}

/// Time before command `i` starts waiting.
pub open spec fn waits_before(cmds: Seq<RumbleCommand>, i: int) -> int {
    sum_waits(cmds.subrange(0, i))
}

/// First position whose preceding waits reach `t`; the length when none does.
pub open spec fn resume_position(cmds: Seq<RumbleCommand>, t: int) -> int {
    if exists|i: int| 0 <= i < cmds.len() && waits_before(cmds, i) >= t {
        choose|i: int| 0 <= i < cmds.len() && waits_before(cmds, i) >= t
            && forall|q: int| 0 <= q < i ==> waits_before(cmds, q) < t
    } else {
        cmds.len() as int
    }
}

fn resume_position_exec(commands: &Vec<RumbleCommand>, time: u64) -> (r: usize)
    requires
        sum_waits(commands@) <= u64::MAX,
    ensures
        r == resume_position(commands@, time as int),
{
    let ghost cs = commands@;
    let mut t: u64 = 0;
    let mut i: usize = 0;
    assert(cs.subrange(0, 0) =~= seq![]);
    while i < commands.len()
        invariant
            cs == commands@,
            sum_waits(cs) <= u64::MAX,
            i <= cs.len(),
            t == waits_before(cs, i as int),
            forall|q: int| 0 <= q < i ==> #[trigger] waits_before(cs, q) < time,
        decreases cs.len() - i,
    {
        if t >= time {
            proof {
                let c = choose|c: int| 0 <= c < cs.len() && waits_before(cs, c) >= time
                    && forall|q: int| 0 <= q < c ==> waits_before(cs, q) < time;
                if c > i {
                    assert(waits_before(cs, i as int) < time);
                }
            }
            return i;
        }
        proof {
            lemma_prefix_waits(cs, i as int + 1);
            assert(cs.subrange(0, i as int + 1).drop_last() =~= cs.subrange(0, i as int));
        }
        t = t + commands[i].wait_before;
        i = i + 1;
    }
    i
}

impl ChannelWorker {
    /// A channel about to play `track` from its start.
    pub fn new(channel: usize, track: usize) -> (r: Self)
        ensures
            r == (ChannelWorker { channel, current_track: track, command_index: 0, pending_switch: None, time: 0 }),
    {
        ChannelWorker { channel, current_track: track, command_index: 0, pending_switch: None, time: 0 }
    }

    /// The worker's positions are valid for the controller.
    pub open spec fn ready(&self, c: TrackMergeController) -> bool {
        &&& c.wf()
        &&& self.channel < c.last_switches().len()
        &&& self.current_track < c.tracks@.len()
        &&& self.pending_switch matches Some(p) ==> p < c.tracks@.len()
    }

    /// One step: finish when the track is exhausted; else note a switch to
    /// `assigned` that the controller authorizes; at a note-off with a
    /// switch waiting, move to the waiting track at the position matching the
    /// playback time; else play the next command.
    pub open spec fn next(self, assigned: int, c: TrackMergeController) -> (ChannelWorker, WorkerAction) {
        let cmds = c.tracks@[self.current_track as int].commands@;
        let i = self.command_index as int;
        if i >= cmds.len() {
            (self, WorkerAction::Finished { track: self.current_track })
        } else {
            let pending = if assigned != self.current_track
                && c.switch_decision(self.channel as int, self.current_track as int, assigned, i) {
                Some(assigned as usize)
            } else {
                self.pending_switch
            };
            let note_off = i > 0 && cmds[i - 1].amplitude > 0 && cmds[i].amplitude == 0;
            if pending is Some && note_off {
                let t = pending->0;
                (ChannelWorker {
                    current_track: t,
                    command_index: resume_position(c.tracks@[t as int].commands@, self.time as int) as usize,
                    pending_switch: None,
                    ..self
                }, WorkerAction::Switched { track: t })
            } else {
                let later = self.time + cmds[i].wait_before;
                (ChannelWorker {
                    command_index: (i + 1) as usize,
                    pending_switch: pending,
                    time: if later <= u64::MAX { later as u64 } else { u64::MAX },
                    ..self
                }, WorkerAction::Play { command: cmds[i] })
            }
        }
    }

    /// One step of the channel (see `next`).
    pub fn step(&mut self, assigned: usize, controller: &TrackMergeController) -> (r: WorkerAction)
        requires
            old(self).ready(*controller),
            assigned < controller.tracks@.len(),
        ensures
            final(self).ready(*controller),
            (*final(self), r) == old(self).next(assigned as int, *controller),
    {
        let track = &controller.tracks[self.current_track];
        let i = self.command_index;
        if i >= track.commands.len() {
            return WorkerAction::Finished { track: self.current_track };
        }
        if assigned != self.current_track
            && controller.should_switch_tracks(self.channel, self.current_track, assigned, i) {
            self.pending_switch = Some(assigned);
        }
        let cmd = track.commands[i];
        let prev = if i > 0 { Some(&track.commands[i - 1]) } else { None };
        match self.pending_switch {
            Some(t) => {
                if is_note_off(&cmd, prev) {
                    assert(sum_waits(controller.tracks@[t as int].commands@) <= u64::MAX);
                    let position = resume_position_exec(&controller.tracks[t].commands, self.time);
                    self.current_track = t;
                    self.command_index = position;
                    self.pending_switch = None;
                    return WorkerAction::Switched { track: t };
                }
            },
            None => {},
        }
        self.time = self.time.saturating_add(cmd.wait_before);
        self.command_index = i + 1;
        WorkerAction::Play { command: cmd }
    }
}

/// No channel table names a percussion track: the initial assignment names
/// only playable tracks, and a ranking round only active non-percussion ones.
pub proof fn lemma_tables_skip_percussion(
    tracks: Seq<RumbleTrack>,
    n: int,
    initial: Seq<usize>,
    now: int,
    active: Seq<bool>,
    ranked: Seq<usize>,
)
    requires
        active.len() == tracks.len(),
        is_top(score_keys(tracks), playable_flags(tracks), n, initial),
        is_top(ranking_keys(tracks, now), ranking_flags(tracks, active), n, ranked),
    ensures
        forall|k: int| 0 <= k < initial.len() ==> playable(tracks[#[trigger] initial[k] as int].metrics),
        forall|k: int| 0 <= k < ranked.len() ==> !tracks[#[trigger] ranked[k] as int].metrics.is_percussion
            && active[ranked[k] as int],
{
    assert forall|k: int| 0 <= k < initial.len() implies playable(tracks[#[trigger] initial[k] as int].metrics) by {
        assert(playable_flags(tracks)[initial[k] as int]);
    }
    assert forall|k: int| 0 <= k < ranked.len() implies !tracks[#[trigger] ranked[k] as int].metrics.is_percussion
        && active[ranked[k] as int] by {
        assert(ranking_flags(tracks, active)[ranked[k] as int]);
    }
}

} // verus!
