//! The merge controller: whether a channel should move to another track.
use vstd::prelude::*;
use crate::rumble::{RumbleCommand, RumbleTrack, start_time, sum_waits, lemma_prefix_waits};

verus! {

/// Look-ahead window of a switch decision, in microseconds.
pub const FUTURE_WINDOW_SIZE: u64 = 2_000_000;
/// Least time between two switches of one channel, in microseconds.
pub const MIN_SWITCH_INTERVAL: u64 = 2_000_000;
/// Notes the proposed track needs in the window when the current one has none.
pub const MIN_NOTE_COUNT_FOR_SWITCH: usize = 3;
/// Loudest amplitude the proposed track needs in the window (millionths).
pub const MIN_WINDOW_AMPLITUDE: u32 = 300_000;

/// Command `j` sounds within `[start, start + window]`.
pub open spec fn in_window(cmds: Seq<RumbleCommand>, j: int, start: int, window: int) -> bool {
    cmds[j].amplitude > 0 && start <= start_time(cmds, j) <= start + window
}

/// Number of commands at positions `first..k` that sound within the window.
pub open spec fn window_count(cmds: Seq<RumbleCommand>, first: int, start: int, window: int, k: int) -> int
    decreases k,
{
    if k <= 0 || k <= first || k > cmds.len() {
        0
    } else {
        window_count(cmds, first, start, window, k - 1) + (if in_window(cmds, k - 1, start, window) { 1int } else { 0 })
    }
}

/// Loudest amplitude among them (0 when none).
pub open spec fn window_peak(cmds: Seq<RumbleCommand>, first: int, start: int, window: int, k: int) -> int
    decreases k,
{
    if k <= 0 || k <= first || k > cmds.len() {
        0
    } else {
        let m = window_peak(cmds, first, start, window, k - 1);
        if in_window(cmds, k - 1, start, window) && cmds[k - 1].amplitude > m { cmds[k - 1].amplitude as int } else { m }
    }
}

/// Notes and loudest amplitude from position `first` on within the window.
pub open spec fn section(cmds: Seq<RumbleCommand>, first: int, start: int, window: int) -> (int, int) {
    (window_count(cmds, first, start, window, cmds.len() as int), window_peak(cmds, first, start, window, cmds.len() as int))
}

/// First position whose start time is at or after `t` (the length when none).
pub open spec fn first_at_or_after(cmds: Seq<RumbleCommand>, t: int) -> int {
    if exists|j: int| 0 <= j < cmds.len() && start_time(cmds, j) >= t {
        choose|j: int| 0 <= j < cmds.len() && start_time(cmds, j) >= t
            && forall|i: int| 0 <= i < j ==> start_time(cmds, i) < t
    } else {
        cmds.len() as int
    }
}

/// Timing of the positions `first..` of a command list: times count from the
/// start of the whole list.
fn section_from(commands: &[RumbleCommand], first: usize, start_time_us: u64, window_size: u64) -> (r: (usize, u32))
    requires
        sum_waits(commands@) <= u64::MAX,
    ensures
        r.0 == section(commands@, first as int, start_time_us as int, window_size as int).0,
        r.1 == section(commands@, first as int, start_time_us as int, window_size as int).1,
{
    let ghost cs = commands@;
    let ghost st = start_time_us as int;
    let ghost w = window_size as int;
    let end = start_time_us.saturating_add(window_size);
    let mut count: usize = 0;
    let mut peak: u32 = 0;
    let mut time: u64 = 0;
    let mut j: usize = 0;
    assert(cs.subrange(0, 0) =~= seq![]);
    while j < commands.len()
        invariant
            cs == commands@,
            sum_waits(cs) <= u64::MAX,
            end == (if st + w <= u64::MAX { st + w } else { u64::MAX as int }),
            st == start_time_us as int,
            w == window_size as int,
            j <= cs.len(),
            time == sum_waits(cs.subrange(0, j as int)),
            count == window_count(cs, first as int, st, w, j as int),
            count <= j,
            peak == window_peak(cs, first as int, st, w, j as int),
        decreases cs.len() - j,
    {
        proof {
            lemma_prefix_waits(cs, j as int + 1);
            assert(cs.subrange(0, j as int + 1).drop_last() =~= cs.subrange(0, j as int));
        }
        time = time + commands[j].wait_before;
        assert(time == start_time(cs, j as int));
        let hit = j >= first && commands[j].amplitude > 0 && start_time_us <= time && time <= end;
        assert(hit == (j >= first && in_window(cs, j as int, st, w)));
        if hit {
            count = count + 1;
            if commands[j].amplitude > peak {
                peak = commands[j].amplitude;
            }
        }
        j = j + 1;
    }
    (count, peak)
}

/// Commands that sound within `[start_time, start_time + window_size]`
/// (times counted from the start of `commands`): their number and the
/// loudest amplitude.
pub fn evaluate_track_section(commands: &[RumbleCommand], start_time_us: u64, window_size: u64) -> (r: (usize, u32))
    requires
        sum_waits(commands@) <= u64::MAX,
    ensures
        r.0 == section(commands@, 0, start_time_us as int, window_size as int).0,
        r.1 == section(commands@, 0, start_time_us as int, window_size as int).1,
{
    section_from(commands, 0, start_time_us, window_size)
}

/// First command whose start time is at or after `time` (see
/// `first_at_or_after`).
pub fn find_commands_at_time(commands: &[RumbleCommand], time: u64) -> (r: usize)
    requires
        sum_waits(commands@) <= u64::MAX,
    ensures
        r == first_at_or_after(commands@, time as int),
{
    let ghost cs = commands@;
    let mut t: u64 = 0;
    let mut j: usize = 0;
    assert(cs.subrange(0, 0) =~= seq![]);
    while j < commands.len()
        invariant
            cs == commands@,
            sum_waits(cs) <= u64::MAX,
            j <= cs.len(),
            t == sum_waits(cs.subrange(0, j as int)),
            forall|i: int| 0 <= i < j ==> #[trigger] start_time(cs, i) < time,
        decreases cs.len() - j,
    {
        proof {
            lemma_prefix_waits(cs, j as int + 1);
            assert(cs.subrange(0, j as int + 1).drop_last() =~= cs.subrange(0, j as int));
        }
        t = t + commands[j].wait_before;
        assert(t == start_time(cs, j as int));
        if t >= time {
            proof {
                let c = choose|c: int| 0 <= c < cs.len() && start_time(cs, c) >= time
                    && forall|i: int| 0 <= i < c ==> start_time(cs, i) < time;
                if c < j {
                } else if c > j {
                    assert(start_time(cs, j as int) < time);
                }
            }
            return j;
        }
        j = j + 1;
    }
    j
}

/// Holds every track, the simulated playback time and each channel's last
/// switch time (microseconds).
#[derive(Debug)]
pub struct TrackMergeController {
    pub tracks: Vec<RumbleTrack>,
    pub current_time: u64,
    pub last_switch_times: Vec<u64>,
}

impl TrackMergeController {
    /// Simulated playback time.
    pub open spec fn time(&self) -> u64 {
        self.current_time
    }

    /// Last switch time of each channel.
    pub open spec fn last_switches(&self) -> Seq<u64> {
        self.last_switch_times@
    }

    /// Every track's waits add up to a `u64`.
    pub open spec fn wf(&self) -> bool {
        forall|j: int| 0 <= j < self.tracks@.len() ==> sum_waits((#[trigger] self.tracks@[j]).commands@) <= u64::MAX
    }

    /// Whether channel `ch`, playing track `cur` at position `idx`, should
    /// move to track `tgt`: at least `MIN_SWITCH_INTERVAL` since its last
    /// switch; in the window of `FUTURE_WINDOW_SIZE` from now, `tgt` has more
    /// than one note more than `cur` (or at least 3 while `cur` has none) and
    /// reaches amplitude 0.3; and `tgt` scores more than 1.5 times `cur`.
    pub open spec fn switch_decision(&self, ch: int, cur: int, tgt: int, idx: int) -> bool {
        let now = self.time() as int;
        let cs = self.tracks@[cur].commands@;
        let ts = self.tracks@[tgt].commands@;
        let here = section(cs, idx, now, FUTURE_WINDOW_SIZE as int);
        let there = section(ts, first_at_or_after(ts, now), now, FUTURE_WINDOW_SIZE as int);
        &&& now - self.last_switches()[ch] >= MIN_SWITCH_INTERVAL
        &&& (there.0 > here.0 + 1 || (here.0 == 0 && there.0 >= MIN_NOTE_COUNT_FOR_SWITCH))
        &&& there.1 >= MIN_WINDOW_AMPLITUDE
        &&& 2 * self.tracks@[tgt].metrics.score() > 3 * self.tracks@[cur].metrics.score()
    }

    /// A controller at time 0 for `num_joycons` channels, none switched yet.
    pub fn new(tracks: Vec<RumbleTrack>, num_joycons: usize) -> (r: Self)
        ensures
            r.tracks@ == tracks@,
            r.time() == 0,
            r.last_switches().len() == num_joycons,
            forall|ch: int| 0 <= ch < num_joycons ==> #[trigger] r.last_switches()[ch] == 0,
    {
        let mut last: Vec<u64> = Vec::new();
        let mut i: usize = 0;
        while i < num_joycons
            invariant
                i <= num_joycons,
                last@.len() == i,
                forall|ch: int| 0 <= ch < i ==> #[trigger] last@[ch] == 0,
            decreases num_joycons - i,
        {
            last.push(0);
            i = i + 1;
        }
        TrackMergeController { tracks, current_time: 0, last_switch_times: last }
    }

    /// See `switch_decision`.
    pub fn should_switch_tracks(&self, joycon_idx: usize, current_track_idx: usize, target_track_idx: usize, command_index: usize) -> (r: bool)
        requires
            self.wf(),
            joycon_idx < self.last_switches().len(),
            current_track_idx < self.tracks@.len(),
            target_track_idx < self.tracks@.len(),
        ensures
            r == self.switch_decision(joycon_idx as int, current_track_idx as int, target_track_idx as int, command_index as int),
    {
        if self.current_time < self.last_switch_times[joycon_idx]
            || self.current_time - self.last_switch_times[joycon_idx] < MIN_SWITCH_INTERVAL {
            return false;
        }
        let current = &self.tracks[current_track_idx];
        let target = &self.tracks[target_track_idx];
        assert(sum_waits(self.tracks@[current_track_idx as int].commands@) <= u64::MAX);
        assert(sum_waits(self.tracks@[target_track_idx as int].commands@) <= u64::MAX);
        let here = section_from(current.commands.as_slice(), command_index, self.current_time, FUTURE_WINDOW_SIZE);
        let first = find_commands_at_time(target.commands.as_slice(), self.current_time);
        let there = section_from(target.commands.as_slice(), first, self.current_time, FUTURE_WINDOW_SIZE);
        let active = (there.0 as u128 > here.0 as u128 + 1 || (here.0 == 0 && there.0 >= MIN_NOTE_COUNT_FOR_SWITCH))
            && there.1 >= MIN_WINDOW_AMPLITUDE;
        if !active {
            return false;
        }
        let current_score = current.metrics.calculate_score();
        let target_score = target.metrics.calculate_score();
        2 * target_score as u128 > 3 * current_score as u128
    }

    /// Stamps channel `joycon_idx` as switched now.
    pub fn record_switch(&mut self, joycon_idx: usize)
        requires
            joycon_idx < old(self).last_switches().len(),
        ensures
            final(self).last_switches() == old(self).last_switches().update(joycon_idx as int, old(self).time()),
            final(self).time() == old(self).time(),
            final(self).tracks@ == old(self).tracks@,
    {
        self.last_switch_times.set(joycon_idx, self.current_time);
    }

    /// Advances the simulated time by `delta` microseconds.
    pub fn update_time(&mut self, delta: u64)
        requires
            old(self).time() + delta <= u64::MAX,
        ensures
            final(self).time() == old(self).time() + delta,
            final(self).last_switches() == old(self).last_switches(),
            final(self).tracks@ == old(self).tracks@,
    {
        self.current_time = self.current_time + delta;
    }
}

/// Once a switch of channel `ch` has been authorized and recorded, no second
/// switch of `ch` is authorized until `MIN_SWITCH_INTERVAL` has passed: if a
/// later controller state still holds that switch as the channel's last one
/// and authorizes another, its time is at least the interval later.
pub proof fn lemma_no_second_switch_within_interval(
    first: TrackMergeController,
    later: TrackMergeController,
    ch: int,
    cur1: int,
    tgt1: int,
    idx1: int,
    cur2: int,
    tgt2: int,
    idx2: int,
)
    requires
        first.switch_decision(ch, cur1, tgt1, idx1),
        later.last_switches()[ch] == first.time(),
        later.switch_decision(ch, cur2, tgt2, idx2),
    ensures
        later.time() >= first.time() + MIN_SWITCH_INTERVAL,
{
}

} // verus!
