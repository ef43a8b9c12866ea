//! Per-track features, the role classifier and the suitability scores.
//!
//! Fractional quantities are fixed point with `ONE` (one million) standing for
//! 1.0; durations are in microseconds.
use vstd::prelude::*;

verus! {

/// Fixed-point unit: `ONE` stands for 1.0.
pub const ONE: u64 = 1_000_000;

/// The musical role of a track.
#[derive(Debug, Clone, Copy, PartialEq, Eq, Structural)]
pub enum TrackType {
    Melody,
    Harmony,
    Bass,
    Drums,
    Vocals,
    Unknown,
}

/// Aggregate features of one track.
#[derive(Debug)]
pub struct TrackMetrics {
    pub track_index: usize,
    pub note_count: usize,
    pub unique_notes: usize,
    /// Mean velocity, times `ONE`.
    pub avg_velocity: u64,
    /// Sample variance of the velocities, times `ONE`.
    pub velocity_variance: u64,
    /// Mean held-note time, in microseconds.
    pub avg_note_duration: u64,
    /// Track length, in microseconds.
    pub total_duration: u64,
    /// Notes per second, times `ONE`.
    pub note_density: u64,
    pub is_percussion: bool,
    pub track_name: Option<String>,
    pub track_instrument: Option<String>,
    pub track_type: TrackType,
    pub pitch_range: u8,
    /// Mean absolute semitone step between consecutive onsets, times `ONE`.
    pub melodic_movement: u64,
    /// Held-note time over track time, times `ONE`.
    pub sustain_ratio: u64,
    /// `1 / (1 + sqrt(variance / mean))` of the onset intervals, times `ONE`.
    pub rhythmic_regularity: u64,
}

fn copy_text(t: &Option<String>) -> (r: Option<String>)
    ensures
        r == *t,
{
    match t {
        Some(s) => Some(s.clone()),
        None => None,
    }
}

impl Default for TrackMetrics {
    /// No notes, no names, role unknown.
    fn default() -> (r: TrackMetrics)
        ensures
            r == (TrackMetrics {
                track_index: 0,
                note_count: 0,
                unique_notes: 0,
                avg_velocity: 0,
                velocity_variance: 0,
                avg_note_duration: 0,
                total_duration: 0,
                note_density: 0,
                is_percussion: false,
                track_name: None,
                track_instrument: None,
                track_type: TrackType::Unknown,
                pitch_range: 0,
                melodic_movement: 0,
                sustain_ratio: 0,
                rhythmic_regularity: 0,
            }),
    {
        TrackMetrics {
            track_index: 0,
            note_count: 0,
            unique_notes: 0,
            avg_velocity: 0,
            velocity_variance: 0,
            avg_note_duration: 0,
            total_duration: 0,
            note_density: 0,
            is_percussion: false,
            track_name: None,
            track_instrument: None,
            track_type: TrackType::Unknown,
            pitch_range: 0,
            melodic_movement: 0,
            sustain_ratio: 0,
            rhythmic_regularity: 0,
        }
    }
}

impl TrackMetrics {
    /// An equal copy.
    pub fn duplicate(&self) -> (r: TrackMetrics)
        ensures
            r == *self,
    {
        TrackMetrics {
            track_index: self.track_index,
            note_count: self.note_count,
            unique_notes: self.unique_notes,
            avg_velocity: self.avg_velocity,
            velocity_variance: self.velocity_variance,
            avg_note_duration: self.avg_note_duration,
            total_duration: self.total_duration,
            note_density: self.note_density,
            is_percussion: self.is_percussion,
            track_name: copy_text(&self.track_name),
            track_instrument: copy_text(&self.track_instrument),
            track_type: self.track_type,
            pitch_range: self.pitch_range,
            melodic_movement: self.melodic_movement,
            sustain_ratio: self.sustain_ratio,
            rhythmic_regularity: self.rhythmic_regularity,
        }
    }
}

/// `|a - b|`.
pub open spec fn dist(a: int, b: int) -> int {
    if a >= b { a - b } else { b - a }
}

/// `max(0, x)`.
pub open spec fn clip(x: int) -> int {
    if x > 0 { x } else { 0 }
}

/// How close `x` is to `ideal`, from `ONE` (equal) down to 0 at a distance of
/// `ONE * span`.
pub open spec fn closeness(x: int, ideal: int, span: int) -> int {
    clip(ONE - dist(x, ideal) / span)
}

/// Role multiplier of the whole-track score, in tenths.
pub open spec fn role_tenths(t: TrackType) -> int {
    match t {
        TrackType::Harmony => 15,
        TrackType::Melody => 13,
        TrackType::Bass => 11,
        TrackType::Vocals => 11,
        TrackType::Unknown => 10,
        TrackType::Drums => 0,
    }
}

/// Role multiplier of the window score, in hundredths.
pub open spec fn window_role_hundredths(t: TrackType) -> int {
    match t {
        TrackType::Melody => 115,
        TrackType::Bass => 110,
        TrackType::Harmony => 105,
        TrackType::Vocals => 110,
        TrackType::Unknown => 100,
        TrackType::Drums => 0,
    }
}

impl TrackMetrics {
    /// The eight sub-scores, each in `[0, ONE]`, weighted in thousandths
    /// (250 density, 100 velocity variance, 150 unique-note ratio, 150 note
    /// duration, 150 pitch range, 100 melodic movement, 50 sustain, 50
    /// rhythmic regularity), summed, in `ONE` units.
    pub open spec fn base_score(&self) -> int {
        (closeness(self.note_density as int, 3 * ONE, 5) * 250
            + (if self.velocity_variance / 30 < ONE { (self.velocity_variance / 30) as int } else { ONE as int }) * 100
            + closeness(self.unique_notes as int * ONE as int / (if self.note_count > 1 { self.note_count as int } else { 1int }), (ONE / 2) as int, 1) * 150
            + closeness(self.avg_note_duration as int, 300_000, 1) * 150
            + closeness(self.pitch_range * ONE / 127, 300_000, 1) * 150
            + closeness(self.melodic_movement as int, 2 * ONE, 12) * 100
            + closeness(self.sustain_ratio as int, 600_000, 1) * 50
            + (if self.rhythmic_regularity < ONE { self.rhythmic_regularity as int } else { ONE as int }) * 50) / 1000
    }

    /// Busy tracks (2 to 4 notes per second, 5 to 20 distinct pitches, at
    /// least 300 notes) get 13 tenths, others 10.
    pub open spec fn bonus_tenths(&self) -> int {
        if 2 * ONE <= self.note_density <= 4 * ONE && 5 <= self.unique_notes <= 20 && self.note_count >= 300 {
            13
        } else {
            10
        }
    }

    /// Whole-track suitability, in `ONE` units: 0 for percussion, else the
    /// base score times the role and busy-track multipliers.
    #[verifier::opaque]
    pub open spec fn score(&self) -> int {
        if self.is_percussion {
            0
        } else {
            self.base_score() * role_tenths(self.track_type) * self.bonus_tenths() / 100
        }
    }

    /// Suitability for a short window with `count` notes over `duration`
    /// microseconds: 0 for percussion, else `0.8` per note, times up to 20%
    /// more for a density near 3 notes per second, times the role multiplier.
    pub open spec fn window_score(&self, count: int, duration: int) -> int {
        if self.is_percussion {
            0
        } else {
            let density = if duration > 0 { count * ONE * 1_000_000 / duration } else { 0 };
            let boost = ONE + closeness(density, 3 * ONE, 5) / 5;
            count * 800_000 * boost / (ONE as int) * window_role_hundredths(self.track_type) / 100
        }
    }

    fn base_score_exec(&self) -> (r: u64)
        ensures
            r == self.base_score(),
            r <= ONE,
    {
        let density = closeness_exec(self.note_density as u128, 3 * ONE as u128, 5);
        let velocity = if self.velocity_variance / 30 < ONE { self.velocity_variance / 30 } else { ONE };
        let notes: u64 = if self.note_count > 1 { self.note_count as u64 } else { 1 };
        let ratio = self.unique_notes as u128 * 1_000_000 / notes as u128;
        let variety = closeness_exec(ratio, ONE as u128 / 2, 1);
        let duration = closeness_exec(self.avg_note_duration as u128, 300_000, 1);
        let range = closeness_exec(self.pitch_range as u128 * 1_000_000 / 127, 300_000, 1);
        let movement = closeness_exec(self.melodic_movement as u128, 2 * ONE as u128, 12);
        let sustain = closeness_exec(self.sustain_ratio as u128, 600_000, 1);
        let rhythm = if self.rhythmic_regularity < ONE { self.rhythmic_regularity } else { ONE };
        (density * 250 + velocity * 100 + variety * 150 + duration * 150 + range * 150 + movement * 100
            + sustain * 50 + rhythm * 50) / 1000
    }

    /// The whole-track score; percussion tracks score exactly 0.
    pub fn calculate_score(&self) -> (r: u64)
        ensures
            r == self.score(),
            self.is_percussion ==> r == 0,
            r <= 2 * ONE,
    {
        proof {
            reveal(TrackMetrics::score);
        }
        if self.is_percussion {
            return 0;
        }
        let base = self.base_score_exec();
        let role: u64 = match self.track_type {
            TrackType::Harmony => 15,
            TrackType::Melody => 13,
            TrackType::Bass => 11,
            TrackType::Vocals => 11,
            TrackType::Unknown => 10,
            TrackType::Drums => 0,
        };
        let bonus: u64 = if 2 * ONE <= self.note_density && self.note_density <= 4 * ONE && 5 <= self.unique_notes
            && self.unique_notes <= 20 && self.note_count >= 300 {
            13
        } else {
            10
        };
        assert(role == role_tenths(self.track_type));
        assert(bonus == self.bonus_tenths());
        assert(base * role * bonus <= ONE * 15 * 13) by (nonlinear_arith)
            requires base <= ONE, role <= 15, bonus <= 13;
        base * role * bonus / 100
    }

    /// The window score (see `window_score`), for live ranking.
    pub fn calculate_window_score(&self, window_note_count: usize, window_duration: u64) -> (r: u128)
        ensures
            r == self.window_score(window_note_count as int, window_duration as int),
            self.is_percussion ==> r == 0,
    {
        if self.is_percussion {
            return 0;
        }
        let count = window_note_count as u128;
        let density: u128 = if window_duration > 0 {
            count * 1_000_000 * 1_000_000 / window_duration as u128
        } else {
            0
        };
        let near: u128 = if density >= 3_000_000 {
            if (density - 3_000_000) / 5 < 1_000_000 { 1_000_000 - (density - 3_000_000) / 5 } else { 0 }
        } else {
            1_000_000 - (3_000_000 - density) / 5
        };
        assert(near <= 1_000_000);
        let boost = 1_000_000 + near / 5;
        let notes = count * 800_000;
        assert(notes * boost <= 0xffff_ffff_ffff_ffff * 800_000 * 1_200_000) by (nonlinear_arith)
            requires notes <= 0xffff_ffff_ffff_ffff * 800_000, boost <= 1_200_000;
        let scaled = notes * boost / 1_000_000;
        assert(scaled <= 0xffff_ffff_ffff_ffff * 800_000 * 1_200_000);
        let role: u128 = match self.track_type {
            TrackType::Melody => 115,
            TrackType::Bass => 110,
            TrackType::Harmony => 105,
            TrackType::Vocals => 110,
            TrackType::Unknown => 100,
            TrackType::Drums => 0,
        };
        scaled * role / 100
    }
}

fn closeness_exec(x: u128, ideal: u128, span: u128) -> (r: u64)
    requires
        span > 0,
    ensures
        r == closeness(x as int, ideal as int, span as int),
        r <= ONE,
{
    let d = if x >= ideal { x - ideal } else { ideal - x };
    if d / span < ONE as u128 { (ONE as u128 - d / span) as u64 } else { 0 }
}

/// What `str::to_lowercase` makes of a text.
pub uninterp spec fn lower_of(s: Seq<char>) -> Seq<char>;

/// Relies on `str::to_lowercase`: the lower-case form of a text, which
/// depends on its characters alone.
#[verifier::external_body]
fn lowercase(s: &str) -> (r: Vec<char>)
    ensures
        r@ == lower_of(s@),
{
    s.to_lowercase().chars().collect()
}

/// `pat` occurs in `text`.
pub open spec fn has_infix(text: Seq<char>, pat: Seq<char>) -> bool {
    exists|i: int| 0 <= i <= text.len() - pat.len() && #[trigger] text.subrange(i, i + pat.len()) == pat
}

fn contains_text(text: &Vec<char>, pat: &Vec<char>) -> (r: bool)
    ensures
        r == has_infix(text@, pat@),
{
    if pat.len() > text.len() {
        return false;
    }
    let mut i: usize = 0;
    while i <= text.len() - pat.len()
        invariant
            pat@.len() <= text@.len(),
            i <= text@.len() - pat@.len() + 1,
            forall|k: int| 0 <= k < i ==> #[trigger] text@.subrange(k, k + pat@.len()) != pat@,
        decreases text@.len() - pat@.len() + 1 - i,
    {
        let mut j: usize = 0;
        let mut same = true;
        while j < pat.len()
            invariant
                pat@.len() <= text@.len(),
                i + pat@.len() <= text@.len(),
                j <= pat@.len(),
                same == (forall|m: int| 0 <= m < j ==> text@[i + m] == pat@[m]),
            decreases pat@.len() - j,
        {
            let tl = text.len();
            assert(i + j < tl);
            if text[i + j] != pat[j] {
                same = false;
            }
            j = j + 1;
        }
        if same {
            assert(text@.subrange(i as int, i + pat@.len()) =~= pat@);
            return true;
        }
        assert(text@.subrange(i as int, i + pat@.len()) != pat@) by {
            let m = choose|m: int| 0 <= m < pat@.len() && text@[i + m] != pat@[m];
            assert(text@.subrange(i as int, i + pat@.len())[m] == text@[i + m]);
        }
        i = i + 1;
    }
    false
}

/// Role of a General MIDI program, by family of eight.
pub open spec fn program_role(program: int) -> TrackType {
    let family = program / 8;
    if program >= 128 { TrackType::Unknown }
    else if family == 0 { TrackType::Melody }
    else if family <= 3 { TrackType::Harmony }
    else if family == 4 { TrackType::Bass }
    else if family <= 6 { TrackType::Harmony }
    else if family <= 10 { TrackType::Melody }
    else if family <= 12 { TrackType::Harmony }
    else if family == 13 { TrackType::Melody }
    else if family == 14 { TrackType::Drums }
    else { TrackType::Unknown }
}

/// Role from lower-cased name and instrument hints, then from the statistics.
pub open spec fn hinted_role(name: Seq<char>, instrument: Seq<char>, density: int, unique: int, sustain: int) -> TrackType {
    if has_infix(name, seq!['v', 'o', 'c']) || has_infix(name, seq!['s', 'i', 'n', 'g'])
        || has_infix(name, seq!['v', 'o', 'i', 'c', 'e']) || has_infix(instrument, seq!['v', 'o', 'c', 'a', 'l']) {
        TrackType::Vocals
    } else if has_infix(name, seq!['b', 'a', 's', 's']) || has_infix(instrument, seq!['b', 'a', 's', 's']) {
        TrackType::Bass
    } else if has_infix(name, seq!['l', 'e', 'a', 'd']) || has_infix(name, seq!['m', 'e', 'l', 'o', 'd', 'y'])
        || has_infix(instrument, seq!['l', 'e', 'a', 'd']) {
        TrackType::Melody
    } else if density > 3 * ONE && unique > 12 {
        TrackType::Melody
    } else if sustain > 700_000 {
        TrackType::Harmony
    } else {
        TrackType::Unknown
    }
}

/// Lower-cased text of an optional name; nothing for no name.
pub open spec fn lowered(t: Option<String>) -> Seq<char> {
    match t {
        Some(s) => lower_of(s@),
        None => seq![],
    }
}

/// Role of a track: percussion first, then the program, then the hints.
pub open spec fn role_of(m: TrackMetrics, program: Option<u8>) -> TrackType {
    if m.is_percussion {
        TrackType::Drums
    } else if program is Some {
        program_role(program->0 as int)
    } else {
        hinted_role(lowered(m.track_name), lowered(m.track_instrument), m.note_density as int, m.unique_notes as int,
            m.sustain_ratio as int)
    }
}

fn lowered_exec(t: &Option<String>) -> (r: Vec<char>)
    ensures
        r@ == lowered(*t),
{
    match t {
        Some(s) => lowercase(s.as_str()),
        None => Vec::new(),
    }
}

impl TrackMetrics {
    /// Sets `track_type` from the percussion flag, the program number or the
    /// name hints (see `role_of`); nothing else changes.
    pub fn determine_track_type(&mut self, program_number: Option<u8>)
        ensures
            *final(self) == (TrackMetrics { track_type: role_of(*old(self), program_number), ..*old(self) }),
    {
        if self.is_percussion {
            self.track_type = TrackType::Drums;
            return;
        }
        if let Some(program) = program_number {
            let family = program / 8;
            self.track_type = if program >= 128 {
                TrackType::Unknown
            } else if family == 0 {
                TrackType::Melody
            } else if family <= 3 {
                TrackType::Harmony
            } else if family == 4 {
                TrackType::Bass
            } else if family <= 6 {
                TrackType::Harmony
            } else if family <= 10 {
                TrackType::Melody
            } else if family <= 12 {
                TrackType::Harmony
            } else if family == 13 {
                TrackType::Melody
            } else if family == 14 {
                TrackType::Drums
            } else {
                TrackType::Unknown
            };
            return;
        }
        let name = lowered_exec(&self.track_name);
        let instrument = lowered_exec(&self.track_instrument);
        let voc = vec!['v', 'o', 'c'];
        let sing = vec!['s', 'i', 'n', 'g'];
        let voice = vec!['v', 'o', 'i', 'c', 'e'];
        let vocal_word = vec!['v', 'o', 'c', 'a', 'l'];
        let bass_word = vec!['b', 'a', 's', 's'];
        let lead = vec!['l', 'e', 'a', 'd'];
        let melody_word = vec!['m', 'e', 'l', 'o', 'd', 'y'];
        assert(voc@ =~= seq!['v', 'o', 'c']);
        assert(sing@ =~= seq!['s', 'i', 'n', 'g']);
        assert(voice@ =~= seq!['v', 'o', 'i', 'c', 'e']);
        assert(vocal_word@ =~= seq!['v', 'o', 'c', 'a', 'l']);
        assert(bass_word@ =~= seq!['b', 'a', 's', 's']);
        assert(lead@ =~= seq!['l', 'e', 'a', 'd']);
        assert(melody_word@ =~= seq!['m', 'e', 'l', 'o', 'd', 'y']);
        let vocal = contains_text(&name, &voc) || contains_text(&name, &sing) || contains_text(&name, &voice)
            || contains_text(&instrument, &vocal_word);
        let bass = contains_text(&name, &bass_word) || contains_text(&instrument, &bass_word);
        let melody = contains_text(&name, &lead) || contains_text(&name, &melody_word) || contains_text(&instrument, &lead);
        self.track_type = if vocal {
            TrackType::Vocals
        } else if bass {
            TrackType::Bass
        } else if melody {
            TrackType::Melody
        } else if self.note_density > 3 * ONE && self.unique_notes > 12 {
            TrackType::Melody
        } else if self.sustain_ratio > 700_000 {
            TrackType::Harmony
        } else {
            TrackType::Unknown
        };
    }
}

/// A percussion track scores exactly 0, whatever its other metrics.
pub proof fn lemma_percussion_scores_zero(m: TrackMetrics)
    requires
        m.is_percussion,
    ensures
        m.score() == 0,
        forall|count: int, duration: int| m.window_score(count, duration) == 0,
{
    reveal(TrackMetrics::score);
}

} // verus!
