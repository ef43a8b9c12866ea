//! The library's own model of a Standard MIDI File: plain values only.
use vstd::prelude::*;

verus! {

/// What one track event does. Channel messages carry their channel (0..16);
/// keys, velocities and programs are MIDI data bytes (0..128).
#[derive(Debug, Clone)]
pub enum EventKind {
    NoteOn { channel: u8, key: u8, velocity: u8 },
    NoteOff { channel: u8, key: u8, velocity: u8 },
    ProgramChange { channel: u8, program: u8 },
    /// Any other channel message; only its channel is kept.
    OtherChannelMessage { channel: u8 },
    /// A tempo meta event, in microseconds per beat.
    Tempo { microseconds_per_beat: u32 },
    TrackName { text: Vec<u8> },
    InstrumentName { text: Vec<u8> },
    /// Any other meta, sysex or escape event.
    Other,
}

/// One track event: `delta` ticks after the previous event of its track.
#[derive(Debug, Clone)]
pub struct MidiEvent {
    pub delta: u32,
    pub kind: EventKind,
}

/// A parsed file with metrical timing.
#[derive(Debug, Clone)]
pub struct MidiFile {
    pub ticks_per_beat: u16,
    pub tracks: Vec<Vec<MidiEvent>>,
}

/// Largest tick position a track may reach.
pub const MAX_TICK: u64 = 0xffff_ffff;

/// Sum of the deltas of the first `n` events: the tick of event `n - 1`.
pub open spec fn tick_after(events: Seq<MidiEvent>, n: int) -> int
    decreases n,
{
    if n <= 0 || n > events.len() {
        0
    } else {
        tick_after(events, n - 1) + events[n - 1].delta
    }
}

/// Total length of a track in ticks.
pub open spec fn track_ticks(events: Seq<MidiEvent>) -> int {
    tick_after(events, events.len() as int)
}

pub open spec fn kind_wf(k: EventKind) -> bool {
    match k {
        EventKind::NoteOn { channel, key, velocity } => channel < 16 && key < 128 && velocity < 128,
        EventKind::NoteOff { channel, key, velocity } => channel < 16 && key < 128 && velocity < 128,
        EventKind::ProgramChange { channel, program } => channel < 16 && program < 128,
        EventKind::OtherChannelMessage { channel } => channel < 16,
        _ => true,
    }
}

/// A track whose events carry MIDI-ranged data, whose length fits a `u32`
/// tick, and whose event count fits a track chunk's 32-bit length.
pub open spec fn track_wf(events: Seq<MidiEvent>) -> bool {
    &&& events.len() <= 0xffff_ffff
    &&& forall|i: int| 0 <= i < events.len() ==> kind_wf(#[trigger] events[i].kind)
    &&& track_ticks(events) <= MAX_TICK
}

impl MidiFile {
    pub open spec fn wf(&self) -> bool {
        &&& self.ticks_per_beat > 0
        &&& forall|t: int| 0 <= t < self.tracks@.len() ==> track_wf(#[trigger] self.tracks@[t]@)
    }
}

/// Tick positions grow along a track.
pub proof fn lemma_tick_after_monotone(events: Seq<MidiEvent>, a: int, b: int)
    requires
        0 <= a <= b <= events.len(),
    ensures
        0 <= tick_after(events, a) <= tick_after(events, b),
    decreases b - a,
{
    if a < b {
        lemma_tick_after_monotone(events, a, b - 1);
    } else if a > 0 {
        lemma_tick_after_nonneg(events, a);
    }
}

proof fn lemma_tick_after_nonneg(events: Seq<MidiEvent>, n: int)
    ensures
        tick_after(events, n) >= 0,
    decreases n,
{
    if n > 0 && n <= events.len() {
        lemma_tick_after_nonneg(events, n - 1);
    }
}

proof fn lemma_tick_after_prefix(events: Seq<MidiEvent>, e: MidiEvent, n: int)
    requires
        0 <= n <= events.len(),
    ensures
        tick_after(events.push(e), n) == tick_after(events, n),
    decreases n,
{
    if n > 0 {
        lemma_tick_after_prefix(events, e, n - 1);
    }
}

/// Appending an event leaves earlier tick positions as they were.
pub proof fn lemma_tick_after_push(events: Seq<MidiEvent>, e: MidiEvent, n: int)
    requires
        0 <= n <= events.len(),
    ensures
        tick_after(events.push(e), n) == tick_after(events, n),
        tick_after(events.push(e), events.len() as int + 1) == tick_after(events, events.len() as int) + e.delta,
{
    lemma_tick_after_prefix(events, e, n);
    lemma_tick_after_prefix(events, e, events.len() as int);
}

} // verus!
