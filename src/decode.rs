//! Reading a Standard MIDI File into the library's event model, through the
//! midly parser.
use vstd::prelude::*;
use midly::{MetaMessage, MidiMessage};
use crate::events::{EventKind, MidiEvent, MidiFile, kind_wf, track_wf, track_ticks, tick_after, MAX_TICK, lemma_tick_after_push};

verus! {

#[verifier::external_type_specification]
#[verifier::external_body]
pub struct ExSmf<'a>(midly::Smf<'a>);

#[verifier::external_type_specification]
#[verifier::external_body]
pub struct ExMidlyError(midly::Error);

/// Why a file could not be turned into rumble tracks.
#[derive(Debug)]
pub enum ParseError {
    /// The parser refused the bytes.
    MidiError(midly::Error),
    /// Zero ticks per beat, or a track too long to time.
    Malformed,
    /// No track to play.
    NoTracks,
}

/// The bytes start like a MIDI file ("MThd") or a RIFF-wrapped one ("RIFF").
pub open spec fn starts_as_midi(b: Seq<u8>) -> bool {
    b.len() >= 4 && (b.subrange(0, 4) == seq![0x4du8, 0x54, 0x68, 0x64] || b.subrange(0, 4) == seq![0x52u8, 0x49, 0x46, 0x46])
}

/// A parsed file in the library's event model: the ticks per beat of
/// metrical timing (none for timecode timing) and each track's events.
pub type MidiModel = (Option<u16>, Seq<Seq<MidiEvent>>);

/// What `midly::Smf::parse` makes of some bytes, in the library's event
/// model: none when it refuses them. It depends on the bytes alone.
pub uninterp spec fn midi_of(raw: Seq<u8>) -> Option<MidiModel>;

/// The timing of a parsed file: ticks per beat, none for timecode timing.
pub uninterp spec fn smf_timing(s: midly::Smf) -> Option<u16>;

/// The events a parsed file holds, track by track, in the library's model:
/// channel messages, tempo and name meta events, `Other` for the rest.
pub uninterp spec fn smf_events(s: midly::Smf) -> Seq<Seq<MidiEvent>>;

pub open spec fn is_channel_kind(k: EventKind) -> bool {
    k is NoteOn || k is NoteOff || k is ProgramChange || k is OtherChannelMessage
}

pub open spec fn is_named_meta(k: EventKind) -> bool {
    k is Tempo || k is TrackName || k is InstrumentName
}

/// Event `i` of track `t`, if there is one.
pub open spec fn event_at(tracks: Seq<Seq<MidiEvent>>, t: int, i: int) -> Option<MidiEvent> {
    if 0 <= t < tracks.len() && 0 <= i < tracks[t].len() { Some(tracks[t][i]) } else { None }
}

/// Relies on `midly::Smf::parse`, which refuses bytes that start with neither
/// "MThd" nor "RIFF" and otherwise depends on the bytes alone.
#[verifier::external_body]
fn parse_smf(raw: &[u8]) -> (r: Result<midly::Smf<'_>, midly::Error>)
    ensures
        !starts_as_midi(raw@) ==> r is Err,
        r is Err <==> midi_of(raw@) is None,
        r matches Ok(s) ==> midi_of(raw@) == Some((smf_timing(s), smf_events(s))),
{
    midly::Smf::parse(raw)
}

/// Relies on midly's header: the ticks per beat of metrical timing (a 15-bit
/// value), none for timecode timing.
#[verifier::external_body]
fn smf_ticks_per_beat(smf: &midly::Smf) -> (r: Option<u16>)
    ensures
        r == smf_timing(*smf),
        r matches Some(t) ==> t < 0x8000,
{
    match smf.header.timing {
        midly::Timing::Metrical(t) => Some(t.as_int()),
        midly::Timing::Timecode(..) => None,
    }
}

/// Relies on midly's `Smf::tracks`: the number of tracks.
#[verifier::external_body]
fn smf_track_count(smf: &midly::Smf) -> (r: usize)
    ensures
        r == smf_events(*smf).len(),
{
    smf.tracks.len()
}

/// Relies on midly's `Smf::tracks`: the number of events of track `t`.
#[verifier::external_body]
fn smf_track_len(smf: &midly::Smf, t: usize) -> (r: Option<usize>)
    ensures
        r is Some <==> t < smf_events(*smf).len(),
        r matches Some(n) ==> n == smf_events(*smf)[t as int].len(),
{
    Some(smf.tracks.get(t)?.len())
}

/// Relies on midly's `TrackEvent::delta`, a 28-bit tick count.
#[verifier::external_body]
fn smf_delta(smf: &midly::Smf, t: usize, i: usize) -> (r: Option<u32>)
    ensures
        r == (match event_at(smf_events(*smf), t as int, i as int) { Some(e) => Some(e.delta), None => None }),
        r matches Some(d) ==> d < 0x1000_0000,
{
    Some(smf.tracks.get(t)?.get(i)?.delta.as_int())
}

/// Relies on midly's `TrackEventKind::Midi`: the channel message of an
/// event, with its 4-bit channel and 7-bit data.
#[verifier::external_body]
fn smf_channel_event(smf: &midly::Smf, t: usize, i: usize) -> (r: Option<EventKind>)
    ensures
        r == (match event_at(smf_events(*smf), t as int, i as int) {
            Some(e) => if is_channel_kind(e.kind) { Some(e.kind) } else { None },
            None => None,
        }),
        r matches Some(k) ==> kind_wf(k),
{
    let midly::TrackEventKind::Midi { channel, message } = smf.tracks.get(t)?.get(i)?.kind else { return None };
    let c = channel.as_int();
    Some(match message {
        MidiMessage::NoteOn { key, vel } => EventKind::NoteOn { channel: c, key: key.as_int(), velocity: vel.as_int() },
        MidiMessage::NoteOff { key, vel } => EventKind::NoteOff { channel: c, key: key.as_int(), velocity: vel.as_int() },
        MidiMessage::ProgramChange { program } => EventKind::ProgramChange { channel: c, program: program.as_int() },
        _ => EventKind::OtherChannelMessage { channel: c },
    })
}

/// Relies on midly's `MetaMessage`: tempo (24-bit), track name and instrument
/// name events; every other event is `Other` in the library's model.
#[verifier::external_body]
fn smf_meta_event(smf: &midly::Smf, t: usize, i: usize) -> (r: Option<EventKind>)
    ensures
        r == (match event_at(smf_events(*smf), t as int, i as int) {
            Some(e) => if is_named_meta(e.kind) { Some(e.kind) } else { None },
            None => None,
        }),
        r is None ==> (event_at(smf_events(*smf), t as int, i as int) matches Some(e)
            ==> (is_channel_kind(e.kind) || e.kind is Other)),
{
    let midly::TrackEventKind::Meta(meta) = smf.tracks.get(t)?.get(i)?.kind else { return None };
    match meta {
        MetaMessage::Tempo(v) => Some(EventKind::Tempo { microseconds_per_beat: v.as_int() }),
        MetaMessage::TrackName(b) => Some(EventKind::TrackName { text: b.to_vec() }),
        MetaMessage::InstrumentName(b) => Some(EventKind::InstrumentName { text: b.to_vec() }),
        _ => None,
    }
}

/// Ticks per beat of a model: timecode timing counts 24.
pub open spec fn model_ticks_per_beat(m: MidiModel) -> int {
    match m.0 {
        Some(t) => t as int,
        None => 24,
    }
}

/// A model the library can time: non-zero ticks per beat, and every track
/// within `u32::MAX` events and `MAX_TICK` ticks.
pub open spec fn model_ok(m: MidiModel) -> bool {
    &&& model_ticks_per_beat(m) > 0
    &&& forall|t: int| 0 <= t < m.1.len() ==> (#[trigger] m.1[t]).len() <= 0xffff_ffff && track_ticks(m.1[t]) <= MAX_TICK
}

/// `f` holds the model `m`.
pub open spec fn file_matches(f: MidiFile, m: MidiModel) -> bool {
    &&& f.ticks_per_beat == model_ticks_per_beat(m)
    &&& f.tracks@.len() == m.1.len()
    &&& forall|t: int| 0 <= t < m.1.len() ==> (#[trigger] f.tracks@[t])@ == m.1[t]
}

/// Reads a file into the event model (see `midi_of`). Bytes the parser
/// refuses give `MidiError`; a model that cannot be timed (`model_ok`) gives
/// `Malformed`; else the file holds the model.
pub fn decode_midi(bytes: &[u8]) -> (r: Result<MidiFile, ParseError>)
    ensures
        match midi_of(bytes@) {
            None => r matches Err(ParseError::MidiError(_)),
            Some(m) => if model_ok(m) {
                r matches Ok(f) && file_matches(f, m)
            } else {
                r matches Err(ParseError::Malformed)
            },
        },
        r matches Ok(f) ==> f.wf(),
        !starts_as_midi(bytes@) ==> r matches Err(ParseError::MidiError(_)),
{
    let smf = match parse_smf(bytes) {
        Ok(s) => s,
        Err(e) => return Err(ParseError::MidiError(e)),
    };
    let ghost m: MidiModel = (smf_timing(smf), smf_events(smf));
    let ghost model = smf_events(smf);
    let ticks_per_beat: u16 = match smf_ticks_per_beat(&smf) {
        Some(t) => t,
        None => 24,
    };
    if ticks_per_beat == 0 {
        return Err(ParseError::Malformed);
    }
    let count = smf_track_count(&smf);
    let mut tracks: Vec<Vec<MidiEvent>> = Vec::new();
    let mut t: usize = 0;
    while t < count
        invariant
            model == smf_events(smf),
            m.1 == model,
            midi_of(bytes@) == Some(m),
            starts_as_midi(bytes@),
            count == model.len(),
            t <= count,
            tracks@.len() == t,
            forall|k: int| 0 <= k < tracks@.len() ==> track_wf(#[trigger] tracks@[k]@),
            forall|k: int| 0 <= k < tracks@.len() ==> (#[trigger] tracks@[k])@ == model[k],
        decreases count - t,
    {
        let len = match smf_track_len(&smf, t) {
            Some(n) => n,
            None => return Err(ParseError::Malformed),
        };
        if len > 0xffff_ffff {
            assert(!model_ok(m)) by {
                assert(m.1[t as int].len() > 0xffff_ffff);
            }
            return Err(ParseError::Malformed);
        }
        let ghost mt = model[t as int];
        let mut events: Vec<MidiEvent> = Vec::new();
        let mut tick: u64 = 0;
        let mut i: usize = 0;
        while i < len
            invariant
                model == smf_events(smf),
                m.1 == model,
                midi_of(bytes@) == Some(m),
                starts_as_midi(bytes@),
                t < model.len(),
                mt == model[t as int],
                len == mt.len(),
                i <= len <= 0xffff_ffff,
                events@ == mt.subrange(0, i as int),
                forall|k: int| 0 <= k < events@.len() ==> kind_wf(#[trigger] events@[k].kind),
                tick == tick_after(events@, i as int),
                tick <= MAX_TICK,
            decreases len - i,
        {
            let delta = match smf_delta(&smf, t, i) {
                Some(d) => d,
                None => return Err(ParseError::Malformed),
            };
            if tick + delta as u64 > MAX_TICK {
                proof {
                    assert(events@.subrange(0, i as int) =~= mt.subrange(0, i as int));
                    lemma_tick_after_same_prefix(events@, mt, i as int);
                    crate::events::lemma_tick_after_monotone(mt, i as int + 1, mt.len() as int);
                    assert(track_ticks(m.1[t as int]) > MAX_TICK);
                }
                return Err(ParseError::Malformed);
            }
            let kind = match smf_channel_event(&smf, t, i) {
                Some(k) => k,
                None => match smf_meta_event(&smf, t, i) {
                    Some(k) => k,
                    None => EventKind::Other,
                },
            };
            let e = MidiEvent { delta, kind };
            assert(e == mt[i as int]);
            proof {
                lemma_tick_after_push(events@, e, i as int);
            }
            events.push(e);
            tick = tick + delta as u64;
            i = i + 1;
            assert(events@ =~= mt.subrange(0, i as int));
        }
        assert(events@ =~= mt);
        tracks.push(events);
        t = t + 1;
    }
    let f = MidiFile { ticks_per_beat, tracks };
    proof {
        assert forall|k: int| 0 <= k < m.1.len() implies (#[trigger] m.1[k]).len() <= 0xffff_ffff
            && track_ticks(m.1[k]) <= MAX_TICK by {
            assert(track_wf(tracks@[k]@));
        }
        assert(model_ok(m));
        assert(file_matches(f, m));
    }
    Ok(f)
}

/// Tick positions depend only on the events before them.
proof fn lemma_tick_after_same_prefix(a: Seq<MidiEvent>, b: Seq<MidiEvent>, n: int)
    requires
        0 <= n <= a.len(),
        n <= b.len(),
        a.subrange(0, n) == b.subrange(0, n),
    ensures
        tick_after(a, n) == tick_after(b, n),
        tick_after(a, n + 1) == tick_after(b, n + 1) || n + 1 > a.len() || n + 1 > b.len() || a[n].delta != b[n].delta,
    decreases n,
{
    if n > 0 {
        assert(a.subrange(0, n - 1) =~= a.subrange(0, n).subrange(0, n - 1));
        assert(b.subrange(0, n - 1) =~= b.subrange(0, n).subrange(0, n - 1));
        lemma_tick_after_same_prefix(a, b, n - 1);
        assert(a[n - 1] == a.subrange(0, n)[n - 1]);
        assert(b[n - 1] == b.subrange(0, n)[n - 1]);
    }
}

} // verus!
