//! Reading a Standard MIDI File: the parser's result, as the plain values
//! that the timeline is built from.

use vstd::prelude::*;

verus! {

/// How the ticks of a file are measured.
#[derive(Clone, Copy, Debug, PartialEq, Eq, Structural)]
pub enum Timing {
    /// So many ticks to the quarter note.
    Metrical(u16),
    /// Ticks as fractions of a second of timecode.
    Timecode,
}

/// What kind of event it is, and what the timeline reads of it.
#[derive(Debug)]
pub enum EventKind {
    /// A new tempo, in microseconds per quarter note.
    Tempo(u32),
    /// The name of the track, as the file spells it.
    TrackName(Vec<u8>),
    /// A key goes down.
    NoteOn(u8),
    /// A key goes up.
    NoteOff(u8),
    /// Anything else.
    Other,
}

/// One event of a track.
#[derive(Debug)]
pub struct TrackEvent {
    /// Ticks since the track's previous event.
    pub delta: u32,
    pub kind: EventKind,
}

/// A parsed file: its timing and the events of its tracks.
#[derive(Debug)]
pub struct MidiFile {
    pub timing: Timing,
    pub tracks: Vec<Vec<TrackEvent>>,
}

/// An event's kind, with a name as the sequence of its bytes.
pub enum KindModel {
    Tempo(u32),
    TrackName(Seq<u8>),
    NoteOn(u8),
    NoteOff(u8),
    Other,
}

/// An event, as a mathematical value.
pub struct EventModel {
    pub delta: u32,
    pub kind: KindModel,
}

/// A file, as a mathematical value: its timing and, track by track, its
/// events.
pub struct FileModel {
    pub timing: Timing,
    pub tracks: Seq<Seq<EventModel>>,
}

impl View for EventKind {
    type V = KindModel;

    open spec fn view(&self) -> KindModel {
        match *self {
            EventKind::Tempo(t) => KindModel::Tempo(t),
            EventKind::TrackName(n) => KindModel::TrackName(n@),
            EventKind::NoteOn(k) => KindModel::NoteOn(k),
            EventKind::NoteOff(k) => KindModel::NoteOff(k),
            EventKind::Other => KindModel::Other,
        }
    }
}

impl View for TrackEvent {
    type V = EventModel;

    open spec fn view(&self) -> EventModel {
        EventModel { delta: self.delta, kind: self.kind@ }
    }
}

/// The events of a track, as mathematical values.
pub open spec fn events_of(track: Vec<TrackEvent>) -> Seq<EventModel> {
    Seq::new(track@.len(), |i: int| track@[i]@)
}

impl View for MidiFile {
    type V = FileModel;

    open spec fn view(&self) -> FileModel {
        FileModel {
            timing: self.timing,
            tracks: Seq::new(self.tracks@.len(), |t: int| events_of(self.tracks@[t])),
        }
    }
}

/// Why a MIDI file could not be turned into a song.
#[derive(Clone, Copy, Debug, PartialEq, Eq, Structural)]
pub enum MidiError {
    /// The bytes are not a Standard MIDI File.
    Parse,
    /// The file measures time in timecode, not in ticks to the quarter note.
    Timecode,
    /// A track name is not UTF-8.
    TrackName,
    /// A key goes up in a track that has neither a name nor a note yet.
    NoteOffWithoutChannel,
    /// The ticks of a track add up to more than 32 bits hold.
    TickOverflow,
}

#[verifier::external_type_specification]
#[verifier::external_body]
pub struct ExSmf<'a>(midly::Smf<'a>);

#[verifier::external_type_specification]
#[verifier::external_body]
pub struct ExMidlyError(midly::Error);

/// What `midly::Smf::parse` makes of the bytes: the file's timing and
/// events, or nothing if it rejects them.
pub uninterp spec fn smf_parsed(data: Seq<u8>) -> Option<FileModel>;

/// The timing and the events that a parsed file holds.
pub uninterp spec fn smf_content(smf: midly::Smf) -> FileModel;

/// Calls `midly::Smf::parse`. The parser's result depends on the bytes
/// alone; what it holds is named by `smf_parsed`.
#[verifier::external_body]
fn parse_smf<'a>(data: &'a [u8]) -> (parsed: Result<midly::Smf<'a>, midly::Error>)
    ensures
        parsed matches Ok(smf) ==> smf_parsed(data@) == Some(smf_content(smf)),
        parsed is Err ==> smf_parsed(data@) is None,
{
    midly::Smf::parse(data)
}

/// Reads `header.timing` of a parsed file; the ticks of metrical timing
/// leave their 15-bit wrapper through `as_int`.
#[verifier::external_body]
fn smf_timing(smf: &midly::Smf) -> (timing: Timing)
    ensures
        timing == smf_content(*smf).timing,
{
    match smf.header.timing {
        midly::Timing::Metrical(ticks) => Timing::Metrical(ticks.as_int()),
        midly::Timing::Timecode(_, _) => Timing::Timecode,
    }
}

/// The length of `tracks` of a parsed file.
#[verifier::external_body]
fn smf_track_count(smf: &midly::Smf) -> (count: usize)
    ensures
        count == smf_content(*smf).tracks.len(),
{
    smf.tracks.len()
}

/// The length of one track of a parsed file.
#[verifier::external_body]
fn smf_track_len(smf: &midly::Smf, track: usize) -> (len: usize)
    requires
        track < smf_content(*smf).tracks.len(),
    ensures
        len == smf_content(*smf).tracks[track as int].len(),
{
    smf.tracks[track].len()
}

/// One event of a parsed file: its delta, and of tempo, track name, note-on
/// and note-off messages the tempo, the name's bytes or the key.
#[verifier::external_body]
fn smf_event(smf: &midly::Smf, track: usize, index: usize) -> (event: TrackEvent)
    requires
        track < smf_content(*smf).tracks.len(),
        index < smf_content(*smf).tracks[track as int].len(),
    ensures
        event@ == smf_content(*smf).tracks[track as int][index as int],
{
    let event = &smf.tracks[track][index];
    let kind = match event.kind {
        midly::TrackEventKind::Meta(midly::MetaMessage::Tempo(t)) => EventKind::Tempo(t.as_int()),
        midly::TrackEventKind::Meta(midly::MetaMessage::TrackName(n)) => EventKind::TrackName(n.to_vec()),
        midly::TrackEventKind::Midi { message: midly::MidiMessage::NoteOn { key, .. }, .. } =>
            EventKind::NoteOn(key.as_int()),
        midly::TrackEventKind::Midi { message: midly::MidiMessage::NoteOff { key, .. }, .. } =>
            EventKind::NoteOff(key.as_int()),
        _ => EventKind::Other,
    };
    TrackEvent { delta: event.delta.as_int(), kind }
}

/// Parses a Standard MIDI File. The result holds what the parser found,
/// or `MidiError::Parse` if the parser rejects the bytes.
pub fn read_midi(data: &[u8]) -> (file: Result<MidiFile, MidiError>)
    ensures
        match file {
            Ok(f) => smf_parsed(data@) == Some(f@),
            Err(e) => e == MidiError::Parse && smf_parsed(data@) is None,
        },
{
    match parse_smf(data) {
        Err(_) => Err(MidiError::Parse),
        Ok(smf) => {
            let ghost found = smf_content(smf);
            let count: usize = smf_track_count(&smf);
            let mut tracks: Vec<Vec<TrackEvent>> = Vec::new();
            let mut t: usize = 0;
            while t < count
                invariant
                    t <= count,
                    found == smf_content(smf),
                    count == found.tracks.len(),
                    tracks@.len() == t,
                    forall|k: int| 0 <= k < t ==> events_of(#[trigger] tracks@[k]) == found.tracks[k],
                decreases count - t,
            {
                let len: usize = smf_track_len(&smf, t);
                let mut events: Vec<TrackEvent> = Vec::new();
                let mut i: usize = 0;
                while i < len
                    invariant
                        i <= len,
                        t < count,
                        found == smf_content(smf),
                        count == found.tracks.len(),
                        len == found.tracks[t as int].len(),
                        events@.len() == i,
                        forall|k: int| 0 <= k < i ==> (#[trigger] events@[k])@ == found.tracks[t as int][k],
                    decreases len - i,
                {
                    events.push(smf_event(&smf, t, i));
                    i = i + 1;
                }
                assert(events_of(events) =~= found.tracks[t as int]);
                tracks.push(events);
                t = t + 1;
            }
            let file = MidiFile { timing: smf_timing(&smf), tracks };
            assert(file@.tracks =~= found.tracks);
            Ok(file)
        },
    }
}

} // verus!
