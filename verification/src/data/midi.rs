//! The notes of a MIDI file, channel by channel, and the song that scrolls
//! them past the middle of the screen.

use vstd::prelude::*;
use vstd::utf8::{decode_utf8, valid_utf8};
use std::collections::HashMap;
use vstd::string::StrSliceExecFns;
use crate::data::midi_file::{
    read_midi,
    smf_parsed,
    EventKind,
    EventModel,
    FileModel,
    KindModel,
    MidiError,
    MidiFile,
    Timing,
    TrackEvent,
};
use crate::data::channel::SongError;
use crate::data::video::{Encoding, VideoFrame};
use crate::data::timeline::{
    get_note_box,
    get_tick_window,
    note_box,
    tick_window,
    window_start,
    NoteBox,
    TickWindow,
};
use crate::display::{black, white, RGB};
use crate::display::draw::{
    gradient_painted,
    printable_glyphs,
    rect,
    rect_gradient,
    rect_painted,
    text,
    text_colour,
    text_fits,
    text_fits_in,
    text_painted,
};
use crate::display::frame::Frame;

verus! {

broadcast use vstd::std_specs::hash::group_hash_axioms;

/// One note: the ticks at which its key goes down and up, and its pitch.
/// A `tick_off` of 0 says that the key has not gone up yet: the note is
/// open.
#[derive(Debug, Clone, Copy, PartialEq, Eq, Structural)]
pub struct MidiNote {
    pub tick_on: u32,
    pub tick_off: u32,
    pub note: u8,
}

/// The notes of one track.
#[derive(Debug, Clone)]
pub struct MidiChannel {
    pub name: String,
    /// The lowest pitch among the notes.
    pub note_min: u8,
    /// The highest pitch among the notes.
    pub note_max: u8,
    /// The tick of the channel's latest note event.
    pub last_tick: u32,
    /// The background colour of the channel's row.
    pub colour: RGB,
    /// The notes, in the order in which their keys went down.
    pub notes: Vec<MidiNote>,
}

/// A channel as a mathematical value.
pub struct ChannelModel {
    pub name: Seq<char>,
    pub note_min: u8,
    pub note_max: u8,
    pub last_tick: u32,
    pub colour: RGB,
    pub notes: Seq<MidiNote>,
}

impl View for MidiChannel {
    type V = ChannelModel;

    open spec fn view(&self) -> ChannelModel {
        ChannelModel {
            name: self.name@,
            note_min: self.note_min,
            note_max: self.note_max,
            last_tick: self.last_tick,
            colour: self.colour,
            notes: self.notes@,
        }
    }
}

/// The colour of a channel that the configuration does not mention.
pub open spec fn default_colour() -> RGB {
    [24u8, 24u8, 24u8]
}

/// The channel that a track's first note opens when the track has no name.
pub open spec fn fresh_channel(key: u8, tick: u32) -> ChannelModel {
    ChannelModel {
        name: Seq::empty(),
        note_min: key,
        note_max: key,
        last_tick: tick,
        colour: default_colour(),
        notes: Seq::empty(),
    }
}

/// The channel that a track's name opens: no notes yet, and an empty range
/// of pitches.
pub open spec fn named_channel(name: Seq<char>) -> ChannelModel {
    ChannelModel {
        name,
        note_min: 255,
        note_max: 0,
        last_tick: 0,
        colour: default_colour(),
        notes: Seq::empty(),
    }
}

/// Whether the note is an open note of the given pitch.
pub open spec fn is_open(note: MidiNote, key: u8) -> bool {
    note.note == key && note.tick_off == 0
}

/// Whether `i` is the index of the first open note of the given pitch, or
/// the number of notes if there is none.
pub open spec fn is_first_open(notes: Seq<MidiNote>, key: u8, i: int) -> bool {
    &&& 0 <= i <= notes.len()
    &&& forall|k: int| 0 <= k < i ==> !is_open(#[trigger] notes[k], key)
    &&& i < notes.len() ==> is_open(notes[i], key)
}

/// The index of the first open note of the given pitch, or the number of
/// notes if there is none.
pub open spec fn first_open(notes: Seq<MidiNote>, key: u8) -> int {
    choose|i: int| is_first_open(notes, key, i)
}

/// There is exactly one such index.
pub proof fn lemma_first_open(notes: Seq<MidiNote>, key: u8, i: int)
    requires
        is_first_open(notes, key, i),
    ensures
        first_open(notes, key) == i,
{
    let j = first_open(notes, key);
    assert(is_first_open(notes, key, j));
    if j < i {
        assert(!is_open(notes[j], key));
    } else if i < j {
        assert(!is_open(notes[i], key));
    }
}

/// The channel after a key has gone down at `tick`: the range of pitches
/// takes the key in, and an open note is added at the end.
pub open spec fn note_added(c: ChannelModel, key: u8, tick: u32) -> ChannelModel {
    ChannelModel {
        note_min: if key < c.note_min {
            key
        } else {
            c.note_min
        },
        note_max: if key > c.note_max {
            key
        } else {
            c.note_max
        },
        last_tick: tick,
        notes: c.notes.push(MidiNote { tick_on: tick, tick_off: 0, note: key }),
        ..c
    }
}

/// The channel after a key has gone up at `tick`: the first open note of
/// that pitch, if there is one, ends there.
pub open spec fn note_ended(c: ChannelModel, key: u8, tick: u32) -> ChannelModel {
    let i = first_open(c.notes, key);
    ChannelModel {
        last_tick: tick,
        notes: if i < c.notes.len() {
            c.notes.update(i, MidiNote { tick_off: tick, ..c.notes[i] })
        } else {
            c.notes
        },
        ..c
    }
}

/// What a track has told so far: the song's tempo and length, the tick of
/// the track's latest event, and the track's channel once a name or a note
/// has opened it.
pub struct TrackState {
    pub tempo: u32,
    pub duration_ticks: u32,
    /// The tick of the latest event: the sum of the deltas of all events of
    /// the track so far, of whatever kind.
    pub tick: u32,
    pub channel: Option<ChannelModel>,
}

/// The state after an event of the given kind at the tick `s.tick`.
///
/// - A tempo replaces the song's tempo.
/// - A name opens the channel, or names it if it has no name yet.
/// - A note-on opens the channel if need be and adds an open note that
///   starts at the tick.
/// - A note-off ends the first open note of its pitch at the tick and
///   stretches the song to the tick.
/// - Other events change nothing.
pub open spec fn kind_applied(s: TrackState, kind: KindModel) -> Result<TrackState, MidiError> {
    match kind {
        KindModel::Tempo(t) => Ok(TrackState { tempo: t, ..s }),
        KindModel::TrackName(bytes) => if !valid_utf8(bytes) {
            Err(MidiError::TrackName)
        } else {
            match s.channel {
                Some(c) => Ok(
                    TrackState {
                        channel: Some(
                            if c.name.len() == 0 {
                                ChannelModel { name: decode_utf8(bytes), ..c }
                            } else {
                                c
                            },
                        ),
                        ..s
                    },
                ),
                None => Ok(TrackState { channel: Some(named_channel(decode_utf8(bytes))), ..s }),
            }
        },
        KindModel::NoteOn(key) => {
            let c = match s.channel {
                Some(c) => c,
                None => fresh_channel(key, s.tick),
            };
            Ok(TrackState { channel: Some(note_added(c, key, s.tick)), ..s })
        },
        KindModel::NoteOff(key) => match s.channel {
            None => Err(MidiError::NoteOffWithoutChannel),
            Some(c) => Ok(
                TrackState {
                    duration_ticks: if s.tick > s.duration_ticks {
                        s.tick
                    } else {
                        s.duration_ticks
                    },
                    channel: Some(note_ended(c, key, s.tick)),
                    ..s
                },
            ),
        },
        KindModel::Other => Ok(s),
    }
}

/// The state after one more event of the track. Every event, of whatever
/// kind, moves the track's tick on by its delta; what the event says
/// happens at that tick. Ticks beyond 32 bits are an error.
pub open spec fn event_applied(s: TrackState, e: EventModel) -> Result<TrackState, MidiError> {
    if s.tick + e.delta > u32::MAX {
        Err(MidiError::TickOverflow)
    } else {
        kind_applied(TrackState { tick: (s.tick + e.delta) as u32, ..s }, e.kind)
    }
}

/// The state after the first `upto` events of a track, or the error of the
/// first event that cannot be applied.
pub open spec fn events_applied(s: TrackState, events: Seq<EventModel>, upto: int) -> Result<
    TrackState,
    MidiError,
>
    decreases upto,
{
    if upto <= 0 {
        Ok(s)
    } else {
        match events_applied(s, events, upto - 1) {
            Ok(t) => event_applied(t, events[upto - 1]),
            Err(e) => Err(e),
        }
    }
}

/// Calls `String::from_utf8` on a copy of the bytes: the text that the
/// bytes spell in UTF-8, or nothing if they are not UTF-8.
#[verifier::external_body]
fn utf8_string(bytes: &Vec<u8>) -> (text: Option<String>)
    ensures
        text is Some <==> valid_utf8(bytes@),
        text matches Some(s) ==> s@ == decode_utf8(bytes@),
{
    String::from_utf8(bytes.clone()).ok()
}

impl MidiChannel {
    /// The channel that a track's first note opens: its range of pitches is
    /// the note's key, and its latest tick is `delta`.
    pub fn new(key: u8, delta: u32) -> (channel: MidiChannel)
        ensures
            channel@ == fresh_channel(key, delta),
    {
        MidiChannel {
            name: String::new(),
            note_min: key,
            note_max: key,
            last_tick: delta,
            notes: Vec::new(),
            colour: [24, 24, 24],
        }
    }

    /// The channel that a track's name opens.
    pub fn new_with_name(name: String) -> (channel: MidiChannel)
        ensures
            channel@ == named_channel(name@),
    {
        MidiChannel { name, note_min: 255, note_max: 0, last_tick: 0, notes: Vec::new(), colour: [24, 24, 24] }
    }

    /// A key goes down at `tick`.
    pub fn add_note(&mut self, key: u8, tick: u32)
        ensures
            final(self)@ == note_added(old(self)@, key, tick),
    {
        if key > self.note_max {
            self.note_max = key;
        }
        if key < self.note_min {
            self.note_min = key;
        }
        self.last_tick = tick;
        self.notes.push(MidiNote { tick_on: tick, tick_off: 0, note: key });
    }

    /// A key goes up at `tick`.
    pub fn end_note(&mut self, key: u8, tick: u32)
        ensures
            final(self)@ == note_ended(old(self)@, key, tick),
    {
        self.last_tick = tick;
        let n: usize = self.notes.len();
        let mut i: usize = 0;
        while i < n && !(self.notes[i].note == key && self.notes[i].tick_off == 0)
            invariant
                i <= n,
                n == self.notes@.len(),
                self.notes@ == old(self).notes@,
                forall|k: int| 0 <= k < i ==> !is_open(#[trigger] self.notes@[k], key),
            decreases n - i,
        {
            i = i + 1;
        }
        proof {
            lemma_first_open(old(self).notes@, key, i as int);
        }
        if i < n {
            let hanging: MidiNote = self.notes[i];
            self.notes.set(i, MidiNote { tick_on: hanging.tick_on, tick_off: tick, note: hanging.note });
        }
    }
}

/// What the configuration says of one channel.
#[derive(Debug, Clone, Copy)]
pub struct MidiChannelConfig {
    /// The channel's place among the configured channels: lower comes first.
    pub order: usize,
    /// The background colour of the channel's row.
    pub colour: RGB,
    /// Whether the channel is shown at all.
    pub visible: bool,
}

/// The configuration of a MIDI song.
#[derive(Debug)]
pub struct MidiSongConfig {
    /// The file that holds the song.
    pub midi_file: String,
    /// The configured channels, by name. Of two entries with one name the
    /// first counts.
    pub channels: Vec<(String, MidiChannelConfig)>,
    /// Where the video is written.
    pub video_file_out: String,
    /// Whether the rows get a gradient for a background, or a flat colour.
    pub use_gradients: bool,
}

/// What the configuration says of the channel with the given name, if it
/// mentions it.
pub open spec fn config_of(entries: Seq<(String, MidiChannelConfig)>, name: Seq<char>) -> Option<
    MidiChannelConfig,
>
    decreases entries.len(),
{
    if entries.len() == 0 {
        None
    } else if entries[0].0@ == name {
        Some(entries[0].1)
    } else {
        config_of(entries.skip(1), name)
    }
}

/// Whether text `a` comes before text `b` in the dictionary, from
/// character `i` on: at the first character in which they differ `a` has
/// the lower code, or `a` ends first.
pub open spec fn name_before(a: Seq<char>, b: Seq<char>, i: int) -> bool
    decreases a.len() - i,
{
    if i >= b.len() {
        false
    } else if i >= a.len() {
        true
    } else if a[i] != b[i] {
        (a[i] as u32) < (b[i] as u32)
    } else {
        name_before(a, b, i + 1)
    }
}

/// Whether channel `a` is listed before channel `b`: configured channels
/// come before the others, in the order that the configuration gives them;
/// channels that this does not tell apart go by name.
pub open spec fn listed_before(
    entries: Seq<(String, MidiChannelConfig)>,
    a: ChannelModel,
    b: ChannelModel,
) -> bool {
    match (config_of(entries, a.name), config_of(entries, b.name)) {
        (Some(x), Some(y)) => x.order < y.order || (x.order == y.order && name_before(a.name, b.name, 0)),
        (Some(_), None) => true,
        (None, Some(_)) => false,
        (None, None) => name_before(a.name, b.name, 0),
    }
}

/// The list with one more channel in its place: behind every channel that
/// it is not listed before.
pub open spec fn placed(
    entries: Seq<(String, MidiChannelConfig)>,
    list: Seq<ChannelModel>,
    c: ChannelModel,
) -> Seq<ChannelModel>
    decreases list.len(),
{
    if list.len() == 0 {
        seq![c]
    } else if listed_before(entries, c, list.last()) {
        placed(entries, list.drop_last(), c).push(list.last())
    } else {
        list.push(c)
    }
}

/// The channel as it is shown, if it is: a channel without notes is not,
/// nor one that the configuration hides. A configured channel takes its
/// colour from the configuration.
pub open spec fn shown(entries: Seq<(String, MidiChannelConfig)>, c: ChannelModel) -> Option<
    ChannelModel,
> {
    if c.notes.len() == 0 {
        None
    } else {
        match config_of(entries, c.name) {
            Some(k) => if k.visible {
                Some(ChannelModel { colour: k.colour, ..c })
            } else {
                None
            },
            None => Some(c),
        }
    }
}

/// The channels that are shown among those of the first `upto` tracks, in
/// the order in which they are listed. Channels that are listed alike keep
/// the order of their tracks.
pub open spec fn lineup(
    entries: Seq<(String, MidiChannelConfig)>,
    channels: Seq<Option<ChannelModel>>,
    upto: int,
) -> Seq<ChannelModel>
    decreases upto,
{
    if upto <= 0 {
        Seq::empty()
    } else {
        let before = lineup(entries, channels, upto - 1);
        match channels[upto - 1] {
            Some(c) => match shown(entries, c) {
                Some(v) => placed(entries, before, v),
                None => before,
            },
            None => before,
        }
    }
}

/// The channels of a list, as mathematical values.
pub open spec fn models(list: Seq<MidiChannel>) -> Seq<ChannelModel> {
    Seq::new(list.len(), |i: int| list[i]@)
}

/// Whether text `a` comes before text `b` in the dictionary.
pub fn name_lt(a: &str, b: &str) -> (before: bool)
    ensures
        before == name_before(a@, b@, 0),
{
    let la: usize = a.unicode_len();
    let lb: usize = b.unicode_len();
    let mut i: usize = 0;
    while i < la && i < lb
        invariant
            la == a@.len(),
            lb == b@.len(),
            i <= la,
            i <= lb,
            name_before(a@, b@, 0) == name_before(a@, b@, i as int),
        decreases la - i,
    {
        let ca: char = a.get_char(i);
        let cb: char = b.get_char(i);
        if ca != cb {
            return (ca as u32) < (cb as u32);
        }
        i = i + 1;
    }
    la < lb
}

impl Default for MidiChannelConfig {
    /// A channel of order 0, black and hidden.
    fn default() -> (config: MidiChannelConfig)
        ensures
            config.order == 0,
            config.colour == [0u8, 0u8, 0u8],
            !config.visible,
    {
        MidiChannelConfig { order: 0, colour: [0, 0, 0], visible: false }
    }
}

impl MidiSongConfig {
    /// Looks up what the configuration says of a channel.
    pub fn find(&self, name: &String) -> (found: Option<MidiChannelConfig>)
        ensures
            found == config_of(self.channels@, name@),
    {
        let n: usize = self.channels.len();
        let mut i: usize = 0;
        assert(self.channels@.skip(0) =~= self.channels@);
        while i < n
            invariant
                i <= n,
                n == self.channels@.len(),
                config_of(self.channels@, name@) == config_of(self.channels@.skip(i as int), name@),
            decreases n - i,
        {
            if self.channels[i].0 == *name {
                return Some(self.channels[i].1);
            }
            assert(self.channels@.skip(i as int).skip(1) =~= self.channels@.skip(i + 1));
            i = i + 1;
        }
        None
    }

    /// Whether channel `a` is listed before channel `b`.
    pub fn lists_before(&self, a: &MidiChannel, b: &MidiChannel) -> (before: bool)
        ensures
            before == listed_before(self.channels@, a@, b@),
    {
        let of_a: Option<MidiChannelConfig> = self.find(&a.name);
        let of_b: Option<MidiChannelConfig> = self.find(&b.name);
        match (of_a, of_b) {
            (Some(x), Some(y)) => x.order < y.order || (x.order == y.order && name_lt(
                a.name.as_str(),
                b.name.as_str(),
            )),
            (Some(_), None) => true,
            (None, Some(_)) => false,
            (None, None) => name_lt(a.name.as_str(), b.name.as_str()),
        }
    }

    /// Puts a channel in its place in a list.
    pub fn place(&self, list: &mut Vec<MidiChannel>, channel: MidiChannel)
        ensures
            models(final(list)@) == placed(self.channels@, models(old(list)@), channel@),
    {
        let ghost before = models(list@);
        let mut p: usize = list.len();
        proof {
            assert(before.take(p as int) =~= before);
            assert(before.skip(p as int) =~= Seq::<ChannelModel>::empty());
            assert(placed(self.channels@, before, channel@) + Seq::<ChannelModel>::empty() =~= placed(
                self.channels@,
                before,
                channel@,
            ));
        }
        while p > 0 && self.lists_before(&channel, &list[p - 1])
            invariant
                p <= list@.len(),
                list@ == old(list)@,
                before == models(list@),
                placed(self.channels@, before, channel@) == placed(
                    self.channels@,
                    before.take(p as int),
                    channel@,
                ) + before.skip(p as int),
            decreases p,
        {
            proof {
                let head = before.take(p as int);
                assert(head.last() == list@[p - 1]@);
                assert(head.drop_last() =~= before.take(p - 1));
                assert(placed(self.channels@, before.take(p - 1), channel@).push(head.last())
                    + before.skip(p as int) =~= placed(self.channels@, before.take(p - 1), channel@)
                    + before.skip(p - 1));
            }
            p = p - 1;
        }
        proof {
            let head = before.take(p as int);
            if p > 0 {
                assert(head.last() == list@[p - 1]@);
            }
            assert(placed(self.channels@, head, channel@) == head.push(channel@));
        }
        list.insert(p, channel);
        assert(models(list@) =~= before.take(p as int).push(channel@) + before.skip(p as int));
    }
}

/// What the tracks of a file have told: the song's tempo and length, and
/// for each track its channel, if a name or a note has opened one.
pub struct Ingested {
    pub tempo: u32,
    pub duration_ticks: u32,
    pub channels: Seq<Option<ChannelModel>>,
}

/// What the first `upto` tracks tell, read one after the other, or the
/// error of the first event that cannot be applied. The tempo that one
/// track sets holds for the next, and so does the song's length; the ticks
/// of each track start at 0.
pub open spec fn tracks_read(tracks: Seq<Seq<EventModel>>, upto: int) -> Result<Ingested, MidiError>
    decreases upto,
{
    if upto <= 0 {
        Ok(Ingested { tempo: 0, duration_ticks: 0, channels: Seq::empty() })
    } else {
        match tracks_read(tracks, upto - 1) {
            Err(e) => Err(e),
            Ok(g) => match events_applied(
                TrackState { tempo: g.tempo, duration_ticks: g.duration_ticks, tick: 0, channel: None },
                tracks[upto - 1],
                tracks[upto - 1].len() as int,
            ) {
                Err(e) => Err(e),
                Ok(t) => Ok(
                    Ingested {
                        tempo: t.tempo,
                        duration_ticks: t.duration_ticks,
                        channels: g.channels.push(t.channel),
                    },
                ),
            },
        }
    }
}

/// Once an event cannot be applied, the error stays.
pub proof fn lemma_error_stays(s: TrackState, events: Seq<EventModel>, at: int, upto: int)
    requires
        0 <= at <= upto,
        events_applied(s, events, at) is Err,
    ensures
        events_applied(s, events, upto) == events_applied(s, events, at),
    decreases upto - at,
{
    if at < upto {
        lemma_error_stays(s, events, at, upto - 1);
    }
}

/// Once a track cannot be read, the error stays.
pub proof fn lemma_tracks_error_stays(tracks: Seq<Seq<EventModel>>, at: int, upto: int)
    requires
        0 <= at <= upto,
        tracks_read(tracks, at) is Err,
    ensures
        tracks_read(tracks, upto) == tracks_read(tracks, at),
    decreases upto - at,
{
    if at < upto {
        lemma_tracks_error_stays(tracks, at, upto - 1);
    }
}

/// The notes that a frame shows: those that have ended, not before the
/// window starts, and that start not after it ends. An open note is not
/// shown.
pub open spec fn in_window(start: u32, end: u32) -> spec_fn(MidiNote) -> bool {
    |n: MidiNote| n.tick_off != 0 && n.tick_off >= start && n.tick_on <= end
}

/// `image` with a note drawn: its rectangle in white, over a black one
/// that lies one pixel to the right and below.
pub open spec fn note_painted(image: Seq<Seq<RGB>>, b: NoteBox) -> Seq<Seq<RGB>> {
    rect_painted(
        rect_painted(image, b.x1 + 1, b.y1 + 1, b.x2 + 1, b.y2 + 1, black()),
        b.x1 as int,
        b.y1 as int,
        b.x2 as int,
        b.y2 as int,
        white(),
    )
}

/// The place of a row of the piano roll.
pub struct Row {
    /// The last column but one.
    pub x_max: u32,
    /// The first row.
    pub y_min: u32,
    /// The last row.
    pub y_max: u32,
}

/// `image` with the first `upto` of the notes drawn into a row, one after
/// the other.
pub open spec fn notes_painted(
    image: Seq<Seq<RGB>>,
    notes: Seq<MidiNote>,
    w: TickWindow,
    note_min: u8,
    note_max: u8,
    row: Row,
    upto: int,
) -> Seq<Seq<RGB>>
    decreases upto,
{
    if upto <= 0 {
        image
    } else {
        note_painted(
            notes_painted(image, notes, w, note_min, note_max, row, upto - 1),
            note_box(
                notes[upto - 1].tick_on,
                notes[upto - 1].tick_off,
                notes[upto - 1].note,
                w.start_unclamped,
                w.end_unclamped,
                note_min,
                note_max,
                row.x_max,
                row.y_min,
                row.y_max,
            ),
        )
    }
}

/// `image` with the row of one channel drawn: the background, the notes
/// that the window shows, and the channel's name in white over its black
/// shadow.
pub open spec fn row_painted(
    image: Seq<Seq<RGB>>,
    c: ChannelModel,
    w: TickWindow,
    use_gradients: bool,
    row: Row,
) -> Seq<Seq<RGB>> {
    let filled = if use_gradients {
        gradient_painted(image, 0, row.y_min as int, row.x_max as int, row.y_max as int, c.colour)
    } else {
        rect_painted(image, 0, row.y_min as int, row.x_max as int, row.y_max as int, c.colour)
    };
    let visible = c.notes.filter(in_window(w.start, w.end));
    let noted = notes_painted(filled, visible, w, c.note_min, c.note_max, row, visible.len() as int);
    let shadowed = text_painted(noted, 5, row.y_min + 5, printable_glyphs(c.name), black());
    text_painted(shadowed, 4, row.y_min + 4, printable_glyphs(c.name), white())
}

/// The row of channel `i` of `n` on a canvas: the canvas is cut into `n`
/// rows of equal height, from the top.
pub open spec fn row_of(width: u32, height: u32, n: int, i: int) -> Row {
    let h = height as int / n;
    Row { x_max: (width - 1) as u32, y_min: (h * i) as u32, y_max: (h * i + h - 1) as u32 }
}

/// Whether a channel's row can be drawn: the name and its shadow fit on
/// the canvas, and if the window shows a note the row is at least two
/// pixels wide and high.
pub open spec fn row_fits(cols: nat, rows: nat, c: ChannelModel, w: TickWindow, row: Row) -> bool {
    &&& row.y_min + 5 <= u32::MAX
    &&& text_fits(cols, rows, 5, row.y_min + 5, printable_glyphs(c.name))
    &&& text_fits(cols, rows, 4, row.y_min + 4, printable_glyphs(c.name))
    &&& c.notes.filter(in_window(w.start, w.end)).len() > 0 ==> row.x_max >= 1 && row.y_min < row.y_max
}

/// `image` with the rows of the first `upto` channels drawn.
pub open spec fn roll_painted(
    image: Seq<Seq<RGB>>,
    channels: Seq<ChannelModel>,
    w: TickWindow,
    use_gradients: bool,
    width: u32,
    height: u32,
    upto: int,
) -> Seq<Seq<RGB>>
    decreases upto,
{
    if upto <= 0 {
        image
    } else {
        row_painted(
            roll_painted(image, channels, w, use_gradients, width, height, upto - 1),
            channels[upto - 1],
            w,
            use_gradients,
            row_of(width, height, channels.len() as int, upto - 1),
        )
    }
}

/// Why a file is not a song, if it is not: its timing is timecode, or one
/// of its events cannot be applied.
pub open spec fn file_error(file: FileModel) -> Option<MidiError> {
    if file.timing == Timing::Timecode {
        Some(MidiError::Timecode)
    } else {
        match tracks_read(file.tracks, file.tracks.len() as int) {
            Err(e) => Some(e),
            Ok(_) => None,
        }
    }
}

/// The products by which the playhead is held against the end of a song
/// fit in 128 bits.
pub proof fn lemma_playhead_bounds(
    frames: u64,
    frame_rate: u32,
    window_us: u32,
    ppq: u16,
    duration_ticks: u32,
    tempo: u32,
)
    ensures
        0 <= frames * 2_000_000 <= 0xffff_ffff_ffff_ffff * 2_000_000,
        0 <= window_us * frame_rate <= 0xffff_ffff * 0xffff_ffff,
        window_start(frames as int, frame_rate as int, window_us as int) == frames * 2_000_000 - window_us
            * frame_rate,
        -0x1_0000_0000_0000_0000_0000 <= (frames * 2_000_000 - window_us * frame_rate) * ppq
            <= 0x40_0000_0000_0000_0000_0000_0000,
        0 <= duration_ticks * tempo <= 0xffff_ffff * 0xffff_ffff,
        0 <= 2 * frame_rate * (duration_ticks * tempo) <= 0x2_0000_0000_0000_0000_0000_0000,
{
    let elapsed = frames * 2_000_000;
    let half = window_us * frame_rate;
    let length = duration_ticks * tempo;
    assert(0 <= half <= 0xffff_ffff * 0xffff_ffff) by (nonlinear_arith)
        requires
            half == window_us * frame_rate,
            0 <= window_us <= 0xffff_ffff,
            0 <= frame_rate <= 0xffff_ffff,
    ;
    assert(0 <= length <= 0xffff_ffff * 0xffff_ffff) by (nonlinear_arith)
        requires
            length == duration_ticks * tempo,
            0 <= duration_ticks <= 0xffff_ffff,
            0 <= tempo <= 0xffff_ffff,
    ;
    assert(window_start(frames as int, frame_rate as int, window_us as int) == elapsed - half)
        by (nonlinear_arith)
        requires
            elapsed == frames * 2_000_000,
            half == window_us * frame_rate,
            window_start(frames as int, frame_rate as int, window_us as int) == 2 * frames * 1_000_000
                - window_us * frame_rate,
    ;
    let playhead = elapsed - half;
    assert(-0x1_0000_0000_0000_0000 * 0x1_0000 <= playhead * ppq <= 0x40_0000_0000_0000_0000_0000
        * 0x1_0000) by (nonlinear_arith)
        requires
            -0x1_0000_0000_0000_0000 <= playhead <= 0x40_0000_0000_0000_0000_0000,
            0 <= ppq < 0x1_0000,
    ;
    assert(0 <= 2 * frame_rate * length <= 2 * 0xffff_ffff * (0xffff_ffff * 0xffff_ffff))
        by (nonlinear_arith)
        requires
            0 <= frame_rate <= 0xffff_ffff,
            0 <= length <= 0xffff_ffff * 0xffff_ffff,
    ;
}

/// A song of MIDI channels and the moment of it that the next frame shows.
#[derive(Debug)]
pub struct MidiSong {
    /// Ticks to the quarter note.
    pub ppq: u16,
    /// Microseconds to the quarter note; 0 as long as the file has set none.
    pub tempo: u32,
    /// The tick at which the last key goes up.
    pub duration_ticks: u32,
    /// The frames drawn so far. Frame `k` shows the window that starts at
    /// `k / frame_rate` seconds less half the window's length.
    pub frames: u64,
    /// Frames per second.
    pub frame_rate: u32,
    /// The length of the window that a frame shows, in microseconds.
    pub window_us: u32,
    pub config: MidiSongConfig,
    /// The channels by the number of their track, while the file is read.
    pub channels: HashMap<usize, MidiChannel>,
    /// The channels that are shown, in the order of their rows.
    pub channels_vec: Vec<MidiChannel>,
}

impl MidiSong {
    /// What track `channel` has told so far, its latest event being at
    /// `tick`.
    pub open spec fn track_state(&self, channel: usize, tick: u32) -> TrackState {
        TrackState {
            tempo: self.tempo,
            duration_ticks: self.duration_ticks,
            tick,
            channel: if self.channels@.contains_key(channel) {
                Some(self.channels@[channel]@)
            } else {
                None
            },
        }
    }

    /// Whether two songs agree in all that reading a file leaves alone.
    pub open spec fn same_settings(&self, other: &MidiSong) -> bool {
        &&& self.ppq == other.ppq
        &&& self.frames == other.frames
        &&& self.frame_rate == other.frame_rate
        &&& self.window_us == other.window_us
        &&& self.config == other.config
        &&& self.channels_vec == other.channels_vec
    }

    /// Whether the song holds what the tracks from `from` up to `upto` have
    /// told, and no channel of another track.
    pub open spec fn holds(&self, g: Ingested, from: int, upto: int) -> bool {
        &&& self.tempo == g.tempo
        &&& self.duration_ticks == g.duration_ticks
        &&& g.channels.len() == upto
        &&& forall|k: usize|
            #![trigger self.channels@.contains_key(k)]
            if self.channels@.contains_key(k) {
                from <= k < upto && g.channels[k as int] == Some(self.channels@[k]@)
            } else {
                from <= k < upto ==> g.channels[k as int] is None
            }
    }

    /// The ticks to the quarter note of a file with metrical timing.
    fn get_ppq(timing: Timing) -> (ppq: Result<u16, MidiError>)
        ensures
            ppq == match timing {
                Timing::Metrical(ticks) => Ok::<u16, MidiError>(ticks),
                Timing::Timecode => Err::<u16, MidiError>(MidiError::Timecode),
            },
    {
        match timing {
            Timing::Metrical(ticks) => Ok(ticks),
            Timing::Timecode => Err(MidiError::Timecode),
        }
    }

    /// An empty song at its first frame.
    pub fn new(timing: Timing, config: MidiSongConfig, window_us: u32, frame_rate: u32) -> (song: Result<
        MidiSong,
        MidiError,
    >)
        ensures
            match song {
                Ok(s) => {
                    &&& timing == Timing::Metrical(s.ppq)
                    &&& s.tempo == 0
                    &&& s.duration_ticks == 0
                    &&& s.frames == 0
                    &&& s.frame_rate == frame_rate
                    &&& s.window_us == window_us
                    &&& s.config == config
                    &&& s.channels@ == Map::<usize, MidiChannel>::empty()
                    &&& s.channels_vec@.len() == 0
                },
                Err(e) => e == MidiError::Timecode && timing == Timing::Timecode,
            },
    {
        match MidiSong::get_ppq(timing) {
            Err(e) => Err(e),
            Ok(ppq) => Ok(
                MidiSong {
                    ppq,
                    tempo: 0,
                    duration_ticks: 0,
                    frames: 0,
                    frame_rate,
                    window_us,
                    channels: HashMap::new(),
                    channels_vec: Vec::with_capacity(16),
                    config,
                },
            ),
        }
    }

    /// Takes a tempo from the file.
    fn get_tempo(&mut self, tempo: u32)
        ensures
            *final(self) == (MidiSong { tempo, ..*old(self) }),
    {
        self.tempo = tempo;
    }

    /// Takes a track's name from the file.
    fn update_name(&mut self, channel: usize, name: &Vec<u8>, Ghost(tick): Ghost<u32>) -> (done: Result<
        (),
        MidiError,
    >)
        ensures
            final(self).same_settings(old(self)),
            final(self).channels@.remove(channel) == old(self).channels@.remove(channel),
            kind_applied(old(self).track_state(channel, tick), KindModel::TrackName(name@)) == match done {
                Ok(_) => Ok::<TrackState, MidiError>(final(self).track_state(channel, tick)),
                Err(e) => Err::<TrackState, MidiError>(e),
            },
    {
        match utf8_string(name) {
            None => Err(MidiError::TrackName),
            Some(text) => {
                let ghost before = self.channels@;
                match self.channels.remove(&channel) {
                    Some(chan) => {
                        let mut chan = chan;
                        if chan.name.as_str().is_empty() {
                            chan.name = text;
                        }
                        self.channels.insert(channel, chan);
                    },
                    None => {
                        self.channels.insert(channel, MidiChannel::new_with_name(text));
                    },
                }
                assert(self.channels@.remove(channel) =~= before.remove(channel));
                Ok(())
            },
        }
    }

    /// A key of track `channel` goes down at `tick`.
    fn add_note(&mut self, channel: usize, key: u8, tick: u32)
        ensures
            final(self).same_settings(old(self)),
            final(self).channels@.remove(channel) == old(self).channels@.remove(channel),
            kind_applied(old(self).track_state(channel, tick), KindModel::NoteOn(key)) == Ok::<
                TrackState,
                MidiError,
            >(final(self).track_state(channel, tick)),
    {
        let ghost before = self.channels@;
        let mut chan = match self.channels.remove(&channel) {
            Some(c) => c,
            None => MidiChannel::new(key, tick),
        };
        chan.add_note(key, tick);
        self.channels.insert(channel, chan);
        assert(self.channels@.remove(channel) =~= before.remove(channel));
    }

    /// A key of track `channel` goes up at `tick`.
    fn end_note(&mut self, channel: usize, key: u8, tick: u32) -> (done: Result<(), MidiError>)
        ensures
            final(self).same_settings(old(self)),
            final(self).channels@.remove(channel) == old(self).channels@.remove(channel),
            kind_applied(old(self).track_state(channel, tick), KindModel::NoteOff(key)) == match done {
                Ok(_) => Ok::<TrackState, MidiError>(final(self).track_state(channel, tick)),
                Err(e) => Err::<TrackState, MidiError>(e),
            },
    {
        let ghost before = self.channels@;
        match self.channels.remove(&channel) {
            None => {
                assert(self.channels@ =~= before);
                Err(MidiError::NoteOffWithoutChannel)
            },
            Some(chan) => {
                let mut chan = chan;
                chan.end_note(key, tick);
                self.channels.insert(channel, chan);
                assert(self.channels@.remove(channel) =~= before.remove(channel));
                if tick > self.duration_ticks {
                    self.duration_ticks = tick;
                }
                Ok(())
            },
        }
    }

    /// Reads the tracks of a file into the song's channels.
    fn read_tracks(&mut self, file: &MidiFile) -> (done: Result<(), MidiError>)
        requires
            old(self).tempo == 0,
            old(self).duration_ticks == 0,
            old(self).channels@ == Map::<usize, MidiChannel>::empty(),
        ensures
            final(self).same_settings(old(self)),
            match done {
                Ok(_) => tracks_read(file@.tracks, file@.tracks.len() as int) matches Ok(g)
                    && final(self).holds(g, 0, file@.tracks.len() as int),
                Err(e) => tracks_read(file@.tracks, file@.tracks.len() as int) == Err::<
                    Ingested,
                    MidiError,
                >(e),
            },
    {
        let ghost tracks = file@.tracks;
        let n: usize = file.tracks.len();
        let mut t: usize = 0;
        while t < n
            invariant
                t <= n,
                n == file.tracks@.len(),
                tracks == file@.tracks,
                self.same_settings(old(self)),
                tracks_read(tracks, t as int) matches Ok(g) && self.holds(g, 0, t as int),
            decreases n - t,
        {
            let events = &file.tracks[t];
            let ghost read = tracks_read(tracks, t as int)->Ok_0;
            let ghost start = TrackState {
                tempo: read.tempo,
                duration_ticks: read.duration_ticks,
                tick: 0,
                channel: None,
            };
            let ghost others = self.channels@;
            let len: usize = events.len();
            let mut i: usize = 0;
            let mut tick: u32 = 0;
            proof {
                assert(!others.contains_key(t));
                assert(self.channels@.remove(t) =~= others);
            }
            while i < len
                invariant
                    i <= len,
                    t < n,
                    n == file.tracks@.len(),
                    tracks == file@.tracks,
                    *events == file.tracks@[t as int],
                    len == events@.len(),
                    self.same_settings(old(self)),
                    self.channels@.remove(t) == others,
                    tracks_read(tracks, t as int) == Ok::<Ingested, MidiError>(read),
                    start == (TrackState {
                        tempo: read.tempo,
                        duration_ticks: read.duration_ticks,
                        tick: 0,
                        channel: None,
                    }),
                    events_applied(start, tracks[t as int], i as int) == Ok::<TrackState, MidiError>(
                        self.track_state(t, tick),
                    ),
                decreases len - i,
            {
                assert(tracks[t as int][i as int] == events@[i as int]@);
                let applied = match tick.checked_add(events[i].delta) {
                    None => Err(MidiError::TickOverflow),
                    Some(now) => {
                        tick = now;
                        self.apply(t, &events[i], now)
                    },
                };
                match applied {
                    Ok(_) => {},
                    Err(e) => {
                        proof {
                            assert(events_applied(start, tracks[t as int], i + 1) == Err::<
                                TrackState,
                                MidiError,
                            >(e));
                            lemma_error_stays(start, tracks[t as int], i + 1, len as int);
                            assert(tracks[t as int].len() == len);
                            assert(tracks_read(tracks, t + 1) == Err::<Ingested, MidiError>(e));
                            lemma_tracks_error_stays(tracks, t + 1, n as int);
                        }
                        return Err(e);
                    },
                }
                i = i + 1;
            }
            proof {
                assert(tracks[t as int].len() == len);
                let g = tracks_read(tracks, t + 1)->Ok_0;
                assert(g.channels =~= read.channels.push(self.track_state(t, tick).channel));
                assert forall|k: usize|
                    #![trigger self.channels@.contains_key(k)]
                    if self.channels@.contains_key(k) {
                        0 <= k < t + 1 && g.channels[k as int] == Some(self.channels@[k]@)
                    } else {
                        0 <= k < t + 1 ==> g.channels[k as int] is None
                    } by {
                    if k != t {
                        assert(others.contains_key(k) == self.channels@.contains_key(k));
                        if others.contains_key(k) {
                            assert(others[k] == self.channels@[k]);
                        }
                    }
                }
            }
            t = t + 1;
        }
        Ok(())
    }

    /// Lines up the channels that are shown, and forgets the others.
    fn line_up(&mut self, tracks: usize, Ghost(g): Ghost<Ingested>)
        requires
            old(self).holds(g, 0, tracks as int),
            old(self).channels_vec@.len() == 0,
        ensures
            final(self).ppq == old(self).ppq,
            final(self).tempo == old(self).tempo,
            final(self).duration_ticks == old(self).duration_ticks,
            final(self).frames == old(self).frames,
            final(self).frame_rate == old(self).frame_rate,
            final(self).window_us == old(self).window_us,
            final(self).config == old(self).config,
            final(self).channels@ == Map::<usize, MidiChannel>::empty(),
            models(final(self).channels_vec@) == lineup(
                old(self).config.channels@,
                g.channels,
                tracks as int,
            ),
    {
        let mut t: usize = 0;
        assert(models(self.channels_vec@) =~= lineup(self.config.channels@, g.channels, 0));
        while t < tracks
            invariant
                t <= tracks,
                self.ppq == old(self).ppq,
                self.frames == old(self).frames,
                self.frame_rate == old(self).frame_rate,
                self.window_us == old(self).window_us,
                self.config == old(self).config,
                self.tempo == old(self).tempo,
                self.duration_ticks == old(self).duration_ticks,
                self.holds(g, t as int, tracks as int),
                models(self.channels_vec@) == lineup(self.config.channels@, g.channels, t as int),
            decreases tracks - t,
        {
            let ghost before = self.channels@;
            let taken = self.channels.remove(&t);
            proof {
                assert forall|k: usize|
                    #![trigger self.channels@.contains_key(k)]
                    if self.channels@.contains_key(k) {
                        t + 1 <= k < tracks && g.channels[k as int] == Some(self.channels@[k]@)
                    } else {
                        t + 1 <= k < tracks ==> g.channels[k as int] is None
                    } by {
                    assert(self.channels@ == before.remove(t));
                    assert(self.channels@.contains_key(k) == (before.contains_key(k) && k != t));
                    if self.channels@.contains_key(k) {
                        assert(self.channels@[k] == before[k]);
                    }
                }
                assert(before.contains_key(t) == taken is Some);
            }
            match taken {
                None => {},
                Some(channel) => {
                    let mut channel = channel;
                    assert(g.channels[t as int] == Some(channel@));
                    if channel.notes.len() > 0 {
                        match self.config.find(&channel.name) {
                            Some(entry) => {
                                if entry.visible {
                                    channel.colour = entry.colour;
                                    self.config.place(&mut self.channels_vec, channel);
                                }
                            },
                            None => {
                                self.config.place(&mut self.channels_vec, channel);
                            },
                        }
                    }
                },
            }
            t = t + 1;
        }
        assert(self.channels@ =~= Map::<usize, MidiChannel>::empty()) by {
            assert forall|k: usize| !self.channels@.contains_key(k) by {
                if self.channels@.contains_key(k) {
                    assert(tracks <= k < tracks);
                }
            }
        }
    }

    /// Whether the song is what the file holds, read with the given
    /// configuration, before its first frame.
    pub open spec fn is_song_of(
        &self,
        file: FileModel,
        config: MidiSongConfig,
        window_us: u32,
        frame_rate: u32,
    ) -> bool {
        &&& file.timing == Timing::Metrical(self.ppq)
        &&& tracks_read(file.tracks, file.tracks.len() as int) matches Ok(g) && {
            &&& self.tempo == g.tempo
            &&& self.duration_ticks == g.duration_ticks
            &&& models(self.channels_vec@) == lineup(config.channels@, g.channels, file.tracks.len() as int)
        }
        &&& self.frames == 0
        &&& self.frame_rate == frame_rate
        &&& self.window_us == window_us
        &&& self.config == config
        &&& self.channels@ == Map::<usize, MidiChannel>::empty()
    }

    /// Builds the song that a parsed file holds.
    pub fn from_file(file: &MidiFile, config: MidiSongConfig, window_us: u32, frame_rate: u32) -> (song:
        Result<MidiSong, MidiError>)
        ensures
            match song {
                Ok(s) => file_error(file@) is None && s.is_song_of(file@, config, window_us, frame_rate),
                Err(e) => file_error(file@) == Some(e),
            },
    {
        match MidiSong::new(file.timing, config, window_us, frame_rate) {
            Err(e) => Err(e),
            Ok(song) => {
                let mut song = song;
                match song.read_tracks(file) {
                    Err(e) => Err(e),
                    Ok(_) => {
                        let ghost g = tracks_read(file@.tracks, file@.tracks.len() as int)->Ok_0;
                        song.line_up(file.tracks.len(), Ghost(g));
                        Ok(song)
                    },
                }
            },
        }
    }

    /// Builds the song that the bytes of a Standard MIDI File hold.
    pub fn generate_song_from_midi(config: MidiSongConfig, data: &[u8], window_us: u32, frame_rate: u32) -> (song:
        Result<MidiSong, MidiError>)
        ensures
            match song {
                Ok(s) => smf_parsed(data@) matches Some(file) && file_error(file) is None && s.is_song_of(
                    file,
                    config,
                    window_us,
                    frame_rate,
                ),
                Err(e) => match smf_parsed(data@) {
                    None => e == MidiError::Parse,
                    Some(file) => file_error(file) == Some(e),
                },
            },
    {
        match read_midi(data) {
            Err(e) => Err(e),
            Ok(file) => MidiSong::from_file(&file, config, window_us, frame_rate),
        }
    }

    /// The length of the song in microseconds, rounded down:
    /// `duration_ticks × tempo / ppq`. A song without ticks to the quarter
    /// note has no length.
    pub open spec fn song_duration(&self) -> Option<int> {
        if self.ppq == 0 {
            None
        } else {
            Some(self.duration_ticks as int * self.tempo as int / self.ppq as int)
        }
    }

    /// The length of the song in microseconds.
    pub fn get_song_duration(&self) -> (micros: Option<u64>)
        ensures
            match micros {
                Some(d) => self.song_duration() == Some(d as int),
                None => self.song_duration() is None,
            },
    {
        if self.ppq == 0 {
            None
        } else {
            assert(0 <= self.duration_ticks * self.tempo <= 0xffff_ffff * 0xffff_ffff) by (nonlinear_arith)
                requires
                    0 <= self.duration_ticks <= 0xffff_ffff,
                    0 <= self.tempo <= 0xffff_ffff,
            ;
            let ticks_by_tempo: u64 = (self.duration_ticks as u64) * (self.tempo as u64);
            Some(ticks_by_tempo / (self.ppq as u64))
        }
    }

    /// Whether the playhead has reached the end of the song. It never does
    /// in a song without ticks to the quarter note.
    pub open spec fn finished(&self) -> bool {
        &&& self.ppq > 0
        &&& window_start(self.frames as int, self.frame_rate as int, self.window_us as int) * self.ppq
            >= 2 * self.frame_rate * (self.duration_ticks * self.tempo)
    }

    /// Whether the playhead has reached the end of the song.
    pub fn is_finished(&self) -> (done: bool)
        ensures
            done == self.finished(),
    {
        if self.ppq == 0 {
            return false;
        }
        proof {
            lemma_playhead_bounds(
                self.frames,
                self.frame_rate,
                self.window_us,
                self.ppq,
                self.duration_ticks,
                self.tempo,
            );
        }
        let elapsed: i128 = (self.frames as i128) * 2_000_000;
        let half: i128 = (self.window_us as i128) * (self.frame_rate as i128);
        let playhead: i128 = elapsed - half;
        let length: i128 = (self.duration_ticks as i128) * (self.tempo as i128);
        let reached: i128 = playhead * (self.ppq as i128);
        let end: i128 = 2 * (self.frame_rate as i128) * length;
        reached >= end
    }

    /// The ticks that the next frame shows.
    pub fn get_ticks_in_time_frame(&self) -> (w: TickWindow)
        ensures
            w == tick_window(
                self.frames,
                self.frame_rate,
                self.window_us,
                self.ppq,
                self.tempo,
                self.duration_ticks,
            ),
    {
        get_tick_window(
            self.frames,
            self.frame_rate,
            self.window_us,
            self.ppq,
            self.tempo,
            self.duration_ticks,
        )
    }

    /// The notes of a channel that a window shows, in their order.
    pub fn get_notes_in_time_frame(channel: &MidiChannel, tick_start: u32, tick_end: u32) -> (notes: Vec<
        MidiNote,
    >)
        ensures
            notes@ == channel.notes@.filter(in_window(tick_start, tick_end)),
    {
        let mut notes: Vec<MidiNote> = Vec::new();
        let n: usize = channel.notes.len();
        let mut i: usize = 0;
        proof {
            reveal(Seq::filter);
            assert(channel.notes@.take(0) =~= Seq::<MidiNote>::empty());
        }
        while i < n
            invariant
                i <= n,
                n == channel.notes@.len(),
                notes@ == channel.notes@.take(i as int).filter(in_window(tick_start, tick_end)),
            decreases n - i,
        {
            let note: MidiNote = channel.notes[i];
            proof {
                reveal(Seq::filter);
                assert(channel.notes@.take(i + 1).drop_last() =~= channel.notes@.take(i as int));
                assert(channel.notes@.take(i + 1).last() == note);
            }
            if note.tick_off != 0 && note.tick_off >= tick_start && note.tick_on <= tick_end {
                notes.push(note);
            }
            i = i + 1;
        }
        assert(channel.notes@.take(n as int) =~= channel.notes@);
        notes
    }

    /// Whether the next frame can be drawn on a canvas: there is a channel
    /// to show, each channel gets a row of at least one pixel, and each row
    /// can be drawn.
    pub open spec fn can_draw(&self, cols: nat, rows: nat) -> bool {
        let n = self.channels_vec@.len() as int;
        let w = tick_window(
            self.frames,
            self.frame_rate,
            self.window_us,
            self.ppq,
            self.tempo,
            self.duration_ticks,
        );
        &&& self.frame_rate > 0
        &&& self.frames < u64::MAX
        &&& 1 <= cols <= u32::MAX
        &&& 1 <= n <= rows <= u32::MAX
        &&& forall|i: int|
            0 <= i < n ==> row_fits(
                cols,
                rows,
                (#[trigger] self.channels_vec@[i])@,
                w,
                row_of(cols as u32, rows as u32, n, i),
            )
    }

    /// Tells whether the next frame can be drawn on the frame.
    pub fn fits(&self, frame: &Frame) -> (ok: bool)
        requires
            frame.wf(),
        ensures
            ok == self.can_draw(frame.cols(), frame.rows()),
    {
        proof {
            frame.lemma_shape();
        }
        let screen_width: u32 = frame.width();
        let screen_height: u32 = frame.height();
        let n: usize = self.channels_vec.len();
        if self.frame_rate == 0 || self.frames == u64::MAX || screen_width == 0 || n == 0 || n as u64
            > screen_height as u64 {
            return false;
        }
        let channel_height: u32 = screen_height / (n as u32);
        proof {
            vstd::arithmetic::div_mod::lemma_div_is_ordered(n as int, screen_height as int, n as int);
            vstd::arithmetic::div_mod::lemma_div_basics(n as int);
        }
        let x_max: u32 = screen_width - 1;
        let w: TickWindow = self.get_ticks_in_time_frame();
        let mut i: usize = 0;
        while i < n
            invariant
                i <= n,
                n == self.channels_vec@.len(),
                1 <= n <= screen_height,
                self.frame_rate > 0,
                self.frames < u64::MAX,
                frame.wf(),
                frame.cols() == screen_width,
                frame.rows() == screen_height,
                screen_width >= 1,
                channel_height == screen_height as int / n as int,
                channel_height >= 1,
                x_max == screen_width - 1,
                w == tick_window(
                    self.frames,
                    self.frame_rate,
                    self.window_us,
                    self.ppq,
                    self.tempo,
                    self.duration_ticks,
                ),
                forall|k: int|
                    0 <= k < i ==> row_fits(
                        screen_width as nat,
                        screen_height as nat,
                        (#[trigger] self.channels_vec@[k])@,
                        w,
                        row_of(screen_width, screen_height, n as int, k),
                    ),
            decreases n - i,
        {
            let channel = &self.channels_vec[i];
            proof {
                assert(channel_height * i + channel_height <= screen_height) by (nonlinear_arith)
                    requires
                        channel_height == screen_height as int / n as int,
                        0 <= i < n,
                        screen_height >= 0,
                {
                    assert(n * (screen_height as int / n as int) <= screen_height) by {
                        vstd::arithmetic::div_mod::lemma_fundamental_div_mod(
                            screen_height as int,
                            n as int,
                        );
                    }
                }
                assert(0 <= channel_height * i) by (nonlinear_arith)
                    requires
                        channel_height >= 0,
                        i >= 0,
                ;
            }
            let y_min: u32 = channel_height * (i as u32);
            let y_max: u32 = y_min + channel_height - 1;
            let ghost row = Row { x_max, y_min, y_max };
            assert(row == row_of(screen_width, screen_height, n as int, i as int));
            let notes: Vec<MidiNote> = MidiSong::get_notes_in_time_frame(channel, w.start, w.end);
            let ok: bool = y_min <= u32::MAX - 5 && text_fits_in(frame, 5, y_min + 5, channel.name.as_str())
                && text_fits_in(frame, 4, y_min + 4, channel.name.as_str()) && (notes.len() == 0 || (
            x_max >= 1 && y_min < y_max));
            if !ok {
                proof {
                    assert(!row_fits(
                        screen_width as nat,
                        screen_height as nat,
                        self.channels_vec@[i as int]@,
                        w,
                        row,
                    ));
                }
                return false;
            }
            i = i + 1;
        }
        true
    }

    /// Draws the next frame of the piano roll, makes the next frame of the
    /// video from it, and moves the playhead on by one frame. Says
    /// `SongError::End` once the playhead has reached the end of the song;
    /// the frame made then is the last.
    pub fn draw(&mut self, frame: &mut Frame, encoding: &mut Encoding) -> (out: (
        VideoFrame,
        Result<(), SongError>,
    ))
        requires
            old(frame).wf(),
            old(self).can_draw(old(frame).cols(), old(frame).rows()),
            old(encoding).takes(old(frame).cols(), old(frame).rows()),
        ensures
            final(encoding).rendered(*old(encoding), final(frame)@, out.0),
            final(frame).wf(),
            final(frame).cols() == old(frame).cols(),
            final(frame).rows() == old(frame).rows(),
            final(frame)@ == roll_painted(
                old(frame)@,
                models(old(self).channels_vec@),
                tick_window(
                    old(self).frames,
                    old(self).frame_rate,
                    old(self).window_us,
                    old(self).ppq,
                    old(self).tempo,
                    old(self).duration_ticks,
                ),
                old(self).config.use_gradients,
                old(frame).cols() as u32,
                old(frame).rows() as u32,
                old(self).channels_vec@.len() as int,
            ),
            *final(self) == (MidiSong { frames: (old(self).frames + 1) as u64, ..*old(self) }),
            out.1 == if final(self).finished() {
                Err::<(), SongError>(SongError::End)
            } else {
                Ok::<(), SongError>(())
            },
    {
        proof {
            frame.lemma_shape();
        }
        let ghost before = frame@;
        let ghost list = models(self.channels_vec@);
        let screen_width: u32 = frame.width();
        let screen_height: u32 = frame.height();
        let n: usize = self.channels_vec.len();
        let channel_height: u32 = screen_height / (n as u32);
        proof {
            vstd::arithmetic::div_mod::lemma_div_is_ordered(n as int, screen_height as int, n as int);
            vstd::arithmetic::div_mod::lemma_div_basics(n as int);
        }
        let x_max: u32 = screen_width - 1;
        let w: TickWindow = self.get_ticks_in_time_frame();
        let mut i: usize = 0;
        while i < n
            invariant
                i <= n,
                n == self.channels_vec@.len(),
                *self == *old(self),
                list == models(self.channels_vec@),
                self.can_draw(screen_width as nat, screen_height as nat),
                frame.wf(),
                frame.cols() == screen_width,
                frame.rows() == screen_height,
                channel_height == screen_height as int / n as int,
                channel_height >= 1,
                x_max == screen_width - 1,
                w == tick_window(
                    self.frames,
                    self.frame_rate,
                    self.window_us,
                    self.ppq,
                    self.tempo,
                    self.duration_ticks,
                ),
                frame@ == roll_painted(
                    before,
                    list,
                    w,
                    self.config.use_gradients,
                    screen_width,
                    screen_height,
                    i as int,
                ),
            decreases n - i,
        {
            let channel = &self.channels_vec[i];
            proof {
                assert(list[i as int] == channel@);
                assert(channel_height * i + channel_height <= screen_height) by (nonlinear_arith)
                    requires
                        channel_height == screen_height as int / n as int,
                        0 <= i < n,
                        screen_height >= 0,
                {
                    assert(n * (screen_height as int / n as int) <= screen_height) by {
                        vstd::arithmetic::div_mod::lemma_fundamental_div_mod(
                            screen_height as int,
                            n as int,
                        );
                    }
                }
                assert(0 <= channel_height * i) by (nonlinear_arith)
                    requires
                        channel_height >= 0,
                        i >= 0,
                ;
            }
            let y_min: u32 = channel_height * (i as u32);
            let y_max: u32 = y_min + channel_height - 1;
            let ghost row = Row { x_max, y_min, y_max };
            assert(row == row_of(screen_width, screen_height, n as int, i as int));
            assert(row_fits(screen_width as nat, screen_height as nat, channel@, w, row));
            if self.config.use_gradients {
                rect_gradient(frame, 0, y_min, x_max, y_max, channel.colour);
            } else {
                rect(frame, 0, y_min, x_max, y_max, channel.colour);
            }
            let notes: Vec<MidiNote> = MidiSong::get_notes_in_time_frame(channel, w.start, w.end);
            let ghost filled = frame@;
            let mut k: usize = 0;
            while k < notes.len()
                invariant
                    k <= notes@.len(),
                    frame.wf(),
                    frame.cols() == screen_width,
                    frame.rows() == screen_height,
                    row == (Row { x_max, y_min, y_max }),
                    x_max == screen_width - 1,
                    y_max < screen_height,
                    notes@.len() > 0 ==> x_max >= 1 && y_min < y_max,
                    frame@ == notes_painted(
                        filled,
                        notes@,
                        w,
                        channel.note_min,
                        channel.note_max,
                        row,
                        k as int,
                    ),
                decreases notes@.len() - k,
            {
                let note: MidiNote = notes[k];
                let b: NoteBox = get_note_box(
                    note.tick_on,
                    note.tick_off,
                    note.note,
                    w.start_unclamped,
                    w.end_unclamped,
                    channel.note_min,
                    channel.note_max,
                    x_max,
                    y_min,
                    y_max,
                );
                rect(frame, b.x1 + 1, b.y1 + 1, b.x2 + 1, b.y2 + 1, [0, 0, 0]);
                rect(frame, b.x1, b.y1, b.x2, b.y2, [255, 255, 255]);
                k = k + 1;
            }
            text_colour(frame, 5, y_min + 5, channel.name.as_str(), [0, 0, 0]);
            text(frame, 4, y_min + 4, channel.name.as_str());
            i = i + 1;
        }
        let video: VideoFrame = encoding.render_frame(frame);
        self.frames = self.frames + 1;
        if self.is_finished() {
            (video, Err(SongError::End))
        } else {
            (video, Ok(()))
        }
    }

    /// Takes what one event of track `channel` says; the event is at
    /// `tick`.
    fn apply(&mut self, channel: usize, event: &TrackEvent, tick: u32) -> (done: Result<(), MidiError>)
        ensures
            final(self).same_settings(old(self)),
            final(self).channels@.remove(channel) == old(self).channels@.remove(channel),
            kind_applied(old(self).track_state(channel, tick), event@.kind) == match done {
                Ok(_) => Ok::<TrackState, MidiError>(final(self).track_state(channel, tick)),
                Err(e) => Err::<TrackState, MidiError>(e),
            },
    {
        match &event.kind {
            EventKind::Tempo(tempo) => {
                self.get_tempo(*tempo);
                Ok(())
            },
            EventKind::TrackName(name) => self.update_name(channel, name, Ghost(tick)),
            EventKind::NoteOn(key) => {
                self.add_note(channel, *key, tick);
                Ok(())
            },
            EventKind::NoteOff(key) => self.end_note(channel, *key, tick),
            EventKind::Other => Ok(()),
        }
    }
}

} // verus!
