//! One audio channel: the backlog of decoded samples and the state machine
//! that hands out exactly one video frame's worth of them at a time.
//!
//! Reading and decoding packets is the caller's work. The channel decides:
//! it is told what happened ([`PacketEvent`]) and answers what to do next
//! ([`FrameStep`]).

use vstd::prelude::*;
use std::collections::VecDeque;
use crate::arith::trunc_div;
use crate::display::RGB;

verus! {

/// How many packets may be asked for while one frame is being served.
pub const MAX_RETRIES: u32 = 100;

/// What the channel reads of the description of its audio track.
#[derive(Clone, Copy, Debug, PartialEq, Eq, Structural)]
pub struct TrackInfo {
    /// The track's identifier inside its container.
    pub id: u32,
    /// Samples per second.
    pub sample_rate: u32,
    /// The total number of samples of one audio channel of the track.
    pub n_frames: u64,
}

/// The kinds of failure a demuxer or decoder reports.
#[derive(Clone, Copy, Debug, PartialEq, Eq, Structural)]
pub enum ErrorClass {
    /// Reading the underlying stream failed, or the stream is at its end.
    Io,
    /// The stream holds malformed data.
    Decode,
    /// The stream could not be sought.
    Seek,
    /// The stream uses a feature that is not supported.
    Unsupported,
    /// A limit was reached while decoding.
    Limit,
    /// The decoder has to be reset before it can go on.
    ResetRequired,
}

/// Why a channel could not serve a frame.
#[derive(Clone, Copy, Debug, PartialEq, Eq, Structural)]
pub enum Fault {
    /// Reading a packet failed, and not for want of data.
    Read(ErrorClass),
    /// Decoding a packet failed beyond repair.
    Decode(ErrorClass),
    /// `MAX_RETRIES` packets were asked for and the backlog is still short.
    Stalled,
}

/// Why rendering stops.
#[derive(Clone, Copy, Debug, PartialEq, Eq, Structural)]
pub enum SongError {
    /// A fault that ends the render.
    Error(Fault),
    /// The source is used up: the normal end.
    End,
}

/// The first audio channel of one decoded packet, in the decoder's format.
#[derive(Debug)]
pub enum Samples {
    /// Signed 16-bit samples.
    S16(Vec<i16>),
    /// Signed 24-bit samples, each held in 32 bits.
    S24(Vec<i32>),
    /// Signed 32-bit samples.
    S32(Vec<i32>),
    /// Unsigned 8-bit samples, taken as they are. Floating-point buffers are
    /// handed over in this form.
    U8(Vec<u8>),
}

/// What happened since the channel's last answer.
#[derive(Debug)]
pub enum PacketEvent {
    /// A new frame is asked for.
    Begin,
    /// Reading the next packet failed.
    ReadFailed(ErrorClass),
    /// A packet was read; it belongs to the track with this identifier.
    PacketRead { track_id: u32 },
    /// Decoding the packet failed.
    DecodeFailed(ErrorClass),
    /// The packet was decoded.
    Decoded(Samples),
}

/// What the caller has to do next.
#[derive(Debug)]
pub enum FrameStep {
    /// Read the next packet and report `PacketRead` or `ReadFailed`.
    ReadPacket,
    /// Decode the packet just read and report `Decoded` or `DecodeFailed`.
    DecodePacket,
    /// The frame's samples, oldest first.
    Samples(Vec<u8>),
    /// No frame: the render stops.
    Failed(SongError),
}

/// One audio source and its decode backlog.
#[derive(Debug)]
pub struct Channel {
    pub name: String,
    pub file: String,
    /// The background colour of the channel's cell; black unless configured.
    pub colour: RGB,
    /// Whether the waveform is aligned to a falling edge before it is drawn.
    pub use_alignment: bool,
    /// The track that is being decoded, once it has been loaded.
    pub track: Option<TrackInfo>,
    /// Decoded samples that no frame has consumed yet, oldest first.
    pub buffer: VecDeque<u8>,
    /// Samples handed out so far.
    pub play_time_samples: u64,
    /// Samples the track holds.
    pub play_time_samples_total: u64,
    /// Packets that may still be asked for while the current frame is served.
    pub retries: u32,
    /// Whether the end of the stream has been signalled.
    pub ended: bool,
}

/// The level of a signed 16-bit sample: its upper byte, moved up by 128.
pub open spec fn s16_level(sample: i16) -> u8 {
    (trunc_div(sample as int, 256) + 128) as u8
}

/// The level of a signed 24-bit sample: its upper byte, moved up by 128. A
/// value outside 24 bits wraps around.
pub open spec fn s24_level(sample: i32) -> u8 {
    ((trunc_div(sample as int, 65536) + 128) % 256) as u8
}

/// The level of a signed 32-bit sample: its upper byte, moved up by 128.
pub open spec fn s32_level(sample: i32) -> u8 {
    (trunc_div(sample as int, 16777216) + 128) as u8
}

/// The levels of a decoded buffer, sample by sample.
pub open spec fn levels(samples: Samples) -> Seq<u8> {
    match samples {
        Samples::S16(v) => Seq::new(v@.len(), |i: int| s16_level(v@[i])),
        Samples::S24(v) => Seq::new(v@.len(), |i: int| s24_level(v@[i])),
        Samples::S32(v) => Seq::new(v@.len(), |i: int| s32_level(v@[i])),
        Samples::U8(v) => v@,
    }
}

/// Whether every sample of a signed buffer is zero.
pub open spec fn is_silence(samples: Samples) -> bool {
    match samples {
        Samples::S16(v) => forall|i: int| 0 <= i < v@.len() ==> v@[i] == 0,
        Samples::S24(v) => forall|i: int| 0 <= i < v@.len() ==> v@[i] == 0,
        Samples::S32(v) => forall|i: int| 0 <= i < v@.len() ==> v@[i] == 0,
        Samples::U8(_) => false,
    }
}

/// A buffer yields one level per sample, and silence in a signed format
/// yields 128 throughout. A 24-bit sample inside its range is not wrapped.
pub proof fn lemma_levels(samples: Samples)
    ensures
        levels(samples).len() == match samples {
            Samples::S16(v) => v@.len(),
            Samples::S24(v) => v@.len(),
            Samples::S32(v) => v@.len(),
            Samples::U8(v) => v@.len(),
        },
        forall|i: int| 0 <= i < levels(samples).len() ==> 0 <= #[trigger] levels(samples)[i] <= 255,
        is_silence(samples) ==> forall|i: int|
            0 <= i < levels(samples).len() ==> #[trigger] levels(samples)[i] == 128,
        forall|v: i32|
            -8388608 <= v < 8388608 ==> #[trigger] s24_level(v) == trunc_div(v as int, 65536) + 128,
{
}

/// The level of a signed 16-bit sample.
pub fn normalise_s16(sample: i16) -> (level: u8)
    ensures
        level == s16_level(sample),
{
    if sample >= 0 {
        ((sample as u16) / 256 + 128) as u8
    } else {
        let magnitude: u16 = (-(sample as i32)) as u16;
        (128 - magnitude / 256) as u8
    }
}

/// The level of a signed 24-bit sample held in 32 bits.
pub fn normalise_s24(sample: i32) -> (level: u8)
    ensures
        level == s24_level(sample),
{
    if sample >= 0 {
        (((sample as u32) / 65536 + 128) % 256) as u8
    } else {
        let magnitude: u32 = (-(sample as i64)) as u32;
        ((32896 - magnitude / 65536) % 256) as u8
    }
}

/// The level of a signed 32-bit sample.
pub fn normalise_s32(sample: i32) -> (level: u8)
    ensures
        level == s32_level(sample),
{
    if sample >= 0 {
        ((sample as u32) / 16777216 + 128) as u8
    } else {
        let magnitude: u32 = (-(sample as i64)) as u32;
        (128 - magnitude / 16777216) as u8
    }
}

/// The state of a channel's stream, as the state machine sees it.
pub struct Stream {
    /// The backlog, oldest sample first.
    pub buffer: Seq<u8>,
    /// Samples handed out so far.
    pub played: nat,
    /// Samples the track holds.
    pub total: nat,
    /// Packets that may still be asked for.
    pub retries: nat,
    /// Whether the end of the stream has been signalled.
    pub ended: bool,
}

/// The caller's next step, with the samples as a sequence.
pub enum Step {
    ReadPacket,
    DecodePacket,
    Samples(Seq<u8>),
    Failed(SongError),
}

impl View for FrameStep {
    type V = Step;

    open spec fn view(&self) -> Step {
        match *self {
            FrameStep::ReadPacket => Step::ReadPacket,
            FrameStep::DecodePacket => Step::DecodePacket,
            FrameStep::Samples(v) => Step::Samples(v@),
            FrameStep::Failed(e) => Step::Failed(e),
        }
    }
}

/// Serves the frame from the backlog if it can. With `min` samples at hand
/// they leave the backlog, unless that would count more samples than the
/// track holds: then the stream ends. With fewer at hand another packet is
/// asked for, as long as a retry is left.
pub open spec fn serve(s: Stream, min: nat) -> (Stream, Step) {
    if s.buffer.len() >= min {
        if s.played + min <= s.total {
            (
                Stream { buffer: s.buffer.skip(min as int), played: s.played + min, ..s },
                Step::Samples(s.buffer.take(min as int)),
            )
        } else {
            (Stream { ended: true, ..s }, Step::Failed(SongError::End))
        }
    } else if s.retries == 0 {
        (s, Step::Failed(SongError::Error(Fault::Stalled)))
    } else {
        (Stream { retries: (s.retries - 1) as nat, ..s }, Step::ReadPacket)
    }
}

/// The transition of the stream's state machine.
///
/// - `Begin` grants `MAX_RETRIES` packets and serves.
/// - A read that fails for want of data ends the stream once fewer than
///   `min` samples are left to play; before that it is tried again. Any
///   other read failure is a fault.
/// - A packet of another track is skipped; one of this track is decoded.
/// - A packet that fails to decode for want of data or for malformed data
///   is dropped; any other decode failure is a fault.
/// - Decoded samples join the backlog as levels.
pub open spec fn advance(s: Stream, track_id: u32, min: nat, event: PacketEvent) -> (Stream, Step) {
    match event {
        PacketEvent::Begin => serve(Stream { retries: MAX_RETRIES as nat, ..s }, min),
        PacketEvent::ReadFailed(ErrorClass::Io) => if s.played + min >= s.total {
            (Stream { ended: true, ..s }, Step::Failed(SongError::End))
        } else {
            serve(s, min)
        },
        PacketEvent::ReadFailed(class) => (s, Step::Failed(SongError::Error(Fault::Read(class)))),
        PacketEvent::PacketRead { track_id: id } => if id == track_id {
            (s, Step::DecodePacket)
        } else {
            serve(s, min)
        },
        PacketEvent::DecodeFailed(ErrorClass::Io) => serve(s, min),
        PacketEvent::DecodeFailed(ErrorClass::Decode) => serve(s, min),
        PacketEvent::DecodeFailed(class) => (s, Step::Failed(SongError::Error(Fault::Decode(class)))),
        PacketEvent::Decoded(samples) => serve(Stream { buffer: s.buffer + levels(samples), ..s }, min),
    }
}

/// The levels that an event adds to the backlog.
pub open spec fn arrivals(event: PacketEvent) -> Seq<u8> {
    match event {
        PacketEvent::Decoded(samples) => levels(samples),
        _ => Seq::empty(),
    }
}

/// Whatever happens to a stream that has not ended:
/// samples are handed out `min` at a time and counted, never more than the
/// track holds; and the end is signalled only when fewer than `min` samples
/// are left to play, or exactly `min` and the source has run dry. It
/// leaves the stream ended, so it is signalled once.
pub proof fn lemma_advance(s: Stream, track_id: u32, min: nat, event: PacketEvent)
    requires
        s.played <= s.total,
        !s.ended,
    ensures
        ({
            let (next, step) = advance(s, track_id, min, event);
            &&& next.played <= next.total
            &&& next.total == s.total
            &&& step matches Step::Samples(out) ==> {
                &&& out.len() == min
                &&& next.played == s.played + min
                &&& out + next.buffer == s.buffer + arrivals(event)
            }
            &&& !(step is Samples) ==> next.played == s.played
            &&& next.ended <==> step == Step::Failed(SongError::End)
            &&& next.ended ==> s.played + min >= s.total
        }),
{
    let (next, step) = advance(s, track_id, min, event);
    if let Step::Samples(out) = step {
        assert(out + next.buffer =~= s.buffer + arrivals(event));
    }
}

impl Channel {
    /// The channel has not played more than its track holds, and has no
    /// more retries than a frame is granted.
    pub open spec fn wf(&self) -> bool {
        &&& self.play_time_samples <= self.play_time_samples_total
        &&& self.retries <= MAX_RETRIES
    }

    /// The state of the channel's stream.
    pub open spec fn stream(&self) -> Stream {
        Stream {
            buffer: self.buffer@,
            played: self.play_time_samples as nat,
            total: self.play_time_samples_total as nat,
            retries: self.retries as nat,
            ended: self.ended,
        }
    }

    /// The samples one video frame consumes: the track's sample rate
    /// divided by the frame rate, the remainder dropped.
    pub open spec fn frame_samples(&self, frame_rate: usize) -> nat {
        (self.track.unwrap().sample_rate as usize / frame_rate) as nat
    }

    /// Whether two channels agree in all but the state of their stream.
    pub open spec fn same_source(&self, other: &Channel) -> bool {
        &&& self.name == other.name
        &&& self.file == other.file
        &&& self.colour == other.colour
        &&& self.use_alignment == other.use_alignment
        &&& self.track == other.track
    }

    /// A channel as it is configured: no track yet, nothing played.
    pub fn new(name: String, file: String, colour: RGB, use_alignment: bool) -> (channel: Channel)
        ensures
            channel.wf(),
            channel.name == name,
            channel.file == file,
            channel.colour == colour,
            channel.use_alignment == use_alignment,
            channel.track is None,
            channel.stream() == (Stream {
                buffer: Seq::empty(),
                played: 0,
                total: 0,
                retries: 0,
                ended: false,
            }),
    {
        Channel {
            name,
            file,
            colour,
            use_alignment,
            track: None,
            buffer: VecDeque::new(),
            play_time_samples: 0,
            play_time_samples_total: 0,
            retries: 0,
            ended: false,
        }
    }

    /// Attaches the track that was found in the channel's file. Playback
    /// starts over: the backlog is empty and nothing has been played.
    pub fn load_track_into_memory(&mut self, track: TrackInfo)
        ensures
            final(self).wf(),
            final(self).name == old(self).name,
            final(self).file == old(self).file,
            final(self).colour == old(self).colour,
            final(self).use_alignment == old(self).use_alignment,
            final(self).track == Some(track),
            final(self).stream() == (Stream {
                buffer: Seq::empty(),
                played: 0,
                total: track.n_frames as nat,
                retries: 0,
                ended: false,
            }),
    {
        self.track = Some(track);
        self.buffer.clear();
        self.play_time_samples = 0;
        self.play_time_samples_total = track.n_frames;
        self.retries = 0;
        self.ended = false;
    }

    /// Appends the levels of a decoded buffer to the backlog.
    fn append_levels(&mut self, samples: &Samples)
        ensures
            final(self).buffer@ == old(self).buffer@ + levels(*samples),
            final(self).same_source(old(self)),
            final(self).play_time_samples == old(self).play_time_samples,
            final(self).play_time_samples_total == old(self).play_time_samples_total,
            final(self).retries == old(self).retries,
            final(self).ended == old(self).ended,
    {
        let ghost before = self.buffer@;
        match samples {
            Samples::S16(v) => {
                let mut i: usize = 0;
                while i < v.len()
                    invariant
                        i <= v@.len(),
                        self.buffer@ == before + levels(*samples).take(i as int),
                        *samples == Samples::S16(*v),
                        self.same_source(old(self)),
                        self.play_time_samples == old(self).play_time_samples,
                        self.play_time_samples_total == old(self).play_time_samples_total,
                        self.retries == old(self).retries,
                        self.ended == old(self).ended,
                    decreases v@.len() - i,
                {
                    self.buffer.push_back(normalise_s16(v[i]));
                    i = i + 1;
                    assert(self.buffer@ =~= before + levels(*samples).take(i as int));
                }
                assert(levels(*samples).take(i as int) =~= levels(*samples));
            },
            Samples::S24(v) => {
                let mut i: usize = 0;
                while i < v.len()
                    invariant
                        i <= v@.len(),
                        self.buffer@ == before + levels(*samples).take(i as int),
                        *samples == Samples::S24(*v),
                        self.same_source(old(self)),
                        self.play_time_samples == old(self).play_time_samples,
                        self.play_time_samples_total == old(self).play_time_samples_total,
                        self.retries == old(self).retries,
                        self.ended == old(self).ended,
                    decreases v@.len() - i,
                {
                    self.buffer.push_back(normalise_s24(v[i]));
                    i = i + 1;
                    assert(self.buffer@ =~= before + levels(*samples).take(i as int));
                }
                assert(levels(*samples).take(i as int) =~= levels(*samples));
            },
            Samples::S32(v) => {
                let mut i: usize = 0;
                while i < v.len()
                    invariant
                        i <= v@.len(),
                        self.buffer@ == before + levels(*samples).take(i as int),
                        *samples == Samples::S32(*v),
                        self.same_source(old(self)),
                        self.play_time_samples == old(self).play_time_samples,
                        self.play_time_samples_total == old(self).play_time_samples_total,
                        self.retries == old(self).retries,
                        self.ended == old(self).ended,
                    decreases v@.len() - i,
                {
                    self.buffer.push_back(normalise_s32(v[i]));
                    i = i + 1;
                    assert(self.buffer@ =~= before + levels(*samples).take(i as int));
                }
                assert(levels(*samples).take(i as int) =~= levels(*samples));
            },
            Samples::U8(v) => {
                let mut i: usize = 0;
                while i < v.len()
                    invariant
                        i <= v@.len(),
                        self.buffer@ == before + levels(*samples).take(i as int),
                        *samples == Samples::U8(*v),
                        self.same_source(old(self)),
                        self.play_time_samples == old(self).play_time_samples,
                        self.play_time_samples_total == old(self).play_time_samples_total,
                        self.retries == old(self).retries,
                        self.ended == old(self).ended,
                    decreases v@.len() - i,
                {
                    self.buffer.push_back(v[i]);
                    i = i + 1;
                    assert(self.buffer@ =~= before + levels(*samples).take(i as int));
                }
                assert(levels(*samples).take(i as int) =~= levels(*samples));
            },
        }
        assert(before + levels(*samples).take(levels(*samples).len() as int) =~= before + levels(
            *samples,
        ));
    }

    /// Serves the frame from the backlog, or says what is missing.
    fn serve_frame(&mut self, min: usize) -> (step: FrameStep)
        requires
            old(self).wf(),
        ensures
            final(self).wf(),
            final(self).same_source(old(self)),
            (final(self).stream(), step@) == serve(old(self).stream(), min as nat),
    {
        if self.buffer.len() >= min {
            if (min as u128) <= (self.play_time_samples_total - self.play_time_samples) as u128 {
                let mut out: Vec<u8> = Vec::with_capacity(min);
                let ghost before = self.buffer@;
                let mut i: usize = 0;
                while i < min
                    invariant
                        i <= min <= before.len(),
                        out@ == before.take(i as int),
                        self.buffer@ == before.skip(i as int),
                        self.same_source(old(self)),
                        self.play_time_samples == old(self).play_time_samples,
                        self.play_time_samples_total == old(self).play_time_samples_total,
                        self.retries == old(self).retries,
                        self.ended == old(self).ended,
                    decreases min - i,
                {
                    let sample: Option<u8> = self.buffer.pop_front();
                    match sample {
                        Some(level) => {
                            out.push(level);
                        },
                        None => {},
                    }
                    i = i + 1;
                    assert(out@ =~= before.take(i as int));
                    assert(self.buffer@ =~= before.skip(i as int));
                }
                self.play_time_samples = self.play_time_samples + (min as u64);
                FrameStep::Samples(out)
            } else {
                self.ended = true;
                FrameStep::Failed(SongError::End)
            }
        } else if self.retries == 0 {
            FrameStep::Failed(SongError::Error(Fault::Stalled))
        } else {
            self.retries = self.retries - 1;
            FrameStep::ReadPacket
        }
    }

    /// Advances the channel's stream by one event and says what to do next.
    ///
    /// A frame is asked for with `PacketEvent::Begin`. As long as the answer
    /// is `ReadPacket` or `DecodePacket` the caller does so and reports the
    /// outcome. `Samples` carries the frame: exactly
    /// `sample rate / frame_rate` samples, taken from the front of the
    /// backlog. `Failed(SongError::End)` is the end of the stream; it is
    /// given at most once, since a stream that has ended is not advanced
    /// again.
    pub fn get_frame_samples(&mut self, frame_rate: usize, event: PacketEvent) -> (step: FrameStep)
        requires
            old(self).wf(),
            old(self).track is Some,
            frame_rate > 0,
            !old(self).ended,
        ensures
            final(self).wf(),
            final(self).same_source(old(self)),
            (final(self).stream(), step@) == advance(
                old(self).stream(),
                old(self).track.unwrap().id,
                old(self).frame_samples(frame_rate),
                event,
            ),
            step matches FrameStep::Samples(out) ==> {
                &&& out@.len() == old(self).frame_samples(frame_rate)
                &&& final(self).play_time_samples == old(self).play_time_samples + old(
                    self,
                ).frame_samples(frame_rate)
            },
            final(self).ended <==> step@ == Step::Failed(SongError::End),
            final(self).ended ==> old(self).play_time_samples + old(self).frame_samples(frame_rate)
                >= old(self).play_time_samples_total,
    {
        let track: TrackInfo = self.track.unwrap();
        let min: usize = (track.sample_rate as usize) / frame_rate;
        proof {
            lemma_advance(self.stream(), track.id, min as nat, event);
        }
        match event {
            PacketEvent::Begin => {
                self.retries = MAX_RETRIES;
                self.serve_frame(min)
            },
            PacketEvent::ReadFailed(class) => {
                match class {
                    ErrorClass::Io => {
                        if (self.play_time_samples_total - self.play_time_samples) as u128 <= (
                        min as u128) {
                            self.ended = true;
                            FrameStep::Failed(SongError::End)
                        } else {
                            self.serve_frame(min)
                        }
                    },
                    _ => FrameStep::Failed(SongError::Error(Fault::Read(class))),
                }
            },
            PacketEvent::PacketRead { track_id } => {
                if track_id == track.id {
                    FrameStep::DecodePacket
                } else {
                    self.serve_frame(min)
                }
            },
            PacketEvent::DecodeFailed(class) => {
                match class {
                    ErrorClass::Io => self.serve_frame(min),
                    ErrorClass::Decode => self.serve_frame(min),
                    _ => FrameStep::Failed(SongError::Error(Fault::Decode(class))),
                }
            },
            PacketEvent::Decoded(samples) => {
                self.append_levels(&samples);
                self.serve_frame(min)
            },
        }
    }
}

} // verus!
