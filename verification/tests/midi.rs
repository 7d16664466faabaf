use multitrack_visualizer::data::channel::SongError;
use multitrack_visualizer::data::midi::{
    name_lt, MidiChannel, MidiChannelConfig, MidiNote, MidiSong, MidiSongConfig,
};
use multitrack_visualizer::data::midi_file::{read_midi, EventKind, MidiError, MidiFile, Timing, TrackEvent};
use multitrack_visualizer::data::video::{Encoding, VideoFrame};
use multitrack_visualizer::display::frame::Frame;

fn config(channels: Vec<(&str, MidiChannelConfig)>) -> MidiSongConfig {
    MidiSongConfig {
        midi_file: String::from("song.mid"),
        channels: channels.into_iter().map(|(name, c)| (String::from(name), c)).collect(),
        video_file_out: String::from("out.mp4"),
        use_gradients: false,
    }
}

fn entry(order: usize) -> MidiChannelConfig {
    MidiChannelConfig { order, colour: [order as u8, 0, 0], visible: true }
}

fn event(delta: u32, kind: EventKind) -> TrackEvent {
    TrackEvent { delta, kind }
}

fn named_track(name: &str, key: u8) -> Vec<TrackEvent> {
    vec![
        event(0, EventKind::TrackName(name.as_bytes().to_vec())),
        event(0, EventKind::NoteOn(key)),
        event(10, EventKind::NoteOff(key)),
    ]
}

fn song_of(tracks: Vec<Vec<TrackEvent>>, config: MidiSongConfig) -> Result<MidiSong, MidiError> {
    MidiSong::from_file(&MidiFile { timing: Timing::Metrical(480), tracks }, config, 5_000_000, 60)
}

fn draw_with(song: &mut MidiSong, frame: &mut Frame) -> (VideoFrame, Result<(), SongError>) {
    let mut encoding = Encoding::new(frame.width(), frame.height(), 1).unwrap();
    assert!(song.fits(frame));
    assert!(encoding.accepts(frame));
    song.draw(frame, &mut encoding)
}

fn draw(song: &mut MidiSong, frame: &mut Frame) -> Result<(), SongError> {
    draw_with(song, frame).1
}

fn names(song: &MidiSong) -> Vec<String> {
    song.channels_vec.iter().map(|c| c.name.clone()).collect()
}

const SMF: [u8; 54] = [
    0x4d, 0x54, 0x68, 0x64, 0x00, 0x00, 0x00, 0x06, 0x00, 0x01, 0x00, 0x01, 0x01, 0xe0, 0x4d, 0x54, 0x72,
    0x6b, 0x00, 0x00, 0x00, 0x20, 0x00, 0xff, 0x51, 0x03, 0x07, 0xa1, 0x20, 0x00, 0xff, 0x03, 0x05, 0x50,
    0x69, 0x61, 0x6e, 0x6f, 0x0a, 0x90, 0x3c, 0x40, 0x28, 0x80, 0x3c, 0x40, 0x05, 0x90, 0x3e, 0x40, 0x00,
    0xff, 0x2f, 0x00,
];

#[test]
fn note_off_closes_the_note_and_an_unmatched_note_stays_open() {
    let track = vec![
        event(10, EventKind::NoteOn(60)),
        event(40, EventKind::NoteOff(60)),
        event(5, EventKind::NoteOn(62)),
    ];
    let song = song_of(vec![track], config(vec![])).unwrap();
    assert_eq!(song.channels_vec.len(), 1);
    let channel = &song.channels_vec[0];
    assert_eq!(
        channel.notes,
        vec![
            MidiNote { tick_on: 10, tick_off: 50, note: 60 },
            MidiNote { tick_on: 55, tick_off: 0, note: 62 },
        ]
    );
    assert_eq!((channel.note_min, channel.note_max), (60, 62));
    assert_eq!(channel.name, "");
    assert_eq!(channel.colour, [24, 24, 24]);
    assert_eq!(song.duration_ticks, 50);
    assert_eq!(song.frames, 0);
    assert!(song.channels.is_empty());
}

#[test]
fn note_off_closes_the_first_open_note_of_its_pitch() {
    let track = vec![
        event(1, EventKind::NoteOn(60)),
        event(1, EventKind::NoteOn(61)),
        event(1, EventKind::NoteOn(60)),
        event(1, EventKind::NoteOff(60)),
        event(1, EventKind::NoteOff(62)),
        event(1, EventKind::NoteOff(60)),
    ];
    let song = song_of(vec![track], config(vec![])).unwrap();
    assert_eq!(
        song.channels_vec[0].notes,
        vec![
            MidiNote { tick_on: 1, tick_off: 4, note: 60 },
            MidiNote { tick_on: 2, tick_off: 0, note: 61 },
            MidiNote { tick_on: 3, tick_off: 6, note: 60 },
        ]
    );
    assert_eq!(song.duration_ticks, 6);
}

#[test]
fn every_event_moves_the_tick() {
    let track = vec![
        event(0, EventKind::TrackName(b"keys".to_vec())),
        event(5, EventKind::Other),
        event(5, EventKind::NoteOn(60)),
        event(40, EventKind::NoteOff(60)),
    ];
    let song = song_of(vec![track], config(vec![])).unwrap();
    assert_eq!(song.channels_vec[0].notes, vec![MidiNote { tick_on: 10, tick_off: 50, note: 60 }]);
    assert_eq!(song.duration_ticks, 50);
    let track = vec![
        event(100, EventKind::Other),
        event(100, EventKind::Tempo(400_000)),
        event(7, EventKind::NoteOn(50)),
        event(100, EventKind::TrackName(b"x".to_vec())),
        event(3, EventKind::NoteOff(50)),
        event(1000, EventKind::Other),
    ];
    let song = song_of(vec![track], config(vec![])).unwrap();
    assert_eq!(song.channels_vec[0].notes, vec![MidiNote { tick_on: 207, tick_off: 310, note: 50 }]);
    assert_eq!(song.channels_vec[0].last_tick, 310);
    assert_eq!(song.duration_ticks, 310);
    assert_eq!(song.tempo, 400_000);
    assert_eq!(song.channels_vec[0].name, "x");
}

#[test]
fn last_tempo_wins_and_first_name_stays() {
    let first = vec![
        event(0, EventKind::Tempo(1)),
        event(0, EventKind::TrackName(b"one".to_vec())),
        event(0, EventKind::TrackName(b"two".to_vec())),
        event(0, EventKind::NoteOn(1)),
        event(1, EventKind::NoteOff(1)),
    ];
    let second = vec![
        event(0, EventKind::TrackName(Vec::new())),
        event(0, EventKind::TrackName(b"late".to_vec())),
        event(0, EventKind::Tempo(2)),
        event(0, EventKind::NoteOn(1)),
        event(9, EventKind::NoteOff(1)),
    ];
    let song = song_of(vec![first, second], config(vec![])).unwrap();
    assert_eq!(song.tempo, 2);
    assert_eq!(names(&song), vec!["late", "one"]);
    assert_eq!(song.duration_ticks, 9);
}

#[test]
fn each_track_counts_its_own_ticks() {
    let first = vec![event(100, EventKind::NoteOn(1)), event(100, EventKind::NoteOff(1))];
    let second = vec![event(5, EventKind::NoteOn(2)), event(5, EventKind::NoteOff(2))];
    let song = song_of(vec![first, second], config(vec![])).unwrap();
    assert_eq!(song.channels_vec[0].notes, vec![MidiNote { tick_on: 100, tick_off: 200, note: 1 }]);
    assert_eq!(song.channels_vec[1].notes, vec![MidiNote { tick_on: 5, tick_off: 10, note: 2 }]);
    assert_eq!(song.duration_ticks, 200);
}

#[test]
fn a_name_opens_a_channel_with_an_empty_range() {
    let channel = MidiChannel::new_with_name(String::from("pad"));
    assert_eq!(channel.name, "pad");
    assert_eq!((channel.note_min, channel.note_max), (255, 0));
    assert_eq!(channel.last_tick, 0);
    assert_eq!(channel.colour, [24, 24, 24]);
    assert!(channel.notes.is_empty());
}

#[test]
fn a_note_opens_a_channel_at_its_key() {
    let channel = MidiChannel::new(64, 12);
    assert_eq!(channel.name, "");
    assert_eq!((channel.note_min, channel.note_max), (64, 64));
    assert_eq!(channel.last_tick, 12);
    assert!(channel.notes.is_empty());
}

#[test]
fn the_range_of_a_named_channel_follows_its_notes() {
    let mut channel = MidiChannel::new_with_name(String::from("pad"));
    channel.add_note(70, 3);
    assert_eq!((channel.note_min, channel.note_max), (70, 70));
    channel.add_note(40, 6);
    assert_eq!((channel.note_min, channel.note_max), (40, 70));
    channel.end_note(70, 10);
    assert_eq!(channel.last_tick, 10);
    assert_eq!(
        channel.notes,
        vec![MidiNote { tick_on: 3, tick_off: 10, note: 70 }, MidiNote { tick_on: 6, tick_off: 0, note: 40 }]
    );
}

#[test]
fn tracks_without_notes_are_dropped() {
    let silent = vec![event(0, EventKind::TrackName(b"meta".to_vec())), event(0, EventKind::Tempo(9))];
    let song = song_of(vec![silent, named_track("keys", 60), Vec::new()], config(vec![])).unwrap();
    assert_eq!(names(&song), vec!["keys"]);
    assert_eq!(song.tempo, 9);
}

#[test]
fn configured_channels_go_by_their_order() {
    let song = song_of(
        vec![named_track("Lead", 70), named_track("Bass", 30)],
        config(vec![("Lead", entry(2)), ("Bass", entry(1))]),
    )
    .unwrap();
    assert_eq!(names(&song), vec!["Bass", "Lead"]);
    assert_eq!(song.channels_vec[0].colour, [1, 0, 0]);
    assert_eq!(song.channels_vec[1].colour, [2, 0, 0]);
    let song = song_of(
        vec![named_track("Lead", 70), named_track("Bass", 30)],
        config(vec![("Lead", entry(1)), ("Bass", entry(2))]),
    )
    .unwrap();
    assert_eq!(names(&song), vec!["Lead", "Bass"]);
}

#[test]
fn unconfigured_channels_go_by_name_behind_the_configured() {
    let song = song_of(
        vec![named_track("b", 1), named_track("z", 1), named_track("a", 1), named_track("c", 1)],
        config(vec![("z", entry(5))]),
    )
    .unwrap();
    assert_eq!(names(&song), vec!["z", "a", "b", "c"]);
    assert_eq!(song.channels_vec[1].colour, [24, 24, 24]);
}

#[test]
fn channels_of_one_order_go_by_name_and_equals_by_track() {
    let song = song_of(
        vec![named_track("b", 1), named_track("a", 2), named_track("b", 3)],
        config(vec![("a", entry(4)), ("b", entry(4))]),
    )
    .unwrap();
    assert_eq!(names(&song), vec!["a", "b", "b"]);
    assert_eq!(song.channels_vec[1].note_min, 1);
    assert_eq!(song.channels_vec[2].note_min, 3);
}

#[test]
fn hidden_channels_are_left_out() {
    let hidden = MidiChannelConfig { order: 0, colour: [9, 9, 9], visible: false };
    let song = song_of(
        vec![named_track("a", 1), named_track("b", 1)],
        config(vec![("a", hidden), ("b", entry(3))]),
    )
    .unwrap();
    assert_eq!(names(&song), vec!["b"]);
}

#[test]
fn first_of_two_entries_with_one_name_counts() {
    let config = config(vec![("a", entry(7)), ("a", entry(8))]);
    assert_eq!(config.find(&String::from("a")).map(|c| c.order), Some(7));
    assert!(config.find(&String::from("b")).is_none());
}

#[test]
fn names_are_compared_like_words_in_a_dictionary() {
    assert!(name_lt("", "a"));
    assert!(!name_lt("a", ""));
    assert!(!name_lt("a", "a"));
    assert!(name_lt("a", "ab"));
    assert!(name_lt("ab", "b"));
    assert!(name_lt("Z", "a"));
    assert!(name_lt("z", "\u{e9}"));
    assert!(!name_lt("b", "ab"));
}

#[test]
fn default_channel_config_is_hidden() {
    let c = MidiChannelConfig::default();
    assert_eq!((c.order, c.colour, c.visible), (0, [0, 0, 0], false));
}

#[test]
fn timecode_is_refused() {
    let file = MidiFile { timing: Timing::Timecode, tracks: vec![named_track("a", 1)] };
    assert_eq!(MidiSong::from_file(&file, config(vec![]), 1, 1).err(), Some(MidiError::Timecode));
}

#[test]
fn a_name_that_is_not_utf8_is_refused() {
    let track = vec![event(0, EventKind::TrackName(vec![0xff, 0xfe]))];
    assert_eq!(song_of(vec![track], config(vec![])).err(), Some(MidiError::TrackName));
}

#[test]
fn a_name_in_utf8_is_decoded() {
    let track = vec![
        event(0, EventKind::TrackName("Fl\u{f6}te".as_bytes().to_vec())),
        event(0, EventKind::NoteOn(1)),
        event(1, EventKind::NoteOff(1)),
    ];
    let song = song_of(vec![track], config(vec![])).unwrap();
    assert_eq!(names(&song), vec!["Fl\u{f6}te"]);
}

#[test]
fn note_off_in_an_unopened_track_is_refused() {
    let track = vec![event(0, EventKind::NoteOff(60))];
    assert_eq!(song_of(vec![track], config(vec![])).err(), Some(MidiError::NoteOffWithoutChannel));
    let named = vec![event(0, EventKind::TrackName(b"a".to_vec())), event(0, EventKind::NoteOff(60))];
    assert!(song_of(vec![named], config(vec![])).is_ok());
}

#[test]
fn ticks_beyond_32_bits_are_refused() {
    let track = vec![event(u32::MAX, EventKind::NoteOn(60)), event(1, EventKind::NoteOff(60))];
    assert_eq!(song_of(vec![track], config(vec![])).err(), Some(MidiError::TickOverflow));
    let track = vec![event(u32::MAX, EventKind::NoteOn(60)), event(1, EventKind::NoteOn(60))];
    assert_eq!(song_of(vec![track], config(vec![])).err(), Some(MidiError::TickOverflow));
    let track = vec![event(u32::MAX, EventKind::NoteOn(60)), event(0, EventKind::NoteOff(60))];
    assert!(song_of(vec![track], config(vec![])).is_ok());
    let track = vec![event(u32::MAX, EventKind::Other), event(1, EventKind::Other)];
    assert_eq!(song_of(vec![track], config(vec![])).err(), Some(MidiError::TickOverflow));
    let first = vec![event(u32::MAX, EventKind::Other)];
    let second = vec![event(u32::MAX, EventKind::NoteOn(1)), event(0, EventKind::NoteOff(1))];
    assert!(song_of(vec![first, second], config(vec![])).is_ok());
}

#[test]
fn the_first_error_of_a_file_is_reported() {
    let bad_name = vec![event(0, EventKind::TrackName(vec![0x80]))];
    let orphan = vec![event(0, EventKind::NoteOff(1))];
    assert_eq!(song_of(vec![orphan, bad_name], config(vec![])).err(), Some(MidiError::NoteOffWithoutChannel));
}

#[test]
fn parser_reads_a_standard_midi_file() {
    let file = read_midi(&SMF).unwrap();
    assert_eq!(file.timing, Timing::Metrical(480));
    assert_eq!(file.tracks.len(), 1);
    let track = &file.tracks[0];
    assert_eq!(track.len(), 6);
    assert!(matches!(track[0], TrackEvent { delta: 0, kind: EventKind::Tempo(500_000) }));
    assert!(matches!(&track[1], TrackEvent { delta: 0, kind: EventKind::TrackName(n) } if n == b"Piano"));
    assert!(matches!(track[2], TrackEvent { delta: 10, kind: EventKind::NoteOn(60) }));
    assert!(matches!(track[3], TrackEvent { delta: 40, kind: EventKind::NoteOff(60) }));
    assert!(matches!(track[4], TrackEvent { delta: 5, kind: EventKind::NoteOn(62) }));
    assert!(matches!(track[5], TrackEvent { delta: 0, kind: EventKind::Other }));
}

#[test]
fn song_is_generated_from_the_bytes_of_a_file() {
    let song = MidiSong::generate_song_from_midi(config(vec![]), &SMF, 3_000_000, 30).unwrap();
    assert_eq!(song.ppq, 480);
    assert_eq!(song.tempo, 500_000);
    assert_eq!(song.duration_ticks, 50);
    assert_eq!((song.window_us, song.frame_rate, song.frames), (3_000_000, 30, 0));
    assert_eq!(names(&song), vec!["Piano"]);
    assert_eq!(
        song.channels_vec[0].notes,
        vec![MidiNote { tick_on: 10, tick_off: 50, note: 60 }, MidiNote { tick_on: 55, tick_off: 0, note: 62 }]
    );
}

#[test]
fn bytes_that_are_no_midi_file_are_refused() {
    assert_eq!(MidiSong::generate_song_from_midi(config(vec![]), b"RIFF", 1, 1).err(), Some(MidiError::Parse));
    assert_eq!(read_midi(&[]).err(), Some(MidiError::Parse));
}

fn timed_song(notes: Vec<MidiNote>, note_min: u8, note_max: u8, frames: u64) -> MidiSong {
    let mut song = song_of(Vec::new(), config(vec![])).unwrap();
    song.tempo = 480_000;
    song.duration_ticks = 5000;
    song.window_us = 1_000_000;
    song.frames = frames;
    song.channels_vec.push(MidiChannel {
        name: String::new(),
        note_min,
        note_max,
        last_tick: 0,
        colour: [24, 24, 24],
        notes,
    });
    song
}

#[test]
fn window_of_one_second_at_two_seconds_shows_ticks_2000_to_3000() {
    let song = timed_song(Vec::new(), 0, 0, 150);
    let w = song.get_ticks_in_time_frame();
    assert_eq!((w.start, w.end, w.start_unclamped, w.end_unclamped), (2000, 3000, 2000, 3000));
}

#[test]
fn window_is_clamped_to_the_song() {
    let song = timed_song(Vec::new(), 0, 0, 0);
    let w = song.get_ticks_in_time_frame();
    assert_eq!((w.start, w.end, w.start_unclamped, w.end_unclamped), (0, 500, -500, 500));
    let song = timed_song(Vec::new(), 0, 0, 300);
    let w = song.get_ticks_in_time_frame();
    assert_eq!((w.start, w.end, w.start_unclamped, w.end_unclamped), (4500, 5000, 4500, 5500));
    let song = timed_song(Vec::new(), 0, 0, 600);
    let w = song.get_ticks_in_time_frame();
    assert_eq!((w.start, w.end, w.start_unclamped, w.end_unclamped), (5000, 5000, 9500, 10500));
}

#[test]
fn song_lasts_its_ticks_times_the_length_of_a_tick() {
    let mut song = timed_song(Vec::new(), 0, 0, 0);
    assert_eq!(song.get_song_duration(), Some(5_000_000));
    song.tempo = 500_000;
    song.duration_ticks = 7;
    assert_eq!(song.get_song_duration(), Some(7291));
    song.ppq = 0;
    assert_eq!(song.get_song_duration(), None);
}

#[test]
fn notes_in_the_window_overlap_it() {
    let notes = vec![
        MidiNote { tick_on: 0, tick_off: 99, note: 1 },
        MidiNote { tick_on: 0, tick_off: 100, note: 2 },
        MidiNote { tick_on: 150, tick_off: 160, note: 3 },
        MidiNote { tick_on: 200, tick_off: 300, note: 4 },
        MidiNote { tick_on: 201, tick_off: 300, note: 5 },
        MidiNote { tick_on: 50, tick_off: 400, note: 6 },
        MidiNote { tick_on: 120, tick_off: 0, note: 7 },
    ];
    let channel =
        MidiChannel { name: String::new(), note_min: 1, note_max: 7, last_tick: 0, colour: [0, 0, 0], notes };
    let shown: Vec<u8> =
        MidiSong::get_notes_in_time_frame(&channel, 100, 200).iter().map(|n| n.note).collect();
    assert_eq!(shown, vec![2, 3, 4, 6]);
    let at_start: Vec<u8> =
        MidiSong::get_notes_in_time_frame(&channel, 0, 130).iter().map(|n| n.note).collect();
    assert_eq!(at_start, vec![1, 2, 6]);
}

#[test]
fn a_frame_of_the_piano_roll() {
    let notes = vec![
        MidiNote { tick_on: 2100, tick_off: 2300, note: 60 },
        MidiNote { tick_on: 2400, tick_off: 2600, note: 72 },
        MidiNote { tick_on: 2700, tick_off: 0, note: 66 },
    ];
    let mut song = timed_song(notes, 60, 72, 150);
    let mut frame = Frame::new(101, 20);
    assert_eq!(draw(&mut song, &mut frame), Ok(()));
    assert_eq!(song.frames, 151);
    let white = [255, 255, 255];
    let black = [0, 0, 0];
    let ground = [24, 24, 24];
    for y in 0..20u32 {
        for x in 0..101u32 {
            let first = (10..30).contains(&x) && y == 15;
            let first_shadow = (11..31).contains(&x) && y == 16;
            let second = (39..61).contains(&x) && (3..6).contains(&y);
            let second_shadow = (40..62).contains(&x) && (4..7).contains(&y);
            let expected = if first || second {
                white
            } else if first_shadow || second_shadow {
                black
            } else if x < 100 && y < 19 {
                ground
            } else {
                black
            };
            assert_eq!(frame.get_pixel(x, y), expected, "at {} {}", x, y);
        }
    }
}

#[test]
fn a_note_at_the_middle_grows_by_its_nearness() {
    let notes = vec![MidiNote { tick_on: 2495, tick_off: 2500, note: 5 }];
    let mut song = timed_song(notes, 0, 10, 150);
    let mut frame = Frame::new(101, 30);
    draw(&mut song, &mut frame).unwrap();
    let white = [255, 255, 255];
    for y in 0..30u32 {
        for x in 0..101u32 {
            let inside = (48..50).contains(&x) && (13..15).contains(&y);
            assert_eq!(frame.get_pixel(x, y) == white, inside, "at {} {}", x, y);
        }
    }
}

#[test]
fn a_channel_of_one_pitch_has_its_notes_in_its_row() {
    let notes = vec![MidiNote { tick_on: 2100, tick_off: 2300, note: 60 }];
    let mut song = timed_song(notes, 60, 60, 150);
    song.channels_vec.insert(
        0,
        MidiChannel {
            name: String::new(),
            note_min: 0,
            note_max: 0,
            last_tick: 0,
            colour: [24, 24, 24],
            notes: Vec::new(),
        },
    );
    let mut frame = Frame::new(50, 40);
    draw(&mut song, &mut frame).unwrap();
    for y in 0..40u32 {
        for x in 0..50u32 {
            let note = (4..14).contains(&x) && y == 35;
            let shadow = (5..15).contains(&x) && y == 36;
            let expected = if note {
                [255, 255, 255]
            } else if shadow {
                [0, 0, 0]
            } else if x < 49 && y != 19 && y != 39 {
                [24, 24, 24]
            } else {
                [0, 0, 0]
            };
            assert_eq!(frame.get_pixel(x, y), expected, "at {} {}", x, y);
        }
    }
}

#[test]
fn each_draw_makes_the_next_frame_of_the_video() {
    let mut song = timed_song(Vec::new(), 0, 0, 328);
    song.channels_vec[0].colour = [7, 8, 9];
    let mut frame = Frame::new(3, 3);
    let mut encoding = Encoding::new(3, 3, 1).unwrap();
    let (first, done) = song.draw(&mut frame, &mut encoding);
    assert_eq!(done, Ok(()));
    assert_eq!((first.index, first.rows, first.cols), (0, 3, 3));
    assert_eq!(first.pixels, frame.as_raw());
    assert_eq!(&first.pixels[0..3], &[7, 8, 9]);
    let (last, done) = song.draw(&mut frame, &mut encoding);
    assert_eq!(done, Err(SongError::End));
    assert_eq!(last.index, 1);
    assert_eq!(last.pixels, frame.as_raw());
    assert_eq!(encoding.position, 2);
}

#[test]
fn rows_share_the_canvas_evenly() {
    let mut song = timed_song(Vec::new(), 0, 0, 150);
    song.channels_vec[0].colour = [10, 0, 0];
    song.channels_vec.push(MidiChannel {
        name: String::new(),
        note_min: 0,
        note_max: 0,
        last_tick: 0,
        colour: [20, 0, 0],
        notes: Vec::new(),
    });
    let mut frame = Frame::new(4, 9);
    draw(&mut song, &mut frame).unwrap();
    let reds: Vec<u8> = (0..9).map(|y| frame.get_pixel(0, y)[0]).collect();
    assert_eq!(reds, vec![10, 10, 10, 0, 20, 20, 20, 0, 0]);
    assert_eq!(frame.get_pixel(3, 0), [0, 0, 0]);
    assert_eq!(frame.get_pixel(2, 0), [10, 0, 0]);
}

#[test]
fn rows_get_a_gradient_when_asked_for() {
    let mut song = timed_song(Vec::new(), 0, 0, 150);
    song.config.use_gradients = true;
    song.channels_vec[0].colour = [10, 10, 10];
    let mut frame = Frame::new(3, 5);
    draw(&mut song, &mut frame).unwrap();
    let column: Vec<[u8; 3]> = (0..5).map(|y| frame.get_pixel(0, y)).collect();
    assert_eq!(column, vec![[10, 10, 10], [9, 10, 10], [9, 9, 10], [9, 9, 9], [0, 0, 0]]);
}

#[test]
fn the_name_is_drawn_over_its_shadow() {
    let mut song = timed_song(Vec::new(), 0, 0, 150);
    song.channels_vec[0].name = String::from("|");
    let mut frame = Frame::new(20, 20);
    draw(&mut song, &mut frame).unwrap();
    let mut whites = 0;
    let mut blacks = 0;
    for y in 0..19u32 {
        for x in 0..19u32 {
            let p = frame.get_pixel(x, y);
            if p == [255, 255, 255] {
                whites += 1;
                assert!(x >= 4 && x < 9 && y >= 4 && y < 10);
            } else if p == [0, 0, 0] {
                blacks += 1;
                assert!(x >= 5 && x < 10 && y >= 5 && y < 11);
            }
        }
    }
    assert!(whites > 0 && blacks > 0);
}

#[test]
fn the_roll_ends_when_the_playhead_reaches_the_end() {
    let mut song = timed_song(Vec::new(), 0, 0, 328);
    let mut frame = Frame::new(4, 4);
    assert_eq!(draw(&mut song, &mut frame), Ok(()));
    assert!(!song.is_finished());
    assert_eq!(draw(&mut song, &mut frame), Err(SongError::End));
    assert_eq!(song.frames, 330);
    assert!(song.is_finished());
}

#[test]
fn a_song_without_ticks_to_the_quarter_never_ends() {
    let mut song = timed_song(Vec::new(), 0, 0, 1_000_000);
    song.ppq = 0;
    let mut frame = Frame::new(4, 4);
    assert_eq!(draw(&mut song, &mut frame), Ok(()));
    let w = song.get_ticks_in_time_frame();
    assert_eq!((w.start, w.end, w.start_unclamped, w.end_unclamped), (0, 0, 0, 0));
}

#[test]
fn a_song_without_tempo_is_over_when_the_playhead_passes_zero() {
    let mut song = timed_song(Vec::new(), 0, 0, 28);
    song.tempo = 0;
    let w = song.get_ticks_in_time_frame();
    assert_eq!((w.start, w.end, w.start_unclamped, w.end_unclamped), (0, 5000, i32::MIN, i32::MAX));
    let mut frame = Frame::new(4, 4);
    assert_eq!(draw(&mut song, &mut frame), Ok(()));
    assert_eq!(draw(&mut song, &mut frame), Err(SongError::End));
    assert_eq!(song.frames, 30);
}
