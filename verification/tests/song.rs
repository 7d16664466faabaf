use multitrack_visualizer::data::channel::{Channel, TrackInfo};
use multitrack_visualizer::data::song::{draw_channel, Song};
use multitrack_visualizer::data::video::{Encoding, VideoFrame};
use multitrack_visualizer::display::frame::Frame;

fn channel(name: &str, colour: [u8; 3], use_alignment: bool) -> Channel {
    Channel::new(String::from(name), format!("{}.wav", name), colour, use_alignment)
}

fn draw(song: &Song, frame: &mut Frame, samples: &Vec<Vec<u8>>) -> VideoFrame {
    let mut encoding = Encoding::new(frame.width(), frame.height(), 1).unwrap();
    assert!(song.fits(frame, samples));
    assert!(encoding.accepts(frame));
    song.draw(frame, &mut encoding, samples)
}

fn song(channels: Vec<Channel>, use_gradients: bool) -> Song {
    Song { channels, video_file_out: String::from("out.mp4"), use_gradients }
}

#[test]
fn tracks_are_attached_in_order() {
    let mut s = song(vec![channel("a", [0, 0, 0], true), channel("b", [0, 0, 0], true)], true);
    s.load_tracks_into_memory(&vec![
        TrackInfo { id: 1, sample_rate: 44_100, n_frames: 10 },
        TrackInfo { id: 2, sample_rate: 48_000, n_frames: 20 },
    ]);
    assert_eq!(s.channels[0].track.unwrap().id, 1);
    assert_eq!(s.channels[0].play_time_samples_total, 10);
    assert_eq!(s.channels[1].track.unwrap().sample_rate, 48_000);
    assert_eq!(s.channels[1].play_time_samples_total, 20);
    assert_eq!(s.channels[1].name, "b");
}

#[test]
fn one_channel_fills_the_canvas() {
    let s = song(vec![channel("", [9, 8, 7], true)], false);
    let mut frame = Frame::new(40, 20);
    draw(&s, &mut frame, &vec![vec![128; 40]]);
    for y in 0..20u32 {
        for x in 0..40u32 {
            let expected = if x < 39 && y == 10 {
                [255, 255, 255]
            } else if x < 39 && y < 19 {
                [9, 8, 7]
            } else {
                [0, 0, 0]
            };
            assert_eq!(frame.get_pixel(x, y), expected, "at {} {}", x, y);
        }
    }
}

#[test]
fn wide_canvas_has_two_columns() {
    let s = song(
        vec![
            channel("", [1, 0, 0], false),
            channel("", [2, 0, 0], false),
            channel("", [3, 0, 0], false),
        ],
        false,
    );
    let mut frame = Frame::new(41, 21);
    let quiet = vec![0u8; 30];
    draw(&s, &mut frame, &vec![quiet.clone(), quiet.clone(), quiet]);
    assert_eq!(frame.get_pixel(0, 1), [1, 0, 0]);
    assert_eq!(frame.get_pixel(18, 8), [1, 0, 0]);
    assert_eq!(frame.get_pixel(19, 8), [0, 0, 0]);
    assert_eq!(frame.get_pixel(20, 1), [2, 0, 0]);
    assert_eq!(frame.get_pixel(38, 8), [2, 0, 0]);
    assert_eq!(frame.get_pixel(39, 8), [0, 0, 0]);
    assert_eq!(frame.get_pixel(40, 8), [0, 0, 0]);
    assert_eq!(frame.get_pixel(0, 9), [0, 0, 0]);
    assert_eq!(frame.get_pixel(0, 11), [3, 0, 0]);
    assert_eq!(frame.get_pixel(20, 11), [0, 0, 0]);
    assert_eq!(frame.get_pixel(0, 20), [0, 0, 0]);
    assert_eq!(frame.get_pixel(0, 0), [255, 255, 255]);
    assert_eq!(frame.get_pixel(20, 0), [255, 255, 255]);
    assert_eq!(frame.get_pixel(0, 10), [255, 255, 255]);
}

#[test]
fn tall_canvas_has_one_column() {
    let s = song(vec![channel("", [1, 0, 0], false), channel("", [2, 0, 0], false)], false);
    let mut frame = Frame::new(20, 40);
    let quiet = vec![0u8; 30];
    draw(&s, &mut frame, &vec![quiet.clone(), quiet]);
    assert_eq!(frame.get_pixel(10, 5), [1, 0, 0]);
    assert_eq!(frame.get_pixel(18, 18), [1, 0, 0]);
    assert_eq!(frame.get_pixel(10, 25), [2, 0, 0]);
    assert_eq!(frame.get_pixel(10, 19), [0, 0, 0]);
}

#[test]
fn background_is_a_gradient_when_asked_for() {
    let s = song(vec![channel("", [10, 10, 10], false)], true);
    let mut frame = Frame::new(20, 8);
    draw(&s, &mut frame, &vec![vec![255; 20]]);
    let column: Vec<[u8; 3]> = (0..8).map(|y| frame.get_pixel(5, y)).collect();
    assert_eq!(
        column,
        vec![
            [10, 10, 10],
            [9, 10, 10],
            [9, 9, 10],
            [9, 9, 9],
            [8, 9, 9],
            [8, 8, 9],
            [8, 8, 8],
            [255, 255, 255],
        ]
    );
}

#[test]
fn waveform_starts_at_the_falling_edge() {
    let mut raw = vec![0u8; 30];
    raw[0] = 240;
    raw[1] = 240;
    let mut aligned = Frame::new(30, 16);
    draw_channel(&mut aligned, 0, 0, 28, 16, &channel("", [0, 0, 0], true), false, &raw);
    let mut plain = Frame::new(30, 16);
    draw_channel(&mut plain, 0, 0, 28, 16, &channel("", [0, 0, 0], false), false, &raw);
    assert_eq!(aligned.get_pixel(0, 15), [255, 255, 255]);
    assert_eq!(aligned.get_pixel(0, 0), [255, 255, 255]);
    assert_eq!(aligned.get_pixel(1, 15), [0, 0, 0]);
    assert_eq!(aligned.get_pixel(1, 0), [255, 255, 255]);
    assert_eq!(plain.get_pixel(0, 15), [255, 255, 255]);
    assert_eq!(plain.get_pixel(0, 13), [255, 255, 255]);
    assert_eq!(plain.get_pixel(0, 12), [0, 0, 0]);
    assert_eq!(plain.get_pixel(0, 0), [0, 0, 0]);
    assert_eq!(plain.get_pixel(1, 13), [255, 255, 255]);
    assert_eq!(plain.get_pixel(1, 15), [0, 0, 0]);
    assert_eq!(plain.get_pixel(1, 0), [255, 255, 255]);
    assert_ne!(aligned.as_raw(), plain.as_raw());
}

#[test]
fn the_name_is_drawn_four_pixels_from_the_corner() {
    let mut frame = Frame::new(30, 20);
    draw_channel(&mut frame, 2, 3, 26, 16, &channel("|", [50, 50, 50], false), false, &vec![255; 26]);
    let mut dots = 0;
    for y in 3..17u32 {
        for x in 2..27u32 {
            if frame.get_pixel(x, y) == [255, 255, 255] {
                dots += 1;
                assert!((6..11).contains(&x) && (7..13).contains(&y), "at {} {}", x, y);
            }
        }
    }
    assert!(dots > 0);
}

#[test]
fn as_many_columns_as_samples_show_each_sample() {
    let mut raw = vec![0u8; 15];
    raw[1] = 15;
    raw[14] = 200;
    let mut frame = Frame::new(15, 256);
    draw_channel(&mut frame, 0, 0, 15, 256, &channel("", [0, 0, 0], false), false, &raw);
    let white = [255, 255, 255];
    for x in 0..14u32 {
        let (a, b) = (raw[x as usize] as u32, raw[x as usize + 1] as u32);
        for y in 0..255u32 {
            let inside = a.min(b) <= y && y <= a.max(b);
            assert_eq!(frame.get_pixel(x, y) == white, inside, "at {} {}", x, y);
        }
    }
}

#[test]
fn more_columns_than_samples_stretch_the_frame() {
    let raw = vec![0u8, 100];
    let mut frame = Frame::new(5, 256);
    draw_channel(&mut frame, 0, 0, 5, 256, &channel("", [0, 0, 0], true), false, &raw);
    let white = [255, 255, 255];
    let levels = [0u32, 40, 80, 100, 100];
    for x in 0..4usize {
        for y in 0..255u32 {
            let inside = levels[x] <= y && y <= levels[x + 1];
            assert_eq!(frame.get_pixel(x as u32, y) == white, inside, "at {} {}", x, y);
        }
    }
}

#[test]
fn drawing_makes_the_next_frame_of_the_video() {
    let s = song(vec![channel("", [9, 8, 7], true)], false);
    let mut frame = Frame::new(4, 4);
    let mut encoding = Encoding::new(4, 4, 2).unwrap();
    let first = s.draw(&mut frame, &mut encoding, &vec![vec![0; 4]]);
    assert_eq!((first.index, first.rows, first.cols), (0, 8, 8));
    assert_eq!(first.pixels.len(), 192);
    assert_eq!(&first.pixels[3..6], &[255, 255, 255]);
    assert_eq!(&first.pixels[24 + 3..24 + 6], &[255, 255, 255]);
    assert_eq!(&first.pixels[48..51], &[9, 8, 7]);
    let second = s.draw(&mut frame, &mut encoding, &vec![vec![0; 4]]);
    assert_eq!(second.index, 1);
    assert_eq!(encoding.position, 2);
}
