use multitrack_visualizer::data::cli::{Args, RenderMode};
use multitrack_visualizer::data::image::pixels_to_png;
use multitrack_visualizer::data::video::Encoding;
use multitrack_visualizer::data::window::{Window, WindowSource};
use multitrack_visualizer::display::draw::pixel;
use multitrack_visualizer::display::frame::Frame;

fn args(song: &str, midi: &str, preset: Option<&str>) -> Args {
    Args {
        song: String::from(song),
        midi: String::from(midi),
        window: String::from("./window.json"),
        window_preset: preset.map(String::from),
    }
}

#[test]
fn presets_by_name() {
    let wide = Window { width: 480, height: 270, scale: 4, frame_rate: 60, duration_us: 5_000_000 };
    let tall = Window { width: 216, height: 384, scale: 5, frame_rate: 30, duration_us: 3_000_000 };
    let taller = Window { width: 216, height: 432, scale: 5, frame_rate: 30, duration_us: 3_000_000 };
    assert_eq!(Window::preset(&String::from("16x9")), Some(wide));
    assert_eq!(Window::preset(&String::from("9x16")), Some(tall));
    assert_eq!(Window::preset(&String::from("9x18")), Some(taller));
    assert_eq!(Window::preset(&String::from("4x3")), None);
    assert_eq!(Window::preset(&String::from("")), None);
}

#[test]
fn preset_stands_in_for_the_window_file() {
    match Window::load_from_args(&args("", "", Some("9x16"))) {
        Some(WindowSource::Preset(w)) => assert_eq!((w.width, w.height), (216, 384)),
        other => panic!("{:?}", other),
    }
    match Window::load_from_args(&args("", "", None)) {
        Some(WindowSource::File(path)) => assert_eq!(path, "./window.json"),
        other => panic!("{:?}", other),
    }
    assert!(Window::load_from_args(&args("", "", Some("1x1"))).is_none());
}

#[test]
fn song_wins_over_midi() {
    assert!(matches!(args("a.json", "b.json", None).render_mode(), RenderMode::Song(p) if p == "a.json"));
    assert!(matches!(args("a.json", "", None).render_mode(), RenderMode::Song(p) if p == "a.json"));
    assert!(matches!(args("", "b.json", None).render_mode(), RenderMode::Midi(p) if p == "b.json"));
    assert!(matches!(args("", "", None).render_mode(), RenderMode::Song(p) if p == "./song.json"));
}

#[test]
fn alpha_is_dropped() {
    let rgba: Vec<u8> = (0..24).collect();
    let picture = pixels_to_png(&rgba, 3, 2);
    assert_eq!((picture.width(), picture.height()), (3, 2));
    assert_eq!(picture.as_raw(), vec![0, 1, 2, 4, 5, 6, 8, 9, 10, 12, 13, 14, 16, 17, 18, 20, 21, 22]);
    assert_eq!(picture.get_pixel(1, 1), [16, 17, 18]);
    let empty = pixels_to_png(&[], 0, 5);
    assert_eq!(empty.as_raw(), Vec::<u8>::new());
}

#[test]
fn video_size_has_to_fit() {
    assert_eq!(Encoding::new(480, 270, 4), Some(Encoding { width: 480, height: 270, scale: 4, position: 0 }));
    assert_eq!(Encoding::new(65_536, 1, 65_536), None);
    assert_eq!(Encoding::new(1, 65_536, 65_536), None);
    assert!(Encoding::new(0, 0, 0).is_some());
}

#[test]
fn scale_one_keeps_the_canvas() {
    let mut frame = Frame::new(2, 2);
    pixel(&mut frame, 1, 0, [1, 2, 3]);
    let encoding = Encoding::new(2, 2, 1).unwrap();
    assert_eq!(encoding.resize_frame(&frame), frame.as_raw());
}

#[test]
fn scale_two_doubles_each_pixel() {
    let mut frame = Frame::new(2, 1);
    pixel(&mut frame, 0, 0, [10, 20, 30]);
    pixel(&mut frame, 1, 0, [40, 50, 60]);
    let encoding = Encoding::new(2, 1, 2).unwrap();
    let left = [10, 20, 30];
    let right = [40, 50, 60];
    let row: Vec<u8> = [left, left, right, right].concat();
    assert_eq!(encoding.resize_frame(&frame), [row.clone(), row].concat());
}

#[test]
fn frames_are_numbered_as_they_are_rendered() {
    let frame = Frame::new(3, 2);
    let mut encoding = Encoding::new(3, 2, 3).unwrap();
    let first = encoding.render_frame(&frame);
    assert_eq!((first.index, first.rows, first.cols), (0, 6, 9));
    assert_eq!(first.pixels, vec![0; 162]);
    let second = encoding.render_frame(&frame);
    assert_eq!(second.index, 1);
    assert_eq!(encoding.position, 2);
    encoding.update_position();
    assert_eq!(encoding.position, 3);
}

#[test]
fn encoding_takes_frames_of_its_size() {
    let encoding = Encoding::new(3, 2, 3).unwrap();
    assert!(encoding.accepts(&Frame::new(3, 2)));
    assert!(!encoding.accepts(&Frame::new(2, 3)));
    assert!(!encoding.accepts(&Frame::new(3, 3)));
    let full = Encoding { width: 3, height: 2, scale: 3, position: u64::MAX };
    assert!(!full.accepts(&Frame::new(3, 2)));
    let too_large = Encoding { width: 3, height: 2, scale: u32::MAX, position: 0 };
    assert!(!too_large.accepts(&Frame::new(3, 2)));
}
