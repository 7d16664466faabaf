use multitrack_visualizer::data::waveform::{draw_waveform, find_start_sample, resample};
use multitrack_visualizer::display::frame::Frame;

#[test]
fn start_is_the_first_fall_of_eight() {
    let mut raw = vec![100u8; 45];
    raw[1] = 107;
    raw[2] = 99;
    raw[3] = 80;
    assert_eq!(find_start_sample(&raw, true), 1);
}

#[test]
fn a_fall_of_seven_is_no_edge() {
    let mut raw = vec![100u8; 45];
    raw[0] = 107;
    assert_eq!(find_start_sample(&raw, true), 0);
    raw[2] = 93;
    raw[3] = 85;
    assert_eq!(find_start_sample(&raw, true), 2);
}

#[test]
fn edges_behind_the_search_window_do_not_count() {
    let mut raw = vec![100u8; 45];
    raw[3] = 200;
    assert_eq!(find_start_sample(&raw, true), 0);
    raw[2] = 200;
    raw[3] = 100;
    assert_eq!(find_start_sample(&raw, true), 2);
}

#[test]
fn a_rise_is_no_edge() {
    let mut raw = vec![100u8; 45];
    raw[1] = 250;
    raw[2] = 250;
    raw[3] = 250;
    assert_eq!(find_start_sample(&raw, true), 0);
}

#[test]
fn start_is_zero_without_alignment() {
    let mut raw = vec![100u8; 45];
    raw[0] = 200;
    raw[1] = 150;
    assert_eq!(find_start_sample(&raw, false), 0);
    assert_eq!(find_start_sample(&raw, true), 0);
    raw[0] = 100;
    assert_eq!(find_start_sample(&raw, true), 1);
    assert_eq!(find_start_sample(&raw, false), 0);
}

#[test]
fn short_frames_are_not_searched() {
    assert_eq!(find_start_sample(&vec![200, 0, 200, 0], true), 0);
    assert_eq!(find_start_sample(&Vec::new(), true), 0);
}

#[test]
fn resampling_to_as_many_columns_gives_the_samples_back() {
    let raw: Vec<u8> = vec![3, 1, 4, 1, 5, 9, 2, 6, 255, 0];
    assert_eq!(resample(&raw, 0, 10, 10), raw);
    assert_eq!(resample(&raw, 2, 5, 5), vec![4, 1, 5, 9, 2]);
}

#[test]
fn resampling_interpolates_between_neighbours() {
    let raw: Vec<u8> = vec![0, 100, 200];
    assert_eq!(resample(&raw, 0, 2, 4), vec![0, 50, 100, 150]);
    assert_eq!(resample(&raw, 1, 1, 3), vec![100, 133, 166]);
}

#[test]
fn resampling_skips_samples_when_shrinking() {
    let raw: Vec<u8> = (0..100).collect();
    assert_eq!(resample(&raw, 10, 80, 4), vec![10, 30, 50, 70]);
    assert_eq!(resample(&raw, 0, 3, 2), vec![0, 1]);
}

#[test]
fn behind_the_last_sample_the_last_sample_stands() {
    assert_eq!(resample(&vec![10, 20], 0, 2, 4), vec![10, 15, 20, 20]);
    assert_eq!(resample(&vec![7], 0, 1, 3), vec![7, 7, 7]);
    assert_eq!(resample(&vec![7, 9], 1, 0, 3), vec![9, 9, 9]);
}

#[test]
fn resampling_to_no_columns_gives_nothing() {
    assert_eq!(resample(&Vec::new(), 0, 0, 0), Vec::<u8>::new());
}

#[test]
fn waveform_joins_neighbouring_levels() {
    let mut frame = Frame::new(5, 10);
    draw_waveform(&mut frame, 1, 1, 8, &vec![0, 128, 255]);
    for y in 0..10u32 {
        for x in 0..5u32 {
            let white = (x == 1 && (1..=5).contains(&y)) || (x == 2 && (5..=8).contains(&y));
            let expected = if white { [255, 255, 255] } else { [0, 0, 0] };
            assert_eq!(frame.get_pixel(x, y), expected, "at {} {}", x, y);
        }
    }
}

#[test]
fn falling_waveform_is_drawn_like_a_rising_one() {
    let mut rising = Frame::new(3, 8);
    draw_waveform(&mut rising, 0, 0, 8, &vec![32, 224]);
    let mut falling = Frame::new(3, 8);
    draw_waveform(&mut falling, 0, 0, 8, &vec![224, 32]);
    assert_eq!(rising.as_raw(), falling.as_raw());
    assert_eq!(rising.get_pixel(0, 1), [255, 255, 255]);
    assert_eq!(rising.get_pixel(0, 7), [255, 255, 255]);
    assert_eq!(rising.get_pixel(0, 0), [0, 0, 0]);
}

#[test]
fn a_single_level_draws_nothing() {
    let mut frame = Frame::new(3, 3);
    draw_waveform(&mut frame, 0, 0, 3, &vec![128]);
    assert_eq!(frame.as_raw(), vec![0; 27]);
}
