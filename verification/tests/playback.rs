use visualgcode::playback::PlaybackState;

fn loaded(total: u32, at: u32) -> PlaybackState {
    let mut s = PlaybackState::new();
    s.reset(total, 3);
    s.current_segment_index = at;
    s
}

#[test]
fn new_is_empty_and_stopped() {
    let s = PlaybackState::new();
    assert!(!s.playing);
    assert_eq!(s.current_segment_index, 0);
    assert_eq!(s.total_segments, 0);
    assert_eq!(s.total_layers, 0);
    assert!(!s.loop_playback);
}

#[test]
fn reset_stops_at_first_segment() {
    let mut s = loaded(10, 7);
    s.playing = true;
    s.reset(20, 4);
    assert!(!s.playing);
    assert_eq!(s.current_segment_index, 0);
    assert_eq!(s.total_segments, 20);
    assert_eq!(s.total_layers, 4);
    assert_eq!(s.current_layer_index, 0);
}

#[test]
fn set_progress_clamps_to_last_segment() {
    let mut s = loaded(10, 0);
    s.set_progress(4);
    assert_eq!(s.current_segment_index, 4);
    s.set_progress(100);
    assert_eq!(s.current_segment_index, 9);
    let mut empty = PlaybackState::new();
    empty.set_progress(5);
    assert_eq!(empty.current_segment_index, 0);
}

#[test]
fn step_forward_stops_at_end() {
    let mut s = loaded(3, 1);
    s.step_forward();
    assert_eq!(s.current_segment_index, 2);
    s.step_forward();
    assert_eq!(s.current_segment_index, 2);
    let mut empty = PlaybackState::new();
    empty.step_forward();
    assert_eq!(empty.current_segment_index, 0);
}

#[test]
fn step_backward_stops_at_start() {
    let mut s = loaded(3, 1);
    s.step_backward();
    assert_eq!(s.current_segment_index, 0);
    s.step_backward();
    assert_eq!(s.current_segment_index, 0);
}

#[test]
fn step_forward_then_backward_returns() {
    let mut s = loaded(10, 4);
    s.step_forward();
    s.step_backward();
    assert_eq!(s.current_segment_index, 4);
}

#[test]
fn fast_forward_skips_a_fiftieth() {
    let mut s = loaded(1000, 10);
    s.fast_forward();
    assert_eq!(s.current_segment_index, 30);
    let mut small = loaded(10, 3);
    small.fast_forward();
    assert_eq!(small.current_segment_index, 4);
    let mut near_end = loaded(1000, 990);
    near_end.fast_forward();
    assert_eq!(near_end.current_segment_index, 999);
}

#[test]
fn rewind_skips_a_fiftieth() {
    let mut s = loaded(1000, 30);
    s.rewind();
    assert_eq!(s.current_segment_index, 10);
    s.rewind();
    assert_eq!(s.current_segment_index, 0);
    let mut empty = PlaybackState::new();
    empty.rewind();
    assert_eq!(empty.current_segment_index, 0);
}

#[test]
fn fast_forward_then_rewind_returns() {
    let mut s = loaded(500, 100);
    s.fast_forward();
    s.rewind();
    assert_eq!(s.current_segment_index, 100);
}

#[test]
fn advance_moves_only_while_playing() {
    let mut s = loaded(100, 5);
    s.advance_by(10);
    assert_eq!(s.current_segment_index, 5);
    s.playing = true;
    assert!(s.is_advancing());
    s.advance_by(10);
    assert_eq!(s.current_segment_index, 15);
    assert!(s.playing);
    s.advance_by(0);
    assert_eq!(s.current_segment_index, 15);
}

#[test]
fn advance_stops_at_last_segment() {
    let mut s = loaded(100, 95);
    s.playing = true;
    s.advance_by(50);
    assert_eq!(s.current_segment_index, 99);
    assert!(!s.playing);
}

#[test]
fn advance_without_segments_does_nothing() {
    let mut s = PlaybackState::new();
    s.playing = true;
    assert!(!s.is_advancing());
    s.advance_by(3);
    assert!(s.playing);
    assert_eq!(s.current_segment_index, 0);
}

#[test]
fn progress_fraction_values() {
    assert_eq!(PlaybackState::new().progress_fraction(), (0, 1));
    assert_eq!(loaded(1, 0).progress_fraction(), (0, 1));
    assert_eq!(loaded(11, 5).progress_fraction(), (5, 10));
    assert_eq!(loaded(11, 10).progress_fraction(), (10, 10));
}

#[test]
fn play_at_end_rewinds() {
    let mut s = loaded(10, 9);
    s.toggle_play();
    assert!(s.playing);
    assert_eq!(s.current_segment_index, 0);
    let mut mid = loaded(10, 4);
    mid.toggle_play();
    assert!(mid.playing);
    assert_eq!(mid.current_segment_index, 4);
    mid.toggle_play();
    assert!(!mid.playing);
    assert_eq!(mid.current_segment_index, 4);
}

#[test]
fn skip_to_start_and_end() {
    let mut s = loaded(10, 4);
    s.playing = true;
    s.skip_to_end();
    assert_eq!(s.current_segment_index, 9);
    assert!(!s.playing);
    s.playing = true;
    s.skip_to_start();
    assert_eq!(s.current_segment_index, 0);
    assert!(!s.playing);
    let mut empty = PlaybackState::new();
    empty.skip_to_end();
    assert_eq!(empty.current_segment_index, 0);
}
