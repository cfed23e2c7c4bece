use pyannote_rs::config::{SegmentationConfig, WindowMode};
use pyannote_rs::machine::{FrameDecision, Machine};

fn config(mode: WindowMode) -> SegmentationConfig {
    SegmentationConfig {
        window_len: 100,
        mode,
        frame_stride: 10,
        frame_start: 0,
        start_hysteresis_frames: 2,
        gap_tolerance_frames: 2,
        min_segment_len: 15,
        start_buffer: 0,
        end_buffer: 0,
    }
}

fn frame(offset: usize, class_index: usize) -> FrameDecision {
    FrameDecision { offset, class_index }
}

#[test]
fn machine_opens_after_hysteresis_and_closes_after_tolerance() {
    let mut machine = Machine::new(config(WindowMode::Tiling), 1000);
    assert!(!machine.in_speech());
    assert_eq!(machine.step(frame(10, 1)), None);
    assert!(!machine.in_speech());
    assert_eq!(machine.step(frame(20, 1)), None);
    assert!(machine.in_speech());
    assert_eq!(machine.step(frame(30, 0)), None);
    assert!(machine.in_speech());
    assert_eq!(machine.step(frame(40, 0)), Some((10, 30)));
    assert!(!machine.in_speech());
    assert_eq!(machine.finish(), None);
}

#[test]
fn machine_resets_the_speech_run_on_silence() {
    let mut machine = Machine::new(config(WindowMode::Tiling), 1000);
    assert_eq!(machine.step(frame(10, 1)), None);
    assert_eq!(machine.step(frame(20, 0)), None);
    assert_eq!(machine.step(frame(30, 1)), None);
    assert!(!machine.in_speech());
    assert_eq!(machine.step(frame(40, 1)), None);
    assert!(machine.in_speech());
    // Ten samples from the second run's first frame: under the minimum of 15.
    assert_eq!(machine.finish(), None);
}

#[test]
fn machine_resets_the_silence_run_on_speech() {
    let mut machine = Machine::new(config(WindowMode::Tiling), 1000);
    for (offset, class) in [(10, 1), (20, 1), (30, 0), (40, 1), (50, 0)] {
        assert_eq!(machine.step(frame(offset, class)), None);
    }
    assert_eq!(machine.step(frame(60, 0)), Some((10, 50)));
}

#[test]
fn machine_flushes_an_open_segment() {
    let mut machine = Machine::new(config(WindowMode::Tiling), 1000);
    for offset in [10, 20, 30, 40] {
        assert_eq!(machine.step(frame(offset, 2)), None);
    }
    assert_eq!(machine.finish(), Some((10, 40)));
    assert!(!machine.in_speech());
    assert_eq!(machine.finish(), None);
}

#[test]
fn machine_drops_repeats_only_where_windows_overlap() {
    let mut overlapping = Machine::new(config(WindowMode::Overlapping { overlap: 10 }), 1000);
    let mut tiling = Machine::new(config(WindowMode::Tiling), 1000);
    for machine in [&mut overlapping, &mut tiling] {
        assert_eq!(machine.step(frame(50, 0)), None);
        assert_eq!(machine.step(frame(40, 1)), None);
        assert_eq!(machine.step(frame(50, 1)), None);
    }
    assert!(!overlapping.in_speech());
    assert!(tiling.in_speech());
}

#[test]
fn machine_drops_a_frame_at_offset_zero_where_windows_overlap() {
    let mut overlapping = Machine::new(config(WindowMode::Overlapping { overlap: 10 }), 1000);
    let mut tiling = Machine::new(config(WindowMode::Tiling), 1000);
    for machine in [&mut overlapping, &mut tiling] {
        assert_eq!(machine.step(frame(0, 1)), None);
        assert_eq!(machine.step(frame(10, 1)), None);
    }
    assert!(!overlapping.in_speech());
    assert!(tiling.in_speech());
}

#[test]
fn machine_treats_zero_thresholds_as_one() {
    let mut zero = config(WindowMode::Tiling);
    zero.start_hysteresis_frames = 0;
    zero.gap_tolerance_frames = 0;
    let mut machine = Machine::new(zero, 1000);
    assert_eq!(machine.step(frame(10, 1)), None);
    assert!(machine.in_speech());
    assert_eq!(machine.step(frame(20, 1)), None);
    assert_eq!(machine.step(frame(30, 0)), Some((10, 30)));
}

#[test]
fn machine_clips_to_the_audio() {
    let mut machine = Machine::new(config(WindowMode::Tiling), 35);
    for offset in [10, 20, 30, 40, 50] {
        assert_eq!(machine.step(frame(offset, 1)), None);
    }
    assert_eq!(machine.finish(), Some((10, 35)));
}

#[test]
fn machine_measures_a_segment_before_it_clips_it() {
    // From 10 to 30 the segment is 20 samples long, over the minimum of 15; the
    // audio ends at 24 and leaves 14 of them.
    let mut machine = Machine::new(config(WindowMode::Tiling), 24);
    for offset in [10, 20, 30] {
        assert_eq!(machine.step(frame(offset, 1)), None);
    }
    assert_eq!(machine.finish(), Some((10, 24)));
}

#[test]
fn machine_drops_what_is_too_short() {
    let mut machine = Machine::new(config(WindowMode::Tiling), 1000);
    for offset in [10, 20] {
        assert_eq!(machine.step(frame(offset, 1)), None);
    }
    // From 10 to 20: ten samples, under the minimum of 15.
    assert_eq!(machine.finish(), None);
    for offset in [30, 40, 45] {
        assert_eq!(machine.step(frame(offset, 1)), None);
    }
    // From 30 to 45: just the minimum.
    assert_eq!(machine.finish(), Some((30, 45)));
}

#[test]
fn machine_drops_what_lies_outside_the_audio() {
    let mut machine = Machine::new(config(WindowMode::Tiling), 25);
    for offset in [30, 40, 50] {
        assert_eq!(machine.step(frame(offset, 1)), None);
    }
    assert_eq!(machine.finish(), None);
    let mut machine = Machine::new(config(WindowMode::Tiling), 30);
    for offset in [30, 40, 50] {
        assert_eq!(machine.step(frame(offset, 1)), None);
    }
    assert_eq!(machine.finish(), None);
    let mut machine = Machine::new(config(WindowMode::Tiling), 31);
    for offset in [30, 40, 50] {
        assert_eq!(machine.step(frame(offset, 1)), None);
    }
    assert_eq!(machine.finish(), Some((30, 31)));
}

#[test]
fn machine_survives_an_end_buffer_that_overflows() {
    let mut wide = config(WindowMode::Tiling);
    wide.end_buffer = usize::MAX;
    let mut machine = Machine::new(wide, 100);
    for offset in [10, 20] {
        assert_eq!(machine.step(frame(offset, 1)), None);
    }
    assert_eq!(machine.step(frame(30, 0)), None);
    assert_eq!(machine.step(frame(40, 0)), Some((10, 100)));
}
