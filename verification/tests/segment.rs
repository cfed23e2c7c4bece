use pyannote_rs::config::{SegmentationConfig, WindowMode};
use pyannote_rs::error::{ConfigError, DiarizeError, InferenceError};
use pyannote_rs::segment::{collect_segments, get_segments, Poll, Segment, SegmentStream};
use pyannote_rs::wav::Wav;
use pyannote_rs::window::{copy_range, offset_of_frame, take_window};

fn ramp(len: usize) -> Vec<i16> {
    (0..len).map(|i| (i % 30000) as i16).collect()
}

fn small_config() -> SegmentationConfig {
    SegmentationConfig {
        window_len: 100,
        mode: WindowMode::Overlapping { overlap: 20 },
        frame_stride: 10,
        frame_start: 5,
        start_hysteresis_frames: 1,
        gap_tolerance_frames: 1,
        min_segment_len: 0,
        start_buffer: 0,
        end_buffer: 0,
    }
}

/// Pulls the stream dry, answering window `k` with `answers[k]`.
fn drive(stream: &mut SegmentStream, answers: &[Vec<usize>]) -> (Vec<Segment>, Vec<Vec<i16>>) {
    let mut segments = Vec::new();
    let mut windows = Vec::new();
    loop {
        match stream.next() {
            Poll::Segment(segment) => segments.push(segment),
            Poll::Window(window) => {
                let k = windows.len();
                windows.push(window);
                assert!(k < answers.len(), "more windows than answers");
                stream.feed(&answers[k]).unwrap();
            }
            Poll::Failed(cause) => panic!("the stream failed: {:?}", cause),
            Poll::End => break,
        }
    }
    (segments, windows)
}

fn bounds(segments: &[Segment]) -> Vec<(usize, usize)> {
    segments.iter().map(|s| (s.start, s.end)).collect()
}

/// `silence` frames of class 0, then `speech` frames of class 1, and so on.
fn runs(lengths: &[usize]) -> Vec<usize> {
    let mut classes = Vec::new();
    for (k, &length) in lengths.iter().enumerate() {
        for _ in 0..length {
            classes.push(k % 2);
        }
    }
    classes
}

#[test]
fn silence_gives_no_segment() {
    let samples = ramp(80000);
    let mut stream = get_segments(&samples, 16000).unwrap();
    let (segments, windows) = drive(&mut stream, &[vec![0; 589]]);
    assert_eq!(windows.len(), 1);
    assert!(segments.is_empty());
}

#[test]
fn silence_gives_no_segment_over_many_windows() {
    let samples = ramp(500000);
    let mut stream = get_segments(&samples, 16000).unwrap();
    let answers = vec![vec![0; 589]; 4];
    let (segments, windows) = drive(&mut stream, &answers);
    assert_eq!(windows.len(), 4);
    assert!(segments.is_empty());
}

#[test]
fn speech_throughout_gives_one_segment() {
    let samples = ramp(160000);
    let mut stream = get_segments(&samples, 16000).unwrap();
    let answers = vec![vec![1; 589]; 2];
    let (segments, windows) = drive(&mut stream, &answers);
    assert_eq!(windows.len(), 2);
    assert_eq!(bounds(&segments), vec![(721, 160000)]);
    assert_eq!(segments[0].samples.len(), 160000 - 721);
    assert_eq!(segments[0].samples[..], samples[721..160000]);
}

#[test]
fn speech_throughout_with_other_classes_gives_one_segment() {
    let samples = ramp(200000);
    let mut stream = get_segments(&samples, 16000).unwrap();
    let answers = vec![vec![3; 589], vec![2; 589]];
    let (segments, _) = drive(&mut stream, &answers);
    assert_eq!(bounds(&segments), vec![(721, 200000)]);
}

#[test]
fn burst_is_cut_where_silence_begins() {
    let samples = ramp(160000);
    let mut stream = get_segments(&samples, 16000).unwrap();
    let answers = vec![runs(&[100, 100, 389]), vec![0; 589]];
    let (segments, _) = drive(&mut stream, &answers);
    assert_eq!(bounds(&segments), vec![(721 + 100 * 270, 721 + 200 * 270)]);
    assert_eq!(segments[0].samples[..], samples[27721..54721]);
}

#[test]
fn run_shorter_than_hysteresis_opens_nothing() {
    let samples = ramp(160000);
    let mut stream = get_segments(&samples, 16000).unwrap();
    let answers = vec![runs(&[100, 29, 460]), vec![0; 589]];
    let (segments, _) = drive(&mut stream, &answers);
    assert!(segments.is_empty());
}

#[test]
fn run_as_long_as_hysteresis_opens_a_segment_at_its_first_frame() {
    let samples = ramp(160000);
    let mut stream = get_segments(&samples, 16000).unwrap();
    let answers = vec![runs(&[100, 30, 459]), vec![0; 589]];
    let (segments, _) = drive(&mut stream, &answers);
    assert_eq!(bounds(&segments), vec![(27721, 27721 + 30 * 270)]);
}

#[test]
fn short_gap_does_not_split_a_segment() {
    let samples = ramp(160000);
    let mut stream = get_segments(&samples, 16000).unwrap();
    let answers = vec![runs(&[10, 40, 4, 40, 495]), vec![0; 589]];
    let (segments, _) = drive(&mut stream, &answers);
    assert_eq!(bounds(&segments), vec![(721 + 10 * 270, 721 + 94 * 270)]);
}

#[test]
fn gap_as_long_as_tolerance_splits() {
    let samples = ramp(160000);
    let mut stream = get_segments(&samples, 16000).unwrap();
    let answers = vec![runs(&[10, 40, 5, 40, 494]), vec![0; 589]];
    let (segments, _) = drive(&mut stream, &answers);
    assert_eq!(
        bounds(&segments),
        vec![(721 + 10 * 270, 721 + 50 * 270), (721 + 55 * 270, 721 + 95 * 270)]
    );
}

#[test]
fn segment_under_minimum_is_dropped() {
    let mut config = small_config();
    config.min_segment_len = 30;
    let mut stream = SegmentStream::new(ramp(100), config).unwrap();
    // Speech at 15 and 25, silence from 35: 20 samples, too short.
    let (segments, _) = drive(&mut stream, &[runs(&[1, 2, 7]), vec![]]);
    assert!(segments.is_empty());
}

#[test]
fn segment_of_minimum_length_is_kept() {
    let mut config = small_config();
    config.min_segment_len = 30;
    let mut stream = SegmentStream::new(ramp(100), config).unwrap();
    // Speech at 15, 25 and 35, silence from 45: 30 samples.
    let (segments, _) = drive(&mut stream, &[runs(&[1, 3, 6]), vec![]]);
    assert_eq!(bounds(&segments), vec![(15, 45)]);
}

#[test]
fn frames_of_the_overlap_are_dropped() {
    let mut stream = SegmentStream::new(ramp(150), small_config()).unwrap();
    // Window 1 starts at 80: its frames at 85 and 95 repeat those of window 0.
    let answers = vec![vec![0; 10], runs(&[0, 2, 8])];
    let (segments, windows) = drive(&mut stream, &answers);
    assert_eq!(windows.len(), 2);
    assert!(segments.is_empty());
}

#[test]
fn frames_after_the_overlap_are_processed() {
    let mut stream = SegmentStream::new(ramp(150), small_config()).unwrap();
    // Frames at 85 and 95 repeat; speech at 105 and 115, silence from 125.
    let answers = vec![vec![0; 10], runs(&[0, 4, 6])];
    let (segments, _) = drive(&mut stream, &answers);
    assert_eq!(bounds(&segments), vec![(105, 125)]);
}

#[test]
fn tiling_drops_no_frame() {
    let mut config = small_config();
    config.mode = WindowMode::Tiling;
    let mut stream = SegmentStream::new(ramp(150), config).unwrap();
    // Window 1 starts at 100: speech at 105 and 115, silence from 125.
    let answers = vec![vec![0; 10], runs(&[0, 2, 8])];
    let (segments, windows) = drive(&mut stream, &answers);
    assert_eq!(windows.len(), 2);
    assert_eq!(bounds(&segments), vec![(105, 125)]);
}

#[test]
fn windows_are_padded_with_zeros() {
    let samples: Vec<i16> = (1..=150).collect();
    let mut stream = SegmentStream::new(samples.clone(), small_config()).unwrap();
    let (_, windows) = drive(&mut stream, &[vec![], vec![]]);
    assert_eq!(windows.len(), 2);
    assert_eq!(windows[0][..], samples[0..100]);
    assert_eq!(windows[1][..70], samples[80..150]);
    assert_eq!(windows[1][70..], [0i16; 30]);
}

#[test]
fn tiling_windows_follow_one_another() {
    let mut config = small_config();
    config.mode = WindowMode::Tiling;
    let samples: Vec<i16> = (1..=250).collect();
    let mut stream = SegmentStream::new(samples.clone(), config).unwrap();
    let (_, windows) = drive(&mut stream, &[vec![], vec![], vec![]]);
    assert_eq!(windows.len(), 3);
    assert_eq!(windows[1][..], samples[100..200]);
    assert_eq!(windows[2][..50], samples[200..250]);
    assert_eq!(windows[2][50..], [0i16; 50]);
}

#[test]
fn open_segment_is_flushed_at_the_last_frame() {
    // One window of six frames at 5, 15, .., 55; speech from 35 on.
    let mut config = small_config();
    config.window_len = 1000;
    config.mode = WindowMode::Tiling;
    let mut stream = SegmentStream::new(ramp(300), config).unwrap();
    let (segments, _) = drive(&mut stream, &[runs(&[3, 3])]);
    assert_eq!(bounds(&segments), vec![(35, 55)]);
}

#[test]
fn flushed_segment_is_clipped_to_the_audio() {
    let mut config = small_config();
    config.end_buffer = 1000;
    let mut stream = SegmentStream::new(ramp(90), config).unwrap();
    let (segments, _) = drive(&mut stream, &[runs(&[3, 7]), vec![]]);
    assert_eq!(bounds(&segments), vec![(35, 90)]);
    assert_eq!(segments[0].samples.len(), 55);
}

#[test]
fn segment_that_opens_past_the_audio_is_dropped() {
    let mut stream = SegmentStream::new(ramp(50), small_config()).unwrap();
    // Speech at 65 and 75 only, in the padding.
    let (segments, _) = drive(&mut stream, &[runs(&[6, 2, 2])]);
    assert!(segments.is_empty());
}

#[test]
fn buffers_widen_a_segment() {
    let mut config = small_config();
    config.start_buffer = 7;
    config.end_buffer = 4;
    let mut stream = SegmentStream::new(ramp(100), config).unwrap();
    let (segments, _) = drive(&mut stream, &[runs(&[3, 3, 4]), vec![]]);
    assert_eq!(bounds(&segments), vec![(35 - 7, 65 + 4)]);
}

#[test]
fn start_buffer_stops_at_the_start_of_the_audio() {
    let mut config = small_config();
    config.start_buffer = 50;
    let mut stream = SegmentStream::new(ramp(100), config).unwrap();
    let (segments, _) = drive(&mut stream, &[runs(&[1, 3, 6]), vec![]]);
    assert_eq!(bounds(&segments), vec![(0, 45)]);
}

#[test]
fn start_never_precedes_the_end_of_the_segment_before() {
    let mut config = small_config();
    config.start_buffer = 25;
    config.end_buffer = 8;
    let mut stream = SegmentStream::new(ramp(100), config).unwrap();
    // Speech at 15 and 25, silence at 35, speech at 45 and 55, silence from 65.
    let (segments, _) = drive(&mut stream, &[runs(&[1, 2, 1, 2, 4]), vec![]]);
    assert_eq!(bounds(&segments), vec![(0, 43), (43, 73)]);
}

#[test]
fn segments_never_overlap_and_reach_the_minimum() {
    let mut config = small_config();
    config.start_buffer = 12;
    config.end_buffer = 9;
    config.min_segment_len = 25;
    config.window_len = 400;
    config.mode = WindowMode::Overlapping { overlap: 100 };
    let samples = ramp(1000);
    let mut stream = SegmentStream::new(samples.clone(), config).unwrap();
    let answers = vec![
        runs(&[2, 3, 1, 1, 2, 4, 1, 9, 3, 2, 12]),
        runs(&[10, 5, 2, 1, 1, 7, 14]),
        runs(&[12, 3, 3, 8, 1, 13]),
        runs(&[11, 20, 9]),
    ];
    let (segments, windows) = drive(&mut stream, &answers);
    assert_eq!(windows.len(), 4);
    assert!(segments.len() >= 4);
    for segment in &segments {
        assert!(segment.start < segment.end);
        assert!(segment.end <= samples.len());
        assert!(segment.end - segment.start >= 25 || segment.end == samples.len());
        assert_eq!(segment.samples[..], samples[segment.start..segment.end]);
    }
    for pair in segments.windows(2) {
        assert!(pair[0].end <= pair[1].start);
    }
}

#[test]
fn short_audio_may_give_a_segment_under_the_minimum() {
    // A sixteenth of a second of speech throughout: the segment runs from the first
    // frame to the last, far over the minimum, and the audio cuts it to 279 samples.
    let samples = ramp(1000);
    let mut stream = get_segments(&samples, 16000).unwrap();
    let (segments, windows) = drive(&mut stream, &[vec![1; 589]]);
    assert_eq!(windows.len(), 1);
    assert_eq!(bounds(&segments), vec![(721, 1000)]);
    assert_eq!(segments[0].samples[..], samples[721..1000]);
}

#[test]
fn empty_audio_is_rejected() {
    assert_eq!(get_segments(&[], 16000).err(), Some(DiarizeError::EmptyInput));
    assert_eq!(
        SegmentStream::new(Vec::new(), small_config()).err(),
        Some(DiarizeError::EmptyInput)
    );
}

#[test]
fn unusable_sample_rate_is_rejected() {
    assert_eq!(
        get_segments(&[1, 2, 3], 0).err(),
        Some(DiarizeError::Config(ConfigError::ZeroSampleRate))
    );
    assert_eq!(
        get_segments(&[], 0).err(),
        Some(DiarizeError::Config(ConfigError::ZeroSampleRate))
    );
}

#[test]
fn unusable_windows_are_rejected() {
    let mut config = small_config();
    config.window_len = 0;
    assert_eq!(
        SegmentStream::new(ramp(10), config).err(),
        Some(DiarizeError::Config(ConfigError::EmptyWindow))
    );
    let mut config = small_config();
    config.mode = WindowMode::Overlapping { overlap: 100 };
    assert_eq!(
        SegmentStream::new(ramp(10), config).err(),
        Some(DiarizeError::Config(ConfigError::OverlapTooLarge))
    );
}

#[test]
fn answer_without_a_window_is_rejected() {
    let mut stream = SegmentStream::new(ramp(100), small_config()).unwrap();
    assert_eq!(stream.feed(&[1, 1]), Err(InferenceError::NoWindowPending));
    // The stream is as it was: the first window is still handed out.
    assert!(matches!(stream.next(), Poll::Window(_)));
    assert_eq!(stream.feed(&[0; 10]), Ok(()));
    assert_eq!(stream.feed(&[0; 10]), Err(InferenceError::NoWindowPending));
}

#[test]
fn window_is_handed_out_again_until_it_is_answered() {
    let samples: Vec<i16> = (1..=150).collect();
    let mut stream = SegmentStream::new(samples.clone(), small_config()).unwrap();
    for _ in 0..3 {
        match stream.next() {
            Poll::Window(window) => assert_eq!(window[..], samples[0..100]),
            other => panic!("expected the first window, got {:?}", other),
        }
    }
    stream.feed(&[]).unwrap();
    match stream.next() {
        Poll::Window(window) => assert_eq!(window[..70], samples[80..150]),
        other => panic!("expected the second window, got {:?}", other),
    }
}

#[test]
fn frame_beyond_the_largest_offset_ends_the_stream() {
    let mut config = small_config();
    config.frame_start = usize::MAX - 20;
    let mut stream = SegmentStream::new(ramp(100), config).unwrap();
    assert!(matches!(stream.next(), Poll::Window(_)));
    // Frames at MAX - 20, MAX - 10, MAX fit; a fourth does not.
    assert_eq!(stream.feed(&[0, 0, 0, 0]), Err(InferenceError::FrameOutOfRange));
    assert!(matches!(stream.next(), Poll::Failed(InferenceError::FrameOutOfRange)));
    assert!(matches!(stream.next(), Poll::End));
    assert!(matches!(stream.next(), Poll::End));
}

#[test]
fn frames_up_to_the_largest_offset_are_taken() {
    let mut config = small_config();
    config.frame_start = usize::MAX - 20;
    let mut stream = SegmentStream::new(ramp(100), config).unwrap();
    assert!(matches!(stream.next(), Poll::Window(_)));
    assert_eq!(stream.feed(&[0, 0, 0]), Ok(()));
}

#[test]
fn failed_classifier_ends_the_stream() {
    let mut stream = SegmentStream::new(ramp(300), small_config()).unwrap();
    assert!(matches!(stream.next(), Poll::Window(_)));
    // Speech from 35 to the end of the window: a segment is open.
    stream.feed(&runs(&[3, 7])).unwrap();
    assert!(matches!(stream.next(), Poll::Window(_)));
    stream.fail(InferenceError::ModelFailed);
    // The failure comes once; the open segment is not flushed.
    assert!(matches!(stream.next(), Poll::Failed(InferenceError::ModelFailed)));
    assert!(matches!(stream.next(), Poll::End));
    assert_eq!(stream.feed(&[0; 10]), Err(InferenceError::NoWindowPending));
    assert!(matches!(stream.next(), Poll::End));
}

#[test]
fn segments_closed_before_a_failure_are_still_handed_out() {
    let mut stream = SegmentStream::new(ramp(300), small_config()).unwrap();
    assert!(matches!(stream.next(), Poll::Window(_)));
    stream.feed(&runs(&[1, 2, 7])).unwrap();
    stream.fail(InferenceError::EmptyRow);
    stream.fail(InferenceError::ModelFailed);
    match stream.next() {
        Poll::Segment(segment) => assert_eq!((segment.start, segment.end), (15, 35)),
        other => panic!("expected a segment, got {:?}", other),
    }
    // Of two failures the first is handed out.
    assert!(matches!(stream.next(), Poll::Failed(InferenceError::EmptyRow)));
    assert!(matches!(stream.next(), Poll::End));
}

#[test]
fn wav_gives_its_segments() {
    let wav = Wav { samples: ramp(160000), sample_rate: 16000 };
    assert_eq!(wav.n(), 160000);
    let mut stream = wav.segments().unwrap();
    let answers = vec![runs(&[100, 100, 389]), vec![0; 589]];
    let (segments, _) = drive(&mut stream, &answers);
    assert_eq!(bounds(&segments), vec![(27721, 54721)]);
    let empty = Wav { samples: Vec::new(), sample_rate: 16000 };
    assert_eq!(empty.segments().err(), Some(DiarizeError::EmptyInput));
}

#[test]
fn take_window_pads_past_the_end() {
    let samples: Vec<i16> = vec![5, 6, 7, 8];
    assert_eq!(take_window(&samples, 1, 2), vec![6, 7]);
    assert_eq!(take_window(&samples, 2, 5), vec![7, 8, 0, 0, 0]);
    assert_eq!(take_window(&samples, 9, 3), vec![0, 0, 0]);
    assert_eq!(take_window(&samples, usize::MAX, 2), vec![0, 0]);
    assert_eq!(take_window(&samples, 0, 0), Vec::<i16>::new());
}

#[test]
fn copy_range_copies_the_range() {
    let samples: Vec<i16> = vec![5, 6, 7, 8];
    assert_eq!(copy_range(&samples, 1, 3), vec![6, 7]);
    assert_eq!(copy_range(&samples, 0, 4), samples);
    assert_eq!(copy_range(&samples, 2, 2), Vec::<i16>::new());
    assert_eq!(copy_range(&samples, 2, 9), vec![7, 8]);
    assert_eq!(copy_range(&samples, 3, 1), Vec::<i16>::new());
    assert_eq!(copy_range(&samples, 7, 9), Vec::<i16>::new());
}

#[test]
fn frames_lie_a_stride_apart_from_the_frame_start_on() {
    let config = SegmentationConfig::for_sample_rate(16000).unwrap();
    assert_eq!(offset_of_frame(&config, 0, 0), Some(721));
    assert_eq!(offset_of_frame(&config, 0, 1), Some(991));
    assert_eq!(offset_of_frame(&config, 0, 588), Some(159481));
    assert_eq!(offset_of_frame(&config, 144000, 2), Some(145261));
    let small = small_config();
    assert_eq!(offset_of_frame(&small, 80, 3), Some(115));
    assert_eq!(offset_of_frame(&small, usize::MAX - 35, 3), Some(usize::MAX));
    assert_eq!(offset_of_frame(&small, usize::MAX - 34, 3), None);
    assert_eq!(offset_of_frame(&small, 0, usize::MAX / 10 + 1), None);
    assert_eq!(offset_of_frame(&small, usize::MAX, 0), None);
}

#[test]
fn collecting_gives_what_pulling_gives() {
    let mut config = small_config();
    config.start_buffer = 12;
    config.end_buffer = 9;
    config.min_segment_len = 25;
    config.window_len = 400;
    config.mode = WindowMode::Overlapping { overlap: 100 };
    let samples = ramp(1000);
    let answers = vec![
        runs(&[2, 3, 1, 1, 2, 4, 1, 9, 3, 2, 12]),
        runs(&[10, 5, 2, 1, 1, 7, 14]),
        runs(&[12, 3, 3, 8, 1, 13]),
        runs(&[11, 20, 9]),
    ];
    let mut stream = SegmentStream::new(samples.clone(), config).unwrap();
    let (pulled, _) = drive(&mut stream, &answers);
    let collected = collect_segments(samples, config, &answers).unwrap();
    assert_eq!(bounds(&collected), bounds(&pulled));
    for (a, b) in collected.iter().zip(&pulled) {
        assert_eq!(a.samples, b.samples);
    }
}

#[test]
fn collecting_silence_gives_nothing() {
    let config = SegmentationConfig::for_sample_rate(16000).unwrap();
    for len in [1usize, 1000, 144000, 144001, 160000, 300000] {
        let windows = (len + 143999) / 144000;
        let answers = vec![vec![0; 589]; windows];
        assert!(collect_segments(ramp(len), config, &answers).unwrap().is_empty());
    }
}

#[test]
fn collecting_speech_gives_one_segment() {
    let config = SegmentationConfig::for_sample_rate(16000).unwrap();
    for len in [160000usize, 288000, 300000, 1000000] {
        let windows = (len + 143999) / 144000;
        let answers = vec![vec![1; 589]; windows];
        let segments = collect_segments(ramp(len), config, &answers).unwrap();
        let last_frame = (windows - 1) * 144000 + 721 + 588 * 270;
        assert_eq!(bounds(&segments), vec![(721, last_frame.min(len))]);
    }
}

#[test]
fn collecting_needs_an_answer_for_each_window() {
    let mismatch = Some(DiarizeError::Inference(InferenceError::AnswerCountMismatch));
    // Windows start at 0 and at 80.
    let samples = ramp(150);
    let answer = vec![0; 10];
    for count in [0usize, 1, 3, 4] {
        let answers = vec![answer.clone(); count];
        assert_eq!(collect_segments(samples.clone(), small_config(), &answers).err(), mismatch);
    }
    let answers = vec![answer.clone(); 2];
    assert!(collect_segments(samples, small_config(), &answers).is_ok());
}

#[test]
fn collecting_reports_a_frame_beyond_the_largest_offset() {
    let mut config = small_config();
    config.frame_start = usize::MAX - 100;
    let samples = ramp(150);
    // Window 1 starts at 80: its third frame would lie at MAX.
    let fits = vec![vec![0, 0], vec![0, 0, 0]];
    assert!(collect_segments(samples.clone(), config, &fits).is_ok());
    let misfit = vec![vec![0, 0], vec![0, 0, 0, 0]];
    assert_eq!(
        collect_segments(samples.clone(), config, &misfit).err(),
        Some(DiarizeError::Inference(InferenceError::FrameOutOfRange))
    );
    // A misfit is reported, though an answer is missing as well.
    let both = vec![vec![0; 20]];
    assert_eq!(
        collect_segments(samples.clone(), config, &both).err(),
        Some(DiarizeError::Inference(InferenceError::FrameOutOfRange))
    );
    // An answer that belongs to no window is not looked at.
    let spare = vec![vec![0, 0], vec![0, 0, 0], vec![0; 50]];
    assert_eq!(
        collect_segments(samples, config, &spare).err(),
        Some(DiarizeError::Inference(InferenceError::AnswerCountMismatch))
    );
}

#[test]
fn collecting_rejects_what_a_stream_rejects() {
    assert_eq!(
        collect_segments(Vec::new(), small_config(), &Vec::new()).err(),
        Some(DiarizeError::EmptyInput)
    );
    let mut config = small_config();
    config.window_len = 0;
    assert_eq!(
        collect_segments(ramp(10), config, &Vec::new()).err(),
        Some(DiarizeError::Config(ConfigError::EmptyWindow))
    );
}
