use vstd::prelude::*;
use crate::config::SegmentationConfig;
use crate::machine::{
    all_reach_min_len, clipped, deduplicated, flush, initial_state, is_emitted,
    lemma_deduplicated_keeps_increasing, lemma_deduplicated_prefix,
    lemma_deduplicated_without_repeats, lemma_flush_emits_in_order, lemma_run_all_silence,
    lemma_run_all_speech, lemma_run_concat, lemma_run_emits_in_order, opening_start,
    run, strictly_increasing, well_separated, with_emitted, Frame, MachineState, Span,
};

verus! {

/// Where window number `index` starts, counting windows from 0.
pub open spec fn window_start(config: SegmentationConfig, index: int) -> int {
    index * config.step()
}

/// The samples of the window that starts at `start`: those of the audio as far as it
/// reaches, and zeros after its end.
pub open spec fn window_samples(samples: Seq<i16>, start: int, window_len: int) -> Seq<i16> {
    Seq::new(
        window_len as nat,
        |i: int|
            if start + i < samples.len() {
                samples[start + i]
            } else {
                0i16
            },
    )
}

/// Offset in the audio of output frame `k` of the window that starts at `start`.
pub open spec fn frame_offset(config: SegmentationConfig, start: int, k: int) -> int {
    start + config.frame_start + k * config.frame_stride
}

/// The frames that the classifier's answer `classes` stands for, one class per frame,
/// for the window that starts at `start`.
pub open spec fn window_frames(config: SegmentationConfig, start: int, classes: Seq<usize>) -> Seq<
    Frame,
> {
    Seq::new(
        classes.len(),
        |k: int| Frame { offset: frame_offset(config, start, k), speech: classes[k] != 0 },
    )
}

/// Whether every frame of an answer of `count` classes lies at an offset that a
/// `usize` can hold.
pub open spec fn frames_fit(config: SegmentationConfig, start: int, count: int) -> bool {
    count > 0 ==> frame_offset(config, start, count - 1) <= usize::MAX
}

/// The frames of the first windows of the audio in the order in which they are
/// processed, where `outputs` holds the classifier's answers, one per window.
pub open spec fn all_frames(config: SegmentationConfig, outputs: Seq<Seq<usize>>) -> Seq<Frame>
    decreases outputs.len(),
{
    if outputs.len() == 0 {
        Seq::empty()
    } else {
        all_frames(config, outputs.drop_last()) + window_frames(
            config,
            window_start(config, outputs.len() - 1),
            outputs.last(),
        )
    }
}

/// The state machine run from its initial state over the frames of `outputs`: the
/// state reached and the segments closed on the way.
pub open spec fn run_windows(
    config: SegmentationConfig,
    total_len: int,
    outputs: Seq<Seq<usize>>,
) -> (MachineState, Seq<Span>) {
    run(config, total_len, initial_state(), all_frames(config, outputs))
}

/// All segments of audio of `total_len` samples whose windows the classifier answered
/// with `outputs`: those closed while the frames were processed, then the one still
/// open at the end, if it is emitted.
pub open spec fn segments(
    config: SegmentationConfig,
    total_len: int,
    outputs: Seq<Seq<usize>>,
) -> Seq<Span> {
    let (st, spans) = run_windows(config, total_len, outputs);
    with_emitted(spans, flush(config, total_len, st).1)
}

/// Taking one more answer continues the run where the answers before it left off.
pub proof fn lemma_run_windows_push(
    config: SegmentationConfig,
    total_len: int,
    outputs: Seq<Seq<usize>>,
    classes: Seq<usize>,
)
    ensures
        run_windows(config, total_len, outputs.push(classes)) == ({
            let (mid, spans) = run_windows(config, total_len, outputs);
            let frames = window_frames(
                config,
                window_start(config, outputs.len() as int),
                classes,
            );
            let (next, more) = run(config, total_len, mid, frames);
            (next, spans + more)
        }),
{
    assert(outputs.push(classes).drop_last() =~= outputs);
    lemma_run_concat(
        config,
        total_len,
        initial_state(),
        all_frames(config, outputs),
        window_frames(config, window_start(config, outputs.len() as int), classes),
    );
}

/// Whether every class in every answer is a speech class, if `speech`, or the
/// non-speech class, if not.
pub open spec fn all_classes_are(outputs: Seq<Seq<usize>>, speech: bool) -> bool {
    forall|w: int, k: int|
        0 <= w < outputs.len() && 0 <= k < outputs[w].len() ==> (#[trigger] outputs[w][k] != 0)
            == speech
}

/// Answers of one kind give frames of that kind.
pub proof fn lemma_all_frames_are(
    config: SegmentationConfig,
    outputs: Seq<Seq<usize>>,
    speech: bool,
)
    requires
        all_classes_are(outputs, speech),
    ensures
        forall|i: int|
            0 <= i < all_frames(config, outputs).len() ==> (#[trigger] all_frames(
                config,
                outputs,
            )[i]).speech == speech,
    decreases outputs.len(),
{
    if outputs.len() > 0 {
        let head = all_frames(config, outputs.drop_last());
        lemma_all_frames_are(config, outputs.drop_last(), speech);
        assert forall|i: int| 0 <= i < all_frames(config, outputs).len() implies (
        #[trigger] all_frames(config, outputs)[i]).speech == speech by {
            if i < head.len() {
                assert(all_frames(config, outputs)[i] == head[i]);
            }
        }
    }
}

/// Whatever the classifier answers, the segments lie inside the audio in order, none
/// is empty, no two overlap, and each is as long as the minimum asks for.
pub proof fn lemma_segments_well_separated(
    config: SegmentationConfig,
    total_len: nat,
    outputs: Seq<Seq<usize>>,
)
    ensures
        well_separated(segments(config, total_len as int, outputs), 0, total_len as int),
        all_reach_min_len(
            segments(config, total_len as int, outputs),
            config.min_segment_len as int,
            total_len as int,
        ),
{
    let frames = all_frames(config, outputs);
    lemma_run_emits_in_order(config, total_len as int, initial_state(), frames);
    let (st, spans) = run_windows(config, total_len as int, outputs);
    lemma_flush_emits_in_order(config, total_len as int, st);
}

/// Emitted segments never overlap: each ends no later than the next one starts.
pub proof fn lemma_segments_never_overlap(
    config: SegmentationConfig,
    total_len: nat,
    outputs: Seq<Seq<usize>>,
)
    ensures
        forall|i: int|
            0 <= i && i + 1 < segments(config, total_len as int, outputs).len() ==> (
            #[trigger] segments(config, total_len as int, outputs)[i]).end <= segments(
                config,
                total_len as int,
                outputs,
            )[i + 1].start,
        forall|i: int|
            0 <= i < segments(config, total_len as int, outputs).len() ==> 0 <= (
            #[trigger] segments(config, total_len as int, outputs)[i]).start < segments(
                config,
                total_len as int,
                outputs,
            )[i].end <= total_len,
{
    lemma_segments_well_separated(config, total_len, outputs);
}

/// Every emitted segment is at least as long as the minimum segment length, but for
/// one case: the last segment may be shorter where the end of the audio cut it off.
pub proof fn lemma_segments_reach_min_len(
    config: SegmentationConfig,
    total_len: nat,
    outputs: Seq<Seq<usize>>,
)
    ensures
        forall|i: int|
            0 <= i < segments(config, total_len as int, outputs).len() && (#[trigger] segments(
                config,
                total_len as int,
                outputs,
            )[i]).end - segments(config, total_len as int, outputs)[i].start
                < config.min_segment_len ==> i == segments(
                config,
                total_len as int,
                outputs,
            ).len() - 1 && segments(config, total_len as int, outputs)[i].end == total_len,
{
    lemma_segments_well_separated(config, total_len, outputs);
    let segs = segments(config, total_len as int, outputs);
    assert forall|i: int|
        0 <= i < segs.len() && (#[trigger] segs[i]).end - segs[i].start
            < config.min_segment_len implies i == segs.len() - 1 && segs[i].end == total_len by {
        if i < segs.len() - 1 {
            assert(segs[i].end <= segs[segs.len() - 1].start);
        }
    }
}

/// A classifier that hears no speech anywhere gives no segment, whatever the length
/// of the audio.
pub proof fn lemma_silence_gives_no_segment(
    config: SegmentationConfig,
    total_len: nat,
    outputs: Seq<Seq<usize>>,
)
    requires
        all_classes_are(outputs, false),
    ensures
        segments(config, total_len as int, outputs) == Seq::<Span>::empty(),
{
    lemma_all_frames_are(config, outputs, false);
    lemma_run_all_silence(
        config,
        total_len as int,
        initial_state(),
        all_frames(config, outputs),
    );
}

/// The frames of `outputs` that are processed, repeats left out.
pub open spec fn processed_frames(config: SegmentationConfig, outputs: Seq<Seq<usize>>) -> Seq<
    Frame,
> {
    deduplicated(config, 0, all_frames(config, outputs))
}

/// The one span that speech throughout can give: from the first processed frame,
/// backed by the start buffer, to the last processed frame plus the end buffer, as far
/// as that lies inside the audio.
pub open spec fn speech_span(
    config: SegmentationConfig,
    total_len: int,
    outputs: Seq<Seq<usize>>,
) -> Span {
    let kept = processed_frames(config, outputs);
    clipped(
        opening_start(config, initial_state(), kept.first().offset),
        kept.last().offset + config.end_buffer,
        total_len,
    )
}

/// Whether the one span that speech throughout can give is emitted: from the first
/// processed frame, backed by the start buffer, to the last processed frame plus the
/// end buffer, it is no shorter than the minimum, and some of it lies inside the
/// audio.
pub open spec fn speech_is_emitted(
    config: SegmentationConfig,
    total_len: int,
    outputs: Seq<Seq<usize>>,
) -> bool {
    let kept = processed_frames(config, outputs);
    is_emitted(
        config,
        opening_start(config, initial_state(), kept.first().offset),
        kept.last().offset + config.end_buffer,
        total_len,
    )
}

/// A classifier that hears speech in every frame, over enough frames to open a
/// segment, gives exactly one segment: `speech_span`. (It gives none if that span is
/// not emitted.)
pub proof fn lemma_speech_gives_one_segment(
    config: SegmentationConfig,
    total_len: nat,
    outputs: Seq<Seq<usize>>,
)
    requires
        all_classes_are(outputs, true),
        processed_frames(config, outputs).len() >= config.hysteresis(),
    ensures
        segments(config, total_len as int, outputs) == (if speech_is_emitted(
            config,
            total_len as int,
            outputs,
        ) {
            seq![speech_span(config, total_len as int, outputs)]
        } else {
            Seq::<Span>::empty()
        }),
{
    lemma_all_frames_are(config, outputs, true);
    lemma_run_all_speech(
        config,
        total_len as int,
        initial_state(),
        all_frames(config, outputs),
    );
}

/// The frames of the first window come first among all frames.
pub proof fn lemma_all_frames_start_with_first_window(
    config: SegmentationConfig,
    outputs: Seq<Seq<usize>>,
)
    requires
        outputs.len() > 0,
    ensures
        window_frames(config, 0, outputs[0]).is_prefix_of(all_frames(config, outputs)),
    decreases outputs.len(),
{
    if outputs.len() == 1 {
        assert(all_frames(config, outputs.drop_last()) =~= Seq::<Frame>::empty());
        assert(window_start(config, 0) == 0) by (nonlinear_arith);
    } else {
        lemma_all_frames_start_with_first_window(config, outputs.drop_last());
    }
}

/// Where the frames advance and the first of them lies after the start of the
/// audio (or no repeats are dropped), every frame of the first window is processed,
/// and the first frame processed is the first frame of that window.
pub proof fn lemma_first_window_is_processed(config: SegmentationConfig, outputs: Seq<Seq<usize>>)
    requires
        outputs.len() > 0,
        config.frame_stride > 0,
        config.dedups() ==> config.frame_start > 0,
    ensures
        window_frames(config, 0, outputs[0]).is_prefix_of(processed_frames(config, outputs)),
{
    let first = window_frames(config, 0, outputs[0]);
    let all = all_frames(config, outputs);
    lemma_all_frames_start_with_first_window(config, outputs);
    let rest = all.subrange(first.len() as int, all.len() as int);
    assert(all =~= first + rest);
    lemma_deduplicated_prefix(config, 0, first, rest);
    if config.dedups() {
        assert(strictly_increasing(first)) by {
            assert forall|i: int, j: int| 0 <= i < j < first.len() implies (
            #[trigger] first[i]).offset < (#[trigger] first[j]).offset by {
                assert(i * config.frame_stride < j * config.frame_stride) by (nonlinear_arith)
                    requires
                        0 <= i < j,
                        config.frame_stride > 0,
                ;
            }
        }
        lemma_deduplicated_keeps_increasing(config, 0, first);
    } else {
        lemma_deduplicated_without_repeats(config, 0, first);
    }
}

/// Speech throughout, over a first window with frames enough to open a segment,
/// gives one segment. It starts at the first frame of the audio, less the start
/// buffer, and ends at the last frame processed, plus the end buffer, or at the end of
/// the audio if that comes first. (It gives none if that span is not emitted.)
pub proof fn lemma_speech_from_first_window(
    config: SegmentationConfig,
    total_len: nat,
    outputs: Seq<Seq<usize>>,
)
    requires
        all_classes_are(outputs, true),
        outputs.len() > 0,
        outputs[0].len() >= config.hysteresis(),
        config.frame_stride > 0,
        config.dedups() ==> config.frame_start > 0,
    ensures
        segments(config, total_len as int, outputs) == (if speech_is_emitted(
            config,
            total_len as int,
            outputs,
        ) {
            seq![speech_span(config, total_len as int, outputs)]
        } else {
            Seq::<Span>::empty()
        }),
        speech_span(config, total_len as int, outputs) == clipped(
            if config.frame_start >= config.start_buffer {
                config.frame_start - config.start_buffer
            } else {
                0
            },
            processed_frames(config, outputs).last().offset + config.end_buffer,
            total_len as int,
        ),
{
    lemma_first_window_is_processed(config, outputs);
    let first = window_frames(config, 0, outputs[0]);
    let kept = processed_frames(config, outputs);
    assert(kept[0] == first[0]);
    lemma_speech_gives_one_segment(config, total_len, outputs);
}

/// Offset in the audio of output frame `k` of the window that starts at `start`;
/// nothing where the offset is more than a `usize` can hold.
pub fn offset_of_frame(config: &SegmentationConfig, start: usize, k: usize) -> (offset: Option<
    usize,
>)
    ensures
        offset == (if frame_offset(*config, start as int, k as int) <= usize::MAX {
            Some(frame_offset(*config, start as int, k as int) as usize)
        } else {
            None
        }),
{
    assert(0 <= k * config.frame_stride) by (nonlinear_arith)
        requires
            0 <= k,
            0 <= config.frame_stride,
    ;
    match k.checked_mul(config.frame_stride) {
        Some(span) => match span.checked_add(config.frame_start) {
            Some(inner) => inner.checked_add(start),
            None => None,
        },
        None => None,
    }
}

/// Copies the samples of one window out of the audio, padding with zeros past its end.
pub fn take_window(samples: &Vec<i16>, start: usize, window_len: usize) -> (window: Vec<i16>)
    ensures
        window@ == window_samples(samples@, start as int, window_len as int),
{
    let total: usize = samples.len();
    let mut window: Vec<i16> = Vec::new();
    let mut i: usize = 0;
    while i < window_len
        invariant
            total == samples@.len(),
            i <= window_len,
            window@.len() == i,
            forall|j: int|
                0 <= j < i ==> window@[j] == (if start + j < samples@.len() {
                    samples@[start + j]
                } else {
                    0i16
                }),
        decreases window_len - i,
    {
        let value: i16 = match start.checked_add(i) {
            Some(at) => if at < total { samples[at] } else { 0 },
            None => 0,
        };
        window.push(value);
        i = i + 1;
    }
    window
}

/// The samples of the audio from `start` up to `end`, as far as there are any.
pub open spec fn range_samples(samples: Seq<i16>, start: int, end: int) -> Seq<i16> {
    let e = if end <= samples.len() { end } else { samples.len() as int };
    if 0 <= start <= e {
        samples.subrange(start, e)
    } else {
        Seq::empty()
    }
}

/// Copies the samples from `start` up to `end` out of the audio.
pub fn copy_range(samples: &Vec<i16>, start: usize, end: usize) -> (part: Vec<i16>)
    ensures
        part@ == range_samples(samples@, start as int, end as int),
{
    let stop: usize = if end <= samples.len() { end } else { samples.len() };
    let mut part: Vec<i16> = Vec::new();
    if start > stop {
        return part;
    }
    let mut i: usize = start;
    while i < stop
        invariant
            start <= i <= stop <= samples@.len(),
            part@ == samples@.subrange(start as int, i as int),
        decreases stop - i,
    {
        part.push(samples[i]);
        i = i + 1;
    }
    part
}

} // verus!
