use vstd::prelude::*;
use crate::config::SegmentationConfig;

verus! {

/// One classifier decision placed on the audio's time line. Class 0 means non-speech.
#[derive(Clone, Copy, Debug)]
pub struct FrameDecision {
    /// Offset of the frame in samples from the start of the audio.
    pub offset: usize,
    /// The class that the classifier gave the frame.
    pub class_index: usize,
}

/// A frame as the state machine sees it: where it lies and whether it is speech.
pub struct Frame {
    pub offset: int,
    pub speech: bool,
}

impl View for FrameDecision {
    type V = Frame;

    open spec fn view(&self) -> Frame {
        Frame { offset: self.offset as int, speech: self.class_index != 0 }
    }
}

/// A half-open range of samples, `start` included and `end` excluded.
pub struct Span {
    pub start: int,
    pub end: int,
}

/// What the state machine remembers between frames.
pub struct MachineState {
    /// A segment is open.
    pub in_speech: bool,
    /// Where the open segment starts.
    pub seg_start: int,
    /// Length of the current run of speech frames, counted up to the hysteresis threshold.
    pub speech_run: int,
    /// Offset of the first frame of the current run of speech frames.
    pub run_start: int,
    /// Length of the current run of non-speech frames inside the open segment.
    pub silence_run: int,
    /// Offset of the first frame of that run.
    pub silence_start: int,
    /// End of the segment emitted last, 0 before the first.
    pub last_segment_end: int,
    /// Offset of the frame processed last, 0 before the first.
    pub last_offset: int,
}

/// The state before any frame: silence, nothing emitted.
pub open spec fn initial_state() -> MachineState {
    MachineState {
        in_speech: false,
        seg_start: 0,
        speech_run: 0,
        run_start: 0,
        silence_run: 0,
        silence_start: 0,
        last_segment_end: 0,
        last_offset: 0,
    }
}

/// What every reachable state satisfies for audio of `total_len` samples.
pub open spec fn state_wf(config: SegmentationConfig, total_len: int, st: MachineState) -> bool {
    &&& 0 <= st.last_segment_end <= total_len
    &&& st.in_speech ==> st.last_segment_end <= st.seg_start
    &&& !st.in_speech ==> st.silence_run == 0
    &&& st.silence_run < config.gap_tolerance()
    &&& st.speech_run <= config.hysteresis()
}

/// Whether the frame repeats audio that was already processed and is dropped.
pub open spec fn is_repeat(config: SegmentationConfig, st: MachineState, frame: Frame) -> bool {
    config.dedups() && frame.offset <= st.last_offset
}

/// Where a segment that opens on a speech run beginning at `run_start` starts: the
/// start buffer earlier, but neither before the audio nor before the last segment's end.
pub open spec fn opening_start(
    config: SegmentationConfig,
    st: MachineState,
    run_start: int,
) -> int {
    let backed: int = if run_start >= config.start_buffer {
        run_start - config.start_buffer
    } else {
        0
    };
    if backed >= st.last_segment_end {
        backed
    } else {
        st.last_segment_end
    }
}

/// The part of `[seg_start, end)` that lies inside the audio.
pub open spec fn clipped(seg_start: int, end: int, total_len: int) -> Span {
    let e = if end <= total_len { end } else { total_len };
    Span { start: if seg_start <= e { seg_start } else { e }, end: e }
}

/// Whether the segment from `seg_start` to `end` is emitted: it is no shorter than
/// the minimum, and some of it lies inside the audio.
pub open spec fn is_emitted(
    config: SegmentationConfig,
    seg_start: int,
    end: int,
    total_len: int,
) -> bool {
    end - seg_start >= config.min_segment_len && seg_start < end && seg_start < total_len
}

/// Closes the open segment at `end`: if it is long enough, the part of it that lies
/// inside the audio is emitted; otherwise it is dropped. Either way the runs start
/// anew.
pub open spec fn close(
    config: SegmentationConfig,
    total_len: int,
    st: MachineState,
    end: int,
) -> (MachineState, Option<Span>) {
    let span = clipped(st.seg_start, end, total_len);
    if is_emitted(config, st.seg_start, end, total_len) {
        (
            MachineState {
                in_speech: false,
                speech_run: 0,
                silence_run: 0,
                last_segment_end: span.end,
                ..st
            },
            Some(span),
        )
    } else {
        (MachineState { in_speech: false, speech_run: 0, silence_run: 0, ..st }, None)
    }
}

/// The state after a speech frame at `offset`.
pub open spec fn on_speech(
    config: SegmentationConfig,
    st: MachineState,
    offset: int,
) -> MachineState {
    let run_start = if st.speech_run == 0 { offset } else { st.run_start };
    let speech_run = if st.speech_run < config.hysteresis() {
        st.speech_run + 1
    } else {
        st.speech_run
    };
    if !st.in_speech && speech_run >= config.hysteresis() {
        MachineState {
            in_speech: true,
            seg_start: opening_start(config, st, run_start),
            speech_run,
            run_start,
            silence_run: 0,
            last_offset: offset,
            ..st
        }
    } else {
        MachineState { speech_run, run_start, silence_run: 0, last_offset: offset, ..st }
    }
}

/// The state after a non-speech frame at `offset`, and the segment it closed, if any.
pub open spec fn on_silence(
    config: SegmentationConfig,
    total_len: int,
    st: MachineState,
    offset: int,
) -> (MachineState, Option<Span>) {
    if !st.in_speech {
        (MachineState { speech_run: 0, last_offset: offset, ..st }, None)
    } else {
        let silence_start = if st.silence_run == 0 { offset } else { st.silence_start };
        let silence_run = st.silence_run + 1;
        if silence_run >= config.gap_tolerance() {
            close(
                config,
                total_len,
                MachineState { speech_run: 0, silence_start, last_offset: offset, ..st },
                silence_start + config.end_buffer,
            )
        } else {
            (
                MachineState {
                    speech_run: 0,
                    silence_run,
                    silence_start,
                    last_offset: offset,
                    ..st
                },
                None,
            )
        }
    }
}

/// One transition: the state after `frame`, and the segment it closed, if any.
pub open spec fn step(
    config: SegmentationConfig,
    total_len: int,
    st: MachineState,
    frame: Frame,
) -> (MachineState, Option<Span>) {
    if is_repeat(config, st, frame) {
        (st, None)
    } else if frame.speech {
        (on_speech(config, st, frame.offset), None)
    } else {
        on_silence(config, total_len, st, frame.offset)
    }
}

/// What happens when the frames run out: a segment still open is closed at the last
/// processed frame plus the end buffer.
pub open spec fn flush(config: SegmentationConfig, total_len: int, st: MachineState) -> (
    MachineState,
    Option<Span>,
) {
    if st.in_speech {
        close(config, total_len, st, st.last_offset + config.end_buffer)
    } else {
        (st, None)
    }
}

/// `spans` with `emitted` added at the end, if there is one.
pub open spec fn with_emitted(spans: Seq<Span>, emitted: Option<Span>) -> Seq<Span> {
    match emitted {
        Some(span) => spans.push(span),
        None => spans,
    }
}

/// The transitions over `frames` in order, from `st`: the final state and the
/// segments closed on the way.
pub open spec fn run(
    config: SegmentationConfig,
    total_len: int,
    st: MachineState,
    frames: Seq<Frame>,
) -> (MachineState, Seq<Span>)
    decreases frames.len(),
{
    if frames.len() == 0 {
        (st, Seq::empty())
    } else {
        let (mid, spans) = run(config, total_len, st, frames.drop_last());
        let (next, emitted) = step(config, total_len, mid, frames.last());
        (next, with_emitted(spans, emitted))
    }
}

/// Whether a span of audio of `total_len` samples is as long as the minimum asks
/// for: it is at least `min_len` long, unless it was cut off at the end of the audio.
pub open spec fn reaches_min_len(span: Span, min_len: int, total_len: int) -> bool {
    span.end - span.start >= min_len || span.end == total_len
}

/// Whether `spans` lie in order between `floor` and `ceiling` without overlapping,
/// none of them empty.
pub open spec fn well_separated(spans: Seq<Span>, floor: int, ceiling: int) -> bool {
    &&& forall|i: int|
        0 <= i < spans.len() ==> floor <= (#[trigger] spans[i]).start < spans[i].end <= ceiling
    &&& forall|i: int, j: int|
        0 <= i < j < spans.len() ==> (#[trigger] spans[i]).end <= (#[trigger] spans[j]).start
}

/// Whether each of `spans` is as long as the minimum asks for.
pub open spec fn all_reach_min_len(spans: Seq<Span>, min_len: int, total_len: int) -> bool {
    forall|i: int| 0 <= i < spans.len() ==> reaches_min_len(#[trigger] spans[i], min_len, total_len)
}

/// A transition keeps the state well formed. A segment that it emits starts at or
/// after the end of the one emitted before, is not empty, ends inside the audio, is as
/// long as the minimum asks for, and its end becomes the new end of the last segment.
pub proof fn lemma_step_emits_in_order(
    config: SegmentationConfig,
    total_len: int,
    st: MachineState,
    frame: Frame,
)
    requires
        state_wf(config, total_len, st),
    ensures
        state_wf(config, total_len, step(config, total_len, st, frame).0),
        match step(config, total_len, st, frame).1 {
            Some(span) => {
                &&& st.last_segment_end <= span.start < span.end <= total_len
                &&& reaches_min_len(span, config.min_segment_len as int, total_len)
                &&& step(config, total_len, st, frame).0.last_segment_end == span.end
            },
            None => step(config, total_len, st, frame).0.last_segment_end == st.last_segment_end,
        },
{
}

/// The same for the end of the frames: flushing keeps the state well formed and emits
/// at most one segment, after all earlier ones.
pub proof fn lemma_flush_emits_in_order(
    config: SegmentationConfig,
    total_len: int,
    st: MachineState,
)
    requires
        state_wf(config, total_len, st),
    ensures
        state_wf(config, total_len, flush(config, total_len, st).0),
        !flush(config, total_len, st).0.in_speech,
        match flush(config, total_len, st).1 {
            Some(span) => {
                &&& st.last_segment_end <= span.start < span.end <= total_len
                &&& reaches_min_len(span, config.min_segment_len as int, total_len)
                &&& flush(config, total_len, st).0.last_segment_end == span.end
            },
            None => flush(config, total_len, st).0.last_segment_end == st.last_segment_end,
        },
{
}

/// Over any frames, from any well-formed state, the segments emitted lie in order
/// after the last one emitted before, do not overlap, and each is as long as the
/// minimum asks for.
pub proof fn lemma_run_emits_in_order(
    config: SegmentationConfig,
    total_len: int,
    st: MachineState,
    frames: Seq<Frame>,
)
    requires
        state_wf(config, total_len, st),
    ensures
        state_wf(config, total_len, run(config, total_len, st, frames).0),
        well_separated(
            run(config, total_len, st, frames).1,
            st.last_segment_end,
            run(config, total_len, st, frames).0.last_segment_end,
        ),
        all_reach_min_len(
            run(config, total_len, st, frames).1,
            config.min_segment_len as int,
            total_len,
        ),
        st.last_segment_end <= run(config, total_len, st, frames).0.last_segment_end,
    decreases frames.len(),
{
    if frames.len() > 0 {
        lemma_run_emits_in_order(config, total_len, st, frames.drop_last());
        let (mid, spans) = run(config, total_len, st, frames.drop_last());
        lemma_step_emits_in_order(config, total_len, mid, frames.last());
    }
}

/// Running over `frames` and then over one more frame is running over all of them.
pub proof fn lemma_run_push(
    config: SegmentationConfig,
    total_len: int,
    st: MachineState,
    frames: Seq<Frame>,
    frame: Frame,
)
    ensures
        run(config, total_len, st, frames.push(frame)) == ({
            let (mid, spans) = run(config, total_len, st, frames);
            let (next, emitted) = step(config, total_len, mid, frame);
            (next, with_emitted(spans, emitted))
        }),
{
    assert(frames.push(frame).drop_last() =~= frames);
}

/// Running over `first` and then over `second` is running over both in a row.
pub proof fn lemma_run_concat(
    config: SegmentationConfig,
    total_len: int,
    st: MachineState,
    first: Seq<Frame>,
    second: Seq<Frame>,
)
    ensures
        run(config, total_len, st, first + second) == ({
            let (mid, spans) = run(config, total_len, st, first);
            let (next, more) = run(config, total_len, mid, second);
            (next, spans + more)
        }),
    decreases second.len(),
{
    if second.len() > 0 {
        assert((first + second).drop_last() =~= first + second.drop_last());
        lemma_run_concat(config, total_len, st, first, second.drop_last());
    }
}

/// While no segment is open, frames without speech change nothing that matters: no
/// segment is emitted and none is opened.
pub proof fn lemma_run_all_silence(
    config: SegmentationConfig,
    total_len: int,
    st: MachineState,
    frames: Seq<Frame>,
)
    requires
        !st.in_speech,
        forall|i: int| 0 <= i < frames.len() ==> !(#[trigger] frames[i]).speech,
    ensures
        run(config, total_len, st, frames).1 == Seq::<Span>::empty(),
        !run(config, total_len, st, frames).0.in_speech,
        run(config, total_len, st, frames).0.last_segment_end == st.last_segment_end,
    decreases frames.len(),
{
    if frames.len() > 0 {
        lemma_run_all_silence(config, total_len, st, frames.drop_last());
    }
}

/// The frames that are processed when `frames` arrive in order after a frame at
/// `last_offset`: where repeats are dropped, those that lie after every frame
/// processed before them.
pub open spec fn deduplicated(
    config: SegmentationConfig,
    last_offset: int,
    frames: Seq<Frame>,
) -> Seq<Frame>
    decreases frames.len(),
{
    if frames.len() == 0 {
        Seq::empty()
    } else {
        let kept = deduplicated(config, last_offset, frames.drop_last());
        let mark = if kept.len() > 0 { kept.last().offset } else { last_offset };
        if config.dedups() && frames.last().offset <= mark {
            kept
        } else {
            kept.push(frames.last())
        }
    }
}

/// Whether each frame lies after the one before it.
pub open spec fn strictly_increasing(frames: Seq<Frame>) -> bool {
    forall|i: int, j: int|
        0 <= i < j < frames.len() ==> (#[trigger] frames[i]).offset < (#[trigger] frames[j]).offset
}

/// Frames that lie in order after the frame processed last are all processed.
pub proof fn lemma_deduplicated_keeps_increasing(
    config: SegmentationConfig,
    last_offset: int,
    frames: Seq<Frame>,
)
    requires
        strictly_increasing(frames),
        frames.len() > 0 ==> frames[0].offset > last_offset,
    ensures
        deduplicated(config, last_offset, frames) == frames,
    decreases frames.len(),
{
    if frames.len() > 0 {
        lemma_deduplicated_keeps_increasing(config, last_offset, frames.drop_last());
    }
}

/// Where repeats are not dropped, every frame is processed.
pub proof fn lemma_deduplicated_without_repeats(
    config: SegmentationConfig,
    last_offset: int,
    frames: Seq<Frame>,
)
    requires
        !config.dedups(),
    ensures
        deduplicated(config, last_offset, frames) == frames,
    decreases frames.len(),
{
    if frames.len() > 0 {
        lemma_deduplicated_without_repeats(config, last_offset, frames.drop_last());
    }
}

/// The frames processed among `first` are the first of those processed among
/// `first` followed by `second`.
pub proof fn lemma_deduplicated_prefix(
    config: SegmentationConfig,
    last_offset: int,
    first: Seq<Frame>,
    second: Seq<Frame>,
)
    ensures
        deduplicated(config, last_offset, first).is_prefix_of(
            deduplicated(config, last_offset, first + second),
        ),
    decreases second.len(),
{
    if second.len() > 0 {
        assert((first + second).drop_last() =~= first + second.drop_last());
        lemma_deduplicated_prefix(config, last_offset, first, second.drop_last());
    }
}

/// The state that speech frames alone lead to from `st`, in which no segment is open
/// and no run has begun, once the frames in `kept` have been processed: the segment
/// is open if they are as many as the hysteresis asks for, and it starts where the
/// first of them backs to.
pub open spec fn after_speech(
    config: SegmentationConfig,
    st: MachineState,
    kept: Seq<Frame>,
) -> MachineState {
    if kept.len() == 0 {
        st
    } else if kept.len() >= config.hysteresis() {
        MachineState {
            in_speech: true,
            seg_start: opening_start(config, st, kept.first().offset),
            speech_run: config.hysteresis(),
            run_start: kept.first().offset,
            silence_run: 0,
            last_offset: kept.last().offset,
            ..st
        }
    } else {
        MachineState {
            speech_run: kept.len() as int,
            run_start: kept.first().offset,
            silence_run: 0,
            last_offset: kept.last().offset,
            ..st
        }
    }
}

/// Frames that are all speech never close a segment, and lead to `after_speech` of
/// those among them that are processed.
pub proof fn lemma_run_all_speech(
    config: SegmentationConfig,
    total_len: int,
    st: MachineState,
    frames: Seq<Frame>,
)
    requires
        !st.in_speech,
        st.speech_run == 0,
        st.silence_run == 0,
        forall|i: int| 0 <= i < frames.len() ==> (#[trigger] frames[i]).speech,
    ensures
        run(config, total_len, st, frames) == (
            after_speech(config, st, deduplicated(config, st.last_offset, frames)),
            Seq::<Span>::empty(),
        ),
    decreases frames.len(),
{
    if frames.len() > 0 {
        lemma_run_all_speech(config, total_len, st, frames.drop_last());
    }
}

/// The emitted range as a span.
pub open spec fn span_of(bounds: Option<(usize, usize)>) -> Option<Span> {
    match bounds {
        Some((start, end)) => Some(Span { start: start as int, end: end as int }),
        None => None,
    }
}

/// The segmentation state machine for one stretch of audio.
pub struct Machine {
    config: SegmentationConfig,
    total_len: usize,
    in_speech: bool,
    seg_start: usize,
    speech_run: usize,
    run_start: usize,
    silence_run: usize,
    silence_start: usize,
    last_segment_end: usize,
    last_offset: usize,
}

impl View for Machine {
    type V = MachineState;

    closed spec fn view(&self) -> MachineState {
        MachineState {
            in_speech: self.in_speech,
            seg_start: self.seg_start as int,
            speech_run: self.speech_run as int,
            run_start: self.run_start as int,
            silence_run: self.silence_run as int,
            silence_start: self.silence_start as int,
            last_segment_end: self.last_segment_end as int,
            last_offset: self.last_offset as int,
        }
    }
}

impl Machine {
    /// The parameters the machine was made with.
    pub closed spec fn config(&self) -> SegmentationConfig {
        self.config
    }

    /// The length of the audio the machine was made for.
    pub closed spec fn total_len(&self) -> int {
        self.total_len as int
    }

    /// The state is one that the transitions can reach.
    pub open spec fn wf(&self) -> bool {
        state_wf(self.config(), self.total_len(), self@)
    }

    /// A machine in its initial state for audio of `total_len` samples.
    pub fn new(config: SegmentationConfig, total_len: usize) -> (m: Machine)
        ensures
            m.wf(),
            m@ == initial_state(),
            m.config() == config,
            m.total_len() == total_len,
    {
        Machine {
            config,
            total_len,
            in_speech: false,
            seg_start: 0,
            speech_run: 0,
            run_start: 0,
            silence_run: 0,
            silence_start: 0,
            last_segment_end: 0,
            last_offset: 0,
        }
    }

    /// Whether a segment is open.
    pub fn in_speech(&self) -> (b: bool)
        ensures
            b == self@.in_speech,
    {
        self.in_speech
    }

    /// Closes the open segment at `at + buffer`.
    fn close_at(&mut self, at: usize, buffer: usize) -> (emitted: Option<(usize, usize)>)
        requires
            old(self).wf(),
            old(self)@.in_speech,
        ensures
            final(self).wf(),
            final(self).config() == old(self).config(),
            final(self).total_len() == old(self).total_len(),
            (final(self)@, span_of(emitted)) == close(
                old(self).config(),
                old(self).total_len(),
                old(self)@,
                at + buffer,
            ),
    {
        // The sum may pass the largest `usize`; twice its width holds it.
        let end: u128 = at as u128 + buffer as u128;
        let start: u128 = self.seg_start as u128;
        let long_enough: bool = end >= start && end - start >= self.config.min_segment_len as u128;
        let e: usize = if end <= self.total_len as u128 {
            end as usize
        } else {
            self.total_len
        };
        self.in_speech = false;
        self.speech_run = 0;
        self.silence_run = 0;
        if long_enough && self.seg_start < e {
            self.last_segment_end = e;
            Some((self.seg_start, e))
        } else {
            None
        }
    }

    /// Feeds one frame to the machine and returns the bounds of the segment that the
    /// frame closed, if it closed one.
    pub fn step(&mut self, frame: FrameDecision) -> (emitted: Option<(usize, usize)>)
        requires
            old(self).wf(),
        ensures
            final(self).wf(),
            final(self).config() == old(self).config(),
            final(self).total_len() == old(self).total_len(),
            (final(self)@, span_of(emitted)) == step(
                old(self).config(),
                old(self).total_len(),
                old(self)@,
                frame@,
            ),
    {
        let dedups: bool = match self.config.mode {
            crate::config::WindowMode::Tiling => false,
            crate::config::WindowMode::Overlapping { overlap: _ } => true,
        };
        if dedups && frame.offset <= self.last_offset {
            return None;
        }
        let offset: usize = frame.offset;
        if frame.class_index != 0 {
            let threshold: usize = if self.config.start_hysteresis_frames == 0 {
                1
            } else {
                self.config.start_hysteresis_frames
            };
            if self.speech_run == 0 {
                self.run_start = offset;
            }
            if self.speech_run < threshold {
                self.speech_run = self.speech_run + 1;
            }
            if !self.in_speech && self.speech_run >= threshold {
                let backed: usize = if self.run_start >= self.config.start_buffer {
                    self.run_start - self.config.start_buffer
                } else {
                    0
                };
                self.seg_start = if backed >= self.last_segment_end {
                    backed
                } else {
                    self.last_segment_end
                };
                self.in_speech = true;
            }
            self.silence_run = 0;
            self.last_offset = offset;
            None
        } else {
            self.speech_run = 0;
            self.last_offset = offset;
            if !self.in_speech {
                return None;
            }
            let tolerance: usize = if self.config.gap_tolerance_frames == 0 {
                1
            } else {
                self.config.gap_tolerance_frames
            };
            if self.silence_run == 0 {
                self.silence_start = offset;
            }
            let silence_run: usize = self.silence_run + 1;
            if silence_run >= tolerance {
                self.close_at(self.silence_start, self.config.end_buffer)
            } else {
                self.silence_run = silence_run;
                None
            }
        }
    }

    /// Ends the stream of frames and returns the bounds of the segment that was still
    /// open, if it is emitted.
    pub fn finish(&mut self) -> (emitted: Option<(usize, usize)>)
        requires
            old(self).wf(),
        ensures
            final(self).wf(),
            final(self).config() == old(self).config(),
            final(self).total_len() == old(self).total_len(),
            (final(self)@, span_of(emitted)) == flush(
                old(self).config(),
                old(self).total_len(),
                old(self)@,
            ),
    {
        if self.in_speech {
            self.close_at(self.last_offset, self.config.end_buffer)
        } else {
            None
        }
    }
}

} // verus!
