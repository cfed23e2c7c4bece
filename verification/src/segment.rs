use std::collections::VecDeque;
use vstd::prelude::*;
use crate::config::SegmentationConfig;
use crate::error::{DiarizeError, InferenceError};
use crate::machine::{
    all_reach_min_len, flush, initial_state, lemma_flush_emits_in_order,
    lemma_run_emits_in_order, lemma_run_push, lemma_step_emits_in_order, run, well_separated,
    FrameDecision, Machine, Span,
};
use crate::window::{
    all_frames, copy_range, frame_offset, frames_fit, lemma_run_windows_push,
    lemma_segments_well_separated, offset_of_frame, run_windows, segments, take_window,
    window_frames, window_samples, window_start,
};

verus! {

/// A stretch of speech: where it lies in the audio, in samples, and the samples
/// themselves.
#[derive(Debug)]
pub struct Segment {
    /// Offset of the first sample.
    pub start: usize,
    /// Offset just past the last sample.
    pub end: usize,
    pub samples: Vec<i16>,
}

impl Segment {
    /// The range of the audio that the segment covers.
    pub open spec fn span(&self) -> Span {
        Span { start: self.start as int, end: self.end as int }
    }

    /// The segment's samples are those of `audio` between its start and its end.
    pub open spec fn cut_from(&self, audio: Seq<i16>) -> bool {
        &&& self.start <= self.end <= audio.len()
        &&& self.samples@ == audio.subrange(self.start as int, self.end as int)
    }
}

/// What a stream of segments is made of and how far it has come.
pub struct StreamState {
    pub config: SegmentationConfig,
    /// The audio.
    pub samples: Seq<i16>,
    /// The classifier's answers taken so far, one per window, in order.
    pub fed: Seq<Seq<usize>>,
    /// How many segments have been handed out.
    pub yielded: int,
    /// A window was handed out and its answer has not come yet.
    pub awaiting: bool,
    /// The segment still open after the last window has been dealt with.
    pub flushed: bool,
    /// Why the classifier failed, if it did. A failure ends the stream.
    pub failure: Option<InferenceError>,
    /// The failure has been handed out.
    pub reported: bool,
}

/// What one pull on the stream gives.
pub enum Item {
    /// The next segment.
    Segment(Span),
    /// A request to classify the window that starts at this offset.
    Window(int),
    /// The failure that ended the stream.
    Failed(InferenceError),
    /// Nothing more will come.
    End,
}

impl StreamState {
    /// The number of samples of the audio.
    pub open spec fn total_len(self) -> int {
        self.samples.len() as int
    }

    /// The segments that the answers taken so far have given.
    pub open spec fn produced(self) -> Seq<Span> {
        if self.flushed {
            segments(self.config, self.total_len(), self.fed)
        } else {
            run_windows(self.config, self.total_len(), self.fed).1
        }
    }

    /// Where the next window to be classified starts.
    pub open spec fn next_window(self) -> int {
        window_start(self.config, self.fed.len() as int)
    }

    /// A window starts before the end of the audio, so it is still to be classified.
    pub open spec fn windows_left(self) -> bool {
        self.next_window() < self.total_len()
    }

    /// What holds of every stream: its parameters are usable and its audio is not
    /// empty; it has handed out no more segments than it has produced; while it
    /// waits for an answer, a window is left, nothing is ready, and nothing has
    /// failed; it flushes only when no window is left.
    pub open spec fn wf(self) -> bool {
        &&& self.config.wf()
        &&& self.samples.len() > 0
        &&& 0 <= self.yielded <= self.produced().len()
        &&& self.awaiting ==> self.windows_left() && !self.flushed && self.failure is None
            && self.yielded == self.produced().len()
        &&& self.flushed ==> !self.windows_left()
        &&& self.reported ==> self.failure is Some
    }

    /// The stream before anything has happened.
    pub open spec fn start(config: SegmentationConfig, samples: Seq<i16>) -> StreamState {
        StreamState {
            config,
            samples,
            fed: Seq::empty(),
            yielded: 0,
            awaiting: false,
            flushed: false,
            failure: None,
            reported: false,
        }
    }

    /// One pull. Segments that are ready come first. After a failure, the failure
    /// is handed out once, and then the stream has ended. Otherwise the next window
    /// is asked for; when no window is left, the open segment is flushed and, if
    /// emitted, handed out; then the stream has ended.
    pub open spec fn poll(self) -> (StreamState, Item) {
        if self.yielded < self.produced().len() {
            (
                StreamState { yielded: self.yielded + 1, ..self },
                Item::Segment(self.produced()[self.yielded]),
            )
        } else if self.failure is Some {
            if self.reported {
                (self, Item::End)
            } else {
                (StreamState { reported: true, ..self }, Item::Failed(self.failure->Some_0))
            }
        } else if self.flushed {
            (self, Item::End)
        } else if self.windows_left() {
            (StreamState { awaiting: true, ..self }, Item::Window(self.next_window()))
        } else {
            let done = StreamState { flushed: true, ..self };
            if done.yielded < done.produced().len() {
                (
                    StreamState { yielded: done.yielded + 1, ..done },
                    Item::Segment(done.produced()[done.yielded]),
                )
            } else {
                (done, Item::End)
            }
        }
    }

    /// The stream after the classifier's answer `classes` for the awaited window.
    pub open spec fn answered(self, classes: Seq<usize>) -> StreamState {
        StreamState { fed: self.fed.push(classes), awaiting: false, ..self }
    }

    /// The stream after the classifier has failed for the reason `cause`. Of
    /// several failures the first is kept.
    pub open spec fn broken(self, cause: InferenceError) -> StreamState {
        if self.failure is Some {
            StreamState { awaiting: false, ..self }
        } else {
            StreamState { awaiting: false, failure: Some(cause), ..self }
        }
    }
}

/// At any time, the segments that a stream has produced lie inside the audio in
/// order, none is empty, no two overlap, and each is as long as the minimum asks
/// for.
pub proof fn lemma_produced_well_separated(state: StreamState)
    ensures
        well_separated(state.produced(), 0, state.total_len()),
        all_reach_min_len(
            state.produced(),
            state.config.min_segment_len as int,
            state.total_len(),
        ),
{
    if state.flushed {
        lemma_segments_well_separated(state.config, state.samples.len(), state.fed);
    } else {
        lemma_run_emits_in_order(
            state.config,
            state.total_len(),
            initial_state(),
            all_frames(state.config, state.fed),
        );
    }
}

/// What a stream has produced stays as it is, in its place, when an answer is
/// taken and when the open segment is flushed: more segments only come after it.
pub proof fn lemma_produced_is_kept(state: StreamState, classes: Seq<usize>)
    requires
        !state.flushed,
    ensures
        state.produced().is_prefix_of(state.answered(classes).produced()),
        state.produced().is_prefix_of(state.poll().0.produced()),
{
    lemma_run_windows_push(state.config, state.total_len(), state.fed, classes);
}

/// A stream that ends without a failure has asked for every window and handed out
/// every segment of the audio.
pub proof fn lemma_end_means_complete(state: StreamState)
    requires
        state.wf(),
        state.failure is None,
        state.poll().1 == Item::End,
    ensures
        !state.poll().0.windows_left(),
        state.poll().0.yielded == segments(state.config, state.total_len(), state.fed).len(),
        state.poll().0.fed == state.fed,
{
}

/// What one pull on a `SegmentStream` returns.
#[derive(Debug)]
pub enum Poll {
    /// The next segment.
    Segment(Segment),
    /// The samples of the next window. The caller classifies them and answers with
    /// `feed`, or with `fail` if it cannot.
    Window(Vec<i16>),
    /// The failure that ended the stream.
    Failed(InferenceError),
    /// Nothing more will come.
    End,
}

/// The segments of one piece of audio, produced one pull at a time.
pub struct SegmentStream {
    config: SegmentationConfig,
    samples: Vec<i16>,
    machine: Machine,
    queue: VecDeque<Segment>,
    cursor: usize,
    awaiting: bool,
    flushed: bool,
    failure: Option<InferenceError>,
    reported: bool,
    fed: Ghost<Seq<Seq<usize>>>,
    yielded: Ghost<int>,
}

impl View for SegmentStream {
    type V = StreamState;

    closed spec fn view(&self) -> StreamState {
        StreamState {
            config: self.config,
            samples: self.samples@,
            fed: self.fed@,
            yielded: self.yielded@,
            awaiting: self.awaiting,
            flushed: self.flushed,
            failure: self.failure,
            reported: self.reported,
        }
    }
}

/// Whether the segments are the spans from number `from` on, in order, each with its
/// samples cut from `audio`.
pub open spec fn segments_are(
    queue: Seq<Segment>,
    spans: Seq<Span>,
    from: int,
    audio: Seq<i16>,
) -> bool {
    &&& queue.len() == spans.len() - from
    &&& forall|i: int|
        0 <= i < queue.len() ==> (#[trigger] queue[i]).span() == spans[from + i]
            && queue[i].cut_from(audio)
}

/// Feeds the frames of one window to the machine and queues the segments they close.
fn process_window(
    machine: &mut Machine,
    queue: &mut VecDeque<Segment>,
    samples: &Vec<i16>,
    config: &SegmentationConfig,
    start: usize,
    classes: &[usize],
)
    requires
        old(machine).wf(),
        old(machine).config() == *config,
        old(machine).total_len() == samples@.len(),
        old(queue)@.len() == 0,
        frames_fit(*config, start as int, classes@.len() as int),
    ensures
        final(machine).wf(),
        final(machine).config() == *config,
        final(machine).total_len() == samples@.len(),
        final(machine)@ == run(
            *config,
            samples@.len() as int,
            old(machine)@,
            window_frames(*config, start as int, classes@),
        ).0,
        segments_are(
            final(queue)@,
            run(
                *config,
                samples@.len() as int,
                old(machine)@,
                window_frames(*config, start as int, classes@),
            ).1,
            0,
            samples@,
        ),
{
    let count: usize = classes.len();
    let ghost total: int = samples@.len() as int;
    let ghost frames = window_frames(*config, start as int, classes@);
    let ghost before = machine@;
    let mut i: usize = 0;
    while i < count
        invariant
            i <= count == classes@.len(),
            total == samples@.len(),
            frames == window_frames(*config, start as int, classes@),
            frames_fit(*config, start as int, count as int),
            machine.wf(),
            machine.config() == *config,
            machine.total_len() == total,
            machine@ == run(*config, total, before, frames.take(i as int)).0,
            segments_are(
                queue@,
                run(*config, total, before, frames.take(i as int)).1,
                0,
                samples@,
            ),
        decreases count - i,
    {
        proof {
            let last: int = count - 1;
            assert(frame_offset(*config, start as int, last) <= usize::MAX);
            assert(0 <= i * config.frame_stride <= last * config.frame_stride)
                by (nonlinear_arith)
                requires
                    0 <= i <= last,
                    0 <= config.frame_stride,
            ;
        }
        let offset: usize = start + config.frame_start + i * config.frame_stride;
        let frame = FrameDecision { offset, class_index: classes[i] };
        proof {
            assert(frames.take(i + 1) =~= frames.take(i as int).push(frame@));
            lemma_run_push(*config, total, before, frames.take(i as int), frame@);
            lemma_step_emits_in_order(*config, total, machine@, frame@);
        }
        match machine.step(frame) {
            Some((s, e)) => {
                let part = copy_range(samples, s, e);
                queue.push_back(Segment { start: s, end: e, samples: part });
            },
            None => {},
        }
        i = i + 1;
    }
    assert(frames.take(count as int) =~= frames);
}

impl SegmentStream {
    /// Everything the stream holds fits together.
    pub closed spec fn wf(&self) -> bool {
        &&& self@.wf()
        &&& self.machine.wf()
        &&& self.machine.config() == self.config
        &&& self.machine.total_len() == self.samples@.len()
        &&& self.machine@ == (if self.flushed {
            flush(
                self.config,
                self@.total_len(),
                run_windows(self.config, self@.total_len(), self.fed@).0,
            ).0
        } else {
            run_windows(self.config, self@.total_len(), self.fed@).0
        })
        &&& self.cursor == (if self@.windows_left() {
            self@.next_window()
        } else {
            self@.total_len()
        })
        &&& segments_are(self.queue@, self@.produced(), self.yielded@, self.samples@)
    }

    /// A stream over `samples` with the given parameters.
    pub fn new(samples: Vec<i16>, config: SegmentationConfig) -> (r: Result<
        SegmentStream,
        DiarizeError,
    >)
        ensures
            match r {
                Ok(stream) => config.wf() && samples@.len() > 0 && stream.wf() && stream@
                    == StreamState::start(config, samples@),
                Err(DiarizeError::Config(e)) => config.issue() == Some(e),
                Err(DiarizeError::EmptyInput) => config.wf() && samples@.len() == 0,
                Err(_) => false,
            },
    {
        match config.check() {
            Err(e) => {
                return Err(DiarizeError::Config(e));
            },
            Ok(_) => {},
        }
        if samples.len() == 0 {
            return Err(DiarizeError::EmptyInput);
        }
        let machine = Machine::new(config, samples.len());
        let stream = SegmentStream {
            config,
            samples,
            machine,
            queue: VecDeque::new(),
            cursor: 0,
            awaiting: false,
            flushed: false,
            failure: None,
            reported: false,
            fed: Ghost(Seq::empty()),
            yielded: Ghost(0),
        };
        assert(window_start(config, 0) == 0) by (nonlinear_arith);
        Ok(stream)
    }

    /// Pulls the next item out of the stream.
    pub fn next(&mut self) -> (r: Poll)
        requires
            old(self).wf(),
        ensures
            final(self).wf(),
            final(self)@ == old(self)@.poll().0,
            match r {
                Poll::Segment(seg) => old(self)@.poll().1 == Item::Segment(seg.span())
                    && seg.cut_from(old(self)@.samples),
                Poll::Window(window) => old(self)@.poll().1 == Item::Window(
                    old(self)@.next_window(),
                ) && window@ == window_samples(
                    old(self)@.samples,
                    old(self)@.next_window(),
                    old(self)@.config.window_len as int,
                ),
                Poll::Failed(cause) => old(self)@.poll().1 == Item::Failed(cause),
                Poll::End => old(self)@.poll().1 == Item::End,
            },
    {
        match self.queue.pop_front() {
            Some(seg) => {
                self.yielded = Ghost(self.yielded@ + 1);
                return Poll::Segment(seg);
            },
            None => {},
        }
        match self.failure {
            Some(cause) => {
                if self.reported {
                    return Poll::End;
                }
                self.reported = true;
                return Poll::Failed(cause);
            },
            None => {},
        }
        if self.flushed {
            return Poll::End;
        }
        if self.cursor < self.samples.len() {
            self.awaiting = true;
            let window = take_window(&self.samples, self.cursor, self.config.window_len);
            return Poll::Window(window);
        }
        proof {
            lemma_flush_emits_in_order(self.config, self@.total_len(), self.machine@);
        }
        let emitted = self.machine.finish();
        self.flushed = true;
        match emitted {
            Some((s, e)) => {
                let part = copy_range(&self.samples, s, e);
                self.yielded = Ghost(self.yielded@ + 1);
                Poll::Segment(Segment { start: s, end: e, samples: part })
            },
            None => Poll::End,
        }
    }

    /// Takes the classifier's answer for the window handed out last: one class per
    /// output frame, 0 meaning non-speech.
    pub fn feed(&mut self, classes: &[usize]) -> (r: Result<(), InferenceError>)
        requires
            old(self).wf(),
        ensures
            final(self).wf(),
            match r {
                Ok(_) => old(self)@.awaiting && frames_fit(
                    old(self)@.config,
                    old(self)@.next_window(),
                    classes@.len() as int,
                ) && final(self)@ == old(self)@.answered(classes@),
                Err(InferenceError::NoWindowPending) => !old(self)@.awaiting && final(self)@
                    == old(self)@,
                Err(InferenceError::FrameOutOfRange) => old(self)@.awaiting && !frames_fit(
                    old(self)@.config,
                    old(self)@.next_window(),
                    classes@.len() as int,
                ) && final(self)@ == old(self)@.broken(InferenceError::FrameOutOfRange),
                Err(_) => false,
            },
    {
        if !self.awaiting {
            return Err(InferenceError::NoWindowPending);
        }
        let start: usize = self.cursor;
        let count: usize = classes.len();
        if count > 0 {
            if offset_of_frame(&self.config, start, count - 1).is_none() {
                self.awaiting = false;
                self.failure = Some(InferenceError::FrameOutOfRange);
                return Err(InferenceError::FrameOutOfRange);
            }
        }
        let ghost before = self@;
        process_window(
            &mut self.machine,
            &mut self.queue,
            &self.samples,
            &self.config,
            start,
            classes,
        );
        self.fed = Ghost(self.fed@.push(classes@));
        self.awaiting = false;
        let step: usize = self.config.step_len();
        let total: usize = self.samples.len();
        self.cursor = match start.checked_add(step) {
            Some(next) => if next < total { next } else { total },
            None => total,
        };
        proof {
            assert(window_start(self.config, (before.fed.len() + 1) as int) == start + step)
                by (nonlinear_arith)
                requires
                    window_start(self.config, before.fed.len() as int) == start,
                    step == self.config.step(),
            ;
            lemma_run_windows_push(self.config, before.total_len(), before.fed, classes@);
        }
        Ok(())
    }

    /// Tells the stream that the classifier could not answer, and why. The stream
    /// hands the failure out at the next pull and ends there.
    pub fn fail(&mut self, cause: InferenceError)
        requires
            old(self).wf(),
        ensures
            final(self).wf(),
            final(self)@ == old(self)@.broken(cause),
    {
        self.awaiting = false;
        if self.failure.is_none() {
            self.failure = Some(cause);
        }
    }
}

/// The classes in each answer.
pub open spec fn answers_of(outputs: Seq<Vec<usize>>) -> Seq<Seq<usize>> {
    Seq::new(outputs.len(), |k: int| outputs[k]@)
}

/// Whether window number `k` starts inside the audio, so that it is classified.
pub open spec fn is_window(config: SegmentationConfig, total_len: int, k: int) -> bool {
    0 <= k && window_start(config, k) < total_len
}

/// Whether there is an answer for every window of the audio and for no other.
pub open spec fn answers_every_window(
    config: SegmentationConfig,
    total_len: int,
    count: int,
) -> bool {
    !is_window(config, total_len, count) && (count > 0 ==> is_window(config, total_len, count - 1))
}

/// Whether answer number `k` is the answer for a window and has all its frames at
/// offsets that a `usize` can hold.
pub open spec fn answer_fits(
    config: SegmentationConfig,
    total_len: int,
    answers: Seq<Seq<usize>>,
    k: int,
) -> bool {
    is_window(config, total_len, k) && frames_fit(
        config,
        window_start(config, k),
        answers[k].len() as int,
    )
}

/// Whether the answer for some window has a frame that lies beyond the largest
/// offset.
pub open spec fn has_misfit(
    config: SegmentationConfig,
    total_len: int,
    answers: Seq<Seq<usize>>,
) -> bool {
    exists|k: int|
        0 <= k < answers.len() && is_window(config, total_len, k) && !#[trigger] answer_fits(
            config,
            total_len,
            answers,
            k,
        )
}

/// No answer is a misfit if each that belongs to a window fits.
proof fn lemma_no_misfit(config: SegmentationConfig, total_len: int, answers: Seq<Seq<usize>>)
    requires
        forall|j: int|
            0 <= j < answers.len() && is_window(config, total_len, j) ==> #[trigger] answer_fits(
                config,
                total_len,
                answers,
                j,
            ),
    ensures
        !has_misfit(config, total_len, answers),
{
}

/// Windows start in the order of their numbers.
pub proof fn lemma_windows_advance(config: SegmentationConfig, j: int, k: int)
    requires
        config.wf(),
        0 <= j <= k,
    ensures
        0 <= window_start(config, j) <= window_start(config, k),
        j < k ==> window_start(config, j) < window_start(config, k),
{
    assert(0 <= j * config.step() <= k * config.step()) by (nonlinear_arith)
        requires
            0 <= j <= k,
            0 < config.step(),
    ;
    assert(j < k ==> j * config.step() < k * config.step()) by (nonlinear_arith)
        requires
            0 < config.step(),
    ;
}

/// All segments of `samples` at once, where `outputs` holds the classifier's answer
/// for each window, in order.
pub fn collect_segments(
    samples: Vec<i16>,
    config: SegmentationConfig,
    outputs: &Vec<Vec<usize>>,
) -> (r: Result<Vec<Segment>, DiarizeError>)
    ensures
        match r {
            Ok(found) => {
                &&& config.wf()
                &&& samples@.len() > 0
                &&& !has_misfit(config, samples@.len() as int, answers_of(outputs@))
                &&& answers_every_window(config, samples@.len() as int, outputs@.len() as int)
                &&& segments_are(
                    found@,
                    segments(config, samples@.len() as int, answers_of(outputs@)),
                    0,
                    samples@,
                )
                &&& forall|i: int, j: int|
                    0 <= i < j < found@.len() ==> (#[trigger] found@[i]).end <= (
                    #[trigger] found@[j]).start
                &&& forall|i: int|
                    0 <= i < found@.len() ==> (#[trigger] found@[i]).start < found@[i].end && (
                    found@[i].end - found@[i].start >= config.min_segment_len || found@[i].end
                        == samples@.len())
            },
            Err(DiarizeError::Config(e)) => config.issue() == Some(e),
            Err(DiarizeError::EmptyInput) => config.wf() && samples@.len() == 0,
            Err(DiarizeError::Inference(InferenceError::FrameOutOfRange)) => {
                &&& config.wf()
                &&& samples@.len() > 0
                &&& has_misfit(config, samples@.len() as int, answers_of(outputs@))
            },
            Err(DiarizeError::Inference(InferenceError::AnswerCountMismatch)) => {
                &&& config.wf()
                &&& samples@.len() > 0
                &&& !has_misfit(config, samples@.len() as int, answers_of(outputs@))
                &&& !answers_every_window(config, samples@.len() as int, outputs@.len() as int)
            },
            Err(_) => false,
        },
{
    let ghost audio = samples@;
    let ghost total: int = samples@.len() as int;
    let ghost answers = answers_of(outputs@);
    let mut stream = match SegmentStream::new(samples, config) {
        Ok(stream) => stream,
        Err(e) => {
            return Err(e);
        },
    };
    let mut found: Vec<Segment> = Vec::new();
    let mut k: usize = 0;
    loop
        invariant
            stream.wf(),
            config.wf(),
            stream@.config == config,
            stream@.samples == audio,
            audio == samples@,
            0 < total == audio.len(),
            answers == answers_of(outputs@),
            k <= outputs@.len(),
            stream@.fed == answers.take(k as int),
            !stream@.awaiting,
            stream@.failure is None,
            stream@.yielded == found@.len(),
            segments_are(found@, stream@.produced().take(found@.len() as int), 0, audio),
            forall|j: int| 0 <= j < k ==> #[trigger] answer_fits(config, total, answers, j),
        decreases
            total - (if stream@.windows_left() {
                stream@.next_window()
            } else {
                total
            }),
            (if stream@.flushed {
                0int
            } else {
                1int
            }),
            stream@.produced().len() - stream@.yielded,
    {
        let ghost before = stream@;
        proof {
            if !before.flushed {
                lemma_produced_is_kept(before, Seq::empty());
            }
        }
        match stream.next() {
            Poll::Segment(segment) => {
                found.push(segment);
            },
            Poll::Window(_) => {
                if k >= outputs.len() {
                    proof {
                        lemma_no_misfit(config, total, answers);
                    }
                    return Err(DiarizeError::Inference(InferenceError::AnswerCountMismatch));
                }
                match stream.feed(outputs[k].as_slice()) {
                    Ok(_) => {
                        proof {
                            lemma_produced_is_kept(before, answers[k as int]);
                            lemma_windows_advance(config, k as int, k + 1);
                        }
                        k = k + 1;
                    },
                    Err(e) => {
                        assert(!answer_fits(config, total, answers, k as int));
                        return Err(DiarizeError::Inference(e));
                    },
                }
            },
            Poll::Failed(cause) => {
                // Nothing has failed: an answer that does not fit ends the loop at once.
                assert(false);
                return Err(DiarizeError::Inference(cause));
            },
            Poll::End => {
                proof {
                    assert forall|j: int| k <= j implies !is_window(config, total, j) by {
                        lemma_windows_advance(config, k as int, j);
                    }
                    lemma_no_misfit(config, total, answers);
                    if k > 0 {
                        assert(answer_fits(config, total, answers, k - 1));
                    }
                }
                if k != outputs.len() {
                    return Err(DiarizeError::Inference(InferenceError::AnswerCountMismatch));
                }
                proof {
                    assert(answers.take(k as int) =~= answers);
                    lemma_produced_well_separated(stream@);
                }
                return Ok(found);
            },
        }
    }
}

/// A stream of the speech segments of `samples`, which were taken at `sample_rate`,
/// with the default parameters for that rate.
pub fn get_segments(samples: &[i16], sample_rate: u32) -> (r: Result<SegmentStream, DiarizeError>)
    ensures
        match r {
            Ok(stream) => SegmentationConfig::rate_issue(sample_rate) is None
                && samples@.len() > 0 && stream.wf() && stream@ == StreamState::start(
                SegmentationConfig::default_for(sample_rate),
                samples@,
            ),
            Err(DiarizeError::Config(e)) => SegmentationConfig::rate_issue(sample_rate) == Some(e),
            Err(DiarizeError::EmptyInput) => SegmentationConfig::rate_issue(sample_rate) is None
                && samples@.len() == 0,
            Err(_) => false,
        },
{
    let config = match SegmentationConfig::for_sample_rate(sample_rate) {
        Ok(config) => config,
        Err(e) => {
            return Err(DiarizeError::Config(e));
        },
    };
    SegmentStream::new(vstd::slice::slice_to_vec(samples), config)
}

} // verus!
