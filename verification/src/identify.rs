use std::collections::HashMap;
use vstd::prelude::*;
use crate::error::{DiarizeError, InferenceError};

verus! {

/// Whether every component of the embedding is zero, so that it has no direction.
pub open spec fn is_zero(embedding: Seq<i32>) -> bool {
    forall|i: int| 0 <= i < embedding.len() ==> embedding[i] == 0
}

/// The index of the best of the scores: of the highest one, and of the first of
/// them where several are equal. 0 for no scores.
pub open spec fn best_index(scores: Seq<i32>) -> int
    decreases scores.len(),
{
    if scores.len() <= 1 {
        0
    } else {
        let before = best_index(scores.drop_last());
        if scores.last() > scores[before] {
            scores.len() - 1
        } else {
            before
        }
    }
}

/// `best_index` is the one index whose score no other exceeds and no earlier one
/// reaches.
pub proof fn lemma_best_index(scores: Seq<i32>)
    requires
        scores.len() > 0,
    ensures
        0 <= best_index(scores) < scores.len(),
        forall|j: int|
            0 <= j < scores.len() ==> (#[trigger] scores[j]) <= scores[best_index(scores)],
        forall|j: int|
            0 <= j < best_index(scores) ==> (#[trigger] scores[j]) < scores[best_index(scores)],
    decreases scores.len(),
{
    if scores.len() > 1 {
        let rest = scores.drop_last();
        lemma_best_index(rest);
        assert forall|j: int| 0 <= j < scores.len() implies (#[trigger] scores[j])
            <= scores[best_index(scores)] by {
            if j < rest.len() {
                assert(rest[j] == scores[j]);
            }
        }
        assert forall|j: int| 0 <= j < best_index(scores) implies (#[trigger] scores[j])
            < scores[best_index(scores)] by {
            assert(rest[j] == scores[j]);
        }
    }
}

/// What a resolver knows: the speakers enrolled so far, how many there may be, and
/// the id that the next one gets.
pub struct ResolverState {
    /// The centroid of each speaker, by id.
    pub speakers: Map<usize, Seq<i32>>,
    pub max_speakers: usize,
    pub next_id: usize,
}

impl ResolverState {
    /// Ids were given out from 1 upwards without gaps, and to no more speakers than
    /// allowed; all centroids have the same number of components.
    pub open spec fn wf(self) -> bool {
        &&& self.next_id >= 1
        &&& forall|id: usize| self.speakers.contains_key(id) <==> 1 <= id < self.next_id
        &&& self.count() <= self.max_speakers
        &&& forall|id: usize| #[trigger]
            self.speakers.contains_key(id) ==> self.speakers[id].len() == self.dimension()
    }

    /// The number of components of the centroids. Without speakers it is not
    /// settled: the first speaker settles it.
    pub open spec fn dimension(self) -> nat {
        self.speakers[1].len()
    }

    /// The number of speakers.
    pub open spec fn count(self) -> int {
        self.next_id - 1
    }

    /// A resolver without speakers.
    pub open spec fn empty(max_speakers: usize) -> ResolverState {
        ResolverState { speakers: Map::empty(), max_speakers, next_id: 1 }
    }

    /// One more speaker may be enrolled. (The second condition is met by every
    /// resolver that fits in memory: the next id must itself have a successor.)
    pub open spec fn has_room(self) -> bool {
        self.count() < self.max_speakers && self.next_id < usize::MAX
    }

    /// The resolver after `embedding` was enrolled as the centroid of a new speaker.
    pub open spec fn enroll(self, embedding: Seq<i32>) -> ResolverState {
        ResolverState {
            speakers: self.speakers.insert(self.next_id, embedding),
            next_id: (self.next_id + 1) as usize,
            ..self
        }
    }

    /// Why an embedding is turned down, if it is: it must not be zero, and it must
    /// have as many components as the centroids have.
    pub open spec fn embedding_issue(self, embedding: Seq<i32>) -> Option<DiarizeError> {
        if is_zero(embedding) {
            Some(DiarizeError::DegenerateEmbedding)
        } else if self.count() > 0 && embedding.len() != self.dimension() {
            Some(DiarizeError::Inference(InferenceError::DimensionMismatch))
        } else {
            None
        }
    }

    /// Why a question is turned down, if it is: the embedding must be one that is
    /// not turned down, and there must be one score for each speaker.
    pub open spec fn rejection(self, embedding: Seq<i32>, scores: Seq<i32>) -> Option<
        DiarizeError,
    > {
        if self.embedding_issue(embedding) is Some {
            self.embedding_issue(embedding)
        } else if scores.len() != self.count() {
            Some(DiarizeError::Inference(InferenceError::ScoreCountMismatch))
        } else {
            None
        }
    }

    /// The id of the speaker with the best score, where `scores[i]` is the
    /// similarity to speaker `i + 1`; none without speakers.
    pub open spec fn best_match(self, scores: Seq<i32>) -> Option<usize> {
        if scores.len() == 0 {
            None
        } else {
            Some((best_index(scores) + 1) as usize)
        }
    }

    /// The closest speaker whatever the threshold and the capacity.
    pub open spec fn closest(self, embedding: Seq<i32>, scores: Seq<i32>) -> Result<
        Option<usize>,
        DiarizeError,
    > {
        match self.rejection(embedding, scores) {
            Some(e) => Err(e),
            None => Ok(self.best_match(scores)),
        }
    }

    /// The answer to a search and the resolver after it: the best speaker if its
    /// score exceeds the threshold; else a new speaker with the embedding as its
    /// centroid, if there is room; else nobody.
    pub open spec fn search(self, embedding: Seq<i32>, scores: Seq<i32>, threshold: i32) -> (
        ResolverState,
        Result<Option<usize>, DiarizeError>,
    ) {
        match self.rejection(embedding, scores) {
            Some(e) => (self, Err(e)),
            None => {
                if scores.len() > 0 && scores[best_index(scores)] > threshold {
                    (self, Ok(self.best_match(scores)))
                } else if self.has_room() {
                    (self.enroll(embedding), Ok(Some(self.next_id)))
                } else {
                    (self, Ok(None))
                }
            },
        }
    }

    /// The answer with the fallback for a full resolver, and the resolver after it:
    /// while there is room, that of a search; once there is none, the closest
    /// speaker, whatever its score.
    pub open spec fn assign(self, embedding: Seq<i32>, scores: Seq<i32>, threshold: i32) -> (
        ResolverState,
        Result<Option<usize>, DiarizeError>,
    ) {
        if self.has_room() {
            self.search(embedding, scores, threshold)
        } else {
            (self, self.closest(embedding, scores))
        }
    }
}

/// With the fallback, every embedding that is not turned down gets a speaker, as
/// long as the resolver may hold one speaker at least.
pub proof fn lemma_assign_always_labels(
    state: ResolverState,
    embedding: Seq<i32>,
    scores: Seq<i32>,
    threshold: i32,
)
    requires
        state.wf(),
        state.max_speakers >= 1,
        state.rejection(embedding, scores) is None,
    ensures
        state.assign(embedding, scores, threshold).1 matches Ok(Some(id))
            && state.assign(embedding, scores, threshold).0.speakers.contains_key(id),
{
    if scores.len() > 0 {
        lemma_best_index(scores);
    }
}

/// Asking twice about the same embedding gives the same answer both times. The
/// similarity to a speaker depends on the two vectors alone, so the scores of the
/// speakers known at the first question are the same at the second; and if the first
/// question enrolled the embedding, the second meets it with `own_score`, its
/// similarity to itself, which exceeds the threshold.
pub proof fn lemma_search_twice_same(
    state: ResolverState,
    embedding: Seq<i32>,
    scores: Seq<i32>,
    threshold: i32,
    own_score: i32,
)
    requires
        state.wf(),
        own_score > threshold,
    ensures
        ({
            let (after, first) = state.search(embedding, scores, threshold);
            let again = if after.count() > state.count() {
                scores.push(own_score)
            } else {
                scores
            };
            after.search(embedding, again, threshold).1 == first
        }),
{
    let (after, first) = state.search(embedding, scores, threshold);
    if after.count() > state.count() {
        let again = scores.push(own_score);
        assert(again.drop_last() =~= scores);
        if scores.len() > 0 {
            lemma_best_index(scores);
        }
    }
}

/// A search never leaves more speakers than allowed, never changes or forgets a
/// speaker, and gives out ids in order.
pub proof fn lemma_search_keeps_speakers(
    state: ResolverState,
    embedding: Seq<i32>,
    scores: Seq<i32>,
    threshold: i32,
)
    requires
        state.wf(),
    ensures
        state.search(embedding, scores, threshold).0.wf(),
        state.search(embedding, scores, threshold).0.next_id >= state.next_id,
        state.search(embedding, scores, threshold).1 matches Ok(Some(id)) ==> state.search(
            embedding,
            scores,
            threshold,
        ).0.speakers.contains_key(id),
        forall|id: usize| #[trigger]
            state.speakers.contains_key(id) ==> state.search(
                embedding,
                scores,
                threshold,
            ).0.speakers.contains_key(id) && state.search(
                embedding,
                scores,
                threshold,
            ).0.speakers[id] == state.speakers[id],
{
    if scores.len() > 0 {
        lemma_best_index(scores);
    }
}

/// Clusters embeddings into at most `max_speakers` speakers.
///
/// An embedding is a vector of integers, each standing for one component; zero stands
/// for zero. A similarity score is an integer too, and a higher score stands for a
/// higher cosine similarity.
pub struct EmbeddingManager {
    max_speakers: usize,
    speakers: HashMap<usize, Vec<i32>>,
    next_speaker_id: usize,
}

impl View for EmbeddingManager {
    type V = ResolverState;

    closed spec fn view(&self) -> ResolverState {
        ResolverState {
            speakers: Map::new(
                |id: usize| self.speakers@.contains_key(id),
                |id: usize| self.speakers@[id]@,
            ),
            max_speakers: self.max_speakers,
            next_id: self.next_speaker_id,
        }
    }
}

/// Whether the embedding is the zero vector, which no question may be asked about.
pub fn is_degenerate(embedding: &[i32]) -> (b: bool)
    ensures
        b == is_zero(embedding@),
{
    let mut i: usize = 0;
    while i < embedding.len()
        invariant
            i <= embedding@.len(),
            forall|j: int| 0 <= j < i ==> embedding@[j] == 0,
        decreases embedding@.len() - i,
    {
        if embedding[i] != 0 {
            return false;
        }
        i = i + 1;
    }
    true
}

/// Finds the best of the scores.
fn find_best(scores: &[i32]) -> (best: usize)
    requires
        scores@.len() > 0,
    ensures
        best == best_index(scores@),
        best < scores@.len(),
{
    let mut best: usize = 0;
    let mut i: usize = 1;
    while i < scores.len()
        invariant
            1 <= i <= scores@.len(),
            best < i,
            best == best_index(scores@.take(i as int)),
        decreases scores@.len() - i,
    {
        assert(scores@.take(i + 1).drop_last() =~= scores@.take(i as int));
        if scores[i] > scores[best] {
            best = i;
        }
        i = i + 1;
    }
    assert(scores@.take(scores@.len() as int) =~= scores@);
    best
}

impl EmbeddingManager {
    /// The speakers are as `ResolverState::wf` asks.
    pub open spec fn wf(&self) -> bool {
        self@.wf()
    }

    /// A resolver without speakers that will enroll at most `max_speakers`.
    pub fn new(max_speakers: usize) -> (m: EmbeddingManager)
        ensures
            m.wf(),
            m@ == ResolverState::empty(max_speakers),
    {
        let m = EmbeddingManager { max_speakers, speakers: HashMap::new(), next_speaker_id: 1 };
        assert(m@.speakers =~= Map::<usize, Seq<i32>>::empty());
        m
    }

    fn add_speaker(&mut self, embedding: Vec<i32>) -> (id: usize)
        requires
            old(self).wf(),
            old(self)@.has_room(),
            old(self)@.count() > 0 ==> embedding@.len() == old(self)@.dimension(),
        ensures
            final(self).wf(),
            final(self)@ == old(self)@.enroll(embedding@),
            id == old(self)@.next_id,
    {
        let id: usize = self.next_speaker_id;
        let ghost embedded = embedding@;
        self.speakers.insert(id, embedding);
        self.next_speaker_id = self.next_speaker_id + 1;
        assert(self@.speakers =~= old(self)@.speakers.insert(id, embedded));
        id
    }

    /// Checks that a question may be asked about `embedding`: it must not be zero,
    /// and it must have as many components as the speakers' centroids.
    pub fn check_embedding(&self, embedding: &[i32]) -> (r: Result<(), DiarizeError>)
        requires
            self.wf(),
        ensures
            r == (match self@.embedding_issue(embedding@) {
                Some(e) => Err::<(), DiarizeError>(e),
                None => Ok(()),
            }),
    {
        if is_degenerate(embedding) {
            return Err(DiarizeError::DegenerateEmbedding);
        }
        if self.next_speaker_id > 1 {
            assert(self@.speakers.contains_key(1));
            match self.speakers.get(&1) {
                Some(centroid) => {
                    if centroid.len() != embedding.len() {
                        return Err(DiarizeError::Inference(InferenceError::DimensionMismatch));
                    }
                },
                None => {
                    assert(false);
                },
            }
        }
        Ok(())
    }

    /// Why the question is turned down, if it is.
    fn reject(&self, embedding: &Vec<i32>, scores: &[i32]) -> (r: Option<DiarizeError>)
        requires
            self.wf(),
        ensures
            r == self@.rejection(embedding@, scores@),
    {
        if let Err(e) = self.check_embedding(embedding.as_slice()) {
            Some(e)
        } else if scores.len() != self.next_speaker_id - 1 {
            Some(DiarizeError::Inference(InferenceError::ScoreCountMismatch))
        } else {
            None
        }
    }

    /// Finds the speaker of `embedding`, where `scores[i]` is its similarity to
    /// speaker `i + 1`: the most similar speaker if its score exceeds `threshold`,
    /// else a new speaker if there is room for one, else nobody.
    pub fn search_speaker(&mut self, embedding: Vec<i32>, scores: &[i32], threshold: i32) -> (r:
        Result<Option<usize>, DiarizeError>)
        requires
            old(self).wf(),
        ensures
            final(self).wf(),
            (final(self)@, r) == old(self)@.search(embedding@, scores@, threshold),
    {
        match self.reject(&embedding, scores) {
            Some(e) => {
                return Err(e);
            },
            None => {},
        }
        if scores.len() > 0 {
            let best: usize = find_best(scores);
            if scores[best] > threshold {
                return Ok(Some(best + 1));
            }
        }
        if self.next_speaker_id - 1 < self.max_speakers && self.next_speaker_id < usize::MAX {
            let id: usize = self.add_speaker(embedding);
            Ok(Some(id))
        } else {
            Ok(None)
        }
    }

    /// Finds the speaker of `embedding` as `search_speaker` does while there is
    /// room for new speakers, and as `get_best_speaker_match` does once there is
    /// none, so that the embedding gets a speaker either way.
    pub fn assign_speaker(&mut self, embedding: Vec<i32>, scores: &[i32], threshold: i32) -> (r:
        Result<Option<usize>, DiarizeError>)
        requires
            old(self).wf(),
        ensures
            final(self).wf(),
            (final(self)@, r) == old(self)@.assign(embedding@, scores@, threshold),
    {
        if self.next_speaker_id - 1 < self.max_speakers && self.next_speaker_id < usize::MAX {
            self.search_speaker(embedding, scores, threshold)
        } else {
            self.get_best_speaker_match(&embedding, scores)
        }
    }

    /// The same as `search_speaker`, under its earlier name.
    pub fn get_speaker(&mut self, embedding: Vec<i32>, scores: &[i32], threshold: i32) -> (r:
        Result<Option<usize>, DiarizeError>)
        requires
            old(self).wf(),
        ensures
            final(self).wf(),
            (final(self)@, r) == old(self)@.search(embedding@, scores@, threshold),
    {
        self.search_speaker(embedding, scores, threshold)
    }

    /// The speaker most similar to `embedding`, whatever the score and however full
    /// the resolver is; nobody only where there are no speakers.
    pub fn get_best_speaker_match(&self, embedding: &Vec<i32>, scores: &[i32]) -> (r: Result<
        Option<usize>,
        DiarizeError,
    >)
        requires
            self.wf(),
        ensures
            r == self@.closest(embedding@, scores@),
    {
        match self.reject(embedding, scores) {
            Some(e) => {
                return Err(e);
            },
            None => {},
        }
        if scores.len() > 0 {
            let best: usize = find_best(scores);
            Ok(Some(best + 1))
        } else {
            Ok(None)
        }
    }

    /// The centroids of all speakers, by id.
    pub fn get_all_speakers(&self) -> (all: &HashMap<usize, Vec<i32>>)
        ensures
            forall|id: usize| all@.contains_key(id) <==> self@.speakers.contains_key(id),
            forall|id: usize| all@.contains_key(id) ==> all@[id]@ == self@.speakers[id],
    {
        &self.speakers
    }

    /// The centroids of all speakers in the order of their ids: that of speaker 1
    /// first. This is the order in which a question gives its scores.
    pub fn centroids(&self) -> (all: Vec<&Vec<i32>>)
        requires
            self.wf(),
        ensures
            all@.len() == self@.count(),
            forall|i: int|
                0 <= i < all@.len() ==> (#[trigger] all@[i])@ == self@.speakers[(i + 1) as usize],
    {
        let mut all: Vec<&Vec<i32>> = Vec::new();
        let mut id: usize = 1;
        while id < self.next_speaker_id
            invariant
                self.wf(),
                1 <= id <= self.next_speaker_id,
                all@.len() == id - 1,
                forall|i: int|
                    0 <= i < all@.len() ==> (#[trigger] all@[i])@
                        == self@.speakers[(i + 1) as usize],
            decreases self.next_speaker_id - id,
        {
            assert(self@.speakers.contains_key(id));
            match self.speakers.get(&id) {
                Some(centroid) => {
                    all.push(centroid);
                },
                None => {
                    assert(false);
                },
            }
            id = id + 1;
        }
        all
    }

    /// The number of speakers enrolled.
    pub fn speaker_count(&self) -> (n: usize)
        requires
            self.wf(),
        ensures
            n == self@.count(),
    {
        self.next_speaker_id - 1
    }
}

} // verus!
