use vstd::prelude::*;
use crate::error::InferenceError;

verus! {

/// The index of the highest of the scores, and of the last of them where several
/// are equal. 0 for no scores.
pub open spec fn max_index(row: Seq<i32>) -> int
    decreases row.len(),
{
    if row.len() <= 1 {
        0
    } else {
        let before = max_index(row.drop_last());
        if row[before] > row.last() {
            before
        } else {
            row.len() - 1
        }
    }
}

/// `max_index` is the one index whose score no other exceeds and no later one
/// reaches.
pub proof fn lemma_max_index(row: Seq<i32>)
    requires
        row.len() > 0,
    ensures
        0 <= max_index(row) < row.len(),
        forall|j: int| 0 <= j < row.len() ==> (#[trigger] row[j]) <= row[max_index(row)],
        forall|j: int| max_index(row) < j < row.len() ==> (#[trigger] row[j]) < row[max_index(row)],
    decreases row.len(),
{
    if row.len() > 1 {
        let rest = row.drop_last();
        lemma_max_index(rest);
        assert forall|j: int| 0 <= j < row.len() implies (#[trigger] row[j]) <= row[max_index(
            row,
        )] by {
            if j < rest.len() {
                assert(rest[j] == row[j]);
            }
        }
        assert forall|j: int| max_index(row) < j < row.len() implies (#[trigger] row[j])
            < row[max_index(row)] by {
            if j < rest.len() {
                assert(rest[j] == row[j]);
            }
        }
    }
}

/// The class of each frame: the index of the highest score in its row.
pub open spec fn classes_of(rows: Seq<Vec<i32>>) -> Seq<usize> {
    Seq::new(rows.len(), |k: int| max_index(rows[k]@) as usize)
}

/// Whether some frame has no scores.
pub open spec fn has_empty_row(rows: Seq<Vec<i32>>) -> bool {
    exists|k: int| 0 <= k < rows.len() && (#[trigger] rows[k])@.len() == 0
}

/// The class that the classifier gives a frame: the index of the highest score in
/// the frame's row, the last one if several are equal. A row holds one score per
/// class, as integers that order as the scores do.
pub fn find_max_index(row: &[i32]) -> (r: Result<usize, InferenceError>)
    ensures
        r == (if row@.len() == 0 {
            Err::<usize, InferenceError>(InferenceError::EmptyRow)
        } else {
            Ok(max_index(row@) as usize)
        }),
{
    if row.len() == 0 {
        return Err(InferenceError::EmptyRow);
    }
    let mut best: usize = 0;
    let mut i: usize = 1;
    while i < row.len()
        invariant
            1 <= i <= row@.len(),
            best < i,
            best == max_index(row@.take(i as int)),
        decreases row@.len() - i,
    {
        assert(row@.take(i + 1).drop_last() =~= row@.take(i as int));
        if !(row[best] > row[i]) {
            best = i;
        }
        i = i + 1;
    }
    assert(row@.take(row@.len() as int) =~= row@);
    Ok(best)
}

/// The classes of all frames of a window, one row of scores per frame.
pub fn classify_frames(rows: &Vec<Vec<i32>>) -> (r: Result<Vec<usize>, InferenceError>)
    ensures
        match r {
            Ok(classes) => !has_empty_row(rows@) && classes@ == classes_of(rows@),
            Err(e) => has_empty_row(rows@) && e == InferenceError::EmptyRow,
        },
{
    let mut classes: Vec<usize> = Vec::new();
    let mut k: usize = 0;
    while k < rows.len()
        invariant
            k <= rows@.len(),
            classes@.len() == k,
            forall|j: int| 0 <= j < k ==> (#[trigger] rows@[j])@.len() > 0,
            forall|j: int| 0 <= j < k ==> classes@[j] == max_index(rows@[j]@) as usize,
        decreases rows@.len() - k,
    {
        match find_max_index(rows[k].as_slice()) {
            Ok(class) => {
                classes.push(class);
            },
            Err(e) => {
                return Err(e);
            },
        }
        k = k + 1;
    }
    Ok(classes)
}

} // verus!
