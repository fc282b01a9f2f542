//! Historical maxima per signal slot, the novelty decision made against them,
//! and the objective that classifies an execution as failed.
use vstd::prelude::*;
use crate::signal::MAP_SIZE;

verus! {

broadcast use vstd::array::group_array_axioms;

/// A snapshot is novel when some slot strictly exceeds its historical maximum.
pub open spec fn novel(maxima: Seq<u8>, snap: Seq<u8>) -> bool {
    exists|i: int| 0 <= i < maxima.len() && i < snap.len() && #[trigger] snap[i] > maxima[i]
}

/// The maxima after recording a snapshot: each slot keeps the larger value.
pub open spec fn merged(maxima: Seq<u8>, snap: Seq<u8>) -> Seq<u8> {
    Seq::new(
        maxima.len(),
        |i: int| if i < snap.len() && snap[i] > maxima[i] { snap[i] } else { maxima[i] },
    )
}

/// No slot of `b` is below the same slot of `a`.
pub open spec fn pointwise_le(a: Seq<u8>, b: Seq<u8>) -> bool {
    a.len() == b.len() && forall|i: int| 0 <= i < a.len() ==> #[trigger] a[i] <= b[i]
}

/// Recording a snapshot never lowers a stored maximum.
pub proof fn lemma_merge_monotone(maxima: Seq<u8>, snap: Seq<u8>)
    ensures
        pointwise_le(maxima, merged(maxima, snap)),
{
}

/// The maxima change exactly when the snapshot is novel.
pub proof fn lemma_merge_changes_iff_novel(maxima: Seq<u8>, snap: Seq<u8>)
    ensures
        merged(maxima, snap) != maxima <==> novel(maxima, snap),
{
    if novel(maxima, snap) {
        let i = choose|i: int| 0 <= i < maxima.len() && i < snap.len() && #[trigger] snap[i] > maxima[i];
        assert(merged(maxima, snap)[i] != maxima[i]);
    } else {
        assert(merged(maxima, snap) =~= maxima);
    }
}

/// The historical maximum seen at every signal slot.
pub struct FeedbackState {
    maxima: [u8; MAP_SIZE],
}

impl View for FeedbackState {
    type V = Seq<u8>;

    closed spec fn view(&self) -> Seq<u8> {
        self.maxima@
    }
}

impl FeedbackState {
    /// Every state holds one maximum per signal slot.
    pub broadcast proof fn lemma_len(f: &FeedbackState)
        ensures
            #[trigger] f@.len() == MAP_SIZE,
    {
    }

    /// A state in which nothing has been seen yet.
    pub fn new() -> (f: FeedbackState)
        ensures
            f@ == crate::signal::zero_signals(),
    {
        let f = FeedbackState { maxima: [0u8; MAP_SIZE] };
        assert(f@ =~= crate::signal::zero_signals());
        f
    }

    /// The maximum recorded for slot `idx`.
    pub fn get(&self, idx: usize) -> (v: u8)
        requires
            idx < MAP_SIZE,
        ensures
            v == self@[idx as int],
    {
        self.maxima[idx]
    }

    /// Whether `snap` exceeds some historical maximum.
    pub fn is_novel(&self, snap: &Vec<u8>) -> (r: bool)
        requires
            snap@.len() == MAP_SIZE,
        ensures
            r == novel(self@, snap@),
    {
        let mut i: usize = 0;
        while i < MAP_SIZE
            invariant
                i <= MAP_SIZE,
                snap@.len() == MAP_SIZE,
                self@.len() == MAP_SIZE,
                forall|j: int| 0 <= j < i ==> snap@[j] <= #[trigger] self@[j],
            decreases MAP_SIZE - i,
        {
            if snap[i] > self.maxima[i] {
                return true;
            }
            i = i + 1;
        }
        false
    }

    /// Raises each maximum that `snap` exceeds to the snapshot's value.
    pub fn update(&mut self, snap: &Vec<u8>)
        requires
            snap@.len() == MAP_SIZE,
        ensures
            final(self)@ == merged(old(self)@, snap@),
            pointwise_le(old(self)@, final(self)@),
    {
        let ghost start = self@;
        let mut i: usize = 0;
        while i < MAP_SIZE
            invariant
                i <= MAP_SIZE,
                snap@.len() == MAP_SIZE,
                start.len() == MAP_SIZE,
                self@.len() == MAP_SIZE,
                forall|j: int| 0 <= j < i ==> #[trigger] self@[j] == merged(start, snap@)[j],
                forall|j: int| i <= j < MAP_SIZE ==> #[trigger] self@[j] == start[j],
            decreases MAP_SIZE - i,
        {
            if snap[i] > self.maxima[i] {
                self.maxima[i] = snap[i];
            }
            i = i + 1;
        }
        assert(self@ =~= merged(start, snap@));
    }

    /// Decides novelty, then records the snapshot; returns the decision.
    pub fn observe(&mut self, snap: &Vec<u8>) -> (r: bool)
        requires
            snap@.len() == MAP_SIZE,
        ensures
            r == novel(old(self)@, snap@),
            final(self)@ == merged(old(self)@, snap@),
            pointwise_le(old(self)@, final(self)@),
    {
        let r = self.is_novel(snap);
        self.update(snap);
        r
    }
}

/// How one harness execution ended.
#[derive(Clone, Copy, Debug, PartialEq, Eq, Structural)]
pub enum Outcome {
    Completed,
    Failed,
}

/// The objective: true exactly for a failed execution.
pub fn is_failure(outcome: Outcome) -> (r: bool)
    ensures
        r == (outcome == Outcome::Failed),
{
    match outcome {
        Outcome::Completed => false,
        Outcome::Failed => true,
    }
}

} // verus!
