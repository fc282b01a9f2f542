//! The degenerate operating mode: a scalar score instead of a signal map, a
//! single kept input instead of a corpus, and one byte overwritten per step.
use vstd::prelude::*;
use crate::mutation::{apply_op, overwrite_byte, MutKind, MutOp};
use crate::rng::{draw_below, draw_u64};
use libafl_bolts::rands::RomuDuoJrRand;

verus! {

/// Number of bytes of `s` equal to 1.
pub open spec fn count_ones(s: Seq<u8>) -> nat
    decreases s.len(),
{
    if s.len() == 0 {
        0
    } else {
        count_ones(s.drop_last()) + if s.last() == 1 {
            1nat
        } else {
            0nat
        }
    }
}

/// The score never exceeds the length.
pub proof fn lemma_count_ones_le_len(s: Seq<u8>)
    ensures
        count_ones(s) <= s.len(),
    decreases s.len(),
{
    if s.len() > 0 {
        lemma_count_ones_le_len(s.drop_last());
    }
}

/// The scalar score of an input: how many of its bytes equal 1.
pub fn score_ones(s: &Vec<u8>) -> (r: u64)
    ensures
        r == count_ones(s@),
{
    let mut r: u64 = 0;
    let mut i: usize = 0;
    while i < s.len()
        invariant
            i <= s@.len(),
            r == count_ones(s@.subrange(0, i as int)),
            r <= i,
        decreases s@.len() - i,
    {
        assert(s@.subrange(0, i as int + 1).drop_last() =~= s@.subrange(0, i as int));
        if s[i] == 1 {
            r = r + 1;
        }
        i = i + 1;
    }
    assert(s@.subrange(0, i as int) =~= s@);
    r
}

/// Random-mutate-and-keep-best search over inputs of a fixed length.
pub struct ScalarSearch {
    best: Vec<u8>,
    best_score: u64,
}

impl ScalarSearch {
    /// The input kept so far.
    pub closed spec fn best_input(&self) -> Seq<u8> {
        self.best@
    }

    /// Its score.
    pub closed spec fn score(&self) -> u64 {
        self.best_score
    }

    /// The kept score is the score of the kept input.
    pub closed spec fn wf(&self) -> bool {
        self.best_score == count_ones(self.best@)
    }

    /// Starts from `start`, scored.
    pub fn new(start: Vec<u8>) -> (s: ScalarSearch)
        ensures
            s.wf(),
            s.best_input() == start@,
            s.score() == count_ones(start@),
    {
        let sc = score_ones(&start);
        ScalarSearch { best: start, best_score: sc }
    }

    /// The kept input.
    pub fn best(&self) -> (r: &Vec<u8>)
        ensures
            r@ == self.best_input(),
    {
        &self.best
    }

    /// The kept score.
    pub fn best_score(&self) -> (r: u64)
        ensures
            r == self.score(),
    {
        self.best_score
    }

    /// Overwrites one byte of the kept input (position `pos` modulo its
    /// length) with `value`, and keeps the result when it scores strictly
    /// higher. Returns whether it was kept.
    pub fn step(&mut self, pos: u64, value: u8) -> (kept: bool)
        requires
            old(self).wf(),
        ensures
            final(self).wf(),
            ({
                let cand = apply_op(
                    old(self).best_input(),
                    old(self).best_input(),
                    MutOp { kind: MutKind::Overwrite, pos, value },
                );
                &&& kept == (count_ones(cand) > old(self).score())
                &&& final(self).best_input() == if kept {
                    cand
                } else {
                    old(self).best_input()
                }
            }),
            final(self).best_input().len() == old(self).best_input().len(),
            final(self).score() >= old(self).score(),
            final(self).score() <= final(self).best_input().len(),
    {
        let cand = overwrite_byte(&self.best, pos, value);
        let sc = score_ones(&cand);
        proof {
            lemma_count_ones_le_len(cand@);
            lemma_count_ones_le_len(self.best@);
        }
        if sc > self.best_score {
            self.best = cand;
            self.best_score = sc;
            true
        } else {
            false
        }
    }

    /// Runs `iterations` steps with randomly drawn positions and values and
    /// returns the kept score after each step.
    pub fn run(&mut self, rng: &mut RomuDuoJrRand, iterations: usize) -> (history: Vec<u64>)
        requires
            old(self).wf(),
        ensures
            final(self).wf(),
            final(self).best_input().len() == old(self).best_input().len(),
            history@.len() == iterations,
            forall|i: int|
                0 <= i < history@.len() ==> old(self).score() <= #[trigger] history@[i]
                    <= old(self).best_input().len(),
            forall|i: int, j: int|
                0 <= i <= j < history@.len() ==> #[trigger] history@[i] <= #[trigger] history@[j],
            iterations > 0 ==> history@.last() == final(self).score(),
            final(self).score() >= old(self).score(),
    {
        let mut history: Vec<u64> = Vec::new();
        let mut k: usize = 0;
        proof {
            lemma_count_ones_le_len(self.best@);
        }
        while k < iterations
            invariant
                k <= iterations,
                self.wf(),
                self.best_input().len() == old(self).best_input().len(),
                self.score() >= old(self).score(),
                self.score() <= self.best_input().len(),
                history@.len() == k,
                forall|i: int|
                    0 <= i < history@.len() ==> old(self).score() <= #[trigger] history@[i]
                        <= self.score(),
                forall|i: int, j: int|
                    0 <= i <= j < history@.len() ==> #[trigger] history@[i] <= #[trigger] history@[j],
                k > 0 ==> history@.last() == self.score(),
            decreases iterations - k,
        {
            let pos = draw_u64(rng);
            let value = draw_below(rng, 256) as u8;
            self.step(pos, value);
            history.push(self.best_score);
            k = k + 1;
        }
        history
    }
}

} // verus!
