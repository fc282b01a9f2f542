//! The fuzzing engine: runs candidates through the harness, decides novelty
//! and failure on the same execution, admits and records accordingly, and
//! drives seeding and the havoc loop.
use vstd::prelude::*;
use crate::corpus::{scheduled_index, Corpus, CorpusEntry, Crash, EngineError, Scheduler};
use crate::feedback::{
    is_failure, lemma_merge_changes_iff_novel, merged, novel, pointwise_le, FeedbackState, Outcome,
};
use crate::mutation::{apply_all, apply_all_exec, lemma_all_bounds, MutKind, MutOp, MAX_STACK};
use crate::rng::{draw_below, draw_u64};
use crate::signal::{zero_signals, SignalMap, MAP_SIZE};
use libafl_bolts::rands::RomuDuoJrRand;

verus! {

broadcast use {SignalMap::lemma_len, FeedbackState::lemma_len};

/// The target under test. It receives one input and a write handle to the
/// signal map for the duration of one execution, and reports how it ended.
pub trait Harness {
    fn run(&mut self, input: &[u8], signals: &mut SignalMap) -> Outcome;
}

/// Where the engine stands in its life.
#[derive(Clone, Copy, Debug, PartialEq, Eq, Structural)]
pub enum Phase {
    Seeding,
    Running,
    Stopped,
}

/// What one execution produced.
#[derive(Clone, Debug)]
pub struct ExecReport {
    pub input: Vec<u8>,
    pub signals: Vec<u8>,
    pub outcome: Outcome,
    pub novel: bool,
    pub crashed: bool,
}

/// A byte that seeds are made of: the printable ASCII range.
pub open spec fn printable(b: u8) -> bool {
    32 <= b <= 126
}

/// What every generated seed is: one to `max_len` printable bytes (one byte
/// when `max_len` is zero).
pub open spec fn seed_shaped(s: Seq<u8>, max_len: usize) -> bool {
    &&& 1 <= s.len()
    &&& s.len() <= max_len || s.len() == 1
    &&& forall|j: int| 0 <= j < s.len() ==> printable(#[trigger] s[j])
}

/// The counter `n` after `k` more executions, stopping at its maximum.
pub open spec fn sat_add(n: u64, k: nat) -> u64 {
    if n + k <= u64::MAX {
        (n + k) as u64
    } else {
        u64::MAX
    }
}

/// `a` is `b` or an initial part of it.
pub open spec fn extends<T>(a: Seq<T>, b: Seq<T>) -> bool {
    a.len() <= b.len() && b.subrange(0, a.len() as int) =~= a
}

/// Number of reports that found their input novel.
pub open spec fn count_novel(reps: Seq<ExecReport>) -> nat
    decreases reps.len(),
{
    if reps.len() == 0 {
        0
    } else {
        count_novel(reps.drop_last()) + if reps.last().novel {
            1nat
        } else {
            0nat
        }
    }
}

/// Number of reports whose execution failed.
pub open spec fn count_crashed(reps: Seq<ExecReport>) -> nat
    decreases reps.len(),
{
    if reps.len() == 0 {
        0
    } else {
        count_crashed(reps.drop_last()) + if reps.last().crashed {
            1nat
        } else {
            0nat
        }
    }
}

/// Largest number of candidates that one iteration derives from its base.
pub const MAX_STAGE_ROUNDS: usize = 128;

/// The execution counter after one more execution; it stops at its maximum.
pub open spec fn next_count(n: u64) -> u64 {
    if n < u64::MAX {
        (n + 1) as u64
    } else {
        n
    }
}

/// The operator kind that a draw below 8 selects.
pub open spec fn kind_of(d: usize) -> MutKind {
    if d == 0 {
        MutKind::BitFlip
    } else if d == 1 {
        MutKind::ByteFlip
    } else if d == 2 {
        MutKind::Increment
    } else if d == 3 {
        MutKind::Decrement
    } else if d == 4 {
        MutKind::InsertByte
    } else if d == 5 {
        MutKind::DeleteByte
    } else if d == 6 {
        MutKind::Overwrite
    } else {
        MutKind::Splice
    }
}

/// Builds an operator from its drawn parts: the kind selector, the raw
/// position and the value draw (its low byte is the value).
pub fn op_from_draws(kind_draw: usize, pos: u64, value_draw: usize) -> (op: MutOp)
    ensures
        op == (MutOp { kind: kind_of(kind_draw), pos, value: value_draw as u8 }),
{
    let kind = match kind_draw {
        0 => MutKind::BitFlip,
        1 => MutKind::ByteFlip,
        2 => MutKind::Increment,
        3 => MutKind::Decrement,
        4 => MutKind::InsertByte,
        5 => MutKind::DeleteByte,
        6 => MutKind::Overwrite,
        _ => MutKind::Splice,
    };
    MutOp { kind, pos, value: value_draw as u8 }
}

/// The printable byte that a draw below 95 selects.
pub fn printable_from_draw(d: usize) -> (b: u8)
    requires
        d < 95,
    ensures
        b == 32 + d,
        printable(b),
{
    (32 + d) as u8
}

/// The seed length that a draw selects: the draw itself, or one for zero.
pub fn seed_len_from_draw(d: usize) -> (n: usize)
    ensures
        n == if d == 0 {
            1
        } else {
            d
        },
{
    if d == 0 {
        1
    } else {
        d
    }
}

/// Draws the number of stacked operators and each operator.
fn draw_ops(rng: &mut RomuDuoJrRand) -> (ops: Vec<MutOp>)
    ensures
        1 <= ops@.len() <= MAX_STACK,
{
    let n = 1 + draw_below(rng, MAX_STACK);
    let mut ops: Vec<MutOp> = Vec::new();
    let mut i: usize = 0;
    while i < n
        invariant
            n <= MAX_STACK,
            i <= n,
            ops@.len() == i,
        decreases n - i,
    {
        let kind_draw = draw_below(rng, 8);
        let pos = draw_u64(rng);
        let value_draw = draw_below(rng, 256);
        ops.push(op_from_draws(kind_draw, pos, value_draw));
        i = i + 1;
    }
    ops
}

/// A random seed: between one and `max_len` printable bytes (one byte when
/// `max_len` is zero).
pub fn generate_seed(rng: &mut RomuDuoJrRand, max_len: usize) -> (s: Vec<u8>)
    ensures
        seed_shaped(s@, max_len),
{
    let drawn = draw_below(rng, max_len);
    let size = seed_len_from_draw(drawn);
    let mut s: Vec<u8> = Vec::new();
    let mut i: usize = 0;
    while i < size
        invariant
            i <= size,
            s@.len() == i,
            forall|j: int| 0 <= j < s@.len() ==> printable(#[trigger] s@[j]),
        decreases size - i,
    {
        let d = draw_below(rng, 95);
        s.push(printable_from_draw(d));
        i = i + 1;
    }
    s
}

/// The engine: feedback state, volatile corpus, crash record, scheduler and
/// the signal map it owns.
pub struct Engine {
    feedback: FeedbackState,
    corpus: Corpus,
    crashes: Vec<Crash>,
    scheduler: Scheduler,
    map: SignalMap,
    reset_signals: bool,
    executions: u64,
    phase: Phase,
}

/// What an execution of `input` does to the engine and reports: novelty is
/// decided against the maxima before the update, the maxima then take the
/// snapshot in, the input is admitted exactly when novel and recorded as a
/// crash exactly when it failed.
pub open spec fn executed(pre: &Engine, post: &Engine, input: Seq<u8>, r: &ExecReport) -> bool {
    &&& r.input@ == input
    &&& r.signals@.len() == MAP_SIZE
    &&& r.signals@ == post.signals()
    &&& r.novel == novel(pre.maxima(), r.signals@)
    &&& r.novel == (post.maxima() != pre.maxima())
    &&& r.crashed == (r.outcome == Outcome::Failed)
    &&& post.maxima() == merged(pre.maxima(), r.signals@)
    &&& pointwise_le(pre.maxima(), post.maxima())
    &&& post.entries() == (if r.novel {
        pre.entries().push((input, pre.executions(), r.signals@))
    } else {
        pre.entries()
    })
    &&& post.crash_log() == (if r.crashed {
        pre.crash_log().push((input, r.signals@))
    } else {
        pre.crash_log()
    })
    &&& post.executions() == next_count(pre.executions())
    &&& post.cursor() == pre.cursor()
    &&& post.resets() == pre.resets()
    &&& post.phase() == pre.phase()
}

/// `states` runs from its first to its last engine by executing the
/// reports' inputs in order, each execution as `executed` describes it.
pub open spec fn chain(states: Seq<Engine>, reps: Seq<ExecReport>) -> bool {
    &&& states.len() == reps.len() + 1
    &&& forall|i: int|
        0 <= i < reps.len() ==> executed(
            &states[i],
            &states[i + 1],
            (#[trigger] reps[i]).input@,
            &reps[i],
        )
}

/// `a` and `b` differ at most in the scheduler's cursor.
pub open spec fn same_but_cursor(a: Engine, b: Engine) -> bool {
    &&& a.maxima() == b.maxima()
    &&& a.entries() == b.entries()
    &&& a.crash_log() == b.crash_log()
    &&& a.signals() == b.signals()
    &&& a.resets() == b.resets()
    &&& a.executions() == b.executions()
    &&& a.phase() == b.phase()
}

/// `a` and `b` differ at most in their phase.
pub open spec fn same_but_phase(a: Engine, b: Engine) -> bool {
    &&& a.maxima() == b.maxima()
    &&& a.entries() == b.entries()
    &&& a.crash_log() == b.crash_log()
    &&& a.signals() == b.signals()
    &&& a.resets() == b.resets()
    &&& a.executions() == b.executions()
    &&& a.cursor() == b.cursor()
}

/// One iteration of the running phase, as `fuzz_one` performs it: the cursor
/// moves past the scheduled base, then between one and `MAX_STAGE_ROUNDS`
/// candidates derived from that base are executed in order.
pub open spec fn stage(pre: Engine, post: Engine, reps: Seq<ExecReport>) -> bool {
    let b = scheduled_index(pre.cursor(), pre.entries().len());
    &&& pre.entries().len() > 0
    &&& 1 <= reps.len() <= MAX_STAGE_ROUNDS
    &&& post.cursor() == b + 1
    &&& exists|states: Seq<Engine>|
        #[trigger] chain(states, reps) && states[0].cursor() == b + 1 && same_but_cursor(
            pre,
            states[0],
        ) && states.last() == post
    &&& forall|i: int|
        0 <= i < reps.len() ==> exists|p: int, ops: Seq<MutOp>|
            0 <= p < post.entries().len() && 1 <= ops.len() <= MAX_STACK && (#[trigger] reps[i]).input@
                == #[trigger] apply_all(pre.entries()[b as int].0, post.entries()[p].0, ops)
    &&& post.entries().len() == pre.entries().len() + count_novel(reps)
    &&& post.crash_log().len() == pre.crash_log().len() + count_crashed(reps)
    &&& post.executions() == sat_add(pre.executions(), reps.len())
}

/// `states` runs from its first to its last engine by iterations in a row,
/// the one numbered `i` producing `groups[i]`.
pub open spec fn stage_chain(states: Seq<Engine>, groups: Seq<Seq<ExecReport>>) -> bool {
    &&& states.len() == groups.len() + 1
    &&& forall|i: int|
        0 <= i < groups.len() ==> stage(states[i], states[i + 1], #[trigger] groups[i])
}

impl Engine {
    /// The historical maxima.
    pub closed spec fn maxima(&self) -> Seq<u8> {
        self.feedback@
    }

    /// The admitted entries, in order of admission.
    pub closed spec fn entries(&self) -> Seq<(Seq<u8>, u64, Seq<u8>)> {
        self.corpus@
    }

    /// The recorded crashes, in order of discovery.
    pub closed spec fn crash_log(&self) -> Seq<(Seq<u8>, Seq<u8>)> {
        self.crashes@.map_values(|c: Crash| c@)
    }

    /// The scheduler's position.
    pub closed spec fn cursor(&self) -> nat {
        self.scheduler@
    }

    /// The signal map's counters.
    pub closed spec fn signals(&self) -> Seq<u8> {
        self.map@
    }

    /// Whether the map is cleared before each execution.
    pub closed spec fn resets(&self) -> bool {
        self.reset_signals
    }

    /// Number of executions so far.
    pub closed spec fn executions(&self) -> u64 {
        self.executions
    }

    /// The current phase.
    pub closed spec fn phase(&self) -> Phase {
        self.phase
    }

    /// A fresh engine in the seeding phase. `reset_signals` says whether the
    /// map is cleared before each execution.
    pub fn new(reset_signals: bool) -> (e: Engine)
        ensures
            e.maxima() == zero_signals(),
            e.entries().len() == 0,
            e.crash_log().len() == 0,
            e.cursor() == 0,
            e.signals() == zero_signals(),
            e.resets() == reset_signals,
            e.executions() == 0,
            e.phase() == Phase::Seeding,
    {
        let e = Engine {
            feedback: FeedbackState::new(),
            corpus: Corpus::new(),
            crashes: Vec::new(),
            scheduler: Scheduler::new(),
            map: SignalMap::new(),
            reset_signals,
            executions: 0,
            phase: Phase::Seeding,
        };
        assert(e.crash_log() =~= Seq::<(Seq<u8>, Seq<u8>)>::empty());
        e
    }

    /// Brings the map to its state for the next execution: all zero when
    /// resetting is on, untouched otherwise.
    pub fn prepare_execution(&mut self)
        requires
            old(self).phase() != Phase::Stopped,
        ensures
            final(self).signals() == (if old(self).resets() {
                zero_signals()
            } else {
                old(self).signals()
            }),
            final(self).maxima() == old(self).maxima(),
            final(self).entries() == old(self).entries(),
            final(self).crash_log() == old(self).crash_log(),
            final(self).cursor() == old(self).cursor(),
            final(self).resets() == old(self).resets(),
            final(self).executions() == old(self).executions(),
            final(self).phase() == old(self).phase(),
    {
        if self.reset_signals {
            self.map.reset();
        }
    }

    /// Runs `input` through the harness and evaluates the execution.
    pub fn execute<H: Harness>(&mut self, harness: &mut H, input: Vec<u8>) -> (r: ExecReport)
        requires
            old(self).phase() != Phase::Stopped,
        ensures
            executed(old(self), final(self), input@, &r),
            final(self).cursor() == old(self).cursor(),
    {
        self.prepare_execution();
        let outcome = harness.run(input.as_slice(), &mut self.map);
        let snap = self.map.snapshot();
        let ghost pre_max = self.feedback@;
        let is_new = self.feedback.observe(&snap);
        proof {
            lemma_merge_changes_iff_novel(pre_max, snap@);
        }
        let crashed = is_failure(outcome);
        if is_new {
            let entry = CorpusEntry { input: input.clone(), found_at: self.executions, signals: snap.clone() };
            self.corpus.add(entry);
        }
        if crashed {
            let ghost pre_log = self.crash_log();
            self.crashes.push(Crash { input: input.clone(), signals: snap.clone() });
            assert(self.crash_log() =~= pre_log.push((input@, snap@)));
        }
        self.executions = if self.executions < u64::MAX {
            self.executions + 1
        } else {
            self.executions
        };
        ExecReport { input, signals: snap, outcome, novel: is_new, crashed }
    }

    /// Derives one candidate from entry `base_idx` by stacked havoc operators
    /// (a splice takes its tail from a randomly drawn entry), then executes it.
    pub fn fuzz_candidate<H: Harness>(
        &mut self,
        rng: &mut RomuDuoJrRand,
        harness: &mut H,
        base_idx: usize,
    ) -> (r: ExecReport)
        requires
            base_idx < old(self).entries().len(),
            old(self).phase() != Phase::Stopped,
        ensures
            executed(old(self), final(self), r.input@, &r),
            final(self).cursor() == old(self).cursor(),
            old(self).entries()[base_idx as int].0.len() > 0 ==> r.input@.len() > 0,
            exists|p: int, ops: Seq<MutOp>|
                0 <= p < old(self).entries().len() && 1 <= ops.len() <= MAX_STACK && r.input@
                    == #[trigger] apply_all(
                    old(self).entries()[base_idx as int].0,
                    old(self).entries()[p].0,
                    ops,
                ),
    {
        let n = self.corpus.len();
        let partner_idx = draw_below(rng, n);
        let ops = draw_ops(rng);
        let base = self.corpus.get(base_idx);
        let partner = self.corpus.get(partner_idx);
        let candidate = apply_all_exec(&base.input, &partner.input, &ops);
        let report = self.execute(harness, candidate);
        assert(0 <= partner_idx < n && 1 <= ops@.len() <= MAX_STACK && report.input@ == apply_all(
            old(self).entries()[base_idx as int].0,
            old(self).entries()[partner_idx as int].0,
            ops@,
        ));
        proof {
            lemma_all_bounds(base.input@, partner.input@, ops@);
        }
        report
    }

    /// One iteration of the running phase, a mutational stage: selects the
    /// next base entry by round robin, then derives and executes between one
    /// and `MAX_STAGE_ROUNDS` candidates from it.
    pub fn fuzz_one<H: Harness>(&mut self, rng: &mut RomuDuoJrRand, harness: &mut H) -> (r:
        Result<Vec<ExecReport>, EngineError>)
        ensures
            old(self).phase() == Phase::Stopped ==> r == Err::<Vec<ExecReport>, EngineError>(
                EngineError::Stopped,
            ) && *final(self) == *old(self),
            old(self).phase() != Phase::Stopped && old(self).entries().len() == 0 ==> r == Err::<
                Vec<ExecReport>,
                EngineError,
            >(EngineError::EmptyCorpus) && *final(self) == *old(self),
            old(self).phase() != Phase::Stopped && old(self).entries().len() > 0 ==> r is Ok,
            r matches Ok(reps) ==> stage(*old(self), *final(self), reps@),
            pointwise_le(old(self).maxima(), final(self).maxima()),
            extends(old(self).entries(), final(self).entries()),
            extends(old(self).crash_log(), final(self).crash_log()),
            final(self).resets() == old(self).resets(),
            final(self).phase() == old(self).phase(),
    {
        if self.phase == Phase::Stopped {
            return Err(EngineError::Stopped);
        }
        let n = self.corpus.len();
        if n == 0 {
            return Err(EngineError::EmptyCorpus);
        }
        let base_idx = match self.scheduler.next(n) {
            Ok(i) => i,
            Err(e) => {
                return Err(e);
            },
        };
        let ghost start = *self;
        let ghost base = old(self).entries()[base_idx as int].0;
        let rounds = 1 + draw_below(rng, MAX_STAGE_ROUNDS);
        let mut reps: Vec<ExecReport> = Vec::new();
        let ghost mut states: Seq<Engine> = seq![*self];
        let mut k: usize = 0;
        while k < rounds
            invariant
                rounds <= MAX_STAGE_ROUNDS,
                k <= rounds,
                reps@.len() == k,
                base_idx < old(self).entries().len(),
                base == old(self).entries()[base_idx as int].0,
                start.entries() == old(self).entries(),
                start.crash_log() == old(self).crash_log(),
                start.maxima() == old(self).maxima(),
                self.cursor() == start.cursor(),
                self.cursor() == base_idx + 1,
                base_idx == scheduled_index(old(self).cursor(), old(self).entries().len()),
                self.phase() == old(self).phase(),
                self.resets() == old(self).resets(),
                pointwise_le(old(self).maxima(), self.maxima()),
                extends(old(self).entries(), self.entries()),
                extends(old(self).crash_log(), self.crash_log()),
                self.entries().len() == old(self).entries().len() + count_novel(reps@),
                self.crash_log().len() == old(self).crash_log().len() + count_crashed(reps@),
                start.cursor() == base_idx + 1,
                same_but_cursor(*old(self), start),
                self.phase() != Phase::Stopped,
                chain(states, reps@),
                self.executions() == sat_add(old(self).executions(), reps@.len()),
                states[0] == start,
                states.last() == *self,
                forall|i: int|
                    0 <= i < reps@.len() ==> exists|p: int, ops: Seq<MutOp>|
                        0 <= p < self.entries().len() && 1 <= ops.len() <= MAX_STACK
                            && (#[trigger] reps@[i]).input@ == #[trigger] apply_all(
                            base,
                            self.entries()[p].0,
                            ops,
                        ),
            decreases rounds - k,
        {
            let ghost pre = *self;
            let ghost pre_reps = reps@;
            assert(pre.entries()[base_idx as int] == pre.entries().subrange(
                0,
                old(self).entries().len() as int,
            )[base_idx as int]);
            let rep = self.fuzz_candidate(rng, harness, base_idx);
            assert(self.entries().subrange(0, pre.entries().len() as int) =~= pre.entries()) by {
                if rep.novel {
                    assert(self.entries().drop_last() =~= pre.entries());
                }
            };
            assert(self.entries().subrange(0, old(self).entries().len() as int) =~= old(
                self,
            ).entries()) by {
                assert(self.entries().subrange(0, old(self).entries().len() as int) =~= pre.entries().subrange(
                    0,
                    old(self).entries().len() as int,
                ));
            };
            assert(self.crash_log().subrange(0, old(self).crash_log().len() as int) =~= old(
                self,
            ).crash_log()) by {
                if rep.crashed {
                    assert(self.crash_log().subrange(0, old(self).crash_log().len() as int)
                        =~= pre.crash_log().subrange(0, old(self).crash_log().len() as int));
                }
            };
            reps.push(rep);
            assert(reps@.drop_last() =~= pre_reps);
            proof {
                states = states.push(*self);
            }
            assert(chain(states, reps@)) by {
                assert forall|i: int| 0 <= i < reps@.len() implies executed(
                    &states[i],
                    &states[i + 1],
                    (#[trigger] reps@[i]).input@,
                    &reps@[i],
                ) by {
                    if i < pre_reps.len() {
                        assert(reps@[i] == pre_reps[i]);
                    }
                };
            };
            assert forall|i: int| 0 <= i < reps@.len() implies exists|p: int, ops: Seq<MutOp>|
                0 <= p < self.entries().len() && 1 <= ops.len() <= MAX_STACK
                    && (#[trigger] reps@[i]).input@ == #[trigger] apply_all(
                    base,
                    self.entries()[p].0,
                    ops,
                ) by {
                if i < pre_reps.len() {
                    assert(reps@[i] == pre_reps[i]);
                    let (p, ops) = choose|p: int, ops: Seq<MutOp>|
                        0 <= p < pre.entries().len() && 1 <= ops.len() <= MAX_STACK
                            && (#[trigger] pre_reps[i]).input@ == #[trigger] apply_all(
                            base,
                            pre.entries()[p].0,
                            ops,
                        );
                    assert(self.entries()[p] == self.entries().subrange(0, pre.entries().len() as int)[p]);
                    assert(apply_all(base, self.entries()[p].0, ops) == reps@[i].input@);
                } else {
                    let (p, ops) = choose|p: int, ops: Seq<MutOp>|
                        0 <= p < pre.entries().len() && 1 <= ops.len() <= MAX_STACK && rep.input@
                            == #[trigger] apply_all(pre.entries()[base_idx as int].0, pre.entries()[p].0, ops);
                    assert(self.entries()[p] == self.entries().subrange(0, pre.entries().len() as int)[p]);
                    assert(apply_all(base, self.entries()[p].0, ops) == reps@[i].input@);
                }
            };
            k = k + 1;
        }
        assert(chain(states, reps@) && states[0].cursor() == base_idx + 1 && same_but_cursor(
            *old(self),
            states[0],
        ) && states.last() == *self);
        Ok(reps)
    }

    /// The seeding phase: generates `count` random printable inputs of at
    /// most `max_len` bytes and executes each through the full pipeline.
    /// Succeeds, and enters the running phase, exactly when the corpus is then
    /// non-empty.
    pub fn seed<H: Harness>(
        &mut self,
        rng: &mut RomuDuoJrRand,
        harness: &mut H,
        count: usize,
        max_len: usize,
    ) -> (r: Result<(), EngineError>)
        ensures
            old(self).phase() == Phase::Stopped ==> r == Err::<(), EngineError>(EngineError::Stopped)
                && *final(self) == *old(self),
            old(self).phase() != Phase::Stopped ==> {
                &&& r is Ok <==> final(self).entries().len() > 0
                &&& r == Err::<(), EngineError>(EngineError::NoViableSeed) <==> final(self).entries().len() == 0
                &&& final(self).phase() == (if r is Ok { Phase::Running } else { old(self).phase() })
            },
            pointwise_le(old(self).maxima(), final(self).maxima()),
            extends(old(self).entries(), final(self).entries()),
            extends(old(self).crash_log(), final(self).crash_log()),
            final(self).entries().len() <= old(self).entries().len() + count,
            final(self).entries().len() == old(self).entries().len() ==> final(self).maxima() == old(
                self,
            ).maxima(),
            forall|i: int|
                old(self).entries().len() <= i < final(self).entries().len() ==> seed_shaped(
                    #[trigger] final(self).entries()[i].0,
                    max_len,
                ),
            final(self).resets() == old(self).resets(),
            old(self).phase() != Phase::Stopped ==> {
                &&& final(self).executions() == sat_add(old(self).executions(), count as nat)
                &&& exists|states: Seq<Engine>, reps: Seq<ExecReport>|
                    #[trigger] chain(states, reps) && reps.len() == count && states[0] == *old(self)
                        && same_but_phase(states.last(), *final(self)) && forall|i: int|
                        0 <= i < reps.len() ==> seed_shaped((#[trigger] reps[i]).input@, max_len)
            },
    {
        if self.phase == Phase::Stopped {
            return Err(EngineError::Stopped);
        }
        let ghost mut states: Seq<Engine> = seq![*self];
        let ghost mut reps: Seq<ExecReport> = Seq::empty();
        let mut k: usize = 0;
        while k < count
            invariant
                k <= count,
                self.phase() == old(self).phase(),
                self.phase() != Phase::Stopped,
                self.resets() == old(self).resets(),
                pointwise_le(old(self).maxima(), self.maxima()),
                extends(old(self).entries(), self.entries()),
                extends(old(self).crash_log(), self.crash_log()),
                self.entries().len() <= old(self).entries().len() + k,
                self.entries().len() == old(self).entries().len() ==> self.maxima() == old(self).maxima(),
                forall|i: int|
                    old(self).entries().len() <= i < self.entries().len() ==> seed_shaped(
                        #[trigger] self.entries()[i].0,
                        max_len,
                    ),
                self.executions() == sat_add(old(self).executions(), k as nat),
                chain(states, reps),
                reps.len() == k,
                states[0] == *old(self),
                states.last() == *self,
                forall|i: int| 0 <= i < reps.len() ==> seed_shaped((#[trigger] reps[i]).input@, max_len),
            decreases count - k,
        {
            let input = generate_seed(rng, max_len);
            let ghost pre = *self;
            let rep = self.execute(harness, input);
            assert(self.entries().subrange(0, old(self).entries().len() as int) =~= old(self).entries())
                by {
                    if rep.novel {
                        assert(pre.entries().subrange(0, old(self).entries().len() as int)
                            == old(self).entries());
                    }
                };
            assert(self.crash_log().subrange(0, old(self).crash_log().len() as int)
                =~= old(self).crash_log()) by {
                if rep.crashed {
                    assert(pre.crash_log().subrange(0, old(self).crash_log().len() as int)
                        == old(self).crash_log());
                }
            };
            proof {
                let ghost prev = reps;
                states = states.push(*self);
                reps = reps.push(rep);
                assert forall|i: int| 0 <= i < reps.len() implies executed(
                    &states[i],
                    &states[i + 1],
                    (#[trigger] reps[i]).input@,
                    &reps[i],
                ) && seed_shaped(reps[i].input@, max_len) by {
                    if i < prev.len() {
                        assert(reps[i] == prev[i]);
                    }
                };
            }
            k = k + 1;
        }
        if self.corpus.is_empty() {
            return Err(EngineError::NoViableSeed);
        }
        self.phase = Phase::Running;
        Ok(())
    }

    /// The running phase: `iterations` rounds of `fuzz_one`, then the engine
    /// stops. Returns the number of rounds run.
    pub fn fuzz_loop<H: Harness>(
        &mut self,
        rng: &mut RomuDuoJrRand,
        harness: &mut H,
        iterations: u64,
    ) -> (r: Result<u64, EngineError>)
        ensures
            old(self).phase() == Phase::Stopped ==> r == Err::<u64, EngineError>(EngineError::Stopped)
                && *final(self) == *old(self),
            old(self).phase() != Phase::Stopped && old(self).entries().len() == 0 && iterations > 0
                ==> r == Err::<u64, EngineError>(EngineError::EmptyCorpus) && *final(self) == *old(
                self,
            ),
            old(self).phase() != Phase::Stopped && (old(self).entries().len() > 0 || iterations == 0)
                ==> r == Ok::<u64, EngineError>(iterations),
            r is Ok ==> {
                &&& final(self).phase() == Phase::Stopped
                &&& final(self).executions() >= sat_add(old(self).executions(), iterations as nat)
                &&& exists|states: Seq<Engine>, groups: Seq<Seq<ExecReport>>|
                    #[trigger] stage_chain(states, groups) && groups.len() == iterations && states[0]
                        == *old(self) && same_but_phase(states.last(), *final(self))
            },
            pointwise_le(old(self).maxima(), final(self).maxima()),
            extends(old(self).entries(), final(self).entries()),
            extends(old(self).crash_log(), final(self).crash_log()),
            final(self).resets() == old(self).resets(),
    {
        if self.phase == Phase::Stopped {
            return Err(EngineError::Stopped);
        }
        let ghost mut states: Seq<Engine> = seq![*self];
        let ghost mut groups: Seq<Seq<ExecReport>> = Seq::empty();
        let mut k: u64 = 0;
        while k < iterations
            invariant
                k <= iterations,
                self.phase() == old(self).phase(),
                self.phase() != Phase::Stopped,
                k > 0 ==> old(self).entries().len() > 0,
                k == 0 ==> *self == *old(self),
                pointwise_le(old(self).maxima(), self.maxima()),
                extends(old(self).entries(), self.entries()),
                extends(old(self).crash_log(), self.crash_log()),
                self.resets() == old(self).resets(),
                self.executions() >= sat_add(old(self).executions(), k as nat),
                stage_chain(states, groups),
                groups.len() == k,
                states[0] == *old(self),
                states.last() == *self,
            decreases iterations - k,
        {
            let ghost pre = *self;
            match self.fuzz_one(rng, harness) {
                Ok(reps) => {
                    assert(self.entries().subrange(0, old(self).entries().len() as int)
                        =~= old(self).entries()) by {
                        assert(self.entries().subrange(0, old(self).entries().len() as int)
                            =~= self.entries().subrange(0, pre.entries().len() as int).subrange(
                            0,
                            old(self).entries().len() as int,
                        ));
                    };
                    assert(self.crash_log().subrange(0, old(self).crash_log().len() as int)
                        =~= old(self).crash_log()) by {
                        assert(self.crash_log().subrange(0, old(self).crash_log().len() as int)
                            =~= self.crash_log().subrange(0, pre.crash_log().len() as int).subrange(
                            0,
                            old(self).crash_log().len() as int,
                        ));
                    };
                    proof {
                        let ghost prev_groups = groups;
                        states = states.push(*self);
                        groups = groups.push(reps@);
                        assert forall|i: int| 0 <= i < groups.len() implies stage(
                            states[i],
                            states[i + 1],
                            #[trigger] groups[i],
                        ) by {
                            if i < prev_groups.len() {
                                assert(groups[i] == prev_groups[i]);
                            }
                        };
                    }
                },
                Err(e) => {
                    return Err(e);
                },
            }
            k = k + 1;
        }
        self.phase = Phase::Stopped;
        Ok(iterations)
    }

    /// Ends the run: no further seeding or fuzzing is accepted.
    pub fn stop(&mut self)
        ensures
            final(self).phase() == Phase::Stopped,
            same_but_phase(*old(self), *final(self)),
    {
        self.phase = Phase::Stopped;
    }

    /// The volatile corpus.
    pub fn corpus(&self) -> (c: &Corpus)
        ensures
            c@ == self.entries(),
    {
        &self.corpus
    }

    /// The feedback state.
    pub fn feedback(&self) -> (f: &FeedbackState)
        ensures
            f@ == self.maxima(),
    {
        &self.feedback
    }

    /// The signal map as the last execution left it.
    pub fn signal_map(&self) -> (m: &SignalMap)
        ensures
            m@ == self.signals(),
    {
        &self.map
    }

    /// Number of recorded crashes.
    pub fn crash_count(&self) -> (n: usize)
        ensures
            n == self.crash_log().len(),
    {
        self.crashes.len()
    }

    /// The crash recorded at position `i`.
    pub fn crash(&self, i: usize) -> (c: &Crash)
        requires
            i < self.crash_log().len(),
        ensures
            c@ == self.crash_log()[i as int],
    {
        &self.crashes[i]
    }

    /// Number of executions so far.
    pub fn execution_count(&self) -> (n: u64)
        ensures
            n == self.executions(),
    {
        self.executions
    }

    /// The current phase.
    pub fn current_phase(&self) -> (p: Phase)
        ensures
            p == self.phase(),
    {
        self.phase
    }
}

/// Coverage never goes back: an execution leaves every stored maximum at
/// least as high as it was.
pub proof fn lemma_coverage_monotone(pre: &Engine, post: &Engine, input: Seq<u8>, r: &ExecReport)
    requires
        executed(pre, post, input, r),
    ensures
        pre.maxima().len() == post.maxima().len(),
        forall|i: int| 0 <= i < pre.maxima().len() ==> pre.maxima()[i] <= #[trigger] post.maxima()[i],
{
}

/// An input enters the corpus exactly when its execution strictly raised at
/// least one stored maximum, and then it enters as the last entry.
pub proof fn lemma_admission(pre: &Engine, post: &Engine, input: Seq<u8>, r: &ExecReport)
    requires
        executed(pre, post, input, r),
    ensures
        (post.entries().len() == pre.entries().len() + 1) <==> (exists|i: int|
            0 <= i < pre.maxima().len() && #[trigger] post.maxima()[i] > pre.maxima()[i]),
        post.entries().len() == pre.entries().len() + 1 ==> post.entries().last().0 == input,
        post.entries().len() != pre.entries().len() + 1 ==> post.entries() == pre.entries(),
{
    broadcast use {SignalMap::lemma_len, FeedbackState::lemma_len};
    if r.novel {
        let i = choose|i: int|
            0 <= i < pre.maxima().len() && i < r.signals@.len() && #[trigger] r.signals@[i]
                > pre.maxima()[i];
        assert(post.maxima()[i] > pre.maxima()[i]);
    } else {
        assert forall|i: int| 0 <= i < pre.maxima().len() implies !(#[trigger] post.maxima()[i]
            > pre.maxima()[i]) by {}
    }
}

/// An execution leaves the engine no freedom: the same engine, input,
/// signals and outcome give the same report and the same engine afterwards.
pub proof fn lemma_execution_determined(
    pre: &Engine,
    post1: &Engine,
    post2: &Engine,
    input: Seq<u8>,
    r1: &ExecReport,
    r2: &ExecReport,
)
    requires
        executed(pre, post1, input, r1),
        executed(pre, post2, input, r2),
        r1.signals@ == r2.signals@,
        r1.outcome == r2.outcome,
    ensures
        r1.novel == r2.novel,
        r1.crashed == r2.crashed,
        post1.maxima() == post2.maxima(),
        post1.entries() == post2.entries(),
        post1.crash_log() == post2.crash_log(),
        post1.signals() == post2.signals(),
        post1.executions() == post2.executions(),
        post1.phase() == post2.phase(),
{
}


/// `a` and `b` agree in everything the engine's contracts speak of.
pub open spec fn same_model(a: Engine, b: Engine) -> bool {
    same_but_phase(a, b) && a.phase() == b.phase()
}

/// Two chains of executions from engines that agree, over the same inputs
/// with the same signals and outcomes, agree after every step.
pub proof fn lemma_chain_determined(
    s1: Seq<Engine>,
    r1: Seq<ExecReport>,
    s2: Seq<Engine>,
    r2: Seq<ExecReport>,
    n: nat,
)
    requires
        chain(s1, r1),
        chain(s2, r2),
        r1.len() == r2.len(),
        n <= r1.len(),
        same_model(s1[0], s2[0]),
        forall|i: int|
            0 <= i < r1.len() ==> (#[trigger] r1[i]).input@ == r2[i].input@ && r1[i].signals@
                == r2[i].signals@ && r1[i].outcome == r2[i].outcome,
    ensures
        same_model(s1[n as int], s2[n as int]),
    decreases n,
{
    if n > 0 {
        let m = (n - 1) as int;
        lemma_chain_determined(s1, r1, s2, r2, (n - 1) as nat);
        assert(executed(&s1[m], &s1[m + 1], r1[m].input@, &r1[m]));
        assert(executed(&s2[m], &s2[m + 1], r2[m].input@, &r2[m]));
    }
}

/// Determinism of a run: the same starting engine, fed the same inputs whose
/// executions give the same signals and outcomes, ends in the same state with
/// the same admission and crash decisions. The inputs themselves are fixed by
/// the random stream through `apply_all` and the draw-mapping functions.
pub proof fn lemma_run_determined(
    s1: Seq<Engine>,
    r1: Seq<ExecReport>,
    s2: Seq<Engine>,
    r2: Seq<ExecReport>,
)
    requires
        chain(s1, r1),
        chain(s2, r2),
        r1.len() == r2.len(),
        same_model(s1[0], s2[0]),
        forall|i: int|
            0 <= i < r1.len() ==> (#[trigger] r1[i]).input@ == r2[i].input@ && r1[i].signals@
                == r2[i].signals@ && r1[i].outcome == r2[i].outcome,
    ensures
        same_model(s1.last(), s2.last()),
        forall|i: int|
            0 <= i < r1.len() ==> (#[trigger] r1[i]).novel == r2[i].novel && r1[i].crashed
                == r2[i].crashed,
{
    lemma_chain_determined(s1, r1, s2, r2, r1.len());
    assert forall|i: int| 0 <= i < r1.len() implies (#[trigger] r1[i]).novel == r2[i].novel
        && r1[i].crashed == r2[i].crashed by {
        lemma_chain_determined(s1, r1, s2, r2, i as nat);
        assert(executed(&s1[i], &s1[i + 1], r1[i].input@, &r1[i]));
        assert(executed(&s2[i], &s2[i + 1], r2[i].input@, &r2[i]));
    };
}

} // verus!
