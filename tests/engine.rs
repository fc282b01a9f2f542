use havoc_fuzz::corpus::EngineError;
use havoc_fuzz::engine::{
    generate_seed, op_from_draws, printable_from_draw, seed_len_from_draw, Engine, ExecReport, Harness,
    Phase,
};
use havoc_fuzz::mutation::{MutKind, MutOp};
use havoc_fuzz::feedback::Outcome;
use havoc_fuzz::signal::SignalMap;
use libafl_bolts::rands::StdRand;

/// Marks milestones on the way to the prefix "abc" and fails on it.
struct AbcHarness;

impl Harness for AbcHarness {
    fn run(&mut self, buf: &[u8], signals: &mut SignalMap) -> Outcome {
        signals.set(0);
        if !buf.is_empty() && buf[0] == b'a' {
            signals.set(1);
            if buf.len() > 1 && buf[1] == b'b' {
                signals.set(2);
                if buf.len() > 2 && buf[2] == b'c' {
                    return Outcome::Failed;
                }
            }
        }
        Outcome::Completed
    }
}

/// Counts one hit per byte, at the slot given by the byte's low bits.
struct CountingHarness;

impl Harness for CountingHarness {
    fn run(&mut self, buf: &[u8], signals: &mut SignalMap) -> Outcome {
        for b in buf {
            signals.hit((*b % 16) as usize);
        }
        Outcome::Completed
    }
}

/// Writes nothing into the map.
struct SilentHarness;

impl Harness for SilentHarness {
    fn run(&mut self, _buf: &[u8], _signals: &mut SignalMap) -> Outcome {
        Outcome::Completed
    }
}

fn maxima(e: &Engine) -> Vec<u8> {
    (0..16).map(|i| e.feedback().get(i)).collect()
}

fn corpus_inputs(e: &Engine) -> Vec<Vec<u8>> {
    (0..e.corpus().len()).map(|i| e.corpus().get(i).input.clone()).collect()
}

fn crash_inputs(e: &Engine) -> Vec<Vec<u8>> {
    (0..e.crash_count()).map(|i| e.crash(i).input.clone()).collect()
}

#[test]
fn crashing_prefix_is_recorded_and_engine_continues() {
    let mut e = Engine::new(true);
    let mut h = AbcHarness;
    let r = e.execute(&mut h, b"abcdef".to_vec());
    assert!(r.crashed);
    assert_eq!(r.outcome, Outcome::Failed);
    assert_eq!(e.crash_count(), 1);
    assert_eq!(e.crash(0).input, b"abcdef".to_vec());
    assert_eq!(e.crash(0).signals[..4], [1, 1, 1, 0]);
    let r2 = e.execute(&mut h, b"xyz".to_vec());
    assert!(!r2.crashed);
    assert_eq!(e.crash_count(), 1);
    assert_eq!(e.execution_count(), 2);
}

#[test]
fn crash_and_novelty_are_independent() {
    let mut e = Engine::new(true);
    let mut h = AbcHarness;
    let r = e.execute(&mut h, b"abc".to_vec());
    assert!(r.novel && r.crashed);
    assert_eq!(e.corpus().len(), 1);
    let r = e.execute(&mut h, b"abcx".to_vec());
    assert!(!r.novel && r.crashed);
    assert_eq!(e.corpus().len(), 1);
    assert_eq!(e.crash_count(), 2);
}

#[test]
fn end_to_end_seed_42_finds_a_crash() {
    let mut rng = StdRand::with_seed(42);
    let mut e = Engine::new(true);
    let mut h = AbcHarness;
    assert_eq!(e.seed(&mut rng, &mut h, 8, 32), Ok(()));
    assert_eq!(e.current_phase(), Phase::Running);
    assert_eq!(e.fuzz_loop(&mut rng, &mut h, 10_000), Ok(10_000));
    assert_eq!(e.current_phase(), Phase::Stopped);
    assert!(e.crash_count() > 0);
    for c in crash_inputs(&e) {
        assert_eq!(&c[..3], b"abc");
    }
}

fn run_with_seed(seed: u64, iterations: usize) -> (Vec<Vec<u8>>, Vec<Vec<u8>>, Vec<Vec<u8>>) {
    let mut rng = StdRand::with_seed(seed);
    let mut e = Engine::new(true);
    let mut h = AbcHarness;
    e.seed(&mut rng, &mut h, 8, 32).unwrap();
    let mut candidates = Vec::new();
    for _ in 0..iterations {
        let reps: Vec<ExecReport> = e.fuzz_one(&mut rng, &mut h).unwrap();
        candidates.extend(reps.into_iter().map(|r| r.input));
    }
    (candidates, corpus_inputs(&e), crash_inputs(&e))
}

#[test]
fn same_seed_gives_same_run() {
    let a = run_with_seed(42, 200);
    let b = run_with_seed(42, 200);
    assert_eq!(a, b);
    let c = run_with_seed(7, 200);
    assert_ne!(a.0, c.0);
}

#[test]
fn maxima_never_decrease() {
    let mut rng = StdRand::with_seed(3);
    let mut e = Engine::new(true);
    let mut h = CountingHarness;
    e.seed(&mut rng, &mut h, 8, 32).unwrap();
    let mut prev = maxima(&e);
    for _ in 0..500 {
        e.fuzz_one(&mut rng, &mut h).unwrap();
        let cur = maxima(&e);
        for i in 0..16 {
            assert!(prev[i] <= cur[i]);
        }
        prev = cur;
    }
}

#[test]
fn admitted_exactly_when_a_maximum_rises() {
    let mut rng = StdRand::with_seed(11);
    let mut e = Engine::new(true);
    let mut h = CountingHarness;
    e.seed(&mut rng, &mut h, 8, 32).unwrap();
    for k in 0..2000 {
        let before = maxima(&e);
        let len_before = e.corpus().len();
        let r = e.fuzz_candidate(&mut rng, &mut h, k % len_before);
        let after = maxima(&e);
        let raised = (0..16).any(|i| after[i] > before[i]);
        assert_eq!(r.novel, raised);
        if raised {
            assert_eq!(e.corpus().len(), len_before + 1);
            assert_eq!(e.corpus().get(len_before).input, r.input);
            assert_eq!(e.corpus().get(len_before).signals, r.signals);
        } else {
            assert_eq!(e.corpus().len(), len_before);
        }
    }
}

#[test]
fn exact_novelty_on_fixed_inputs() {
    let mut e = Engine::new(true);
    let mut h = AbcHarness;
    assert!(e.execute(&mut h, b"zz".to_vec()).novel);
    assert!(!e.execute(&mut h, b"yy".to_vec()).novel);
    assert!(e.execute(&mut h, b"a".to_vec()).novel);
    assert!(!e.execute(&mut h, b"aq".to_vec()).novel);
    assert!(e.execute(&mut h, b"ab".to_vec()).novel);
    assert_eq!(maxima(&e)[..4], [1, 1, 1, 0]);
    assert_eq!(corpus_inputs(&e), vec![b"zz".to_vec(), b"a".to_vec(), b"ab".to_vec()]);
    assert_eq!(e.corpus().get(1).found_at, 2);
}

#[test]
fn reset_gives_fewer_admissions_than_accumulation() {
    let inputs: Vec<Vec<u8>> = vec![
        b"aaaa".to_vec(),
        b"bb".to_vec(),
        b"aaaa".to_vec(),
        b"ab".to_vec(),
        b"aaaa".to_vec(),
        b"bb".to_vec(),
    ];
    let count = |reset: bool| {
        let mut e = Engine::new(reset);
        let mut h = CountingHarness;
        for i in &inputs {
            e.execute(&mut h, i.clone());
        }
        e.corpus().len()
    };
    let with_reset = count(true);
    let without_reset = count(false);
    assert_eq!(with_reset, 2);
    assert_eq!(without_reset, 6);
    assert!(with_reset < without_reset);
}

#[test]
fn prepare_clears_map_only_when_resetting() {
    let mut e = Engine::new(false);
    let mut h = AbcHarness;
    e.execute(&mut h, b"a".to_vec());
    e.prepare_execution();
    assert_eq!(e.signal_map().get(1), 1);
    let mut e = Engine::new(true);
    e.execute(&mut h, b"a".to_vec());
    e.prepare_execution();
    assert_eq!(e.signal_map().snapshot(), vec![0u8; 16]);
}

#[test]
fn seeding_without_any_signal_fails() {
    let mut rng = StdRand::with_seed(1);
    let mut e = Engine::new(true);
    let mut h = SilentHarness;
    assert_eq!(e.seed(&mut rng, &mut h, 8, 32), Err(EngineError::NoViableSeed));
    assert_eq!(e.current_phase(), Phase::Seeding);
    assert_eq!(e.execution_count(), 8);
}

#[test]
fn fuzzing_an_empty_corpus_fails() {
    let mut rng = StdRand::with_seed(1);
    let mut e = Engine::new(true);
    let mut h = AbcHarness;
    assert!(matches!(e.fuzz_one(&mut rng, &mut h), Err(EngineError::EmptyCorpus)));
    assert_eq!(e.fuzz_loop(&mut rng, &mut h, 5), Err(EngineError::EmptyCorpus));
}

#[test]
fn stopped_engine_takes_no_work() {
    let mut rng = StdRand::with_seed(1);
    let mut e = Engine::new(true);
    let mut h = AbcHarness;
    e.seed(&mut rng, &mut h, 8, 32).unwrap();
    e.stop();
    let n = e.execution_count();
    assert!(matches!(e.fuzz_one(&mut rng, &mut h), Err(EngineError::Stopped)));
    assert_eq!(e.seed(&mut rng, &mut h, 8, 32), Err(EngineError::Stopped));
    assert_eq!(e.fuzz_loop(&mut rng, &mut h, 3), Err(EngineError::Stopped));
    assert_eq!(e.execution_count(), n);
}

#[test]
fn seeds_are_printable_and_bounded() {
    let mut rng = StdRand::with_seed(5);
    let mut seen_long = false;
    for _ in 0..200 {
        let s = generate_seed(&mut rng, 32);
        assert!(!s.is_empty() && s.len() <= 32);
        assert!(s.iter().all(|b| (32..=126).contains(b)));
        seen_long |= s.len() > 1;
    }
    assert!(seen_long);
    assert_eq!(generate_seed(&mut rng, 0).len(), 1);
}

#[test]
fn seeds_enter_the_corpus_in_order() {
    let mut rng = StdRand::with_seed(9);
    let mut e = Engine::new(true);
    let mut h = CountingHarness;
    assert_eq!(e.seed(&mut rng, &mut h, 8, 32), Ok(()));
    let c = e.corpus();
    assert!(c.len() >= 1 && c.len() <= 8);
    for i in 0..c.len() {
        let entry = c.get(i);
        assert!(entry.input.iter().all(|b| (32..=126).contains(b)));
        if i > 0 {
            assert!(c.get(i - 1).found_at < entry.found_at);
        }
    }
}

#[test]
fn one_iteration_is_a_stage_on_the_scheduled_base() {
    let mut rng = StdRand::with_seed(21);
    let mut e = Engine::new(true);
    let mut h = CountingHarness;
    e.seed(&mut rng, &mut h, 8, 32).unwrap();
    for _ in 0..50 {
        let len_before = e.corpus().len();
        let crashes_before = e.crash_count();
        let runs_before = e.execution_count();
        let reps = e.fuzz_one(&mut rng, &mut h).unwrap();
        assert!(!reps.is_empty() && reps.len() <= 128);
        let admitted = reps.iter().filter(|r| r.novel).count();
        assert_eq!(e.corpus().len(), len_before + admitted);
        assert_eq!(e.crash_count(), crashes_before);
        assert_eq!(e.execution_count(), runs_before + reps.len() as u64);
        assert!(reps.iter().all(|r| !r.input.is_empty()));
    }
}

#[test]
fn draws_become_operators_and_bytes() {
    assert_eq!(op_from_draws(0, 9, 300), MutOp { kind: MutKind::BitFlip, pos: 9, value: 44 });
    assert_eq!(op_from_draws(4, 1, 7).kind, MutKind::InsertByte);
    assert_eq!(op_from_draws(6, 1, 7).kind, MutKind::Overwrite);
    assert_eq!(op_from_draws(7, 1, 7).kind, MutKind::Splice);
    assert_eq!(op_from_draws(99, 1, 7).kind, MutKind::Splice);
    assert_eq!(printable_from_draw(0), b' ');
    assert_eq!(printable_from_draw(94), b'~');
    assert_eq!(seed_len_from_draw(0), 1);
    assert_eq!(seed_len_from_draw(17), 17);
}

#[test]
fn loop_runs_every_iteration() {
    let mut rng = StdRand::with_seed(8);
    let mut e = Engine::new(true);
    let mut h = CountingHarness;
    e.seed(&mut rng, &mut h, 8, 32).unwrap();
    assert_eq!(e.execution_count(), 8);
    assert_eq!(e.fuzz_loop(&mut rng, &mut h, 25), Ok(25));
    assert!(e.execution_count() >= 8 + 25);
    assert_eq!(e.current_phase(), Phase::Stopped);
    let n = e.execution_count();
    assert_eq!(e.fuzz_loop(&mut rng, &mut h, 0), Err(EngineError::Stopped));
    assert_eq!(e.execution_count(), n);
}
