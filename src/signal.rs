//! The signal map: a fixed number of small counters that a harness writes
//! during one execution to mark the coarse milestones it reached.
use vstd::prelude::*;

verus! {

broadcast use vstd::array::group_array_axioms;

/// Number of signal slots in every map.
pub const MAP_SIZE: usize = 16;

/// A map of all-zero counters.
pub open spec fn zero_signals() -> Seq<u8> {
    Seq::new(MAP_SIZE as nat, |i: int| 0u8)
}

/// The buffer a harness writes into during one execution.
pub struct SignalMap {
    cells: [u8; MAP_SIZE],
}

impl View for SignalMap {
    type V = Seq<u8>;

    closed spec fn view(&self) -> Seq<u8> {
        self.cells@
    }
}

impl SignalMap {
    /// Every map holds exactly `MAP_SIZE` counters.
    pub broadcast proof fn lemma_len(m: &SignalMap)
        ensures
            #[trigger] m@.len() == MAP_SIZE,
    {
    }

    /// A map whose counters are all zero.
    pub fn new() -> (m: SignalMap)
        ensures
            m@ == zero_signals(),
    {
        let m = SignalMap { cells: [0u8; MAP_SIZE] };
        assert(m@ =~= zero_signals());
        m
    }

    /// Number of slots.
    pub fn len(&self) -> (n: usize)
        ensures
            n == MAP_SIZE,
            n == self@.len(),
    {
        MAP_SIZE
    }

    /// Puts every counter back to zero.
    pub fn reset(&mut self)
        ensures
            final(self)@ == zero_signals(),
    {
        self.cells = [0u8; MAP_SIZE];
        assert(self@ =~= zero_signals());
    }

    /// Marks slot `idx` as reached: its counter becomes 1.
    pub fn set(&mut self, idx: usize)
        requires
            idx < MAP_SIZE,
        ensures
            final(self)@ == old(self)@.update(idx as int, 1u8),
    {
        self.cells[idx] = 1u8;
    }

    /// Counts one more hit of slot `idx`; the counter stays at 255 once there.
    pub fn hit(&mut self, idx: usize)
        requires
            idx < MAP_SIZE,
        ensures
            final(self)@ == old(self)@.update(
                idx as int,
                if old(self)@[idx as int] == 255 { 255u8 } else { (old(self)@[idx as int] + 1) as u8 },
            ),
    {
        let c = self.cells[idx];
        let n: u8 = if c == 255 { 255 } else { c + 1 };
        self.cells[idx] = n;
    }

    /// The value of slot `idx`.
    pub fn get(&self, idx: usize) -> (v: u8)
        requires
            idx < MAP_SIZE,
        ensures
            v == self@[idx as int],
    {
        self.cells[idx]
    }

    /// An immutable copy of the counters.
    pub fn snapshot(&self) -> (s: Vec<u8>)
        ensures
            s@ == self@,
    {
        let mut s: Vec<u8> = Vec::with_capacity(MAP_SIZE);
        let mut i: usize = 0;
        while i < MAP_SIZE
            invariant
                i <= MAP_SIZE,
                self@.len() == MAP_SIZE,
                s@ == self@.subrange(0, i as int),
            decreases MAP_SIZE - i,
        {
            s.push(self.cells[i]);
            i = i + 1;
            assert(s@ =~= self@.subrange(0, i as int));
        }
        assert(s@ =~= self@);
        s
    }
}

} // verus!
