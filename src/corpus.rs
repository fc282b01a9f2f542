//! The volatile corpus of admitted inputs, the crash record, and the
//! round-robin scheduler over the corpus.
use vstd::prelude::*;

verus! {

/// An admitted input with the number of executions that preceded it and the
/// signals that justified its admission.
#[derive(Clone, Debug)]
pub struct CorpusEntry {
    pub input: Vec<u8>,
    pub found_at: u64,
    pub signals: Vec<u8>,
}

impl View for CorpusEntry {
    type V = (Seq<u8>, u64, Seq<u8>);

    open spec fn view(&self) -> (Seq<u8>, u64, Seq<u8>) {
        (self.input@, self.found_at, self.signals@)
    }
}

/// A failing input with the signals of the failing execution.
#[derive(Clone, Debug)]
pub struct Crash {
    pub input: Vec<u8>,
    pub signals: Vec<u8>,
}

impl View for Crash {
    type V = (Seq<u8>, Seq<u8>);

    open spec fn view(&self) -> (Seq<u8>, Seq<u8>) {
        (self.input@, self.signals@)
    }
}

/// Admitted inputs in order of admission; never deduplicated, never evicted.
pub struct Corpus {
    entries: Vec<CorpusEntry>,
}

impl View for Corpus {
    type V = Seq<(Seq<u8>, u64, Seq<u8>)>;

    closed spec fn view(&self) -> Seq<(Seq<u8>, u64, Seq<u8>)> {
        self.entries@.map_values(|e: CorpusEntry| e@)
    }
}

impl Corpus {
    /// An empty corpus.
    pub fn new() -> (c: Corpus)
        ensures
            c@ == Seq::<(Seq<u8>, u64, Seq<u8>)>::empty(),
    {
        let c = Corpus { entries: Vec::new() };
        assert(c@ =~= Seq::<(Seq<u8>, u64, Seq<u8>)>::empty());
        c
    }

    /// Number of entries.
    pub fn len(&self) -> (n: usize)
        ensures
            n == self@.len(),
    {
        self.entries.len()
    }

    /// Whether the corpus holds no entry.
    pub fn is_empty(&self) -> (r: bool)
        ensures
            r == (self@.len() == 0),
    {
        self.entries.len() == 0
    }

    /// Appends an entry after all existing ones.
    pub fn add(&mut self, entry: CorpusEntry)
        ensures
            final(self)@ == old(self)@.push(entry@),
    {
        self.entries.push(entry);
        assert(self@ =~= old(self)@.push(entry@));
    }

    /// The entry at position `i`.
    pub fn get(&self, i: usize) -> (e: &CorpusEntry)
        requires
            i < self@.len(),
        ensures
            e@ == self@[i as int],
    {
        &self.entries[i]
    }
}

/// Why the engine could not go on.
#[derive(Clone, Copy, Debug, PartialEq, Eq, Structural)]
pub enum EngineError {
    /// The corpus holds nothing to schedule.
    EmptyCorpus,
    /// Seeding left the corpus empty.
    NoViableSeed,
    /// The engine has stopped and takes no further work.
    Stopped,
}

/// The index that a cursor selects in a corpus of `len` entries: the cursor
/// itself while it is inside the corpus, otherwise the first entry.
pub open spec fn scheduled_index(cursor: nat, len: nat) -> nat {
    if cursor < len {
        cursor
    } else {
        0
    }
}

/// Round-robin selection in order of admission. Entries appended while a
/// round is under way are reached in the same round.
pub struct Scheduler {
    cursor: usize,
}

impl View for Scheduler {
    type V = nat;

    /// The position that the next selection starts from.
    closed spec fn view(&self) -> nat {
        self.cursor as nat
    }
}

impl Scheduler {
    /// A scheduler that starts at the first entry.
    pub fn new() -> (s: Scheduler)
        ensures
            s@ == 0,
    {
        Scheduler { cursor: 0 }
    }

    /// Selects the next entry of a corpus of `len` entries and moves past it.
    pub fn next(&mut self, len: usize) -> (r: Result<usize, EngineError>)
        ensures
            len == 0 ==> r == Err::<usize, EngineError>(EngineError::EmptyCorpus) && final(self)@
                == old(self)@,
            len > 0 ==> r == Ok::<usize, EngineError>(selection(old(self)@, len as nat, 0) as usize)
                && final(self)@ == cursor_after(old(self)@, len as nat, 1),
    {
        if len == 0 {
            return Err(EngineError::EmptyCorpus);
        }
        let i = if self.cursor < len { self.cursor } else { 0 };
        self.cursor = i + 1;
        Ok(i)
    }
}


/// The cursor after `k` selections over a corpus of `len` entries.
pub open spec fn cursor_after(cursor: nat, len: nat, k: nat) -> nat
    decreases k,
{
    if k == 0 {
        cursor
    } else {
        scheduled_index(cursor_after(cursor, len, (k - 1) as nat), len) + 1
    }
}

/// The entry that the selection numbered `k` (from zero) picks.
pub open spec fn selection(cursor: nat, len: nat, k: nat) -> nat {
    scheduled_index(cursor_after(cursor, len, k), len)
}

/// Over a corpus of `len` entries that does not change, the selections go
/// round in order of admission from where the cursor stands, wrapping once
/// past the last entry.
pub proof fn lemma_round_robin_order(cursor: nat, len: nat, k: nat)
    requires
        0 < len,
        k < len,
    ensures
        ({
            let c0 = scheduled_index(cursor, len);
            selection(cursor, len, k) == if c0 + k < len {
                c0 + k
            } else {
                (c0 + k - len) as nat
            }
        }),
    decreases k,
{
    if k > 0 {
        lemma_round_robin_order(cursor, len, (k - 1) as nat);
    }
}

/// Fairness: over a corpus of `len` entries that does not change, `len`
/// selections in a row pick every entry once before any entry is picked a
/// second time.
pub proof fn lemma_round_robin_fair(cursor: nat, len: nat, i: nat, j: nat)
    requires
        0 < len,
        i < j < len,
    ensures
        selection(cursor, len, i) != selection(cursor, len, j),
        selection(cursor, len, i) < len,
{
    lemma_round_robin_order(cursor, len, i);
    lemma_round_robin_order(cursor, len, j);
}

} // verus!
