//! Byte-level mutation operators and their stacking.
use vstd::prelude::*;

verus! {

/// Largest input that an insertion may still grow.
pub const MAX_INPUT_LEN: usize = 1048576;

/// Largest number of operators that one havoc round stacks.
pub const MAX_STACK: usize = 16;

/// The primitive operators.
#[derive(Clone, Copy, Debug, PartialEq, Eq, Structural)]
pub enum MutKind {
    BitFlip,
    ByteFlip,
    Increment,
    Decrement,
    InsertByte,
    DeleteByte,
    Overwrite,
    Splice,
}

/// One operator with its raw parameters: `pos` is reduced modulo the
/// length of the input at the time the operator applies, `value` is the
/// byte written (or, for a bit flip, selects the bit).
#[derive(Clone, Copy, Debug, PartialEq, Eq, Structural)]
pub struct MutOp {
    pub kind: MutKind,
    pub pos: u64,
    pub value: u8,
}

/// What an in-place operator makes of one byte.
pub open spec fn byte_op(kind: MutKind, b: u8, v: u8) -> u8 {
    match kind {
        MutKind::BitFlip => b ^ ((1u8 << (v % 8)) as u8),
        MutKind::ByteFlip => b ^ 255u8,
        MutKind::Increment => if b == 255 { 0u8 } else { (b + 1) as u8 },
        MutKind::Decrement => if b == 0 { 255u8 } else { (b - 1) as u8 },
        _ => v,
    }
}

/// Where a splice cuts: a point within both inputs.
pub open spec fn splice_point(s: Seq<u8>, other: Seq<u8>, pos: u64) -> int {
    let m = if s.len() < other.len() { s.len() } else { other.len() };
    (pos as int) % ((m + 1) as int)
}

/// The result of applying `op` to `s`; `other` is the corpus entry that a
/// splice takes its tail from. An operator that cannot apply (no byte to
/// change, deletion of the last byte, insertion at the size limit, splice
/// with an empty or oversized partner) leaves the input as it is.
pub open spec fn apply_op(s: Seq<u8>, other: Seq<u8>, op: MutOp) -> Seq<u8> {
    match op.kind {
        MutKind::InsertByte => if s.len() < MAX_INPUT_LEN {
            s.insert((op.pos as int) % ((s.len() + 1) as int), op.value)
        } else {
            s
        },
        MutKind::DeleteByte => if s.len() >= 2 {
            s.remove((op.pos as int) % (s.len() as int))
        } else {
            s
        },
        MutKind::Splice => if s.len() > 0 && other.len() > 0 && other.len() <= MAX_INPUT_LEN {
            let k = splice_point(s, other, op.pos);
            s.subrange(0, k) + other.subrange(k, other.len() as int)
        } else {
            s
        },
        _ => if s.len() > 0 {
            let p = (op.pos as int) % (s.len() as int);
            s.update(p, byte_op(op.kind, s[p], op.value))
        } else {
            s
        },
    }
}

/// The result of applying `ops` in order.
pub open spec fn apply_all(s: Seq<u8>, other: Seq<u8>, ops: Seq<MutOp>) -> Seq<u8>
    decreases ops.len(),
{
    if ops.len() == 0 {
        s
    } else {
        apply_op(apply_all(s, other, ops.drop_last()), other, ops.last())
    }
}

/// Overwriting a byte never changes the length; inserting a byte adds one;
/// deleting a byte removes one.
pub proof fn lemma_mutation_lengths(s: Seq<u8>, other: Seq<u8>, op: MutOp)
    ensures
        op.kind == MutKind::Overwrite ==> apply_op(s, other, op).len() == s.len(),
        op.kind == MutKind::InsertByte && s.len() < MAX_INPUT_LEN ==> apply_op(s, other, op).len()
            == s.len() + 1,
        op.kind == MutKind::DeleteByte && s.len() >= 2 ==> apply_op(s, other, op).len() == s.len()
            - 1,
{
}

/// No operator empties a non-empty input, and none grows an input past the
/// size limit unless it was already past it.
pub proof fn lemma_op_bounds(s: Seq<u8>, other: Seq<u8>, op: MutOp)
    ensures
        s.len() > 0 ==> apply_op(s, other, op).len() > 0,
        s.len() <= MAX_INPUT_LEN ==> apply_op(s, other, op).len() <= MAX_INPUT_LEN,
{
    if op.kind == MutKind::Splice && s.len() > 0 && other.len() > 0 && other.len() <= MAX_INPUT_LEN {
        let k = splice_point(s, other, op.pos);
        assert(0 <= k <= s.len() && k <= other.len());
    }
}

/// Stacked operators keep the same bounds as a single one.
pub proof fn lemma_all_bounds(s: Seq<u8>, other: Seq<u8>, ops: Seq<MutOp>)
    ensures
        s.len() > 0 ==> apply_all(s, other, ops).len() > 0,
        s.len() <= MAX_INPUT_LEN ==> apply_all(s, other, ops).len() <= MAX_INPUT_LEN,
    decreases ops.len(),
{
    if ops.len() > 0 {
        lemma_all_bounds(s, other, ops.drop_last());
        lemma_op_bounds(apply_all(s, other, ops.drop_last()), other, ops.last());
    }
}

/// Applies one operator, yielding a new input.
pub fn apply_op_exec(s: &Vec<u8>, other: &Vec<u8>, op: MutOp) -> (r: Vec<u8>)
    ensures
        r@ == apply_op(s@, other@, op),
{
    let n = s.len();
    match op.kind {
        MutKind::InsertByte => {
            let mut r = s.clone();
            if n < MAX_INPUT_LEN {
                let p = (op.pos % (n as u64 + 1)) as usize;
                r.insert(p, op.value);
            }
            r
        },
        MutKind::DeleteByte => {
            let mut r = s.clone();
            if n >= 2 {
                let p = (op.pos % (n as u64)) as usize;
                r.remove(p);
            }
            r
        },
        MutKind::Splice => {
            let m = other.len();
            if n > 0 && m > 0 && m <= MAX_INPUT_LEN {
                let lim = if n < m { n } else { m };
                let k = (op.pos % (lim as u64 + 1)) as usize;
                let mut r: Vec<u8> = Vec::new();
                let mut i: usize = 0;
                while i < k
                    invariant
                        k <= n == s@.len(),
                        k <= m == other@.len(),
                        i <= k,
                        r@ == s@.subrange(0, i as int),
                    decreases k - i,
                {
                    r.push(s[i]);
                    i = i + 1;
                    assert(r@ =~= s@.subrange(0, i as int));
                }
                let mut j: usize = k;
                while j < m
                    invariant
                        k <= n == s@.len(),
                        k <= m == other@.len(),
                        k <= j <= m,
                        r@ == s@.subrange(0, k as int) + other@.subrange(k as int, j as int),
                    decreases m - j,
                {
                    r.push(other[j]);
                    j = j + 1;
                    assert(r@ =~= s@.subrange(0, k as int) + other@.subrange(k as int, j as int));
                }
                r
            } else {
                s.clone()
            }
        },
        _ => {
            let mut r = s.clone();
            if n > 0 {
                let p = (op.pos % (n as u64)) as usize;
                let b = r[p];
                let v = match op.kind {
                    MutKind::BitFlip => b ^ (1u8 << (op.value % 8)),
                    MutKind::ByteFlip => b ^ 255u8,
                    MutKind::Increment => if b == 255 { 0u8 } else { b + 1 },
                    MutKind::Decrement => if b == 0 { 255u8 } else { b - 1 },
                    _ => op.value,
                };
                r.set(p, v);
            }
            r
        },
    }
}

/// Overwrites the byte at `pos` (reduced modulo the length) with `value`:
/// the single operator of the degenerate search mode.
pub fn overwrite_byte(s: &Vec<u8>, pos: u64, value: u8) -> (r: Vec<u8>)
    ensures
        r@ == apply_op(s@, s@, MutOp { kind: MutKind::Overwrite, pos, value }),
        r@.len() == s@.len(),
        s@.len() > 0 ==> r@ == s@.update((pos as int) % (s@.len() as int), value),
{
    apply_op_exec(s, s, MutOp { kind: MutKind::Overwrite, pos, value })
}

/// Applies `ops` in order.
pub fn apply_all_exec(s: &Vec<u8>, other: &Vec<u8>, ops: &Vec<MutOp>) -> (r: Vec<u8>)
    ensures
        r@ == apply_all(s@, other@, ops@),
{
    let mut cur = s.clone();
    let mut i: usize = 0;
    assert(ops@.subrange(0, 0) =~= Seq::<MutOp>::empty());
    while i < ops.len()
        invariant
            i <= ops@.len(),
            cur@ == apply_all(s@, other@, ops@.subrange(0, i as int)),
        decreases ops@.len() - i,
    {
        let next = apply_op_exec(&cur, other, ops[i]);
        assert(ops@.subrange(0, i as int + 1).drop_last() =~= ops@.subrange(0, i as int));
        cur = next;
        i = i + 1;
    }
    assert(ops@.subrange(0, i as int) =~= ops@);
    cur
}

} // verus!
