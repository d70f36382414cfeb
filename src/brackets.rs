use vstd::prelude::*;

use crate::instruction::{Instruction, spec_decode, spec_program};

verus! {

/// How an instruction changes the bracket nesting depth.
pub open spec fn delta(i: Instruction) -> int {
    match i {
        Instruction::JumpIfZero => 1,
        Instruction::JumpIfNotZero => -1,
        _ => 0,
    }
}

/// Nesting depth after the first `k` instructions of `p`: opens minus closes.
pub open spec fn depth(p: Seq<Instruction>, k: int) -> int
    decreases k,
{
    if k <= 0 {
        0
    } else {
        depth(p, k - 1) + delta(p[k - 1])
    }
}

/// The `JumpIfZero` at `i` and the `JumpIfNotZero` at `j` are a bracket pair:
/// between them the depth stays above the depth before `i`, and `j` brings it
/// back there.
pub open spec fn is_pair(p: Seq<Instruction>, i: int, j: int) -> bool {
    &&& 0 <= i < j < p.len()
    &&& p[i] == Instruction::JumpIfZero
    &&& p[j] == Instruction::JumpIfNotZero
    &&& depth(p, j + 1) == depth(p, i)
    &&& forall|k: int| i < k <= j ==> #[trigger] depth(p, k) > depth(p, i)
}

/// No instruction in `(i, n]` brings the depth back to its level before `i`:
/// the bracket at `i` is still open after the first `n` instructions.
pub open spec fn open_so_far(p: Seq<Instruction>, i: int, n: int) -> bool {
    forall|k: int| i < k <= n ==> #[trigger] depth(p, k) > depth(p, i)
}

/// Every prefix has at least as many opens as closes, and the whole has as many.
pub open spec fn well_bracketed(p: Seq<Instruction>) -> bool {
    &&& forall|k: int| 0 <= k <= p.len() ==> #[trigger] depth(p, k) >= 0
    &&& depth(p, p.len() as int) == 0
}

/// The `JumpIfNotZero` at `j` is the first one without an open partner.
pub open spec fn first_unmatched_close(p: Seq<Instruction>, j: int) -> bool {
    &&& 0 <= j < p.len()
    &&& depth(p, j + 1) < 0
    &&& forall|k: int| 0 <= k <= j ==> #[trigger] depth(p, k) >= 0
}

/// No close lacks a partner, some open does, and `i` is the earliest open that
/// is never closed: the depth never returns to its level before `i`.
pub open spec fn first_unmatched_open(p: Seq<Instruction>, i: int) -> bool {
    &&& forall|k: int| 0 <= k <= p.len() ==> #[trigger] depth(p, k) >= 0
    &&& depth(p, p.len() as int) > 0
    &&& 0 <= i < p.len()
    &&& depth(p, i) == 0
    &&& forall|k: int| i < k <= p.len() ==> #[trigger] depth(p, k) > 0
}

/// The two jump tables send every bracket of `p` to its partner.
pub open spec fn resolves(p: Seq<Instruction>, to_close: Seq<usize>, to_open: Seq<usize>) -> bool {
    &&& forall|i: int|
        0 <= i < p.len() && p[i] == Instruction::JumpIfZero ==> i < to_close.len() && is_pair(
            p,
            i,
            #[trigger] to_close[i] as int,
        )
    &&& forall|j: int|
        0 <= j < p.len() && p[j] == Instruction::JumpIfNotZero ==> j < to_open.len() && is_pair(
            p,
            #[trigger] to_open[j] as int,
            j,
        )
}

/// A bracket has at most one partner: two pairs that share an end share both.
pub proof fn lemma_pair_unique(p: Seq<Instruction>, i1: int, j1: int, i2: int, j2: int)
    requires
        is_pair(p, i1, j1),
        is_pair(p, i2, j2),
        i1 == i2 || j1 == j2,
    ensures
        i1 == i2 && j1 == j2,
{
    if i1 == i2 {
        if j1 < j2 {
            assert(depth(p, j1 + 1) > depth(p, i2));
        } else if j2 < j1 {
            assert(depth(p, j2 + 1) > depth(p, i1));
        }
    } else if i1 < i2 {
        assert(depth(p, i2) > depth(p, i1));
    } else {
        assert(depth(p, i1) > depth(p, i2));
    }
}

pub open spec fn is_prefix<A>(q: Seq<A>, p: Seq<A>) -> bool {
    q.len() <= p.len() && q =~= p.subrange(0, q.len() as int)
}

/// The program of a prefix of the source is a prefix of the source's program.
pub proof fn lemma_program_prefix(s: Seq<char>, m: int)
    requires
        0 <= m <= s.len(),
    ensures
        is_prefix(spec_program(s.take(m)), spec_program(s)),
    decreases s.len(),
{
    if m == s.len() {
        assert(s.take(m) =~= s);
    } else {
        let t = s.drop_last();
        assert(s.take(m) =~= t.take(m));
        lemma_program_prefix(t, m);
    }
}

/// One more character of source adds at most its own instruction.
pub proof fn lemma_program_step(s: Seq<char>, m: int)
    requires
        0 <= m < s.len(),
    ensures
        spec_program(s.take(m + 1)) == match spec_decode(s[m]) {
            Some(i) => spec_program(s.take(m)).push(i),
            None => spec_program(s.take(m)),
        },
{
    assert(s.take(m + 1).drop_last() =~= s.take(m));
}

} // verus!
