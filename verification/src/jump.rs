//! Bracket matching: where a jump lands.
//!
//! A jump finds its partner by a linear scan that keeps a nesting counter.
//! The counter starts at 1 on the bracket that jumps, goes up at every further
//! bracket of the same kind, down at every bracket of the other kind, and the
//! scan stops where it reaches 0. The definitions below say what that
//! position is without running the scan: it is the nearest position at which
//! the brackets passed so far balance the one that jumps.

use vstd::prelude::*;
use crate::instruction::Instruction;

verus! {

/// What one opcode adds to the nesting depth: `[` opens a level, `]` closes
/// one, everything else leaves it alone.
pub open spec fn nesting(op: Instruction) -> int {
    match op {
        Instruction::JumpForwardIfZero => 1,
        Instruction::JumpBackwardIfNonZero => -1,
        _ => 0,
    }
}

/// The net number of levels opened by `program[lo..hi]`: its `[` minus its `]`.
pub open spec fn balance(program: Seq<Instruction>, lo: int, hi: int) -> int
    decreases hi - lo,
{
    if hi <= lo {
        0
    } else {
        balance(program, lo, hi - 1) + nesting(program[hi - 1])
    }
}

/// The counter of a forward scan that started on `p` and has just passed `k`.
pub open spec fn forward_depth(program: Seq<Instruction>, p: int, k: int) -> int {
    1 + balance(program, p + 1, k + 1)
}

/// The counter of a backward scan that started on `p` and has just passed `k`.
pub open spec fn backward_depth(program: Seq<Instruction>, p: int, k: int) -> int {
    1 - balance(program, k, p)
}

/// `j` is where a forward scan from `p` stops: the first position after `p`
/// at which the counter is 0.
pub open spec fn closes(program: Seq<Instruction>, p: int, j: int) -> bool {
    &&& p < j < program.len()
    &&& forward_depth(program, p, j) == 0
    &&& forall|k: int| p < k < j ==> #[trigger] forward_depth(program, p, k) > 0
}

/// `j` is where a backward scan from `p` stops: the last position before `p`
/// at which the counter is 0.
pub open spec fn opens(program: Seq<Instruction>, p: int, j: int) -> bool {
    &&& 0 <= j < p
    &&& backward_depth(program, p, j) == 0
    &&& forall|k: int| j < k < p ==> #[trigger] backward_depth(program, p, k) > 0
}

/// The position on which a forward jump from `p` lands, or `None` if the
/// program ends before the counter reaches 0.
pub open spec fn forward_target(program: Seq<Instruction>, p: int) -> Option<int> {
    if exists|j: int| closes(program, p, j) {
        Some(choose|j: int| closes(program, p, j))
    } else {
        None
    }
}

/// The position on which a backward jump from `p` lands, or `None` if the
/// program begins before the counter reaches 0.
pub open spec fn backward_target(program: Seq<Instruction>, p: int) -> Option<int> {
    if exists|j: int| opens(program, p, j) {
        Some(choose|j: int| opens(program, p, j))
    } else {
        None
    }
}

/// The balance of a range is the sum of the balances of its two parts.
pub proof fn lemma_balance_split(program: Seq<Instruction>, lo: int, mid: int, hi: int)
    requires
        lo <= mid <= hi,
    ensures
        balance(program, lo, hi) == balance(program, lo, mid) + balance(program, mid, hi),
    decreases hi - mid,
{
    if mid < hi {
        lemma_balance_split(program, lo, mid, hi - 1);
    }
}

/// A forward scan stops at one position at most, so a position that `closes`
/// is the target.
pub proof fn lemma_closes_is_target(program: Seq<Instruction>, p: int, j: int)
    requires
        closes(program, p, j),
    ensures
        forward_target(program, p) == Some(j),
{
    let t = choose|t: int| closes(program, p, t);
    if t < j {
        assert(forward_depth(program, p, t) > 0);
    } else if j < t {
        assert(forward_depth(program, p, j) > 0);
    }
}

/// A backward scan stops at one position at most, so a position that `opens`
/// is the target.
pub proof fn lemma_opens_is_target(program: Seq<Instruction>, p: int, j: int)
    requires
        opens(program, p, j),
    ensures
        backward_target(program, p) == Some(j),
{
    let t = choose|t: int| opens(program, p, t);
    if t > j {
        assert(backward_depth(program, p, t) > 0);
    } else if j > t {
        assert(backward_depth(program, p, j) > 0);
    }
}

/// A forward jump has a target exactly if the counter is 0 somewhere between
/// the bracket and the end of the program. Put the other way round: the
/// bracket at `p` is unmatched exactly if the counter stays away from 0 all
/// the way to the end.
pub proof fn lemma_forward_target_exists(program: Seq<Instruction>, p: int)
    requires
        0 <= p,
    ensures
        forward_target(program, p) is Some <==> exists|k: int|
            p < k < program.len() && #[trigger] forward_depth(program, p, k) == 0,
{
    if exists|k: int| p < k < program.len() && #[trigger] forward_depth(program, p, k) == 0 {
        let k = choose|k: int|
            p < k < program.len() && #[trigger] forward_depth(program, p, k) == 0;
        lemma_first_forward_zero(program, p, k);
    }
}

/// A backward jump has a target exactly if the counter is 0 somewhere between
/// the start of the program and the bracket.
pub proof fn lemma_backward_target_exists(program: Seq<Instruction>, p: int)
    requires
        p <= program.len(),
    ensures
        backward_target(program, p) is Some <==> exists|k: int|
            0 <= k < p && #[trigger] backward_depth(program, p, k) == 0,
{
    if exists|k: int| 0 <= k < p && #[trigger] backward_depth(program, p, k) == 0 {
        let k = choose|k: int| 0 <= k < p && #[trigger] backward_depth(program, p, k) == 0;
        lemma_first_backward_zero(program, p, k);
    }
}

/// The two scans agree on which brackets belong together: where the forward
/// jump from a `[` lands on `j`, the backward jump from `j` lands on that `[`,
/// and the same with the directions exchanged.
pub proof fn lemma_match_is_mutual(program: Seq<Instruction>, p: int, j: int)
    requires
        0 <= p < j < program.len(),
    ensures
        program[p] == Instruction::JumpForwardIfZero && forward_target(program, p) == Some(j)
            <==> program[j] == Instruction::JumpBackwardIfNonZero && backward_target(program, j)
            == Some(p),
{
    if program[p] == Instruction::JumpForwardIfZero && forward_target(program, p) == Some(j) {
        assert(closes(program, p, j));
        assert(forward_depth(program, p, j - 1) > 0) by {
            assert(balance(program, p + 1, p + 1) == 0);
        }
        assert forall|k: int| p < k < j implies #[trigger] backward_depth(program, j, k) > 0 by {
            lemma_balance_split(program, p + 1, k, j);
            assert(forward_depth(program, p, k - 1) > 0) by {
                assert(balance(program, p + 1, p + 1) == 0);
            }
        }
        lemma_balance_split(program, p, p + 1, j);
        assert(balance(program, p, p + 1) == 1) by {
            assert(balance(program, p, p) == 0);
        }
        assert(opens(program, j, p));
        lemma_opens_is_target(program, j, p);
    }
    if program[j] == Instruction::JumpBackwardIfNonZero && backward_target(program, j) == Some(p) {
        assert(opens(program, j, p));
        lemma_balance_split(program, p, p + 1, j);
        assert(balance(program, p, p + 1) == nesting(program[p])) by {
            assert(balance(program, p, p) == 0);
        }
        assert(backward_depth(program, j, p + 1) > 0) by {
            assert(balance(program, j, j) == 0);
        }
        assert forall|k: int| p < k < j implies #[trigger] forward_depth(program, p, k) > 0 by {
            lemma_balance_split(program, p + 1, k + 1, j);
            assert(backward_depth(program, j, k + 1) > 0) by {
                assert(balance(program, j, j) == 0);
            }
        }
        assert(closes(program, p, j));
        lemma_closes_is_target(program, p, j);
    }
}

/// Where the counter of a forward scan is 0 or less at `k`, the scan has
/// stopped at `k` or before.
proof fn lemma_first_forward_zero(program: Seq<Instruction>, p: int, k: int)
    requires
        p < k < program.len(),
        forward_depth(program, p, k) <= 0,
    ensures
        exists|j: int| closes(program, p, j),
    decreases k - p,
{
    if exists|i: int| p < i < k && #[trigger] forward_depth(program, p, i) <= 0 {
        let i = choose|i: int| p < i < k && #[trigger] forward_depth(program, p, i) <= 0;
        lemma_first_forward_zero(program, p, i);
    } else {
        assert(forward_depth(program, p, k - 1) > 0) by {
            assert(balance(program, p + 1, p + 1) == 0);
        }
        assert(closes(program, p, k));
    }
}

/// Where the counter of a backward scan is 0 or less at `k`, the scan has
/// stopped at `k` or after.
proof fn lemma_first_backward_zero(program: Seq<Instruction>, p: int, k: int)
    requires
        0 <= k < p <= program.len(),
        backward_depth(program, p, k) <= 0,
    ensures
        exists|j: int| opens(program, p, j),
    decreases p - k,
{
    if exists|i: int| k < i < p && #[trigger] backward_depth(program, p, i) <= 0 {
        let i = choose|i: int| k < i < p && #[trigger] backward_depth(program, p, i) <= 0;
        lemma_first_backward_zero(program, p, i);
    } else {
        lemma_balance_split(program, k, k + 1, p);
        assert(balance(program, k, k + 1) == nesting(program[k])) by {
            assert(balance(program, k, k) == 0);
        }
        assert(backward_depth(program, p, k + 1) > 0) by {
            assert(balance(program, p, p) == 0);
        }
        assert(opens(program, p, k));
    }
}

/// Scans forward from `p` for the position that brings the nesting counter
/// to 0.
pub fn scan_forward(program: &[Instruction], p: usize) -> (target: Option<usize>)
    requires
        p < program@.len(),
    ensures
        match target {
            Some(j) => closes(program@, p as int, j as int) && forward_target(program@, p as int)
                == Some(j as int),
            None => forward_target(program@, p as int) is None,
        },
{
    let mut i: usize = p;
    let mut depth: usize = 1;
    while depth > 0
        invariant
            p <= i < program@.len(),
            depth == forward_depth(program@, p as int, i as int),
            depth <= i - p + 1,
            forall|k: int| p < k < i ==> #[trigger] forward_depth(program@, p as int, k) > 0,
        decreases program@.len() - i,
    {
        if program.len() - i <= 1 {
            assert forall|j: int| !closes(program@, p as int, j) by {
                if p < j < program@.len() && j != i {
                    assert(forward_depth(program@, p as int, j) > 0);
                }
            }
            return None;
        }
        i += 1;
        match program[i] {
            Instruction::JumpForwardIfZero => {
                depth += 1;
            },
            Instruction::JumpBackwardIfNonZero => {
                depth -= 1;
            },
            _ => {},
        }
    }
    proof {
        lemma_closes_is_target(program@, p as int, i as int);
    }
    Some(i)
}

/// Scans backward from `p` for the position that brings the nesting counter
/// to 0.
pub fn scan_backward(program: &[Instruction], p: usize) -> (target: Option<usize>)
    requires
        p < program@.len(),
    ensures
        match target {
            Some(j) => opens(program@, p as int, j as int) && backward_target(program@, p as int)
                == Some(j as int),
            None => backward_target(program@, p as int) is None,
        },
{
    let mut i: usize = p;
    let mut depth: usize = 1;
    while depth > 0
        invariant
            i <= p < program@.len(),
            depth == backward_depth(program@, p as int, i as int),
            depth <= p - i + 1,
            forall|k: int| i < k < p ==> #[trigger] backward_depth(program@, p as int, k) > 0,
        decreases i,
    {
        if i == 0 {
            assert forall|j: int| !opens(program@, p as int, j) by {
                if 0 < j < p {
                    assert(backward_depth(program@, p as int, j) > 0);
                }
            }
            return None;
        }
        i -= 1;
        proof {
            lemma_balance_split(program@, i as int, i + 1, p as int);
            assert(balance(program@, i as int, i + 1) == nesting(program@[i as int])) by {
                assert(balance(program@, i as int, i as int) == 0);
            }
        }
        match program[i] {
            Instruction::JumpBackwardIfNonZero => {
                depth += 1;
            },
            Instruction::JumpForwardIfZero => {
                depth -= 1;
            },
            _ => {},
        }
    }
    proof {
        lemma_opens_is_target(program@, p as int, i as int);
    }
    Some(i)
}

} // verus!
