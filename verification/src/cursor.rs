use vstd::prelude::*;

verus! {

/// The position one step forward of `i`, wrapping past the end of a list of
/// length `n` back to the front.
pub open spec fn succ(i: int, n: int) -> int {
    if i + 1 >= n { 0 } else { i + 1 }
}

/// The position one step back of `i`, wrapping past the front of a list of
/// length `n` to the end.
pub open spec fn pred(i: int, n: int) -> int {
    if i == 0 { n - 1 } else { i - 1 }
}

/// A selection index validated against the current list length: out of range
/// (including the empty list) falls back to the front.
pub open spec fn clamped(i: int, n: int) -> int {
    if 0 <= i < n { i } else { 0 }
}

/// Where a forward move stops with at most `k` probes left: the first
/// position past `start`, in cyclic forward order, that is not active.
/// When the probes run out the move has gone a full cycle and ends where
/// it stands.
pub open spec fn next_from(start: int, active: Seq<bool>, k: nat) -> int
    decreases k,
{
    if k == 0 {
        start
    } else {
        let i = succ(start, active.len() as int);
        if !active[i] {
            i
        } else {
            next_from(i, active, (k - 1) as nat)
        }
    }
}

/// Where a forward move from `start` stops: the first non-active position in
/// cyclic forward order, or `start` itself when every position is active.
pub open spec fn next_index(start: int, active: Seq<bool>) -> int {
    next_from(start, active, active.len())
}

/// Where a backward move stops with at most `k` probes left.
pub open spec fn prev_from(start: int, active: Seq<bool>, k: nat) -> int
    decreases k,
{
    if k == 0 {
        start
    } else {
        let i = pred(start, active.len() as int);
        if !active[i] {
            i
        } else {
            prev_from(i, active, (k - 1) as nat)
        }
    }
}

/// Where a backward move from `start` stops: the first non-active position in
/// cyclic backward order, or `start` itself when every position is active.
pub open spec fn prev_index(start: int, active: Seq<bool>) -> int {
    prev_from(start, active, active.len())
}

/// With every position active, `k` forward probes walk exactly `k` steps
/// around the cycle.
proof fn lemma_next_from_all_active(start: int, active: Seq<bool>, k: nat)
    requires
        0 <= start < active.len(),
        k <= active.len(),
        forall|i: int| 0 <= i < active.len() ==> active[i],
    ensures
        next_from(start, active, k) == if start + k < active.len() {
            start + k
        } else {
            start + k - active.len()
        },
    decreases k,
{
    if k == 0 {
    } else {
        lemma_next_from_all_active(succ(start, active.len() as int), active, (k - 1) as nat);
    }
}

/// With every position active, `k` backward probes walk exactly `k` steps
/// around the cycle.
proof fn lemma_prev_from_all_active(start: int, active: Seq<bool>, k: nat)
    requires
        0 <= start < active.len(),
        k <= active.len(),
        forall|i: int| 0 <= i < active.len() ==> active[i],
    ensures
        prev_from(start, active, k) == if start - k >= 0 {
            start - k
        } else {
            start - k + active.len()
        },
    decreases k,
{
    if k == 0 {
    } else {
        lemma_prev_from_all_active(pred(start, active.len() as int), active, (k - 1) as nat);
    }
}

/// With every entry active there is no eligible stopping
/// point, and a move in either direction leaves the selection where it was.
pub proof fn lemma_move_all_active(start: int, active: Seq<bool>)
    requires
        0 <= start < active.len(),
        forall|i: int| 0 <= i < active.len() ==> active[i],
    ensures
        next_index(start, active) == start,
        prev_index(start, active) == start,
{
    lemma_next_from_all_active(start, active, active.len());
    lemma_prev_from_all_active(start, active, active.len());
}

/// A forward move reaches the sole non-active position `t` as soon as the
/// probe budget covers the cyclic distance from `start` to `t`.
proof fn lemma_next_from_sole_target(start: int, active: Seq<bool>, t: int, k: nat)
    requires
        0 <= start < active.len(),
        0 <= t < active.len(),
        !active[t],
        forall|i: int| 0 <= i < active.len() && i != t ==> active[i],
        (if t > start {
            t - start
        } else {
            t - start + active.len()
        }) <= k,
    ensures
        next_from(start, active, k) == t,
    decreases k,
{
    let n = active.len() as int;
    let i = succ(start, n);
    if i == t {
    } else {
        lemma_next_from_sole_target(i, active, t, (k - 1) as nat);
    }
}

/// When exactly one position is not active, a forward
/// move from any starting position stops there — so repeated moves converge
/// to it and then stay there.
pub proof fn lemma_next_sole_target(start: int, active: Seq<bool>, t: int)
    requires
        0 <= start < active.len(),
        0 <= t < active.len(),
        !active[t],
        forall|i: int| 0 <= i < active.len() && i != t ==> active[i],
    ensures
        next_index(start, active) == t,
        next_index(t, active) == t,
{
    lemma_next_from_sole_target(start, active, t, active.len());
    lemma_next_from_sole_target(t, active, t, active.len());
}

/// The selection cursor: a position into the ranked list, moved cyclically
/// while skipping active entries, reset on every query edit.
pub struct SelectionCursor {
    index: usize,
}

impl SelectionCursor {
    /// The raw stored position (validated against a length on access).
    pub closed spec fn index_view(&self) -> int {
        self.index as int
    }

    /// A fresh cursor at the front of the list.
    pub fn new() -> (r: SelectionCursor)
        ensures
            r.index_view() == 0,
    {
        SelectionCursor { index: 0 }
    }

    /// Reset to the front (called after any query edit).
    pub fn reset(&mut self)
        ensures
            final(self).index_view() == 0,
    {
        self.index = 0;
    }

    /// The selected position in a list of length `len`, validated: a stored
    /// position that no longer fits falls back to the front.
    pub fn selected_index(&self, len: usize) -> (r: usize)
        ensures
            r == clamped(self.index_view(), len as int),
    {
        if self.index < len {
            self.index
        } else {
            0
        }
    }

    /// Advance to the next non-active entry, cyclically, with at most one
    /// full cycle of probes: when every entry is active the cursor does not
    /// move, and on an empty list nothing changes.
    #[verifier::loop_isolation(false)]
    pub fn move_next(&mut self, active: &Vec<bool>)
        ensures
            active@.len() == 0 ==> *final(self) == *old(self),
            active@.len() > 0 ==> final(self).index_view() == next_index(
                clamped(old(self).index_view(), active@.len() as int),
                active@,
            ),
    {
        let n = active.len();
        if n == 0 {
            return;
        }
        let start: usize = if self.index < n {
            self.index
        } else {
            0
        };
        let mut idx: usize = start;
        let mut k: usize = 0;
        while k < n
            invariant
                0 < n == active@.len(),
                k <= n,
                0 <= idx < n,
                next_index(start as int, active@) == next_from(idx as int, active@, (n - k) as nat),
            decreases n - k,
        {
            let step: usize = if idx + 1 >= n {
                0
            } else {
                idx + 1
            };
            proof {
                assert(succ(idx as int, active@.len() as int) == step as int);
                assert(next_from(idx as int, active@, (n - k) as nat) == if !active@[step as int] {
                    step as int
                } else {
                    next_from(step as int, active@, (n - k - 1) as nat)
                });
            }
            if !active[step] {
                self.index = step;
                return;
            }
            idx = step;
            k = k + 1;
        }
        self.index = idx;
    }

    /// Move back to the previous non-active entry, cyclically, with at most
    /// one full cycle of probes; the mirror of `move_next`.
    #[verifier::loop_isolation(false)]
    pub fn move_previous(&mut self, active: &Vec<bool>)
        ensures
            active@.len() == 0 ==> *final(self) == *old(self),
            active@.len() > 0 ==> final(self).index_view() == prev_index(
                clamped(old(self).index_view(), active@.len() as int),
                active@,
            ),
    {
        let n = active.len();
        if n == 0 {
            return;
        }
        let start: usize = if self.index < n {
            self.index
        } else {
            0
        };
        let mut idx: usize = start;
        let mut k: usize = 0;
        while k < n
            invariant
                0 < n == active@.len(),
                k <= n,
                0 <= idx < n,
                prev_index(start as int, active@) == prev_from(idx as int, active@, (n - k) as nat),
            decreases n - k,
        {
            let step: usize = if idx == 0 {
                n - 1
            } else {
                idx - 1
            };
            proof {
                assert(pred(idx as int, active@.len() as int) == step as int);
                assert(prev_from(idx as int, active@, (n - k) as nat) == if !active@[step as int] {
                    step as int
                } else {
                    prev_from(step as int, active@, (n - k - 1) as nat)
                });
            }
            if !active[step] {
                self.index = step;
                return;
            }
            idx = step;
            k = k + 1;
        }
        self.index = idx;
    }
}

} // verus!
