//! Derived facts about a compiled function's blocks: where the
//! straight-line runs begin and end, whether a block closes with an
//! unconditional transfer, and which positions the entry can reach. All of
//! it is computed on demand from the instructions — nothing is tracked on
//! the side.

use vstd::prelude::*;

use crate::ir::Insn;
use crate::machine::CompiledFunction;

verus! {

/// Whether the instruction ends its block: control never falls through it.
pub open spec fn spec_is_dead_end(i: &Insn) -> bool {
    match i {
        Insn::Branch { .. } => true,
        Insn::Return { .. } => true,
        Insn::DefaultReturn => true,
        _ => false,
    }
}

/// Whether the instruction is any control transfer, conditional or not: a
/// block boundary follows it.
pub open spec fn spec_is_transfer(i: &Insn) -> bool {
    match i {
        Insn::Branch { .. } => true,
        Insn::BranchIf { .. } => true,
        Insn::BranchIfNot { .. } => true,
        Insn::JumpTable { .. } => true,
        Insn::Return { .. } => true,
        Insn::DefaultReturn => true,
        _ => false,
    }
}

/// Whether control can pass from the instruction at `p` directly to the
/// instruction at `q`: a branch edge to a placed label, or the fall-through
/// to the next position.
pub open spec fn succ_of(cf: &CompiledFunction, p: int, q: int) -> bool {
    &&& 0 <= p < cf.insns@.len()
    &&& 0 <= q < cf.insns@.len()
    &&& match cf.insns@[p] {
        Insn::Branch { target } => {
            &&& target < cf.label_pos@.len()
            &&& q == cf.label_pos@[target as int]
        },
        Insn::BranchIf { target, .. } => (target < cf.label_pos@.len() && q
            == cf.label_pos@[target as int]) || q == p + 1,
        Insn::BranchIfNot { target, .. } => (target < cf.label_pos@.len() && q
            == cf.label_pos@[target as int]) || q == p + 1,
        Insn::JumpTable { targets, .. } => (exists|i: int|
            0 <= i < targets@.len() && (#[trigger] targets@[i]) < cf.label_pos@.len() && q
                == cf.label_pos@[targets@[i] as int]) || q == p + 1,
        Insn::Return { .. } => false,
        Insn::DefaultReturn => false,
        _ => q == p + 1,
    }
}

/// Whether position `q` can be reached from the entry in at most `n` edge
/// steps.
pub open spec fn reach_n(cf: &CompiledFunction, q: int, n: nat) -> bool
    decreases n, 0nat,
{
    if n == 0 {
        q == 0
    } else {
        reach_n(cf, q, (n - 1) as nat) || has_pred(cf, q, (n - 1) as nat)
    }
}

/// Whether some position reachable in at most `n` steps has an edge to `q`.
pub open spec fn has_pred(cf: &CompiledFunction, q: int, n: nat) -> bool
    decreases n, 1nat,
{
    exists|m: int| reach_n(cf, m, n) && #[trigger] succ_of(cf, m, q)
}

/// Whether position `q` is reachable from the entry: some number of edge
/// steps arrives at it.
pub open spec fn reaches(cf: &CompiledFunction, q: int) -> bool {
    exists|n: nat| reach_n(cf, q, n)
}

/// One edge extends reachability.
pub proof fn lemma_reach_step(cf: &CompiledFunction, m: int, q: int)
    requires
        reaches(cf, m),
        succ_of(cf, m, q),
    ensures
        reaches(cf, q),
{
    let n = choose|n: nat| reach_n(cf, m, n);
    let k: nat = n + 1;
    assert(reach_n(cf, m, (k - 1) as nat));
    assert(has_pred(cf, q, (k - 1) as nat));
    assert(reach_n(cf, q, k));
}

/// Any set of positions that holds the entry and is closed under edges
/// holds every reachable position.
proof fn lemma_reach_closed(cf: &CompiledFunction, inv: Seq<bool>, q: int, n: nat)
    requires
        inv.len() == cf.insns@.len(),
        cf.insns@.len() > 0 ==> inv[0],
        forall|m: int, r: int|
            0 <= m < inv.len() && 0 <= r < inv.len() && inv[m] && #[trigger] succ_of(cf, m, r)
                ==> inv[r],
        reach_n(cf, q, n),
        0 <= q < inv.len(),
    ensures
        inv[q],
    decreases n,
{
    if n == 0 {
    } else {
        if reach_n(cf, q, (n - 1) as nat) {
            lemma_reach_closed(cf, inv, q, (n - 1) as nat);
        } else {
            assert(has_pred(cf, q, (n - 1) as nat));
            let m = choose|m: int|
                reach_n(cf, m, (n - 1) as nat) && #[trigger] succ_of(cf, m, q);
            lemma_reach_closed(cf, inv, m, (n - 1) as nat);
        }
    }
}

/// How many positions a marking holds.
pub open spec fn count_true(s: Seq<bool>) -> nat
    decreases s.len(),
{
    if s.len() == 0 {
        0
    } else {
        count_true(s.drop_last()) + (if s.last() {
            1nat
        } else {
            0nat
        })
    }
}

/// Marking one more position grows the count by one.
proof fn lemma_count_true_update(s: Seq<bool>, i: int)
    requires
        0 <= i < s.len(),
        !s[i],
    ensures
        count_true(s.update(i, true)) == count_true(s) + 1,
    decreases s.len(),
{
    let s2 = s.update(i, true);
    if i == s.len() - 1 {
        assert(s2.drop_last() =~= s.drop_last());
    } else {
        assert(s2.drop_last() =~= s.drop_last().update(i, true));
        lemma_count_true_update(s.drop_last(), i);
    }
}

/// A marking never holds more positions than it has.
proof fn lemma_count_true_bound(s: Seq<bool>)
    ensures
        count_true(s) <= s.len(),
    decreases s.len(),
{
    if s.len() > 0 {
        lemma_count_true_bound(s.drop_last());
    }
}

impl CompiledFunction {
    /// Marks position `q` reached, keeping the marking sound; reports
    /// whether anything changed.
    #[verifier::loop_isolation(false)]
    fn mark(&self, visited: &mut Vec<bool>, p: usize, q: usize) -> (r: bool)
        requires
            old(visited)@.len() == self.insns@.len(),
            p < self.insns@.len(),
            old(visited)@[p as int],
            succ_of(self, p as int, q as int) || !(q < self.insns@.len()),
            forall|j: int| 0 <= j < old(visited)@.len() && old(visited)@[j] ==> reaches(self, j),
        ensures
            final(visited)@.len() == old(visited)@.len(),
            forall|j: int| 0 <= j < final(visited)@.len() && final(visited)@[j] ==> reaches(self, j),
            forall|j: int|
                0 <= j < final(visited)@.len() && old(visited)@[j] ==> final(visited)@[j],
            q < self.insns@.len() ==> final(visited)@[q as int],
            r == (q < self.insns@.len() && !old(visited)@[q as int]),
            !r ==> final(visited)@ == old(visited)@,
            r ==> count_true(final(visited)@) == count_true(old(visited)@) + 1,
    {
        if q >= visited.len() {
            return false;
        }
        if visited[q] {
            return false;
        }
        proof {
            lemma_reach_step(self, p as int, q as int);
            lemma_count_true_update(visited@, q as int);
        }
        visited.set(q, true);
        true
    }

    /// Every instruction position the entry can reach, decided: position
    /// `p` is marked exactly when some chain of branch and fall-through
    /// edges from the entry arrives at it.
    #[verifier::loop_isolation(false)]
    #[verifier::rlimit(100)]
    pub fn reachable_positions(&self) -> (r: Vec<bool>)
        ensures
            r@.len() == self.insns@.len(),
            forall|p: int| 0 <= p < r@.len() ==> r@[p] == reaches(self, p),
    {
        let n = self.insns.len();
        let mut visited: Vec<bool> = Vec::new();
        let mut i: usize = 0;
        while i < n
            invariant
                0 <= i <= n,
                visited@.len() == i,
                forall|j: int| 0 <= j < i ==> !visited@[j],
            decreases n - i,
        {
            visited.push(false);
            i = i + 1;
        }
        if n == 0 {
            return visited;
        }
        visited.set(0, true);
        proof {
            assert(reach_n(self, 0, 0));
            assert(reaches(self, 0));
            lemma_count_true_bound(visited@);
        }
        let mut changed = true;
        while changed
            invariant
                visited@.len() == n,
                n == self.insns@.len(),
                n > 0,
                visited@[0],
                count_true(visited@) <= n,
                forall|j: int| 0 <= j < n && visited@[j] ==> reaches(self, j),
                !changed ==> forall|m: int, q: int|
                    0 <= m < n && 0 <= q < n && visited@[m] && #[trigger] succ_of(self, m, q)
                        ==> visited@[q],
            decreases n - count_true(visited@), (if changed {
                1int
            } else {
                0int
            }),
        {
            let ghost pass_start = visited@;
            changed = false;
            let mut p: usize = 0;
            while p < n
                invariant
                    0 <= p <= n,
                    visited@.len() == n,
                    n == self.insns@.len(),
                    n > 0,
                    visited@[0],
                    forall|j: int| 0 <= j < n && visited@[j] ==> reaches(self, j),
                    forall|j: int| 0 <= j < n && pass_start[j] ==> visited@[j],
                    !changed ==> visited@ == pass_start,
                    !changed ==> forall|m: int, q: int|
                        0 <= m < p && 0 <= q < n && visited@[m] && #[trigger] succ_of(self, m, q)
                            ==> visited@[q],
                    changed ==> count_true(visited@) > count_true(pass_start),
                    count_true(visited@) >= count_true(pass_start),
                decreases n - p,
            {
                if visited[p] {
                    match &self.insns[p] {
                        Insn::Branch { target } => {
                            if *target < self.label_pos.len() {
                                let q = self.label_pos[*target];
                                let c = self.mark(&mut visited, p, q);
                                changed = changed || c;
                            }
                        },
                        Insn::BranchIf { target, .. } => {
                            if *target < self.label_pos.len() {
                                let q = self.label_pos[*target];
                                let c = self.mark(&mut visited, p, q);
                                changed = changed || c;
                            }
                            let c = self.mark(&mut visited, p, p + 1);
                            changed = changed || c;
                        },
                        Insn::BranchIfNot { target, .. } => {
                            if *target < self.label_pos.len() {
                                let q = self.label_pos[*target];
                                let c = self.mark(&mut visited, p, q);
                                changed = changed || c;
                            }
                            let c = self.mark(&mut visited, p, p + 1);
                            changed = changed || c;
                        },
                        Insn::JumpTable { targets, .. } => {
                            let mut t: usize = 0;
                            while t < targets.len()
                                invariant
                                    0 <= t <= targets@.len(),
                                    visited@.len() == n,
                                    n == self.insns@.len(),
                                    p < n,
                                    visited@[p as int],
                                    self.insns@[p as int] matches Insn::JumpTable { .. },
                                    targets@ == self.insns@[p as int]->JumpTable_targets@,
                                    forall|j: int| 0 <= j < n && visited@[j] ==> reaches(self, j),
                                    forall|j: int| 0 <= j < n && pass_start[j] ==> visited@[j],
                                    !changed ==> visited@ == pass_start,
                                    changed ==> count_true(visited@) > count_true(pass_start),
                                    count_true(visited@) >= count_true(pass_start),
                                    visited@[0],
                                    forall|i2: int|
                                        0 <= i2 < t && (#[trigger] targets@[i2])
                                            < self.label_pos@.len()
                                            && self.label_pos@[targets@[i2] as int] < n
                                            ==> visited@[self.label_pos@[targets@[i2] as int] as int],
                                    !changed ==> forall|m: int, q: int|
                                        0 <= m < p && 0 <= q < n && visited@[m]
                                            && #[trigger] succ_of(self, m, q) ==> visited@[q],
                                decreases targets@.len() - t,
                            {
                                if targets[t] < self.label_pos.len() {
                                    let q = self.label_pos[targets[t]];
                                    let c = self.mark(&mut visited, p, q);
                                    changed = changed || c;
                                }
                                t = t + 1;
                            }
                            let c = self.mark(&mut visited, p, p + 1);
                            changed = changed || c;
                        },
                        Insn::Return { .. } => {},
                        Insn::DefaultReturn => {},
                        _ => {
                            let c = self.mark(&mut visited, p, p + 1);
                            changed = changed || c;
                        },
                    }
                }
                p = p + 1;
            }
            proof {
                lemma_count_true_bound(visited@);
            }
        }
        proof {
            assert forall|p: int| 0 <= p < visited@.len() implies visited@[p] == reaches(
                self,
                p,
            ) by {
                if visited@[p] {
                } else {
                    if reaches(self, p) {
                        let nn = choose|nn: nat| reach_n(self, p, nn);
                        lemma_reach_closed(self, visited@, p, nn);
                    }
                }
            }
        }
        visited
    }

    /// Whether the block starting at position `start` is reachable from the
    /// function's entry, computed on demand from the instructions.
    pub fn block_is_reachable(&self, start: usize) -> (r: bool)
        ensures
            start < self.insns@.len() ==> r == reaches(self, start as int),
            start >= self.insns@.len() ==> r == false,
    {
        if start >= self.insns.len() {
            return false;
        }
        let marks = self.reachable_positions();
        marks[start]
    }

    /// Where the block starting at `start` ends (exclusive): at the first
    /// control transfer, or at the next placed label, whichever comes
    /// first.
    #[verifier::loop_isolation(false)]
    pub fn block_end(&self, start: usize) -> (r: usize)
        requires
            start < self.insns@.len(),
        ensures
            r == spec_block_end(self, start as int),
    {
        proof {
            lemma_block_end_bounds(self, start as int);
        }
        let mut p: usize = start;
        while p < self.insns.len()
            invariant
                start <= p <= self.insns@.len(),
                spec_block_end(self, start as int) == spec_block_end(self, p as int),
            decreases self.insns@.len() - p,
        {
            let transfer = match &self.insns[p] {
                Insn::Branch { .. } => true,
                Insn::BranchIf { .. } => true,
                Insn::BranchIfNot { .. } => true,
                Insn::JumpTable { .. } => true,
                Insn::Return { .. } => true,
                Insn::DefaultReturn => true,
                _ => false,
            };
            if transfer {
                return p + 1;
            }
            let mut l: usize = 0;
            let mut is_label: bool = false;
            while l < self.label_pos.len()
                invariant
                    0 <= l <= self.label_pos@.len(),
                    is_label == exists|j: int|
                        0 <= j < l && #[trigger] self.label_pos@[j] == p + 1,
                decreases self.label_pos@.len() - l,
            {
                if self.label_pos[l] == p + 1 {
                    is_label = true;
                }
                l = l + 1;
            }
            proof {
                assert(is_label == at_label(self, p + 1));
            }
            if is_label {
                return p + 1;
            }
            p = p + 1;
        }
        self.insns.len()
    }

    /// Whether the block starting at `start` ends in an unconditional
    /// transfer — a branch or a return — so that control never falls
    /// through its end: its tail is dead to fall-through.
    pub fn block_ends_in_dead(&self, start: usize) -> (r: bool)
        requires
            start < self.insns@.len(),
        ensures
            r == spec_is_dead_end(&self.insns@[spec_block_end(self, start as int) - 1]),
    {
        proof {
            lemma_block_end_bounds(self, start as int);
        }
        let end = self.block_end(start);
        match &self.insns[end - 1] {
            Insn::Branch { .. } => true,
            Insn::Return { .. } => true,
            Insn::DefaultReturn => true,
            _ => false,
        }
    }
}

/// Whether some label is placed exactly at position `p`.
pub open spec fn at_label(cf: &CompiledFunction, p: int) -> bool {
    exists|j: int| 0 <= j < cf.label_pos@.len() && #[trigger] cf.label_pos@[j] == p
}

/// Where the block starting at `start` ends (exclusive): the position
/// after its first control transfer, or the first later position a label
/// marks, or the end of the function.
pub open spec fn spec_block_end(cf: &CompiledFunction, start: int) -> int
    decreases cf.insns@.len() - start,
{
    if !(0 <= start < cf.insns@.len()) {
        cf.insns@.len() as int
    } else if spec_is_transfer(&cf.insns@[start]) || at_label(cf, start + 1) {
        start + 1
    } else {
        spec_block_end(cf, start + 1)
    }
}

/// A block runs past its start and never past the function.
pub proof fn lemma_block_end_bounds(cf: &CompiledFunction, start: int)
    requires
        0 <= start < cf.insns@.len(),
    ensures
        start < spec_block_end(cf, start) <= cf.insns@.len(),
    decreases cf.insns@.len() - start,
{
    if !(spec_is_transfer(&cf.insns@[start]) || at_label(cf, start + 1)) {
        assert(spec_block_end(cf, start) == spec_block_end(cf, start + 1));
        if start + 1 < cf.insns@.len() {
            lemma_block_end_bounds(cf, start + 1);
        } else {
            assert(spec_block_end(cf, start + 1) == cf.insns@.len() as int);
        }
    } else {
        assert(spec_block_end(cf, start) == start + 1);
    }
}

} // verus!
