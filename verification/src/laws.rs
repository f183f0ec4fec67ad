//! The library's cross-cutting guarantees, proved over the machine
//! semantics: stores are seen by the loads that follow them, branches
//! reach the block their label marks, and a loop's guard runs before its
//! body.

use vstd::prelude::*;

use crate::ir::Insn;
use crate::machine::FuncEntry;
use crate::machine::StateS;
use crate::machine::region_of;
use crate::machine::read_slot_s;
use crate::machine::step_s;
use crate::machine::step_to;

verus! {

/// The round trip through a local: a value stored into a slot and loaded
/// back out of it right after arrives unchanged, byte for byte — so for
/// every primitive type, scalar or not, a store followed by a load of the
/// same local yields the stored value. The guard is only that the two
/// instructions run without trapping.
pub proof fn lemma_store_then_load_round_trip(
    funcs: Seq<FuncEntry>,
    ncb: usize,
    st: StateS,
    l: usize,
    v: usize,
    d: usize,
)
    requires
        st.status is Running,
        st.stack.len() > 0,
        st.stack.last().func < funcs.len(),
        funcs[st.stack.last().func as int] matches FuncEntry::Done(..),
        ({
            let cf = funcs[st.stack.last().func as int]->Done_0;
            let pc = st.stack.last().pc;
            &&& cf.insns@.len() <= usize::MAX
            &&& pc + 1 < cf.insns@.len()
            &&& cf.insns@[pc as int] == (Insn::Store { dest: l, src: v })
            &&& cf.insns@[pc + 1] == (Insn::Load { dest: d, src: l })
        }),
        step_s(funcs, ncb, step_s(funcs, ncb, st)).status is Running,
    ensures
        ({
            let cf = funcs[st.stack.last().func as int]->Done_0;
            let fr = st.stack.last();
            let st2 = step_s(funcs, ncb, step_s(funcs, ncb, st));
            &&& region_of(&cf, fr, d) matches Some(rd)
            &&& region_of(&cf, fr, v) matches Some(rv)
            &&& {
                let rd = region_of(&cf, fr, d).unwrap();
                let rv = region_of(&cf, fr, v).unwrap();
                &&& rd.1 == rv.1
                &&& forall|k: int|
                    0 <= k < rd.1 ==> #[trigger] st2.mem[rd.0 + k] == st.mem[rv.0 + k]
            }
        }),
{
    let cf = funcs[st.stack.last().func as int]->Done_0;
    let fr = st.stack.last();
    let st1 = step_s(funcs, ncb, st);
    let st2 = step_s(funcs, ncb, st1);
    assert(st1.status is Running) by {
        if !(st1.status is Running) {
            assert(st2 == st1);
        }
    }
    let rl = region_of(&cf, fr, l).unwrap();
    let rv = region_of(&cf, fr, v).unwrap();
    assert(st1.mem == crate::mem::mem_copy(st.mem, rl.0, rv.0, rl.1));
    let fr1 = st1.stack.last();
    assert(fr1.base == fr.base && fr1.pc == fr.pc + 1);
    assert(region_of(&cf, fr1, d) == region_of(&cf, fr, d));
    assert(region_of(&cf, fr1, l) == region_of(&cf, fr, l));
    let rd = region_of(&cf, fr, d).unwrap();
    assert(st2.mem == crate::mem::mem_copy(st1.mem, rd.0, rl.0, rd.1));
    assert forall|k: int| 0 <= k < rd.1 implies #[trigger] st2.mem[rd.0 + k] == st.mem[rv.0
        + k] by {
        assert(st2.mem[rd.0 + k] == st1.mem[rl.0 + k]);
        assert(st1.mem[rl.0 + k] == st.mem[rv.0 + k]);
    }
}

/// A branch reaches its label: one step at an unconditional branch puts
/// control exactly at the instruction position the label was placed at,
/// whether the label was placed before or after the branch was emitted —
/// so a forward branch to a label placed later reaches the later block.
pub proof fn lemma_branch_reaches_label(funcs: Seq<FuncEntry>, ncb: usize, st: StateS, t: usize)
    requires
        st.status is Running,
        st.stack.len() > 0,
        st.stack.last().func < funcs.len(),
        funcs[st.stack.last().func as int] matches FuncEntry::Done(..),
        ({
            let cf = funcs[st.stack.last().func as int]->Done_0;
            let pc = st.stack.last().pc;
            &&& pc < cf.insns@.len()
            &&& cf.insns@[pc as int] == (Insn::Branch { target: t })
            &&& t < cf.label_pos@.len()
        }),
    ensures
        ({
            let cf = funcs[st.stack.last().func as int]->Done_0;
            step_s(funcs, ncb, st) == step_to(st, st.mem, cf.label_pos@[t as int])
        }),
{
}

/// A loop's guard runs before its body: at the conditional exit branch
/// that a `while` places between its guard and its body, a guard value of
/// zero moves control directly to the loop's exit label — the body's
/// instructions are skipped, and the memory is untouched. A loop whose
/// guard starts false therefore never runs its body.
pub proof fn lemma_false_guard_skips_body(funcs: Seq<FuncEntry>, ncb: usize, st: StateS, c: usize, t: usize)
    requires
        st.status is Running,
        st.stack.len() > 0,
        st.stack.last().func < funcs.len(),
        funcs[st.stack.last().func as int] matches FuncEntry::Done(..),
        ({
            let cf = funcs[st.stack.last().func as int]->Done_0;
            let fr = st.stack.last();
            &&& fr.pc < cf.insns@.len()
            &&& cf.insns@[fr.pc as int] == (Insn::BranchIfNot { cond: c, target: t })
            &&& t < cf.label_pos@.len()
            &&& read_slot_s(&cf, fr, st.mem, c) == Some(0u64)
        }),
    ensures
        ({
            let cf = funcs[st.stack.last().func as int]->Done_0;
            step_s(funcs, ncb, st) == step_to(st, st.mem, cf.label_pos@[t as int])
        }),
{
}

} // verus!
