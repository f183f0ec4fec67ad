//! The compiled form of a function and the byte machine that runs it: a
//! frame stack over one growing memory, a small-step transition function
//! written twice — once as mathematics, once as code proved equal to it —
//! and the suspension points where host callbacks are serviced.

use vstd::prelude::*;

use crate::builder::UncompiledFunction;
use crate::ir::CallbackId;
use crate::ir::FuncId;
use crate::ir::Insn;
use crate::ir::Scalar;
use crate::ir::ValId;
use crate::ir::ValueKind;
use crate::ir::scalar_of;
use crate::ir::spec_scalar_of;
use crate::ir::valid_width;
use crate::types::SIZE_CAP;
use crate::types::Type;
use crate::types::TypeKind;
use crate::types::spec_size;

verus! {

/// Why a function cannot be compiled: a label branched to but never
/// placed, a value whose type index runs outside the type table, a return
/// type the machine cannot hand back, a constant of a type without a bit
/// pattern, or a frame beyond the size cap.
#[derive(Clone, Copy, Debug, PartialEq, Eq, Structural)]
pub enum CompileError {
    UnplacedLabel,
    InvalidValue,
    BadReturnType,
    BadConstant,
    TooLarge,
    BadFunction,
    AlreadyCompiled,
}

/// A function after compilation: immutable, laid out for the machine. Each
/// value owns a byte region of the frame at its offset; labels are
/// resolved to instruction positions; constants carry their initializers.
pub struct CompiledFunction {
    /// How many leading values are parameters.
    pub n_params: usize,
    /// The machine shape of the declared return value; `None` for `Void`.
    pub ret_scalar: Option<Scalar>,
    /// The instructions, exactly as built.
    pub insns: Vec<Insn>,
    /// The instruction position each label marks.
    pub label_pos: Vec<usize>,
    /// Each value's byte offset within the frame.
    pub offsets: Vec<usize>,
    /// Each value's byte size.
    pub sizes: Vec<usize>,
    /// Each value's machine shape, where its type has one.
    pub scalars: Vec<Option<Scalar>>,
    /// Each value's constant initializer, for constant values.
    pub inits: Vec<Option<u64>>,
    /// The byte size of one frame of this function.
    pub frame_size: usize,
    /// The optimization level the builder requested.
    pub opt_level: u32,
}

/// Whether every label of `f` has been placed.
pub open spec fn all_labels_placed(f: &UncompiledFunction) -> bool {
    forall|l: int| 0 <= l < f.labels@.len() ==> (#[trigger] f.labels@[l]) is Some
}

/// Whether every value of `f` has a type in the type table.
pub open spec fn all_vals_typed(f: &UncompiledFunction) -> bool {
    forall|v: int| 0 <= v < f.values@.len() ==> (#[trigger] f.values@[v]).tyx < f.vtypes@.len()
}

/// Whether the declared return type is one the machine can hand back: a
/// machine scalar, or `Void`.
pub open spec fn ret_ok(f: &UncompiledFunction) -> bool {
    spec_scalar_of(&f.ret) is Some || *f.ret == (Type::Prim { kind: TypeKind::Void })
}

/// Whether every constant value of `f` has a machine scalar type.
pub open spec fn consts_scalar(f: &UncompiledFunction) -> bool {
    forall|v: int|
        0 <= v < f.values@.len() && ((#[trigger] f.values@[v]).kind matches ValueKind::Constant {
            ..
        }) ==> spec_scalar_of(&f.val_ty(v as usize)) is Some
}

/// The summed byte size of the first `n` values of `f`: the frame offset
/// the value after them would get.
pub open spec fn sum_val_sizes(f: &UncompiledFunction, n: int) -> nat
    decreases n,
{
    if n <= 0 {
        0
    } else {
        sum_val_sizes(f, n - 1) + spec_size(&f.val_ty((n - 1) as usize))
    }
}

/// A prefix never sums to more than a longer prefix.
pub proof fn lemma_sum_val_prefix(f: &UncompiledFunction, i: int, j: int)
    requires
        0 <= i <= j,
    ensures
        sum_val_sizes(f, i) <= sum_val_sizes(f, j),
    decreases j - i,
{
    if i < j {
        lemma_sum_val_prefix(f, i, j - 1);
    }
}

/// No single value's size exceeds the whole frame sum.
pub proof fn lemma_sum_val_elem(f: &UncompiledFunction, v: int, n: int)
    requires
        0 <= v < n,
    ensures
        spec_size(&f.val_ty(v as usize)) <= sum_val_sizes(f, n),
    decreases n,
{
    if v + 1 < n {
        lemma_sum_val_elem(f, v, n - 1);
    }
}

/// Whether the whole frame fits under the size cap.
pub open spec fn frame_fits(f: &UncompiledFunction) -> bool {
    sum_val_sizes(f, f.values@.len() as int) <= SIZE_CAP
}

/// Whether `cf` is exactly the compiled, laid-out form of `f`.
pub open spec fn compiled_from(f: &UncompiledFunction, cf: &CompiledFunction) -> bool {
    &&& cf.n_params == f.n_params
    &&& cf.insns@ == f.insns@
    &&& cf.ret_scalar == spec_scalar_of(&f.ret)
    &&& cf.opt_level == f.opt_level
    &&& cf.label_pos@.len() == f.labels@.len()
    &&& forall|l: int|
        0 <= l < f.labels@.len() ==> f.labels@[l] == Some(#[trigger] cf.label_pos@[l])
    &&& cf.offsets@.len() == f.values@.len()
    &&& cf.sizes@.len() == f.values@.len()
    &&& cf.scalars@.len() == f.values@.len()
    &&& cf.inits@.len() == f.values@.len()
    &&& forall|v: int|
        0 <= v < f.values@.len() ==> (#[trigger] cf.sizes@[v]) == spec_size(
            &f.val_ty(v as usize),
        )
    &&& forall|v: int|
        0 <= v < f.values@.len() ==> (#[trigger] cf.scalars@[v]) == spec_scalar_of(
            &f.val_ty(v as usize),
        )
    &&& forall|v: int|
        0 <= v < f.values@.len() ==> (#[trigger] cf.offsets@[v]) == sum_val_sizes(f, v)
    &&& forall|v: int|
        0 <= v < f.values@.len() ==> (#[trigger] cf.inits@[v]) == (match f.values@[v].kind {
            ValueKind::Constant { bits } => Some(bits),
            _ => None,
        })
    &&& cf.frame_size == sum_val_sizes(f, f.values@.len() as int)
}

/// Compiles a built function: checks that every label was placed, that the
/// value tables are coherent, that the return type is a scalar or void,
/// that constants have bit patterns, and that the frame fits the cap; then
/// lays every value out at its packed frame offset and resolves every
/// label to its instruction position.
#[verifier::loop_isolation(false)]
#[verifier::rlimit(30)]
pub fn compile_function(f: UncompiledFunction) -> (r: Result<CompiledFunction, CompileError>)
    ensures
        !all_labels_placed(&f) ==> r == Result::<CompiledFunction, CompileError>::Err(
            CompileError::UnplacedLabel,
        ),
        all_labels_placed(&f) && !all_vals_typed(&f) ==> r == Result::<
            CompiledFunction,
            CompileError,
        >::Err(CompileError::InvalidValue),
        all_labels_placed(&f) && all_vals_typed(&f) && !ret_ok(&f) ==> r == Result::<
            CompiledFunction,
            CompileError,
        >::Err(CompileError::BadReturnType),
        all_labels_placed(&f) && all_vals_typed(&f) && ret_ok(&f) && !consts_scalar(&f) ==> r
            == Result::<CompiledFunction, CompileError>::Err(CompileError::BadConstant),
        all_labels_placed(&f) && all_vals_typed(&f) && ret_ok(&f) && consts_scalar(&f)
            && !frame_fits(&f) ==> r == Result::<CompiledFunction, CompileError>::Err(
            CompileError::TooLarge,
        ),
        all_labels_placed(&f) && all_vals_typed(&f) && ret_ok(&f) && consts_scalar(&f)
            && frame_fits(&f) ==> (r matches Result::Ok(cf) && compiled_from(&f, &cf)),
{
    let mut label_pos: Vec<usize> = Vec::new();
    let mut l: usize = 0;
    while l < f.labels.len()
        invariant
            0 <= l <= f.labels@.len(),
            label_pos@.len() == l,
            forall|j: int| 0 <= j < l ==> f.labels@[j] == Some(#[trigger] label_pos@[j]),
        decreases f.labels@.len() - l,
    {
        match f.labels[l] {
            Some(p) => label_pos.push(p),
            None => {
                return Err(CompileError::UnplacedLabel);
            },
        }
        l = l + 1;
    }
    proof {
        assert forall|j: int| 0 <= j < f.labels@.len() implies (#[trigger] f.labels@[j]) is Some by {
            assert(f.labels@[j] == Some(label_pos@[j]));
        }
        assert(all_labels_placed(&f));
    }
    let mut v: usize = 0;
    while v < f.values.len()
        invariant
            0 <= v <= f.values@.len(),
            forall|j: int| 0 <= j < v ==> (#[trigger] f.values@[j]).tyx < f.vtypes@.len(),
        decreases f.values@.len() - v,
    {
        if f.values[v].tyx >= f.vtypes.len() {
            return Err(CompileError::InvalidValue);
        }
        v = v + 1;
    }
    proof {
        assert(all_vals_typed(&f));
    }
    let ret_scalar = scalar_of(&f.ret);
    let ret_is_void = match &*f.ret {
        Type::Prim { kind: TypeKind::Void } => true,
        _ => false,
    };
    if ret_scalar.is_none() && !ret_is_void {
        return Err(CompileError::BadReturnType);
    }
    let mut v: usize = 0;
    while v < f.values.len()
        invariant
            0 <= v <= f.values@.len(),
            all_vals_typed(&f),
            forall|j: int|
                0 <= j < v && ((#[trigger] f.values@[j]).kind matches ValueKind::Constant { .. })
                    ==> spec_scalar_of(&f.val_ty(j as usize)) is Some,
        decreases f.values@.len() - v,
    {
        let is_const = match f.values[v].kind {
            ValueKind::Constant { .. } => true,
            _ => false,
        };
        if is_const && scalar_of(&f.vtypes[f.values[v].tyx]).is_none() {
            return Err(CompileError::BadConstant);
        }
        v = v + 1;
    }
    proof {
        assert(consts_scalar(&f));
    }
    let mut offsets: Vec<usize> = Vec::new();
    let mut sizes: Vec<usize> = Vec::new();
    let mut scalars: Vec<Option<Scalar>> = Vec::new();
    let mut inits: Vec<Option<u64>> = Vec::new();
    let mut total: usize = 0;
    let mut v: usize = 0;
    while v < f.values.len()
        invariant
            0 <= v <= f.values@.len(),
            all_vals_typed(&f),
            consts_scalar(&f),
            offsets@.len() == v,
            sizes@.len() == v,
            scalars@.len() == v,
            inits@.len() == v,
            total == sum_val_sizes(&f, v as int),
            total <= SIZE_CAP,
            forall|j: int|
                0 <= j < v ==> (#[trigger] sizes@[j]) == spec_size(&f.val_ty(j as usize)),
            forall|j: int|
                0 <= j < v ==> (#[trigger] scalars@[j]) == spec_scalar_of(&f.val_ty(j as usize)),
            forall|j: int| 0 <= j < v ==> (#[trigger] offsets@[j]) == sum_val_sizes(&f, j),
            forall|j: int|
                0 <= j < v ==> (#[trigger] inits@[j]) == (match f.values@[j].kind {
                    ValueKind::Constant { bits } => Some(bits),
                    _ => None,
                }),
        decreases f.values@.len() - v,
    {
        let ty = &f.vtypes[f.values[v].tyx];
        let s = match ty.size_of() {
            Ok(s) => s,
            Err(_) => {
                proof {
                    lemma_sum_val_elem(&f, v as int, f.values@.len() as int);
                }
                return Err(CompileError::TooLarge);
            },
        };
        if total > SIZE_CAP - s {
            proof {
                lemma_sum_val_prefix(&f, v + 1, f.values@.len() as int);
            }
            return Err(CompileError::TooLarge);
        }
        offsets.push(total);
        sizes.push(s);
        scalars.push(scalar_of(ty));
        let init = match f.values[v].kind {
            ValueKind::Constant { bits } => Some(bits),
            _ => None,
        };
        inits.push(init);
        total = total + s;
        v = v + 1;
    }
    Ok(
        CompiledFunction {
            n_params: f.n_params,
            ret_scalar,
            insns: f.insns,
            label_pos,
            offsets,
            sizes,
            scalars,
            inits,
            frame_size: total,
            opt_level: f.opt_level,
        },
    )
}

/// One slot of a context's function table: reserved by `new_function`,
/// then holding the compiled function once `compile` installs it.
pub enum FuncEntry {
    Reserved,
    Done(CompiledFunction),
}

/// Why a run stopped short: a callee not (yet) compiled, running past the
/// last instruction without a return, native arithmetic without a result,
/// a memory access outside the machine's memory, an operand without a
/// machine shape, a call site disagreeing with its callee's declaration, a
/// callback that was never registered, or a machine driven in the wrong
/// state.
#[derive(Clone, Copy, Debug, PartialEq, Eq, Structural)]
pub enum RunError {
    NotCompiled,
    FellOff,
    Arithmetic,
    MemFault,
    TypeFault,
    SignatureMismatch,
    BadCallback,
    StackEmpty,
    NotRunning,
    OutOfFuel,
    AwaitingHost,
}

/// One call frame: which function runs, where in its instructions, where
/// its frame's bytes start, and which caller slot takes its return value.
#[derive(Clone, Copy, Debug, PartialEq, Eq, Structural)]
pub struct Frame {
    pub func: FuncId,
    pub pc: usize,
    pub base: usize,
    pub ret_dest: Option<ValId>,
}

/// What the machine is doing, as mathematics: running, suspended into the
/// host with the arguments of a native call, finished with a return word,
/// or stopped by a trap.
pub enum StatusS {
    Running,
    Awaiting { callback: CallbackId, args: Seq<u64>, dest: Option<ValId> },
    Finished { ret: u64 },
    Trapped { err: RunError },
}

/// The machine's whole mathematical state.
pub struct StateS {
    pub stack: Seq<Frame>,
    pub mem: Seq<u8>,
    pub status: StatusS,
}

/// The byte region of value `v` in frame `fr`: its address and size.
pub open spec fn region_of(cf: &CompiledFunction, fr: Frame, v: ValId) -> Option<(int, nat)> {
    if v < cf.offsets@.len() && v < cf.sizes@.len() {
        Some(((fr.base + cf.offsets@[v as int]) as int, cf.sizes@[v as int] as nat))
    } else {
        None
    }
}

/// The machine shape of value `v`, when the table has one.
pub open spec fn scalar_at(cf: &CompiledFunction, v: ValId) -> Option<Scalar> {
    if v < cf.scalars@.len() {
        cf.scalars@[v as int]
    } else {
        None
    }
}

/// The canonical word in value `v`'s slot, when `v` is a scalar slot that
/// lies inside memory.
pub open spec fn read_slot_s(cf: &CompiledFunction, fr: Frame, mem: Seq<u8>, v: ValId) -> Option<
    u64,
> {
    match (region_of(cf, fr, v), scalar_at(cf, v)) {
        (Some((addr, n)), Some(sc)) => {
            if sc.width as nat == n && valid_width(sc.width) && addr + n <= mem.len() {
                Some(crate::mem::word_read(mem, addr, sc.width as nat) as u64)
            } else {
                None
            }
        },
        _ => None,
    }
}

/// The memory after `bits` lands in value `v`'s slot, when `v` is a scalar
/// slot that lies inside memory.
pub open spec fn write_slot_s(
    cf: &CompiledFunction,
    fr: Frame,
    mem: Seq<u8>,
    v: ValId,
    bits: u64,
) -> Option<Seq<u8>> {
    match (region_of(cf, fr, v), scalar_at(cf, v)) {
        (Some((addr, n)), Some(sc)) => {
            if sc.width as nat == n && valid_width(sc.width) && addr + n <= mem.len() {
                Some(crate::mem::word_write(mem, addr, sc.width as nat, bits))
            } else {
                None
            }
        },
        _ => None,
    }
}

/// The state after a trap: nothing moves again.
pub open spec fn trap(st: StateS, e: RunError) -> StateS {
    StateS { stack: st.stack, mem: st.mem, status: StatusS::Trapped { err: e } }
}

/// The state after an ordinary instruction: the top frame continues at
/// `pc` over the memory `mem`.
pub open spec fn step_to(st: StateS, mem: Seq<u8>, pc: usize) -> StateS {
    let last = st.stack.last();
    StateS {
        stack: st.stack.update(
            st.stack.len() - 1,
            Frame { func: last.func, pc, base: last.base, ret_dest: last.ret_dest },
        ),
        mem,
        status: st.status,
    }
}

/// Whether a call site's destination agrees with the callee's declared
/// return: both absent, or one slot of exactly the declared shape.
pub open spec fn ret_dest_ok(
    cf: &CompiledFunction,
    dest: Option<ValId>,
    rs: Option<Scalar>,
) -> bool {
    match (dest, rs) {
        (None, None) => true,
        (Some(d), Some(s)) => scalar_at(cf, d) == Some(s),
        _ => false,
    }
}

/// The memory after the first `k` arguments are copied byte-for-byte from
/// the caller's slots into the callee's parameter slots at `nbase`, or
/// nothing when a pair of slots disagrees in size or runs outside memory.
pub open spec fn copy_args_s(
    mem: Seq<u8>,
    cf: &CompiledFunction,
    fr: Frame,
    ccf: &CompiledFunction,
    nbase: usize,
    args: Seq<ValId>,
    k: nat,
) -> Option<Seq<u8>>
    decreases k,
{
    if k == 0 {
        Some(mem)
    } else {
        match copy_args_s(mem, cf, fr, ccf, nbase, args, (k - 1) as nat) {
            None => None,
            Some(m) => {
                let i = (k - 1) as int;
                if i < args.len() {
                    let pfr = Frame { func: 0, pc: 0, base: nbase, ret_dest: None };
                    match (region_of(cf, fr, args[i]), region_of(ccf, pfr, i as usize)) {
                        (Some((sa, sn)), Some((da, dn))) => {
                            if sn == dn && sa + sn <= m.len() && da + dn <= m.len() {
                                Some(crate::mem::mem_copy(m, da, sa, dn))
                            } else {
                                None
                            }
                        },
                        _ => None,
                    }
                } else {
                    None
                }
            },
        }
    }
}

/// The memory after the constant initializers of the first `k` values are
/// written into a fresh frame at `nbase`.
pub open spec fn write_consts_s(
    mem: Seq<u8>,
    ccf: &CompiledFunction,
    nbase: usize,
    k: nat,
) -> Seq<u8>
    decreases k,
{
    if k == 0 {
        mem
    } else {
        let m = write_consts_s(mem, ccf, nbase, (k - 1) as nat);
        let v = (k - 1) as int;
        if v < ccf.inits@.len() && v < ccf.offsets@.len() && v < ccf.scalars@.len() {
            match (ccf.inits@[v], ccf.scalars@[v]) {
                (Some(bits), Some(sc)) => {
                    if valid_width(sc.width) && nbase + ccf.offsets@[v] + sc.width <= m.len() {
                        crate::mem::word_write(
                            m,
                            (nbase + ccf.offsets@[v]) as int,
                            sc.width as nat,
                            bits,
                        )
                    } else {
                        m
                    }
                },
                _ => m,
            }
        } else {
            m
        }
    }
}

/// The first `k` argument slots of a native call, read as canonical words,
/// or nothing when one is not a readable scalar slot.
pub open spec fn read_args_s(
    mem: Seq<u8>,
    cf: &CompiledFunction,
    fr: Frame,
    args: Seq<ValId>,
    k: nat,
) -> Option<Seq<u64>>
    decreases k,
{
    if k == 0 {
        Some(Seq::empty())
    } else {
        match read_args_s(mem, cf, fr, args, (k - 1) as nat) {
            None => None,
            Some(vs) => {
                let i = (k - 1) as int;
                if i < args.len() {
                    match read_slot_s(cf, fr, mem, args[i]) {
                        Some(b) => Some(vs.push(b)),
                        None => None,
                    }
                } else {
                    None
                }
            },
        }
    }
}

/// The state after a return carrying the word `bits`: the frame pops; the
/// last frame finishes the run, any other hands `bits` to the caller slot
/// recorded at the call.
pub open spec fn pop_return(funcs: Seq<FuncEntry>, st: StateS, bits: u64) -> StateS {
    let fr = st.stack.last();
    let popped = st.stack.drop_last();
    if popped.len() == 0 {
        StateS { stack: popped, mem: st.mem, status: StatusS::Finished { ret: bits } }
    } else {
        let cfr = popped.last();
        if cfr.func >= funcs.len() {
            trap(st, RunError::NotCompiled)
        } else {
            match funcs[cfr.func as int] {
                FuncEntry::Reserved => trap(st, RunError::NotCompiled),
                FuncEntry::Done(ccf2) => {
                    match fr.ret_dest {
                        None => StateS { stack: popped, mem: st.mem, status: StatusS::Running },
                        Some(d) => {
                            match write_slot_s(&ccf2, cfr, st.mem, d, bits) {
                                None => trap(st, RunError::MemFault),
                                Some(m2) => StateS {
                                    stack: popped,
                                    mem: m2,
                                    status: StatusS::Running,
                                },
                            }
                        },
                    }
                },
            }
        }
    }
}

/// What one instruction does to the machine: the transition of the
/// machine's small-step semantics, one case per opcode.
pub open spec fn step_insn(
    funcs: Seq<FuncEntry>,
    ncb: usize,
    st: StateS,
    cf: &CompiledFunction,
    fr: Frame,
    insn: &Insn,
) -> StateS {
    let npc = (fr.pc + 1) as usize;
    match insn {
        Insn::Binary { op, dest, a, b } => {
            match (read_slot_s(cf, fr, st.mem, *a), read_slot_s(cf, fr, st.mem, *b)) {
                (Some(va), Some(vb)) => {
                    if scalar_at(cf, *a) == scalar_at(cf, *b) {
                        let sa = scalar_at(cf, *a).unwrap();
                        match crate::ops::eval_binary(*op, sa, va, vb) {
                            None => trap(st, RunError::Arithmetic),
                            Some(res) => {
                                match write_slot_s(cf, fr, st.mem, *dest, res) {
                                    None => trap(st, RunError::MemFault),
                                    Some(m2) => step_to(st, m2, npc),
                                }
                            },
                        }
                    } else {
                        trap(st, RunError::TypeFault)
                    }
                },
                _ => trap(st, RunError::TypeFault),
            }
        },
        Insn::Unary { op, dest, a } => {
            match read_slot_s(cf, fr, st.mem, *a) {
                Some(va) => {
                    let sa = scalar_at(cf, *a).unwrap();
                    let res = crate::ops::eval_unary(*op, sa, va);
                    match write_slot_s(cf, fr, st.mem, *dest, res) {
                        None => trap(st, RunError::MemFault),
                        Some(m2) => step_to(st, m2, npc),
                    }
                },
                None => trap(st, RunError::TypeFault),
            }
        },
        Insn::Load { dest, src } => {
            match (region_of(cf, fr, *dest), region_of(cf, fr, *src)) {
                (Some((da, dn)), Some((sa, sn))) => {
                    if dn != sn {
                        trap(st, RunError::TypeFault)
                    } else if da + dn <= st.mem.len() && sa + sn <= st.mem.len() {
                        step_to(st, crate::mem::mem_copy(st.mem, da, sa, dn), npc)
                    } else {
                        trap(st, RunError::MemFault)
                    }
                },
                _ => trap(st, RunError::TypeFault),
            }
        },
        Insn::Store { dest, src } => {
            match (region_of(cf, fr, *dest), region_of(cf, fr, *src)) {
                (Some((da, dn)), Some((sa, sn))) => {
                    if dn != sn {
                        trap(st, RunError::TypeFault)
                    } else if da + dn <= st.mem.len() && sa + sn <= st.mem.len() {
                        step_to(st, crate::mem::mem_copy(st.mem, da, sa, dn), npc)
                    } else {
                        trap(st, RunError::MemFault)
                    }
                },
                _ => trap(st, RunError::TypeFault),
            }
        },
        Insn::LoadRelative { dest, ptr, offset } => {
            match (read_slot_s(cf, fr, st.mem, *ptr), region_of(cf, fr, *dest)) {
                (Some(pv), Some((da, dn))) => {
                    let sa = pv + *offset;
                    if sa + dn <= st.mem.len() && da + dn <= st.mem.len() {
                        step_to(st, crate::mem::mem_copy(st.mem, da, sa as int, dn), npc)
                    } else {
                        trap(st, RunError::MemFault)
                    }
                },
                _ => trap(st, RunError::TypeFault),
            }
        },
        Insn::StoreRelative { ptr, offset, src } => {
            match (read_slot_s(cf, fr, st.mem, *ptr), region_of(cf, fr, *src)) {
                (Some(pv), Some((sa, sn))) => {
                    let da = pv + *offset;
                    if da + sn <= st.mem.len() && sa + sn <= st.mem.len() {
                        step_to(st, crate::mem::mem_copy(st.mem, da as int, sa, sn), npc)
                    } else {
                        trap(st, RunError::MemFault)
                    }
                },
                _ => trap(st, RunError::TypeFault),
            }
        },
        Insn::AddressOf { dest, src } => {
            match region_of(cf, fr, *src) {
                Some((sa, sn)) => {
                    if sa <= u64::MAX {
                        match write_slot_s(cf, fr, st.mem, *dest, sa as u64) {
                            None => trap(st, RunError::MemFault),
                            Some(m2) => step_to(st, m2, npc),
                        }
                    } else {
                        trap(st, RunError::MemFault)
                    }
                },
                None => trap(st, RunError::TypeFault),
            }
        },
        Insn::Convert { dest, src } => {
            match (read_slot_s(cf, fr, st.mem, *src), scalar_at(cf, *dest)) {
                (Some(va), Some(sd)) => {
                    let ss = scalar_at(cf, *src).unwrap();
                    if valid_width(sd.width) {
                        let res = crate::ops::eval_convert(va, ss, sd);
                        match write_slot_s(cf, fr, st.mem, *dest, res) {
                            None => trap(st, RunError::MemFault),
                            Some(m2) => step_to(st, m2, npc),
                        }
                    } else {
                        trap(st, RunError::TypeFault)
                    }
                },
                _ => trap(st, RunError::TypeFault),
            }
        },
        Insn::Call { callee, args, dest, flags } => {
            if *callee >= funcs.len() {
                trap(st, RunError::NotCompiled)
            } else {
                match funcs[*callee as int] {
                    FuncEntry::Reserved => trap(st, RunError::NotCompiled),
                    FuncEntry::Done(ccf) => {
                        if args@.len() != ccf.n_params {
                            trap(st, RunError::SignatureMismatch)
                        } else if !ret_dest_ok(cf, *dest, ccf.ret_scalar) {
                            trap(st, RunError::SignatureMismatch)
                        } else if st.mem.len() + ccf.frame_size > usize::MAX {
                            trap(st, RunError::MemFault)
                        } else {
                            let nbase = st.mem.len() as usize;
                            let grown = crate::mem::mem_grown(st.mem, ccf.frame_size as nat);
                            match copy_args_s(grown, cf, fr, &ccf, nbase, args@, args@.len()) {
                                None => trap(st, RunError::MemFault),
                                Some(m2) => {
                                    let m3 = write_consts_s(m2, &ccf, nbase, ccf.inits@.len());
                                    let mid = step_to(st, m3, npc);
                                    StateS {
                                        stack: mid.stack.push(
                                            Frame {
                                                func: *callee,
                                                pc: 0,
                                                base: nbase,
                                                ret_dest: *dest,
                                            },
                                        ),
                                        mem: mid.mem,
                                        status: mid.status,
                                    }
                                },
                            }
                        }
                    },
                }
            }
        },
        Insn::CallNative { callback, args, dest } => {
            if *callback >= ncb {
                trap(st, RunError::BadCallback)
            } else {
                match read_args_s(st.mem, cf, fr, args@, args@.len()) {
                    None => trap(st, RunError::TypeFault),
                    Some(vals) => {
                        let mid = step_to(st, st.mem, npc);
                        StateS {
                            stack: mid.stack,
                            mem: mid.mem,
                            status: StatusS::Awaiting {
                                callback: *callback,
                                args: vals,
                                dest: *dest,
                            },
                        }
                    },
                }
            }
        },
        Insn::Branch { target } => {
            if *target < cf.label_pos@.len() {
                step_to(st, st.mem, cf.label_pos@[*target as int])
            } else {
                trap(st, RunError::TypeFault)
            }
        },
        Insn::BranchIf { cond, target } => {
            match read_slot_s(cf, fr, st.mem, *cond) {
                Some(cv) => {
                    if *target < cf.label_pos@.len() {
                        if cv != 0 {
                            step_to(st, st.mem, cf.label_pos@[*target as int])
                        } else {
                            step_to(st, st.mem, npc)
                        }
                    } else {
                        trap(st, RunError::TypeFault)
                    }
                },
                None => trap(st, RunError::TypeFault),
            }
        },
        Insn::BranchIfNot { cond, target } => {
            match read_slot_s(cf, fr, st.mem, *cond) {
                Some(cv) => {
                    if *target < cf.label_pos@.len() {
                        if cv == 0 {
                            step_to(st, st.mem, cf.label_pos@[*target as int])
                        } else {
                            step_to(st, st.mem, npc)
                        }
                    } else {
                        trap(st, RunError::TypeFault)
                    }
                },
                None => trap(st, RunError::TypeFault),
            }
        },
        Insn::JumpTable { index, targets } => {
            match read_slot_s(cf, fr, st.mem, *index) {
                Some(iv) => {
                    if (iv as int) < targets@.len() {
                        let t = targets@[iv as int];
                        if t < cf.label_pos@.len() {
                            step_to(st, st.mem, cf.label_pos@[t as int])
                        } else {
                            trap(st, RunError::TypeFault)
                        }
                    } else {
                        step_to(st, st.mem, npc)
                    }
                },
                None => trap(st, RunError::TypeFault),
            }
        },
        Insn::Return { src } => {
            match read_slot_s(cf, fr, st.mem, *src) {
                Some(bits) => {
                    match cf.ret_scalar {
                        Some(rs) => {
                            let ss = scalar_at(cf, *src).unwrap();
                            if valid_width(rs.width) {
                                pop_return(funcs, st, crate::ops::eval_convert(bits, ss, rs))
                            } else {
                                trap(st, RunError::TypeFault)
                            }
                        },
                        None => pop_return(funcs, st, 0),
                    }
                },
                None => trap(st, RunError::TypeFault),
            }
        },
        Insn::DefaultReturn => pop_return(funcs, st, 0),
    }
}

/// One step of the machine: nothing outside the running state moves; a
/// running machine with an empty stack, an unknown or uncompiled function,
/// or an exhausted instruction stream traps; otherwise the instruction at
/// the top frame's position fires.
pub open spec fn step_s(funcs: Seq<FuncEntry>, ncb: usize, st: StateS) -> StateS {
    if !(st.status is Running) {
        st
    } else if st.stack.len() == 0 {
        trap(st, RunError::StackEmpty)
    } else {
        let fr = st.stack.last();
        if fr.func >= funcs.len() {
            trap(st, RunError::NotCompiled)
        } else {
            match funcs[fr.func as int] {
                FuncEntry::Reserved => trap(st, RunError::NotCompiled),
                FuncEntry::Done(cf) => {
                    if fr.pc >= cf.insns@.len() {
                        trap(st, RunError::FellOff)
                    } else {
                        step_insn(funcs, ncb, st, &cf, fr, &cf.insns@[fr.pc as int])
                    }
                },
            }
        }
    }
}

/// The machine after as many as `fuel` steps: it stops early only by
/// leaving the running state.
pub open spec fn run_s(funcs: Seq<FuncEntry>, ncb: usize, st: StateS, fuel: nat) -> StateS
    decreases fuel,
{
    if fuel == 0 || !(st.status is Running) {
        st
    } else {
        run_s(funcs, ncb, step_s(funcs, ncb, st), (fuel - 1) as nat)
    }
}

/// The machine after the host answers a suspended native call with `ret`:
/// the word lands in the slot the call named, and the machine runs on.
pub open spec fn resume_s(funcs: Seq<FuncEntry>, st: StateS, ret: u64) -> StateS {
    match st.status {
        StatusS::Awaiting { callback, args, dest } => {
            if st.stack.len() == 0 {
                trap(st, RunError::StackEmpty)
            } else {
                let fr = st.stack.last();
                if fr.func >= funcs.len() {
                    trap(st, RunError::NotCompiled)
                } else {
                    match funcs[fr.func as int] {
                        FuncEntry::Reserved => trap(st, RunError::NotCompiled),
                        FuncEntry::Done(cf) => {
                            match dest {
                                None => StateS {
                                    stack: st.stack,
                                    mem: st.mem,
                                    status: StatusS::Running,
                                },
                                Some(d) => {
                                    match write_slot_s(&cf, fr, st.mem, d, ret) {
                                        None => trap(st, RunError::MemFault),
                                        Some(m2) => StateS {
                                            stack: st.stack,
                                            mem: m2,
                                            status: StatusS::Running,
                                        },
                                    }
                                },
                            }
                        },
                    }
                }
            }
        },
        _ => trap(st, RunError::NotRunning),
    }
}

/// What the machine is doing, as data the host can hold: running,
/// suspended into the host with the arguments of a native call, finished
/// with a return word, or stopped by a trap.
pub enum MachStatus {
    Running,
    Awaiting { callback: CallbackId, args: Vec<u64>, dest: Option<ValId> },
    Finished { ret: u64 },
    Trapped { err: RunError },
}

/// The mathematical reading of a host-side status.
pub open spec fn status_view(s: &MachStatus) -> StatusS {
    match s {
        MachStatus::Running => StatusS::Running,
        MachStatus::Awaiting { callback, args, dest } => StatusS::Awaiting {
            callback: *callback,
            args: args@,
            dest: *dest,
        },
        MachStatus::Finished { ret } => StatusS::Finished { ret: *ret },
        MachStatus::Trapped { err } => StatusS::Trapped { err: *err },
    }
}

/// A machine mid-run: the frame stack, the one growing byte memory, the
/// status, and the host-side record of where the entry invocation's buffer
/// arguments were placed, for reading them back after the run.
pub struct Machine {
    pub stack: Vec<Frame>,
    pub mem: Vec<u8>,
    pub status: MachStatus,
    pub bufs: Vec<(usize, usize)>,
}

impl View for Machine {
    type V = StateS;

    open spec fn view(&self) -> StateS {
        StateS { stack: self.stack@, mem: self.mem@, status: status_view(&self.status) }
    }
}

/// The canonical word in a value's slot, decided: exactly [`read_slot_s`].
fn read_slot(cf: &CompiledFunction, fr: Frame, mem: &Vec<u8>, v: ValId) -> (r: Option<u64>)
    ensures
        r == read_slot_s(cf, fr, mem@, v),
{
    if v >= cf.offsets.len() || v >= cf.sizes.len() || v >= cf.scalars.len() {
        return None;
    }
    let sc = match cf.scalars[v] {
        Some(sc) => sc,
        None => {
            return None;
        },
    };
    let n = cf.sizes[v];
    if !(sc.width as usize == n && (sc.width == 1 || sc.width == 2 || sc.width == 4 || sc.width
        == 8)) {
        return None;
    }
    let addr_w = fr.base as u128 + cf.offsets[v] as u128;
    if addr_w + sc.width as u128 > mem.len() as u128 {
        return None;
    }
    crate::mem::read_word(mem, addr_w as usize, sc.width)
}

/// Lands a word in a value's slot, decided: exactly [`write_slot_s`], with
/// `false` and untouched memory where the spec has nothing.
pub(crate) fn exec_write_slot(
    cf: &CompiledFunction,
    fr: Frame,
    mem: &mut Vec<u8>,
    v: ValId,
    bits: u64,
) -> (r: bool)
    ensures
        write_slot_s(cf, fr, old(mem)@, v, bits) matches Some(m2) ==> r == true && final(mem)@
            == m2,
        write_slot_s(cf, fr, old(mem)@, v, bits) is None ==> r == false && final(mem)@ == old(
            mem,
        )@,
{
    if v >= cf.offsets.len() || v >= cf.sizes.len() || v >= cf.scalars.len() {
        return false;
    }
    let sc = match cf.scalars[v] {
        Some(sc) => sc,
        None => {
            return false;
        },
    };
    let n = cf.sizes[v];
    if !(sc.width as usize == n && (sc.width == 1 || sc.width == 2 || sc.width == 4 || sc.width
        == 8)) {
        return false;
    }
    let addr_w = fr.base as u128 + cf.offsets[v] as u128;
    if addr_w + sc.width as u128 > mem.len() as u128 {
        return false;
    }
    let ok = crate::mem::write_word(mem, addr_w as usize, sc.width, bits);
    proof {
        assert(ok);
    }
    true
}

/// Whether argument `j` of a call can be copied: both regions exist, agree
/// in size, and lie inside a memory of length `mlen`.
pub open spec fn arg_ok(
    cf: &CompiledFunction,
    fr: Frame,
    ccf: &CompiledFunction,
    nbase: usize,
    args: Seq<ValId>,
    j: int,
    mlen: int,
) -> bool {
    let pfr = Frame { func: 0, pc: 0, base: nbase, ret_dest: None };
    &&& 0 <= j < args.len()
    &&& region_of(cf, fr, args[j]) matches Some(sr)
    &&& region_of(ccf, pfr, j as usize) matches Some(dr)
    &&& {
        let sr = region_of(cf, fr, args[j]).unwrap();
        let dr = region_of(ccf, pfr, j as usize).unwrap();
        sr.1 == dr.1 && sr.0 + sr.1 <= mlen && dr.0 + dr.1 <= mlen
    }
}

/// Copying arguments succeeds exactly when each one can be copied, and it
/// never changes the memory's length.
pub proof fn lemma_copy_args_char(
    mem: Seq<u8>,
    cf: &CompiledFunction,
    fr: Frame,
    ccf: &CompiledFunction,
    nbase: usize,
    args: Seq<ValId>,
    k: nat,
)
    requires
        k <= args.len(),
    ensures
        (copy_args_s(mem, cf, fr, ccf, nbase, args, k) is Some) == (forall|j: int|
            0 <= j < k ==> arg_ok(cf, fr, ccf, nbase, args, j, mem.len() as int)),
        copy_args_s(mem, cf, fr, ccf, nbase, args, k) matches Some(m) ==> m.len() == mem.len(),
    decreases k,
{
    if k > 0 {
        lemma_copy_args_char(mem, cf, fr, ccf, nbase, args, (k - 1) as nat);
        match copy_args_s(mem, cf, fr, ccf, nbase, args, (k - 1) as nat) {
            None => {},
            Some(mk) => {
                assert(mk.len() == mem.len());
                let i = (k - 1) as int;
                let pfr = Frame { func: 0, pc: 0, base: nbase, ret_dest: None };
                if arg_ok(cf, fr, ccf, nbase, args, i, mem.len() as int) {
                    assert(copy_args_s(mem, cf, fr, ccf, nbase, args, k) is Some);
                } else {
                    assert(copy_args_s(mem, cf, fr, ccf, nbase, args, k) is None);
                }
            },
        }
    }
}

/// One machine step, computed: exactly [`step_s`]. The buffer records are
/// host bookkeeping and never move.
#[verifier::loop_isolation(false)]
#[verifier::rlimit(100)]
pub fn exec_step(funcs: &Vec<FuncEntry>, ncb: usize, m: &mut Machine)
    ensures
        final(m)@ == step_s(funcs@, ncb, old(m)@),
        final(m).bufs == old(m).bufs,
{
    match &m.status {
        MachStatus::Running => {},
        _ => {
            return ;
        },
    }
    if m.stack.len() == 0 {
        m.status = MachStatus::Trapped { err: RunError::StackEmpty };
        return ;
    }
    let fr = m.stack[m.stack.len() - 1];
    if fr.func >= funcs.len() {
        m.status = MachStatus::Trapped { err: RunError::NotCompiled };
        return ;
    }
    let cf = match &funcs[fr.func] {
        FuncEntry::Reserved => {
            m.status = MachStatus::Trapped { err: RunError::NotCompiled };
            return ;
        },
        FuncEntry::Done(cf) => cf,
    };
    if fr.pc >= cf.insns.len() {
        m.status = MachStatus::Trapped { err: RunError::FellOff };
        return ;
    }
    let npc = fr.pc + 1;
    let ghost st0 = old(m)@;
    match &cf.insns[fr.pc] {
        Insn::Binary { op, dest, a, b } => {
            let va = match read_slot(cf, fr, &m.mem, *a) {
                Some(x) => x,
                None => {
                    m.status = MachStatus::Trapped { err: RunError::TypeFault };
                    return ;
                },
            };
            let vb = match read_slot(cf, fr, &m.mem, *b) {
                Some(x) => x,
                None => {
                    m.status = MachStatus::Trapped { err: RunError::TypeFault };
                    return ;
                },
            };
            let sa = match cf.scalars[*a] {
                Some(x) => x,
                None => {
                    m.status = MachStatus::Trapped { err: RunError::TypeFault };
                    return ;
                },
            };
            let same = match cf.scalars[*b] {
                Some(y) => sa == y,
                None => false,
            };
            if !same {
                m.status = MachStatus::Trapped { err: RunError::TypeFault };
                return ;
            }
            proof {
                crate::mem::lemma_word_read_bound(m.mem@, fr.base + cf.offsets@[*a as int], sa.width as nat);
                crate::mem::lemma_word_read_bound(m.mem@, fr.base + cf.offsets@[*b as int], sa.width as nat);
            }
            let res = match crate::ops::exec_binary(*op, sa, va, vb) {
                Some(x) => x,
                None => {
                    m.status = MachStatus::Trapped { err: RunError::Arithmetic };
                    return ;
                },
            };
            if !exec_write_slot(cf, fr, &mut m.mem, *dest, res) {
                m.status = MachStatus::Trapped { err: RunError::MemFault };
                return ;
            }
            let top = m.stack.len() - 1;
            m.stack.set(
                top,
                Frame { func: fr.func, pc: npc, base: fr.base, ret_dest: fr.ret_dest },
            );
        },
        Insn::Unary { op, dest, a } => {
            let va = match read_slot(cf, fr, &m.mem, *a) {
                Some(x) => x,
                None => {
                    m.status = MachStatus::Trapped { err: RunError::TypeFault };
                    return ;
                },
            };
            let sa = cf.scalars[*a].unwrap();
            proof {
                crate::mem::lemma_word_read_bound(m.mem@, fr.base + cf.offsets@[*a as int], sa.width as nat);
            }
            let res = crate::ops::exec_unary(*op, sa, va);
            if !exec_write_slot(cf, fr, &mut m.mem, *dest, res) {
                m.status = MachStatus::Trapped { err: RunError::MemFault };
                return ;
            }
            let top = m.stack.len() - 1;
            m.stack.set(
                top,
                Frame { func: fr.func, pc: npc, base: fr.base, ret_dest: fr.ret_dest },
            );
        },
        Insn::Load { dest, src } => {
            if !copy_slot(cf, fr, &mut m.mem, *dest, *src, &mut m.status) {
                return ;
            }
            let top = m.stack.len() - 1;
            m.stack.set(
                top,
                Frame { func: fr.func, pc: npc, base: fr.base, ret_dest: fr.ret_dest },
            );
        },
        Insn::Store { dest, src } => {
            if !copy_slot(cf, fr, &mut m.mem, *dest, *src, &mut m.status) {
                return ;
            }
            let top = m.stack.len() - 1;
            m.stack.set(
                top,
                Frame { func: fr.func, pc: npc, base: fr.base, ret_dest: fr.ret_dest },
            );
        },
        _ => {
            exec_step_rest(funcs, ncb, m, fr, Ghost(st0));
        },
    }
}

/// One slot-to-slot byte copy, decided: the memory effect of `Load` and
/// `Store`, with the trap recorded on failure.
fn copy_slot(
    cf: &CompiledFunction,
    fr: Frame,
    mem: &mut Vec<u8>,
    dest: ValId,
    src: ValId,
    status: &mut MachStatus,
) -> (r: bool)
    ensures
        ({
            let rd = region_of(cf, fr, dest);
            let rs = region_of(cf, fr, src);
            match (rd, rs) {
                (Some((da, dn)), Some((sa, sn))) => {
                    if dn != sn {
                        r == false && final(mem)@ == old(mem)@ && status_view(final(status))
                            == (StatusS::Trapped { err: RunError::TypeFault })
                    } else if da + dn <= old(mem)@.len() && sa + sn <= old(mem)@.len() {
                        r == true && final(mem)@ == crate::mem::mem_copy(old(mem)@, da, sa, dn)
                            && *final(status) == *old(status)
                    } else {
                        r == false && final(mem)@ == old(mem)@ && status_view(final(status))
                            == (StatusS::Trapped { err: RunError::MemFault })
                    }
                },
                _ => {
                    r == false && final(mem)@ == old(mem)@ && status_view(final(status)) == (
                    StatusS::Trapped { err: RunError::TypeFault })
                },
            }
        }),
{
    if dest >= cf.offsets.len() || dest >= cf.sizes.len() || src >= cf.offsets.len() || src
        >= cf.sizes.len() {
        *status = MachStatus::Trapped { err: RunError::TypeFault };
        return false;
    }
    let dn = cf.sizes[dest];
    let sn = cf.sizes[src];
    if dn != sn {
        *status = MachStatus::Trapped { err: RunError::TypeFault };
        return false;
    }
    let da = fr.base as u128 + cf.offsets[dest] as u128;
    let sa = fr.base as u128 + cf.offsets[src] as u128;
    if da + dn as u128 > mem.len() as u128 || sa + sn as u128 > mem.len() as u128 {
        *status = MachStatus::Trapped { err: RunError::MemFault };
        return false;
    }
    let ok = crate::mem::copy_bytes(mem, da as usize, sa as usize, dn);
    proof {
        assert(ok);
    }
    true
}

/// The argument words of a native call, read in order: exactly
/// [`read_args_s`].
#[verifier::loop_isolation(false)]
fn read_args(cf: &CompiledFunction, fr: Frame, mem: &Vec<u8>, args: &Vec<ValId>) -> (r: Option<
    Vec<u64>,
>)
    ensures
        read_args_s(mem@, cf, fr, args@, args@.len()) matches Some(vs) ==> (r matches Some(rv)
            && rv@ == vs),
        read_args_s(mem@, cf, fr, args@, args@.len()) is None ==> r is None,
{
    let mut out: Vec<u64> = Vec::new();
    let mut i: usize = 0;
    while i < args.len()
        invariant
            0 <= i <= args@.len(),
            read_args_s(mem@, cf, fr, args@, i as nat) == Some(out@),
        decreases args@.len() - i,
    {
        match read_slot(cf, fr, mem, args[i]) {
            Some(b) => out.push(b),
            None => {
                proof {
                    lemma_read_args_none(mem@, cf, fr, args@, (i + 1) as nat, args@.len() as nat);
                }
                return None;
            },
        }
        i = i + 1;
    }
    Some(out)
}

/// A failed argument read stays failed as more arguments are asked for.
proof fn lemma_read_args_none(
    mem: Seq<u8>,
    cf: &CompiledFunction,
    fr: Frame,
    args: Seq<ValId>,
    k: nat,
    n: nat,
)
    requires
        k <= n,
        read_args_s(mem, cf, fr, args, k) is None,
    ensures
        read_args_s(mem, cf, fr, args, n) is None,
    decreases n - k,
{
    if k < n {
        lemma_read_args_none(mem, cf, fr, args, (k + 1) as nat, n);
    }
}

/// The remaining machine steps: control flow, relative memory access,
/// calls and returns. Continues [`exec_step`]; the contract is the same.
#[verifier::loop_isolation(false)]
#[verifier::rlimit(100)]
fn exec_step_rest(
    funcs: &Vec<FuncEntry>,
    ncb: usize,
    m: &mut Machine,
    fr: Frame,
    Ghost(st0): Ghost<StateS>,
)
    requires
        old(m)@ == st0,
        st0.status is Running,
        st0.stack.len() > 0,
        fr == st0.stack.last(),
        fr.func < funcs@.len(),
        funcs@[fr.func as int] matches FuncEntry::Done(..),
        fr.pc < (funcs@[fr.func as int]->Done_0).insns@.len(),
        !((funcs@[fr.func as int]->Done_0).insns@[fr.pc as int] matches Insn::Binary { .. }),
        !((funcs@[fr.func as int]->Done_0).insns@[fr.pc as int] matches Insn::Unary { .. }),
        !((funcs@[fr.func as int]->Done_0).insns@[fr.pc as int] matches Insn::Load { .. }),
        !((funcs@[fr.func as int]->Done_0).insns@[fr.pc as int] matches Insn::Store { .. }),
    ensures
        final(m)@ == step_s(funcs@, ncb, st0),
        final(m).bufs == old(m).bufs,
{
    let cf = match &funcs[fr.func] {
        FuncEntry::Reserved => {
            proof {
                assert(false);
            }
            return ;
        },
        FuncEntry::Done(cf) => cf,
    };
    proof {
        assert(*cf == funcs@[fr.func as int]->Done_0);
    }
    let n_insns = cf.insns.len();
    proof {
        assert(fr.pc < n_insns);
    }
    let npc = fr.pc + 1;
    match &cf.insns[fr.pc] {
        Insn::LoadRelative { dest, ptr, offset } => {
            let pv = match read_slot(cf, fr, &m.mem, *ptr) {
                Some(x) => x,
                None => {
                    m.status = MachStatus::Trapped { err: RunError::TypeFault };
                    return ;
                },
            };
            if *dest >= cf.offsets.len() || *dest >= cf.sizes.len() {
                m.status = MachStatus::Trapped { err: RunError::TypeFault };
                return ;
            }
            let dn = cf.sizes[*dest];
            let da = fr.base as u128 + cf.offsets[*dest] as u128;
            let sa = pv as u128 + *offset as u128;
            if sa + dn as u128 > m.mem.len() as u128 || da + dn as u128 > m.mem.len() as u128 {
                m.status = MachStatus::Trapped { err: RunError::MemFault };
                return ;
            }
            let ok = crate::mem::copy_bytes(&mut m.mem, da as usize, sa as usize, dn);
            proof {
                assert(ok);
            }
            let top = m.stack.len() - 1;
            m.stack.set(
                top,
                Frame { func: fr.func, pc: npc, base: fr.base, ret_dest: fr.ret_dest },
            );
        },
        Insn::StoreRelative { ptr, offset, src } => {
            let pv = match read_slot(cf, fr, &m.mem, *ptr) {
                Some(x) => x,
                None => {
                    m.status = MachStatus::Trapped { err: RunError::TypeFault };
                    return ;
                },
            };
            if *src >= cf.offsets.len() || *src >= cf.sizes.len() {
                m.status = MachStatus::Trapped { err: RunError::TypeFault };
                return ;
            }
            let sn = cf.sizes[*src];
            let sa = fr.base as u128 + cf.offsets[*src] as u128;
            let da = pv as u128 + *offset as u128;
            if da + sn as u128 > m.mem.len() as u128 || sa + sn as u128 > m.mem.len() as u128 {
                m.status = MachStatus::Trapped { err: RunError::MemFault };
                return ;
            }
            let ok = crate::mem::copy_bytes(&mut m.mem, da as usize, sa as usize, sn);
            proof {
                assert(ok);
            }
            let top = m.stack.len() - 1;
            m.stack.set(
                top,
                Frame { func: fr.func, pc: npc, base: fr.base, ret_dest: fr.ret_dest },
            );
        },
        Insn::AddressOf { dest, src } => {
            if *src >= cf.offsets.len() || *src >= cf.sizes.len() {
                m.status = MachStatus::Trapped { err: RunError::TypeFault };
                return ;
            }
            let sa = fr.base as u128 + cf.offsets[*src] as u128;
            if sa > u64::MAX as u128 {
                m.status = MachStatus::Trapped { err: RunError::MemFault };
                return ;
            }
            if !exec_write_slot(cf, fr, &mut m.mem, *dest, sa as u64) {
                m.status = MachStatus::Trapped { err: RunError::MemFault };
                return ;
            }
            let top = m.stack.len() - 1;
            m.stack.set(
                top,
                Frame { func: fr.func, pc: npc, base: fr.base, ret_dest: fr.ret_dest },
            );
        },
        Insn::Convert { dest, src } => {
            let va = match read_slot(cf, fr, &m.mem, *src) {
                Some(x) => x,
                None => {
                    m.status = MachStatus::Trapped { err: RunError::TypeFault };
                    return ;
                },
            };
            if *dest >= cf.scalars.len() {
                m.status = MachStatus::Trapped { err: RunError::TypeFault };
                return ;
            }
            let sd = match cf.scalars[*dest] {
                Some(x) => x,
                None => {
                    m.status = MachStatus::Trapped { err: RunError::TypeFault };
                    return ;
                },
            };
            if !(sd.width == 1 || sd.width == 2 || sd.width == 4 || sd.width == 8) {
                m.status = MachStatus::Trapped { err: RunError::TypeFault };
                return ;
            }
            let ss = cf.scalars[*src].unwrap();
            proof {
                crate::mem::lemma_word_read_bound(
                    m.mem@,
                    fr.base + cf.offsets@[*src as int],
                    ss.width as nat,
                );
            }
            let res = crate::ops::exec_convert(va, ss, sd);
            if !exec_write_slot(cf, fr, &mut m.mem, *dest, res) {
                m.status = MachStatus::Trapped { err: RunError::MemFault };
                return ;
            }
            let top = m.stack.len() - 1;
            m.stack.set(
                top,
                Frame { func: fr.func, pc: npc, base: fr.base, ret_dest: fr.ret_dest },
            );
        },
        Insn::Branch { target } => {
            if *target >= cf.label_pos.len() {
                m.status = MachStatus::Trapped { err: RunError::TypeFault };
                return ;
            }
            let top = m.stack.len() - 1;
            let pos = cf.label_pos[*target];
            m.stack.set(
                top,
                Frame { func: fr.func, pc: pos, base: fr.base, ret_dest: fr.ret_dest },
            );
        },
        Insn::BranchIf { cond, target } => {
            let cv = match read_slot(cf, fr, &m.mem, *cond) {
                Some(x) => x,
                None => {
                    m.status = MachStatus::Trapped { err: RunError::TypeFault };
                    return ;
                },
            };
            if *target >= cf.label_pos.len() {
                m.status = MachStatus::Trapped { err: RunError::TypeFault };
                return ;
            }
            let top = m.stack.len() - 1;
            let pos = if cv != 0 {
                cf.label_pos[*target]
            } else {
                npc
            };
            m.stack.set(
                top,
                Frame { func: fr.func, pc: pos, base: fr.base, ret_dest: fr.ret_dest },
            );
        },
        Insn::BranchIfNot { cond, target } => {
            let cv = match read_slot(cf, fr, &m.mem, *cond) {
                Some(x) => x,
                None => {
                    m.status = MachStatus::Trapped { err: RunError::TypeFault };
                    return ;
                },
            };
            if *target >= cf.label_pos.len() {
                m.status = MachStatus::Trapped { err: RunError::TypeFault };
                return ;
            }
            let top = m.stack.len() - 1;
            let pos = if cv == 0 {
                cf.label_pos[*target]
            } else {
                npc
            };
            m.stack.set(
                top,
                Frame { func: fr.func, pc: pos, base: fr.base, ret_dest: fr.ret_dest },
            );
        },
        Insn::JumpTable { index, targets } => {
            let iv = match read_slot(cf, fr, &m.mem, *index) {
                Some(x) => x,
                None => {
                    m.status = MachStatus::Trapped { err: RunError::TypeFault };
                    return ;
                },
            };
            let top = m.stack.len() - 1;
            if iv < targets.len() as u64 {
                let t = targets[iv as usize];
                if t >= cf.label_pos.len() {
                    m.status = MachStatus::Trapped { err: RunError::TypeFault };
                    return ;
                }
                let pos = cf.label_pos[t];
                m.stack.set(
                    top,
                    Frame { func: fr.func, pc: pos, base: fr.base, ret_dest: fr.ret_dest },
                );
            } else {
                m.stack.set(
                    top,
                    Frame { func: fr.func, pc: npc, base: fr.base, ret_dest: fr.ret_dest },
                );
            }
        },
        Insn::Return { src } => {
            let bits = match read_slot(cf, fr, &m.mem, *src) {
                Some(x) => x,
                None => {
                    m.status = MachStatus::Trapped { err: RunError::TypeFault };
                    return ;
                },
            };
            let out = match cf.ret_scalar {
                Some(rs) => {
                    if !(rs.width == 1 || rs.width == 2 || rs.width == 4 || rs.width == 8) {
                        m.status = MachStatus::Trapped { err: RunError::TypeFault };
                        return ;
                    }
                    let ss = cf.scalars[*src].unwrap();
                    proof {
                        crate::mem::lemma_word_read_bound(
                            m.mem@,
                            fr.base + cf.offsets@[*src as int],
                            ss.width as nat,
                        );
                    }
                    crate::ops::exec_convert(bits, ss, rs)
                },
                None => 0,
            };
            exec_pop_return(funcs, m, out, Ghost(st0));
        },
        Insn::DefaultReturn => {
            exec_pop_return(funcs, m, 0, Ghost(st0));
        },
        Insn::CallNative { callback, args, dest } => {
            if *callback >= ncb {
                m.status = MachStatus::Trapped { err: RunError::BadCallback };
                return ;
            }
            let vals = match read_args(cf, fr, &m.mem, args) {
                Some(v) => v,
                None => {
                    m.status = MachStatus::Trapped { err: RunError::TypeFault };
                    return ;
                },
            };
            let top = m.stack.len() - 1;
            m.stack.set(
                top,
                Frame { func: fr.func, pc: npc, base: fr.base, ret_dest: fr.ret_dest },
            );
            m.status = MachStatus::Awaiting { callback: *callback, args: vals, dest: *dest };
        },
        Insn::Call { callee, args, dest, flags } => {
            exec_call(funcs, m, fr, *callee, args, *dest, Ghost(st0));
        },
        _ => {
            proof {
                assert(false);
            }
        },
    }
}

/// The return transition, computed: exactly [`pop_return`] applied to the
/// running state.
fn exec_pop_return(funcs: &Vec<FuncEntry>, m: &mut Machine, bits: u64, Ghost(st0): Ghost<StateS>)
    requires
        old(m)@ == st0,
        st0.stack.len() > 0,
        st0.status is Running,
    ensures
        final(m)@ == pop_return(funcs@, st0, bits),
        final(m).bufs == old(m).bufs,
{
    let fr = m.stack[m.stack.len() - 1];
    let _ = m.stack.pop();
    if m.stack.len() == 0 {
        m.status = MachStatus::Finished { ret: bits };
        return ;
    }
    let cfr = m.stack[m.stack.len() - 1];
    if cfr.func >= funcs.len() {
        m.stack.push(fr);
        proof {
            assert(m.stack@ =~= st0.stack);
        }
        m.status = MachStatus::Trapped { err: RunError::NotCompiled };
        return ;
    }
    let ccf2 = match &funcs[cfr.func] {
        FuncEntry::Reserved => {
            m.stack.push(fr);
            proof {
                assert(m.stack@ =~= st0.stack);
            }
            m.status = MachStatus::Trapped { err: RunError::NotCompiled };
            return ;
        },
        FuncEntry::Done(c) => c,
    };
    match fr.ret_dest {
        None => {},
        Some(d) => {
            if !exec_write_slot(ccf2, cfr, &mut m.mem, d, bits) {
                m.stack.push(fr);
                proof {
                    assert(m.stack@ =~= st0.stack);
                }
                m.status = MachStatus::Trapped { err: RunError::MemFault };
                return ;
            }
        },
    }
}

/// The call transition, computed: the callee's frame opens at the end of
/// memory, arguments are copied in and constants written, and the callee
/// starts at its first instruction.
#[verifier::loop_isolation(false)]
#[verifier::rlimit(100)]
fn exec_call(
    funcs: &Vec<FuncEntry>,
    m: &mut Machine,
    fr: Frame,
    callee: FuncId,
    args: &Vec<ValId>,
    dest: Option<ValId>,
    Ghost(st0): Ghost<StateS>,
)
    requires
        old(m)@ == st0,
        st0.status is Running,
        st0.stack.len() > 0,
        fr == st0.stack.last(),
        fr.func < funcs@.len(),
        funcs@[fr.func as int] matches FuncEntry::Done(..),
        fr.pc < (funcs@[fr.func as int]->Done_0).insns@.len(),
        (funcs@[fr.func as int]->Done_0).insns@[fr.pc as int] matches Insn::Call { .. },
        (funcs@[fr.func as int]->Done_0).insns@[fr.pc as int]->Call_callee == callee,
        ((funcs@[fr.func as int]->Done_0).insns@[fr.pc as int]->Call_args)@ == args@,
        (funcs@[fr.func as int]->Done_0).insns@[fr.pc as int]->Call_dest == dest,
    ensures
        final(m)@ == step_insn(
            funcs@,
            0,
            st0,
            &(funcs@[fr.func as int]->Done_0),
            fr,
            &(funcs@[fr.func as int]->Done_0).insns@[fr.pc as int],
        ),
        final(m).bufs == old(m).bufs,
{
    let cf = match &funcs[fr.func] {
        FuncEntry::Reserved => {
            proof {
                assert(false);
            }
            return ;
        },
        FuncEntry::Done(c) => c,
    };
    proof {
        assert(*cf == funcs@[fr.func as int]->Done_0);
    }
    let n_insns = cf.insns.len();
    proof {
        assert(fr.pc < n_insns);
    }
    if callee >= funcs.len() {
        m.status = MachStatus::Trapped { err: RunError::NotCompiled };
        return ;
    }
    let ccf = match &funcs[callee] {
        FuncEntry::Reserved => {
            m.status = MachStatus::Trapped { err: RunError::NotCompiled };
            return ;
        },
        FuncEntry::Done(c) => c,
    };
    if args.len() != ccf.n_params {
        m.status = MachStatus::Trapped { err: RunError::SignatureMismatch };
        return ;
    }
    let dest_ok = match (dest, ccf.ret_scalar) {
        (None, None) => true,
        (Some(d), Some(s)) => {
            if d < cf.scalars.len() {
                match cf.scalars[d] {
                    Some(x) => x == s,
                    None => false,
                }
            } else {
                false
            }
        },
        _ => false,
    };
    if !dest_ok {
        m.status = MachStatus::Trapped { err: RunError::SignatureMismatch };
        return ;
    }
    if m.mem.len() as u128 + ccf.frame_size as u128 > usize::MAX as u128 {
        m.status = MachStatus::Trapped { err: RunError::MemFault };
        return ;
    }
    let nbase = m.mem.len();
    let ghost grown = crate::mem::mem_grown(st0.mem, ccf.frame_size as nat);
    let glen = nbase + ccf.frame_size;
    let mut j: usize = 0;
    let mut all_ok = true;
    while j < args.len() && all_ok
        invariant
            0 <= j <= args@.len(),
            all_ok ==> forall|i: int|
                0 <= i < j ==> arg_ok(cf, fr, ccf, nbase, args@, i, glen as int),
            !all_ok ==> exists|i: int|
                0 <= i < args@.len() && !arg_ok(cf, fr, ccf, nbase, args@, i, glen as int),
            m@ == st0,
            m.bufs == old(m).bufs,
        decreases args@.len() - j,
    {
        let a = args[j];
        let ok = if a < cf.offsets.len() && a < cf.sizes.len() && j < ccf.offsets.len() && j
            < ccf.sizes.len() {
            let sn = cf.sizes[a];
            let dn = ccf.sizes[j];
            let sa = fr.base as u128 + cf.offsets[a] as u128;
            let da = nbase as u128 + ccf.offsets[j] as u128;
            sn == dn && sa + sn as u128 <= glen as u128 && da + dn as u128 <= glen as u128
        } else {
            false
        };
        if !ok {
            proof {
                assert(!arg_ok(cf, fr, ccf, nbase, args@, j as int, glen as int));
            }
            all_ok = false;
        } else {
            proof {
                assert(arg_ok(cf, fr, ccf, nbase, args@, j as int, glen as int));
            }
        }
        j = j + 1;
    }
    proof {
        lemma_copy_args_char(grown, cf, fr, ccf, nbase, args@, args@.len() as nat);
    }
    if !all_ok {
        m.status = MachStatus::Trapped { err: RunError::MemFault };
        return ;
    }
    crate::mem::grow_zeros(&mut m.mem, ccf.frame_size);
    let mut k: usize = 0;
    while k < args.len()
        invariant
            0 <= k <= args@.len(),
            forall|i: int| 0 <= i < args@.len() ==> arg_ok(cf, fr, ccf, nbase, args@, i, glen as int),
            copy_args_s(grown, cf, fr, ccf, nbase, args@, k as nat) == Some(m.mem@),
            m.mem@.len() == glen,
            m.stack@ == st0.stack,
            status_view(&m.status) == st0.status,
            m.bufs == old(m).bufs,
        decreases args@.len() - k,
    {
        proof {
            assert(arg_ok(cf, fr, ccf, nbase, args@, k as int, glen as int));
        }
        let a = args[k];
        let sn = cf.sizes[a];
        let sa = fr.base as u128 + cf.offsets[a] as u128;
        let da = nbase as u128 + ccf.offsets[k] as u128;
        let ok = crate::mem::copy_bytes(&mut m.mem, da as usize, sa as usize, sn);
        proof {
            assert(ok);
        }
        k = k + 1;
    }
    let ghost m2 = m.mem@;
    let mut v: usize = 0;
    while v < ccf.inits.len()
        invariant
            0 <= v <= ccf.inits@.len(),
            write_consts_s(m2, ccf, nbase, v as nat) == m.mem@,
            m.mem@.len() == glen,
            m.stack@ == st0.stack,
            status_view(&m.status) == st0.status,
            m.bufs == old(m).bufs,
        decreases ccf.inits@.len() - v,
    {
        let doit = v < ccf.offsets.len() && v < ccf.scalars.len();
        if doit {
            match (ccf.inits[v], ccf.scalars[v]) {
                (Some(bits), Some(sc)) => {
                    if (sc.width == 1 || sc.width == 2 || sc.width == 4 || sc.width == 8) && nbase
                        as u128 + ccf.offsets[v] as u128 + sc.width as u128 <= m.mem.len() as u128 {
                        let ok = crate::mem::write_word(
                            &mut m.mem,
                            nbase + ccf.offsets[v],
                            sc.width,
                            bits,
                        );
                        proof {
                            assert(ok);
                        }
                    }
                },
                _ => {},
            }
        }
        v = v + 1;
    }
    let top = m.stack.len() - 1;
    m.stack.set(
        top,
        Frame { func: fr.func, pc: fr.pc + 1, base: fr.base, ret_dest: fr.ret_dest },
    );
    m.stack.push(Frame { func: callee, pc: 0, base: nbase, ret_dest: dest });
}

/// Runs the machine for as many as `fuel` steps, computed: exactly
/// [`run_s`]. The machine stops early only by leaving the running state;
/// fuel spent on a stopped machine changes nothing.
#[verifier::loop_isolation(false)]
pub fn exec_run(funcs: &Vec<FuncEntry>, ncb: usize, m: &mut Machine, fuel: u64)
    ensures
        final(m)@ == run_s(funcs@, ncb, old(m)@, fuel as nat),
        final(m).bufs == old(m).bufs,
{
    let mut i: u64 = 0;
    while i < fuel
        invariant
            0 <= i <= fuel,
            run_s(funcs@, ncb, old(m)@, fuel as nat) == run_s(
                funcs@,
                ncb,
                m@,
                (fuel - i) as nat,
            ),
            m.bufs == old(m).bufs,
        decreases fuel - i,
    {
        let running = match &m.status {
            MachStatus::Running => true,
            _ => false,
        };
        if !running {
            return ;
        }
        exec_step(funcs, ncb, m);
        i = i + 1;
    }
}

/// Answers a suspended native call with the word `ret`, computed: exactly
/// [`resume_s`].
pub fn exec_resume(funcs: &Vec<FuncEntry>, m: &mut Machine, ret: u64)
    ensures
        final(m)@ == resume_s(funcs@, old(m)@, ret),
        final(m).bufs == old(m).bufs,
{
    let dest = match &m.status {
        MachStatus::Awaiting { dest, .. } => *dest,
        _ => {
            m.status = MachStatus::Trapped { err: RunError::NotRunning };
            return ;
        },
    };
    if m.stack.len() == 0 {
        m.status = MachStatus::Trapped { err: RunError::StackEmpty };
        return ;
    }
    let fr = m.stack[m.stack.len() - 1];
    if fr.func >= funcs.len() {
        m.status = MachStatus::Trapped { err: RunError::NotCompiled };
        return ;
    }
    let cf = match &funcs[fr.func] {
        FuncEntry::Reserved => {
            m.status = MachStatus::Trapped { err: RunError::NotCompiled };
            return ;
        },
        FuncEntry::Done(c) => c,
    };
    match dest {
        None => {
            m.status = MachStatus::Running;
        },
        Some(d) => {
            if !exec_write_slot(cf, fr, &mut m.mem, d, ret) {
                m.status = MachStatus::Trapped { err: RunError::MemFault };
                return ;
            }
            m.status = MachStatus::Running;
        },
    }
}

impl Machine {
    /// The return word, once the machine has finished.
    pub fn finished(&self) -> (r: Option<u64>)
        ensures
            self@.status matches StatusS::Finished { ret } ==> r == Some(ret),
            !(self@.status matches StatusS::Finished { .. }) ==> r is None,
    {
        match &self.status {
            MachStatus::Finished { ret } => Some(*ret),
            _ => None,
        }
    }

    /// The trap that stopped the machine, if one did.
    pub fn trapped(&self) -> (r: Option<RunError>)
        ensures
            self@.status matches StatusS::Trapped { err } ==> r == Some(err),
            !(self@.status matches StatusS::Trapped { .. }) ==> r is None,
    {
        match &self.status {
            MachStatus::Trapped { err } => Some(*err),
            _ => None,
        }
    }

    /// Whether the machine still runs.
    pub fn is_running(&self) -> (r: bool)
        ensures
            r == (self@.status is Running),
    {
        match &self.status {
            MachStatus::Running => true,
            _ => false,
        }
    }

    /// Which callback the machine waits on, while suspended.
    pub fn awaiting_callback(&self) -> (r: Option<CallbackId>)
        ensures
            self@.status matches StatusS::Awaiting { callback, .. } ==> r == Some(callback),
            !(self@.status matches StatusS::Awaiting { .. }) ==> r is None,
    {
        match &self.status {
            MachStatus::Awaiting { callback, .. } => Some(*callback),
            _ => None,
        }
    }

    /// How many argument words the suspended native call carries.
    pub fn awaiting_arg_count(&self) -> (r: usize)
        ensures
            self@.status matches StatusS::Awaiting { args, .. } ==> r == args.len(),
            !(self@.status matches StatusS::Awaiting { .. }) ==> r == 0,
    {
        match &self.status {
            MachStatus::Awaiting { args, .. } => args.len(),
            _ => 0,
        }
    }

    /// Argument word `i` of the suspended native call.
    pub fn awaiting_arg(&self, i: usize) -> (r: Option<u64>)
        ensures
            (self@.status matches StatusS::Awaiting { args, .. } && i < args.len()) ==> (
            self@.status matches StatusS::Awaiting { args, .. } && r == Some(args[i as int])),
            !(self@.status matches StatusS::Awaiting { args, .. } && i < args.len()) ==> r
                is None,
    {
        match &self.status {
            MachStatus::Awaiting { args, .. } => {
                if i < args.len() {
                    Some(args[i])
                } else {
                    None
                }
            },
            _ => None,
        }
    }

    /// How many buffer arguments the entry invocation placed in memory.
    pub fn buffer_count(&self) -> (r: usize)
        ensures
            r == self.bufs@.len(),
    {
        self.bufs.len()
    }

    /// The bytes of buffer argument `i`, as the run left them: how an
    /// invocation's writes through a pointer argument reach the host.
    #[verifier::loop_isolation(false)]
    pub fn read_buffer(&self, i: usize) -> (r: Option<Vec<u8>>)
        ensures
            ({
                &&& i < self.bufs@.len()
                &&& self.bufs@[i as int].0 + self.bufs@[i as int].1 <= self@.mem.len()
            }) ==> (r matches Some(b) && b@ == self@.mem.subrange(
                self.bufs@[i as int].0 as int,
                self.bufs@[i as int].0 + self.bufs@[i as int].1,
            )),
            !({
                &&& i < self.bufs@.len()
                &&& self.bufs@[i as int].0 + self.bufs@[i as int].1 <= self@.mem.len()
            }) ==> r is None,
    {
        if i >= self.bufs.len() {
            return None;
        }
        let (addr, n) = self.bufs[i];
        if addr as u128 + n as u128 > self.mem.len() as u128 {
            return None;
        }
        let mut out: Vec<u8> = Vec::new();
        let mut k: usize = 0;
        while k < n
            invariant
                0 <= k <= n,
                addr + n <= self.mem@.len(),
                out@.len() == k,
                forall|j: int| 0 <= j < k ==> out@[j] == self.mem@[addr + j],
            decreases n - k,
        {
            out.push(self.mem[addr + k]);
            k = k + 1;
        }
        proof {
            assert(out@ =~= self@.mem.subrange(addr as int, addr + n));
        }
        Some(out)
    }
}

} // verus!
