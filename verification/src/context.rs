//! The context: owner of every function built and compiled within it, of
//! the registered host callbacks, and of optional keyed tag data. It hands
//! out builders, compiles them, and drives the machine that runs them.

use vstd::prelude::*;

use crate::builder::BuildError;
use crate::builder::UncompiledFunction;
use crate::ir::CallbackId;
use crate::ir::FuncId;
use crate::machine::CompileError;
use crate::machine::CompiledFunction;
use crate::machine::Frame;
use crate::machine::FuncEntry;
use crate::machine::MachStatus;
use crate::machine::Machine;
use crate::machine::RunError;
use crate::machine::StateS;
use crate::machine::StatusS;
use crate::machine::all_labels_placed;
use crate::machine::all_vals_typed;
use crate::machine::compile_function;
use crate::machine::compiled_from;
use crate::machine::consts_scalar;
use crate::machine::exec_resume;
use crate::machine::exec_run;
use crate::machine::exec_step;
use crate::machine::frame_fits;
use crate::machine::ret_ok;
use crate::machine::run_s;
use crate::machine::scalar_at;
use crate::machine::write_consts_s;
use crate::machine::write_slot_s;
use crate::ir::Scalar;
use crate::mem::mem_grown;
use crate::types::Type;

verus! {

/// One argument handed to an invocation from the host: a scalar's bits, or
/// a byte buffer that the machine holds for the run and hands back after,
/// standing in for memory the compiled code reaches through a pointer
/// parameter.
pub enum HostArg {
    Word(u64),
    Buf(Vec<u8>),
}

/// The last value stored under `key`, if any.
pub open spec fn tag_spec<T>(tags: Seq<(i32, T)>, key: i32) -> Option<T>
    decreases tags.len(),
{
    if tags.len() == 0 {
        None
    } else if tags.last().0 == key {
        Some(tags.last().1)
    } else {
        tag_spec(tags.drop_last(), key)
    }
}

/// The memory and buffer records after the first `k` host arguments are
/// placed: a word lands in its parameter slot; a buffer's bytes are
/// appended to memory and their address lands in its (pointer) parameter
/// slot. Nothing, when an argument does not fit its slot.
pub open spec fn place_args_s(
    mem: Seq<u8>,
    cf: &CompiledFunction,
    args: Seq<HostArg>,
    k: nat,
) -> Option<(Seq<u8>, Seq<(usize, usize)>)>
    decreases k,
{
    let fr0 = Frame { func: 0, pc: 0, base: 0, ret_dest: None };
    if k == 0 {
        Some((mem, Seq::empty()))
    } else {
        match place_args_s(mem, cf, args, (k - 1) as nat) {
            None => None,
            Some((m, bs)) => {
                let i = (k - 1) as int;
                if i < args.len() {
                    match args[i] {
                        HostArg::Word(v) => {
                            match write_slot_s(cf, fr0, m, i as usize, v) {
                                Some(m2) => Some((m2, bs)),
                                None => None,
                            }
                        },
                        HostArg::Buf(b) => {
                            if scalar_at(cf, i as usize) == Some(
                                Scalar { width: 8, signed: false },
                            ) && m.len() + b@.len() <= usize::MAX && m.len() <= u64::MAX {
                                let addr = m.len() as usize;
                                let m2 = m + b@;
                                match write_slot_s(cf, fr0, m2, i as usize, addr as u64) {
                                    Some(m3) => Some((m3, bs.push((addr, b@.len() as usize)))),
                                    None => None,
                                }
                            } else {
                                None
                            }
                        },
                    }
                } else {
                    None
                }
            },
        }
    }
}

/// The machine state a fresh invocation starts from: one frame at the
/// bottom of memory, constants written, host arguments placed.
pub open spec fn start_state(
    cf: &CompiledFunction,
    fid: FuncId,
    mem: Seq<u8>,
) -> StateS {
    StateS {
        stack: seq![Frame { func: fid, pc: 0, base: 0, ret_dest: None }],
        mem,
        status: StatusS::Running,
    }
}

/// Owns every function and callback made within it, and optional tag data
/// of type `T` under integer keys. Functions are built through
/// [`UncompiledFunction`], installed by [`Context::compile`], and run by
/// [`Context::invoke`] or the step-by-step machine interface.
pub struct Context<T> {
    /// One entry per function: reserved at creation, compiled thereafter.
    pub funcs: Vec<FuncEntry>,
    /// How many host callbacks have been registered.
    pub n_callbacks: usize,
    /// The tag table: later entries shadow earlier ones with the same key.
    pub tags: Vec<(i32, T)>,
}

impl<T> Context<T> {
    /// A fresh context owning nothing.
    pub fn new() -> (r: Context<T>)
        ensures
            r.funcs@.len() == 0,
            r.n_callbacks == 0,
            r.tags@.len() == 0,
    {
        Context { funcs: Vec::new(), n_callbacks: 0, tags: Vec::new() }
    }

    /// How many functions this context owns, compiled or not.
    pub fn function_count(&self) -> (r: usize)
        ensures
            r == self.funcs@.len(),
    {
        self.funcs.len()
    }

    /// The compiled form of function `fid`, once it has one.
    pub fn compiled(&self, fid: FuncId) -> (r: Option<&CompiledFunction>)
        ensures
            fid < self.funcs@.len() && (self.funcs@[fid as int] matches FuncEntry::Done(..)) ==> (
            r matches Some(cf) && *cf == self.funcs@[fid as int]->Done_0),
            !(fid < self.funcs@.len() && self.funcs@[fid as int] matches FuncEntry::Done(..))
                ==> r is None,
    {
        if fid >= self.funcs.len() {
            return None;
        }
        match &self.funcs[fid] {
            FuncEntry::Done(cf) => Some(cf),
            FuncEntry::Reserved => None,
        }
    }

    /// Begins a new function under the signature type `sig`, reserving its
    /// place in this context; `BadSignature` exactly when `sig` is not a
    /// signature type, leaving the context unchanged.
    pub fn new_function(&mut self, sig: Type) -> (r: Result<UncompiledFunction, BuildError>)
        ensures
            !(sig matches Type::Signature { .. }) ==> r == Result::<
                UncompiledFunction,
                BuildError,
            >::Err(BuildError::BadSignature) && *final(self) == *old(self),
            sig matches Type::Signature { .. } ==> (r matches Result::Ok(f) && {
                &&& f.id == old(self).funcs@.len()
                &&& f.abi == sig->Signature_abi
                &&& f.ret == sig->Signature_ret
                &&& f.n_params == sig.spec_params().len()
                &&& f.vtypes@ == sig.spec_params()
                &&& f.insns@.len() == 0
                &&& f.labels@.len() == 0
                &&& final(self).funcs@ == old(self).funcs@.push(FuncEntry::Reserved)
                &&& final(self).n_callbacks == old(self).n_callbacks
                &&& final(self).tags == old(self).tags
            }),
    {
        let id = self.funcs.len();
        match UncompiledFunction::make(id, sig) {
            Ok(f) => {
                self.funcs.push(FuncEntry::Reserved);
                Ok(f)
            },
            Err(e) => Err(e),
        }
    }

    /// Compiles a built function and installs it at the place reserved for
    /// it, after which it can be called and run but no longer changed.
    /// `BadFunction` when the function belongs to no reserved place here;
    /// `AlreadyCompiled` when its place is already filled; otherwise
    /// exactly as [`compile_function`] decides.
    pub fn compile(&mut self, f: UncompiledFunction) -> (r: Result<FuncId, CompileError>)
        ensures
            f.id >= old(self).funcs@.len() ==> r == Result::<FuncId, CompileError>::Err(
                CompileError::BadFunction,
            ) && *final(self) == *old(self),
            f.id < old(self).funcs@.len() && !(old(self).funcs@[f.id as int] matches
                FuncEntry::Reserved) ==> r == Result::<FuncId, CompileError>::Err(
                CompileError::AlreadyCompiled,
            ) && *final(self) == *old(self),
            f.id < old(self).funcs@.len() && (old(self).funcs@[f.id as int] matches
                FuncEntry::Reserved) ==> {
                &&& !all_labels_placed(&f) ==> r == Result::<FuncId, CompileError>::Err(
                    CompileError::UnplacedLabel,
                ) && *final(self) == *old(self)
                &&& all_labels_placed(&f) && !all_vals_typed(&f) ==> r == Result::<
                    FuncId,
                    CompileError,
                >::Err(CompileError::InvalidValue) && *final(self) == *old(self)
                &&& all_labels_placed(&f) && all_vals_typed(&f) && !ret_ok(&f) ==> r == Result::<
                    FuncId,
                    CompileError,
                >::Err(CompileError::BadReturnType) && *final(self) == *old(self)
                &&& all_labels_placed(&f) && all_vals_typed(&f) && ret_ok(&f) && !consts_scalar(
                    &f,
                ) ==> r == Result::<FuncId, CompileError>::Err(CompileError::BadConstant)
                    && *final(self) == *old(self)
                &&& all_labels_placed(&f) && all_vals_typed(&f) && ret_ok(&f) && consts_scalar(&f)
                    && !frame_fits(&f) ==> r == Result::<FuncId, CompileError>::Err(
                    CompileError::TooLarge,
                ) && *final(self) == *old(self)
                &&& all_labels_placed(&f) && all_vals_typed(&f) && ret_ok(&f) && consts_scalar(&f)
                    && frame_fits(&f) ==> {
                    &&& r == Result::<FuncId, CompileError>::Ok(f.id)
                    &&& final(self).funcs@.len() == old(self).funcs@.len()
                    &&& (final(self).funcs@[f.id as int] matches FuncEntry::Done(cf)
                        && compiled_from(&f, &cf))
                    &&& forall|j: int|
                        0 <= j < old(self).funcs@.len() && j != f.id
                            ==> final(self).funcs@[j] == old(self).funcs@[j]
                    &&& final(self).n_callbacks == old(self).n_callbacks
                    &&& final(self).tags == old(self).tags
                }
            },
    {
        if f.id >= self.funcs.len() {
            return Err(CompileError::BadFunction);
        }
        let reserved = match &self.funcs[f.id] {
            FuncEntry::Reserved => true,
            _ => false,
        };
        if !reserved {
            return Err(CompileError::AlreadyCompiled);
        }
        let id = f.id;
        match compile_function(f) {
            Ok(cf) => {
                self.funcs.set(id, FuncEntry::Done(cf));
                Ok(id)
            },
            Err(e) => Err(e),
        }
    }

    /// Registers one more host callback and names its place; the builder
    /// refers to callbacks by these places in `insn_call_native`. `None`
    /// only when the callback count would overflow.
    pub fn register_callback(&mut self) -> (r: Option<CallbackId>)
        ensures
            old(self).n_callbacks < usize::MAX ==> r == Some(old(self).n_callbacks)
                && final(self).n_callbacks == old(self).n_callbacks + 1,
            old(self).n_callbacks == usize::MAX ==> (r is None && *final(self) == *old(self)),
            final(self).funcs == old(self).funcs,
            final(self).tags == old(self).tags,
    {
        if self.n_callbacks == usize::MAX {
            return None;
        }
        let id = self.n_callbacks;
        self.n_callbacks = self.n_callbacks + 1;
        Some(id)
    }

    /// Stores `value` under `key` in the tag table, shadowing any earlier
    /// value stored there.
    pub fn set_tag(&mut self, key: i32, value: T)
        ensures
            final(self).tags@ == old(self).tags@.push((key, value)),
            final(self).funcs == old(self).funcs,
            final(self).n_callbacks == old(self).n_callbacks,
    {
        self.tags.push((key, value));
    }

    /// The value last stored under `key`, if any was.
    #[verifier::loop_isolation(false)]
    pub fn get_tag(&self, key: i32) -> (r: Option<&T>)
        ensures
            tag_spec(self.tags@, key) matches Some(v) ==> (r matches Some(rv) && *rv == v),
            tag_spec(self.tags@, key) is None ==> r is None,
    {
        let mut i: usize = self.tags.len();
        proof {
            assert(self.tags@.subrange(0, self.tags@.len() as int) =~= self.tags@);
        }
        while i > 0
            invariant
                0 <= i <= self.tags@.len(),
                tag_spec(self.tags@, key) == tag_spec(self.tags@.subrange(0, i as int), key),
            decreases i,
        {
            i = i - 1;
            proof {
                assert(self.tags@.subrange(0, i + 1).drop_last() =~= self.tags@.subrange(
                    0,
                    i as int,
                ));
                assert(self.tags@.subrange(0, i + 1).last() == self.tags@[i as int]);
            }
            if self.tags[i].0 == key {
                return Some(&self.tags[i].1);
            }
        }
        proof {
            assert(self.tags@.subrange(0, 0) =~= Seq::<(i32, T)>::empty());
        }
        None
    }
}

/// A failed argument placement stays failed as more arguments are asked
/// for.
proof fn lemma_place_args_none(
    mem: Seq<u8>,
    cf: &CompiledFunction,
    args: Seq<HostArg>,
    k: nat,
    n: nat,
)
    requires
        k <= n,
        place_args_s(mem, cf, args, k) is None,
    ensures
        place_args_s(mem, cf, args, n) is None,
    decreases n - k,
{
    if k < n {
        lemma_place_args_none(mem, cf, args, (k + 1) as nat, n);
    }
}

impl<T> Context<T> {
    /// A machine ready to run function `fid` on the given host arguments:
    /// one frame at the bottom of fresh memory, constants written, word
    /// arguments in their slots, buffer arguments appended to memory with
    /// their addresses in their pointer slots. `NotCompiled` when `fid`
    /// names no compiled function here; `SignatureMismatch` when the
    /// arguments do not fit the declared parameters.
    #[verifier::loop_isolation(false)]
    #[verifier::rlimit(60)]
    pub fn start(&self, fid: FuncId, args: &Vec<HostArg>) -> (r: Result<Machine, RunError>)
        ensures
            (fid >= self.funcs@.len() || self.funcs@[fid as int] matches FuncEntry::Reserved)
                ==> r == Result::<Machine, RunError>::Err(RunError::NotCompiled),
            fid < self.funcs@.len() && (self.funcs@[fid as int] matches FuncEntry::Done(cf)) ==> {
                let cf = self.funcs@[fid as int]->Done_0;
                let m0 = write_consts_s(
                    mem_grown(Seq::empty(), cf.frame_size as nat),
                    &cf,
                    0,
                    cf.inits@.len(),
                );
                &&& args@.len() != cf.n_params ==> r == Result::<Machine, RunError>::Err(
                    RunError::SignatureMismatch,
                )
                &&& args@.len() == cf.n_params ==> match place_args_s(
                    m0,
                    &cf,
                    args@,
                    args@.len(),
                ) {
                    None => r == Result::<Machine, RunError>::Err(RunError::SignatureMismatch),
                    Some(placed) => (r matches Result::Ok(mach) && mach@ == start_state(
                        &cf,
                        fid,
                        placed.0,
                    ) && mach.bufs@ == placed.1),
                }
            },
    {
        if fid >= self.funcs.len() {
            return Err(RunError::NotCompiled);
        }
        let cf = match &self.funcs[fid] {
            FuncEntry::Reserved => {
                return Err(RunError::NotCompiled);
            },
            FuncEntry::Done(c) => c,
        };
        if args.len() != cf.n_params {
            return Err(RunError::SignatureMismatch);
        }
        let mut mem: Vec<u8> = Vec::new();
        crate::mem::grow_zeros(&mut mem, cf.frame_size);
        let ghost base_mem = mem_grown(Seq::empty(), cf.frame_size as nat);
        let mut v: usize = 0;
        while v < cf.inits.len()
            invariant
                0 <= v <= cf.inits@.len(),
                write_consts_s(base_mem, cf, 0, v as nat) == mem@,
                mem@.len() == cf.frame_size,
            decreases cf.inits@.len() - v,
        {
            let doit = v < cf.offsets.len() && v < cf.scalars.len();
            if doit {
                match (cf.inits[v], cf.scalars[v]) {
                    (Some(bits), Some(sc)) => {
                        if (sc.width == 1 || sc.width == 2 || sc.width == 4 || sc.width == 8)
                            && cf.offsets[v] as u128 + sc.width as u128 <= mem.len() as u128 {
                            let ok = crate::mem::write_word(&mut mem, cf.offsets[v], sc.width, bits);
                            proof {
                                assert(ok);
                            }
                        }
                    },
                    _ => {},
                }
            }
            v = v + 1;
        }
        let ghost m0 = mem@;
        let fr0 = Frame { func: 0, pc: 0, base: 0, ret_dest: None };
        let mut bufs: Vec<(usize, usize)> = Vec::new();
        let mut i: usize = 0;
        while i < args.len()
            invariant
                0 <= i <= args@.len(),
                place_args_s(m0, cf, args@, i as nat) == Some((mem@, bufs@)),
            decreases args@.len() - i,
        {
            match &args[i] {
                HostArg::Word(w) => {
                    if !crate::machine::exec_write_slot(cf, fr0, &mut mem, i, *w) {
                        proof {
                            lemma_place_args_none(m0, cf, args@, (i + 1) as nat, args@.len() as nat);
                        }
                        return Err(RunError::SignatureMismatch);
                    }
                },
                HostArg::Buf(b) => {
                    let sc_ok = if i < cf.scalars.len() {
                        match cf.scalars[i] {
                            Some(sc) => sc == Scalar { width: 8, signed: false },
                            None => false,
                        }
                    } else {
                        false
                    };
                    let fits = mem.len() as u128 + b.len() as u128 <= usize::MAX as u128
                        && mem.len() as u128 <= u64::MAX as u128;
                    if !(sc_ok && fits) {
                        proof {
                            lemma_place_args_none(m0, cf, args@, (i + 1) as nat, args@.len() as nat);
                        }
                        return Err(RunError::SignatureMismatch);
                    }
                    let addr = mem.len();
                    let mut j: usize = 0;
                    while j < b.len()
                        invariant
                            0 <= j <= b@.len(),
                            mem@ == place_args_s(m0, cf, args@, i as nat).unwrap().0 + b@.subrange(
                                0,
                                j as int,
                            ),
                        decreases b@.len() - j,
                    {
                        mem.push(b[j]);
                        proof {
                            assert(b@.subrange(0, j + 1) =~= b@.subrange(0, j as int).push(
                                b@[j as int],
                            ));
                        }
                        j = j + 1;
                    }
                    proof {
                        assert(b@.subrange(0, b@.len() as int) =~= b@);
                    }
                    if !crate::machine::exec_write_slot(cf, fr0, &mut mem, i, addr as u64) {
                        proof {
                            lemma_place_args_none(m0, cf, args@, (i + 1) as nat, args@.len() as nat);
                        }
                        return Err(RunError::SignatureMismatch);
                    }
                    bufs.push((addr, b.len()));
                },
            }
            i = i + 1;
        }
        let mut stack: Vec<Frame> = Vec::new();
        stack.push(Frame { func: fid, pc: 0, base: 0, ret_dest: None });
        let mach = Machine { stack, mem, status: MachStatus::Running, bufs };
        proof {
            assert(mach@.stack =~= start_state(cf, fid, mach@.mem).stack);
        }
        Ok(mach)
    }

    /// One machine step under this context's functions and callbacks.
    pub fn step(&self, m: &mut Machine)
        ensures
            final(m)@ == crate::machine::step_s(self.funcs@, self.n_callbacks, old(m)@),
            final(m).bufs == old(m).bufs,
    {
        exec_step(&self.funcs, self.n_callbacks, m);
    }

    /// As many as `fuel` machine steps under this context; the machine
    /// stops early only by leaving the running state.
    pub fn run(&self, m: &mut Machine, fuel: u64)
        ensures
            final(m)@ == run_s(self.funcs@, self.n_callbacks, old(m)@, fuel as nat),
            final(m).bufs == old(m).bufs,
    {
        exec_run(&self.funcs, self.n_callbacks, m, fuel);
    }

    /// Answers the suspended native call with `ret` and sets the machine
    /// running again.
    pub fn resume(&self, m: &mut Machine, ret: u64)
        ensures
            final(m)@ == crate::machine::resume_s(self.funcs@, old(m)@, ret),
            final(m).bufs == old(m).bufs,
    {
        exec_resume(&self.funcs, m, ret);
    }

    /// Starts function `fid` on the given arguments and runs it for as
    /// many as `fuel` steps: the return word when it finishes; the trap
    /// that stopped it; `OutOfFuel` when the budget ran out first;
    /// `AwaitingHost` when it reached a native call, which only the
    /// step-by-step interface can service.
    pub fn invoke(&self, fid: FuncId, args: &Vec<HostArg>, fuel: u64) -> (r: Result<u64, RunError>)
        ensures
            (fid >= self.funcs@.len() || self.funcs@[fid as int] matches FuncEntry::Reserved)
                ==> r == Result::<u64, RunError>::Err(RunError::NotCompiled),
            fid < self.funcs@.len() && (self.funcs@[fid as int] matches FuncEntry::Done(cf)) ==> {
                let cf = self.funcs@[fid as int]->Done_0;
                let m0 = write_consts_s(
                    mem_grown(Seq::empty(), cf.frame_size as nat),
                    &cf,
                    0,
                    cf.inits@.len(),
                );
                &&& args@.len() != cf.n_params ==> r == Result::<u64, RunError>::Err(
                    RunError::SignatureMismatch,
                )
                &&& args@.len() == cf.n_params ==> match place_args_s(
                    m0,
                    &cf,
                    args@,
                    args@.len(),
                ) {
                    None => r == Result::<u64, RunError>::Err(RunError::SignatureMismatch),
                    Some(placed) => {
                        let stf = run_s(
                            self.funcs@,
                            self.n_callbacks,
                            start_state(&cf, fid, placed.0),
                            fuel as nat,
                        );
                        r == match stf.status {
                            StatusS::Finished { ret } => Result::<u64, RunError>::Ok(ret),
                            StatusS::Trapped { err } => Result::<u64, RunError>::Err(err),
                            StatusS::Running => Result::<u64, RunError>::Err(RunError::OutOfFuel),
                            StatusS::Awaiting { .. } => Result::<u64, RunError>::Err(
                                RunError::AwaitingHost,
                            ),
                        }
                    },
                }
            },
    {
        let mut mach = match self.start(fid, args) {
            Ok(m) => m,
            Err(e) => {
                return Err(e);
            },
        };
        self.run(&mut mach, fuel);
        match &mach.status {
            MachStatus::Finished { ret } => Ok(*ret),
            MachStatus::Trapped { err } => Err(*err),
            MachStatus::Running => Err(RunError::OutOfFuel),
            MachStatus::Awaiting { .. } => Err(RunError::AwaitingHost),
        }
    }
}

} // verus!
