//! The instruction builder: a function under construction, its value and
//! label tables, and one method per primitive operation. Each method
//! appends exactly the instructions its contract lists, or reports an error
//! and leaves the function untouched.

use vstd::prelude::*;

use crate::ir::BinOp;
use crate::ir::CallFlags;
use crate::ir::CallbackId;
use crate::ir::FuncId;
use crate::ir::Insn;
use crate::ir::LabelId;
use crate::ir::Scalar;
use crate::ir::UnOp;
use crate::ir::ValId;
use crate::ir::ValueInfo;
use crate::ir::ValueKind;
use crate::ir::scalar_of;
use crate::ir::spec_scalar_of;
use crate::types::Abi;
use crate::types::Type;
use crate::types::TypeKind;

verus! {

/// What an instruction-builder call can report: an unknown value or label,
/// operands whose types do not fit the operation, a store into something
/// that cannot hold a value, a non-signature type where a signature was
/// needed, a label placed twice, or a loop operation outside any loop.
#[derive(Clone, Copy, Debug, PartialEq, Eq, Structural)]
pub enum BuildError {
    BadValue,
    BadLabel,
    TypeMismatch,
    NotStorable,
    BadSignature,
    LabelAlreadyPlaced,
    NoLoop,
    NoSuchField,
}

/// A function while it is being built: still mutable, accepting
/// instructions. The tables are public so that contracts and proofs can
/// speak about them plainly; the methods below are the way to grow them.
pub struct UncompiledFunction {
    /// This function's position in its context's function table.
    pub id: FuncId,
    /// The calling convention the signature declared.
    pub abi: Abi,
    /// The declared return type.
    pub ret: Box<Type>,
    /// How many leading values are parameters.
    pub n_params: usize,
    /// The type of each value, owned once here and shared by index.
    pub vtypes: Vec<Type>,
    /// One record per value: its type index, lifetime kind and flags.
    pub values: Vec<ValueInfo>,
    /// The instructions appended so far, in program order.
    pub insns: Vec<Insn>,
    /// Each label's placement: `None` until placed, then the instruction
    /// position it marks.
    pub labels: Vec<Option<usize>>,
    /// The straight-line block now being appended to; placing a label or
    /// ending a block starts the next one.
    pub cur_block: usize,
    /// The innermost structured loops now open: (start label, end label).
    pub loops: Vec<(LabelId, LabelId)>,
    /// The optimization level handed to the backend at compile time.
    pub opt_level: u32,
}

/// A value record after an instruction in block `cur` has referenced it: a
/// temporary made in another block is promoted to a function-wide local;
/// everything else is unchanged.
pub open spec fn promoted(vi: ValueInfo, cur: usize) -> ValueInfo {
    match vi.kind {
        ValueKind::Temporary { block } => {
            if block != cur {
                ValueInfo { tyx: vi.tyx, kind: ValueKind::Local, addressable: vi.addressable }
            } else {
                vi
            }
        },
        _ => vi,
    }
}

/// A value table after the record at `v` has been referenced from block
/// `cur`.
pub open spec fn touched(vals: Seq<ValueInfo>, v: ValId, cur: usize) -> Seq<ValueInfo> {
    if v < vals.len() {
        vals.update(v as int, promoted(vals[v as int], cur))
    } else {
        vals
    }
}

/// The next block counter; it sticks at the top of `usize` rather than wrap.
pub open spec fn block_bump(b: usize) -> usize {
    if b < usize::MAX {
        (b + 1) as usize
    } else {
        b
    }
}

/// A fresh temporary record in block `cur` with type index `tyx`.
pub open spec fn temp_at(tyx: usize, cur: usize) -> ValueInfo {
    ValueInfo { tyx, kind: ValueKind::Temporary { block: cur }, addressable: false }
}

/// Whether `op` is a comparison, whose result is an `Int` flag value rather
/// than a value of the operands' type.
pub open spec fn is_compare(op: BinOp) -> bool {
    op == BinOp::CmpEq || op == BinOp::CmpNe || op == BinOp::CmpLt || op == BinOp::CmpLe || op
        == BinOp::CmpGt || op == BinOp::CmpGe
}

impl UncompiledFunction {
    /// Whether `v` names a value whose type index is in range.
    pub open spec fn has_val(&self, v: ValId) -> bool {
        v < self.values@.len() && self.values@[v as int].tyx < self.vtypes@.len()
    }

    /// The type of value `v`.
    pub open spec fn val_ty(&self, v: ValId) -> Type
        recommends
            self.has_val(v),
    {
        self.vtypes@[self.values@[v as int].tyx as int]
    }

    /// The machine scalar of value `v`, when its type has one.
    pub open spec fn val_scalar(&self, v: ValId) -> Option<Scalar>
        recommends
            self.has_val(v),
    {
        spec_scalar_of(&self.vtypes@[self.values@[v as int].tyx as int])
    }

    /// Everything a plain instruction leaves alone: identity, signature,
    /// label table, block counter, loop stack and optimization level.
    pub open spec fn same_frame(&self, post: &UncompiledFunction) -> bool {
        &&& post.id == self.id
        &&& post.abi == self.abi
        &&& post.ret == self.ret
        &&& post.n_params == self.n_params
        &&& post.labels == self.labels
        &&& post.cur_block == self.cur_block
        &&& post.loops == self.loops
        &&& post.opt_level == self.opt_level
    }

    /// The fields no instruction ever changes: identity, signature, loop
    /// stack and optimization level.
    pub open spec fn same_meta(&self, post: &UncompiledFunction) -> bool {
        &&& post.id == self.id
        &&& post.abi == self.abi
        &&& post.ret == self.ret
        &&& post.n_params == self.n_params
        &&& post.loops == self.loops
        &&& post.opt_level == self.opt_level
    }

    /// Everything label placement and block-ending instructions leave
    /// alone: identity, signature, value tables and optimization level.
    pub open spec fn same_tables(&self, post: &UncompiledFunction) -> bool {
        &&& post.id == self.id
        &&& post.abi == self.abi
        &&& post.ret == self.ret
        &&& post.n_params == self.n_params
        &&& post.vtypes == self.vtypes
        &&& post.values == self.values
        &&& post.loops == self.loops
        &&& post.opt_level == self.opt_level
    }

    /// A new function under the given signature: one value per parameter,
    /// in order, each a function-wide local of the declared parameter type.
    /// Fails with `BadSignature` exactly when `sig` is not a signature
    /// type. `id` is the position the context reserved for this function.
    pub fn make(id: FuncId, sig: Type) -> (r: Result<UncompiledFunction, BuildError>)
        ensures
            !(sig matches Type::Signature { .. }) ==> r == Result::<
                UncompiledFunction,
                BuildError,
            >::Err(BuildError::BadSignature),
            sig matches Type::Signature { .. } ==> (r matches Result::Ok(f) && {
                &&& f.id == id
                &&& f.abi == sig->Signature_abi
                &&& f.ret == sig->Signature_ret
                &&& f.n_params == sig.spec_params().len()
                &&& f.vtypes@ == sig.spec_params()
                &&& f.values@.len() == sig.spec_params().len()
                &&& forall|i: int|
                    0 <= i < f.values@.len() ==> #[trigger] f.values@[i] == (ValueInfo {
                        tyx: i as usize,
                        kind: ValueKind::Local,
                        addressable: false,
                    })
                &&& f.insns@.len() == 0
                &&& f.labels@.len() == 0
                &&& f.cur_block == 0
                &&& f.loops@.len() == 0
                &&& f.opt_level == 0
            }),
    {
        match sig {
            Type::Signature { abi, ret, params } => {
                let ghost all = params@;
                let mut rest = params;
                let mut vtypes: Vec<Type> = Vec::new();
                let mut values: Vec<ValueInfo> = Vec::new();
                #[verifier::loop_isolation(false)]
                while rest.len() > 0
                    invariant
                        vtypes@.len() + rest@.len() == all.len(),
                        values@.len() == vtypes@.len(),
                        rest@ == all.subrange(vtypes@.len() as int, all.len() as int),
                        vtypes@ == all.subrange(0, vtypes@.len() as int),
                        forall|i: int|
                            0 <= i < values@.len() ==> #[trigger] values@[i] == (ValueInfo {
                                tyx: i as usize,
                                kind: ValueKind::Local,
                                addressable: false,
                            }),
                    decreases rest@.len(),
                {
                    let ghost i = vtypes@.len() as int;
                    let ty = rest.remove(0);
                    proof {
                        assert(ty == all[i]);
                        assert(rest@ == all.subrange(i + 1, all.len() as int));
                        assert(vtypes@.push(ty) =~= all.subrange(0, i + 1));
                    }
                    let tyx = vtypes.len();
                    vtypes.push(ty);
                    values.push(
                        ValueInfo { tyx, kind: ValueKind::Local, addressable: false },
                    );
                }
                proof {
                    assert(vtypes@ =~= all);
                }
                let n_params = values.len();
                Ok(
                    UncompiledFunction {
                        id,
                        abi,
                        ret,
                        n_params,
                        vtypes,
                        values,
                        insns: Vec::new(),
                        labels: Vec::new(),
                        cur_block: 0,
                        loops: Vec::new(),
                        opt_level: 0,
                    },
                )
            },
            _ => Err(BuildError::BadSignature),
        }
    }

    /// The value standing for parameter `i`; `BadValue` when `i` is not a
    /// parameter position.
    pub fn param(&self, i: usize) -> (r: Result<ValId, BuildError>)
        ensures
            i < self.n_params ==> r == Result::<ValId, BuildError>::Ok(i),
            i >= self.n_params ==> r == Result::<ValId, BuildError>::Err(BuildError::BadValue),
    {
        if i < self.n_params {
            Ok(i)
        } else {
            Err(BuildError::BadValue)
        }
    }

    /// A fresh uninitialized value of type `ty`, made in the current block
    /// as a temporary; it is promoted to a function-wide local by itself as
    /// soon as another block references it.
    pub fn create_value(&mut self, ty: Type) -> (r: ValId)
        ensures
            r == old(self).values@.len(),
            final(self).vtypes@ == old(self).vtypes@.push(ty),
            final(self).values@ == old(self).values@.push(
                temp_at(old(self).vtypes@.len() as usize, old(self).cur_block),
            ),
            final(self).insns@ == old(self).insns@,
            old(self).same_frame(final(self)),
    {
        let tyx = self.vtypes.len();
        self.vtypes.push(ty);
        let v = self.values.len();
        self.values.push(
            ValueInfo { tyx, kind: ValueKind::Temporary { block: self.cur_block }, addressable: false },
        );
        v
    }

    /// A constant value of type `ty` whose payload is the canonical bit
    /// pattern `bits`, already truncated to the type's width.
    pub fn make_const(&mut self, ty: Type, bits: u64) -> (r: ValId)
        ensures
            r == old(self).values@.len(),
            final(self).vtypes@ == old(self).vtypes@.push(ty),
            final(self).values@ == old(self).values@.push(
                ValueInfo {
                    tyx: old(self).vtypes@.len() as usize,
                    kind: ValueKind::Constant { bits },
                    addressable: false,
                },
            ),
            final(self).insns@ == old(self).insns@,
            old(self).same_frame(final(self)),
    {
        let tyx = self.vtypes.len();
        self.vtypes.push(ty);
        let v = self.values.len();
        self.values.push(
            ValueInfo { tyx, kind: ValueKind::Constant { bits }, addressable: false },
        );
        v
    }

    /// Marks value `v` as referenced from the current block, promoting a
    /// temporary made elsewhere to a function-wide local.
    fn touch(&mut self, v: ValId)
        requires
            v < old(self).values@.len(),
        ensures
            final(self).values@ == touched(old(self).values@, v, old(self).cur_block),
            final(self).vtypes@ == old(self).vtypes@,
            final(self).insns@ == old(self).insns@,
            old(self).same_frame(final(self)),
    {
        let info = self.values[v];
        match info.kind {
            ValueKind::Temporary { block } => {
                if block != self.cur_block {
                    self.values.set(
                        v,
                        ValueInfo { tyx: info.tyx, kind: ValueKind::Local, addressable: info.addressable },
                    );
                } else {
                    proof {
                        assert(touched(old(self).values@, v, old(self).cur_block) =~= old(
                            self,
                        ).values@);
                    }
                }
            },
            _ => {
                proof {
                    assert(touched(old(self).values@, v, old(self).cur_block) =~= old(
                        self,
                    ).values@);
                }
            },
        }
    }

    /// The two-operand instruction `op` over `a` and `b`: both must name
    /// values of one and the same machine scalar type. The result is a
    /// fresh temporary: of the operands' type for arithmetic, bitwise and
    /// shift operations, of type `Int` (one for true, zero for false) for
    /// comparisons. Nothing is computed here; one instruction is appended.
    pub fn insn_binary(&mut self, op: BinOp, a: ValId, b: ValId) -> (r: Result<ValId, BuildError>)
        ensures
            !(old(self).has_val(a) && old(self).has_val(b)) ==> r == Result::<
                ValId,
                BuildError,
            >::Err(BuildError::BadValue) && *final(self) == *old(self),
            old(self).has_val(a) && old(self).has_val(b) && !(old(self).val_scalar(a) is Some
                && old(self).val_scalar(a) == old(self).val_scalar(b)) ==> r == Result::<
                ValId,
                BuildError,
            >::Err(BuildError::TypeMismatch) && *final(self) == *old(self),
            old(self).has_val(a) && old(self).has_val(b) && old(self).val_scalar(a) is Some && old(
                self,
            ).val_scalar(a) == old(self).val_scalar(b) ==> {
                let v = old(self).values@.len() as usize;
                let cur = old(self).cur_block;
                let tyx = if is_compare(op) {
                    old(self).vtypes@.len() as usize
                } else {
                    old(self).values@[a as int].tyx
                };
                &&& r == Result::<ValId, BuildError>::Ok(v)
                &&& final(self).insns@ == old(self).insns@.push(Insn::Binary { op, dest: v, a, b })
                &&& final(self).values@ == touched(touched(old(self).values@, a, cur), b, cur).push(
                    temp_at(tyx, cur),
                )
                &&& final(self).vtypes@ == if is_compare(op) {
                    old(self).vtypes@.push(Type::Prim { kind: TypeKind::Int })
                } else {
                    old(self).vtypes@
                }
                &&& old(self).same_frame(final(self))
            },
    {
        if a >= self.values.len() || self.values[a].tyx >= self.vtypes.len() || b
            >= self.values.len() || self.values[b].tyx >= self.vtypes.len() {
            return Err(BuildError::BadValue);
        }
        let sa = scalar_of(&self.vtypes[self.values[a].tyx]);
        let sb = scalar_of(&self.vtypes[self.values[b].tyx]);
        let ok = match (sa, sb) {
            (Some(x), Some(y)) => x == y,
            _ => false,
        };
        if !ok {
            return Err(BuildError::TypeMismatch);
        }
        self.touch(a);
        self.touch(b);
        let compare = match op {
            BinOp::CmpEq => true,
            BinOp::CmpNe => true,
            BinOp::CmpLt => true,
            BinOp::CmpLe => true,
            BinOp::CmpGt => true,
            BinOp::CmpGe => true,
            _ => false,
        };
        let tyx = if compare {
            let t = self.vtypes.len();
            self.vtypes.push(Type::Prim { kind: TypeKind::Int });
            t
        } else {
            self.values[a].tyx
        };
        let v = self.values.len();
        self.values.push(
            ValueInfo { tyx, kind: ValueKind::Temporary { block: self.cur_block }, addressable: false },
        );
        self.insns.push(Insn::Binary { op, dest: v, a, b });
        Ok(v)
    }

    /// The one-operand instruction `op` over `a`, which must name a value
    /// of a machine scalar type; the result is a fresh temporary of the
    /// operand's type.
    pub fn insn_unary(&mut self, op: UnOp, a: ValId) -> (r: Result<ValId, BuildError>)
        ensures
            !old(self).has_val(a) ==> r == Result::<ValId, BuildError>::Err(BuildError::BadValue)
                && *final(self) == *old(self),
            old(self).has_val(a) && old(self).val_scalar(a) is None ==> r == Result::<
                ValId,
                BuildError,
            >::Err(BuildError::TypeMismatch) && *final(self) == *old(self),
            old(self).has_val(a) && old(self).val_scalar(a) is Some ==> {
                let v = old(self).values@.len() as usize;
                let cur = old(self).cur_block;
                &&& r == Result::<ValId, BuildError>::Ok(v)
                &&& final(self).insns@ == old(self).insns@.push(Insn::Unary { op, dest: v, a })
                &&& final(self).values@ == touched(old(self).values@, a, cur).push(
                    temp_at(old(self).values@[a as int].tyx, cur),
                )
                &&& final(self).vtypes@ == old(self).vtypes@
                &&& old(self).same_frame(final(self))
            },
    {
        if a >= self.values.len() || self.values[a].tyx >= self.vtypes.len() {
            return Err(BuildError::BadValue);
        }
        let sa = scalar_of(&self.vtypes[self.values[a].tyx]);
        if sa.is_none() {
            return Err(BuildError::TypeMismatch);
        }
        self.touch(a);
        let tyx = self.values[a].tyx;
        let v = self.values.len();
        self.values.push(
            ValueInfo { tyx, kind: ValueKind::Temporary { block: self.cur_block }, addressable: false },
        );
        self.insns.push(Insn::Unary { op, dest: v, a });
        Ok(v)
    }
}

/// A value record once its address has been taken: function-wide and
/// addressable.
pub open spec fn addressed(vi: ValueInfo) -> ValueInfo {
    ValueInfo { tyx: vi.tyx, kind: ValueKind::Local, addressable: true }
}

/// A value table after every value in `args` has been referenced, in order,
/// from block `cur`.
pub open spec fn touched_all(vals: Seq<ValueInfo>, args: Seq<ValId>, cur: usize) -> Seq<ValueInfo>
    decreases args.len(),
{
    if args.len() == 0 {
        vals
    } else {
        touched(
            touched_all(vals, args.subrange(0, args.len() - 1), cur),
            args[args.len() - 1],
            cur,
        )
    }
}

/// Referencing values never changes the table's length.
pub proof fn lemma_touched_all_len(vals: Seq<ValueInfo>, args: Seq<ValId>, cur: usize)
    ensures
        touched_all(vals, args, cur).len() == vals.len(),
    decreases args.len(),
{
    if args.len() > 0 {
        lemma_touched_all_len(vals, args.subrange(0, args.len() - 1), cur);
    }
}

impl UncompiledFunction {
    /// Marks every value in `args` as referenced from the current block.
    #[verifier::loop_isolation(false)]
    fn touch_all(&mut self, args: &Vec<ValId>)
        requires
            forall|i: int| 0 <= i < args@.len() ==> #[trigger] args@[i] < old(self).values@.len(),
        ensures
            final(self).values@ == touched_all(old(self).values@, args@, old(self).cur_block),
            final(self).vtypes@ == old(self).vtypes@,
            final(self).insns@ == old(self).insns@,
            old(self).same_frame(final(self)),
    {
        let mut i: usize = 0;
        proof {
            assert(touched_all(old(self).values@, args@.subrange(0, 0), old(self).cur_block)
                =~= old(self).values@);
        }
        while i < args.len()
            invariant
                0 <= i <= args@.len(),
                self.values@ == touched_all(
                    old(self).values@,
                    args@.subrange(0, i as int),
                    old(self).cur_block,
                ),
                self.vtypes@ == old(self).vtypes@,
                self.insns@ == old(self).insns@,
                old(self).same_frame(self),
            decreases args@.len() - i,
        {
            proof {
                lemma_touched_all_len(old(self).values@, args@.subrange(0, i as int), old(self).cur_block);
            }
            self.touch(args[i]);
            proof {
                assert(args@.subrange(0, i + 1).subrange(0, i as int) =~= args@.subrange(
                    0,
                    i as int,
                ));
                assert(args@.subrange(0, i + 1)[i as int] == args@[i as int]);
            }
            i = i + 1;
        }
        proof {
            assert(args@.subrange(0, args@.len() as int) =~= args@);
        }
    }

    /// A copy of value `src` into a fresh temporary of the same type; the
    /// machine copies the value's bytes when it runs.
    pub fn insn_load(&mut self, src: ValId) -> (r: Result<ValId, BuildError>)
        ensures
            !old(self).has_val(src) ==> r == Result::<ValId, BuildError>::Err(BuildError::BadValue)
                && *final(self) == *old(self),
            old(self).has_val(src) ==> {
                let v = old(self).values@.len() as usize;
                let cur = old(self).cur_block;
                &&& r == Result::<ValId, BuildError>::Ok(v)
                &&& final(self).insns@ == old(self).insns@.push(Insn::Load { dest: v, src })
                &&& final(self).values@ == touched(old(self).values@, src, cur).push(
                    temp_at(old(self).values@[src as int].tyx, cur),
                )
                &&& final(self).vtypes@ == old(self).vtypes@
                &&& old(self).same_frame(final(self))
            },
    {
        if src >= self.values.len() || self.values[src].tyx >= self.vtypes.len() {
            return Err(BuildError::BadValue);
        }
        self.touch(src);
        let tyx = self.values[src].tyx;
        let v = self.values.len();
        self.values.push(
            ValueInfo { tyx, kind: ValueKind::Temporary { block: self.cur_block }, addressable: false },
        );
        self.insns.push(Insn::Load { dest: v, src });
        Ok(v)
    }

    /// A store of `src` into the slot of `dest`, which must be a local or
    /// temporary (not a constant) of a type with the same byte size.
    pub fn insn_store(&mut self, dest: ValId, src: ValId) -> (r: Result<(), BuildError>)
        ensures
            !(old(self).has_val(dest) && old(self).has_val(src)) ==> r == Result::<
                (),
                BuildError,
            >::Err(BuildError::BadValue) && *final(self) == *old(self),
            old(self).has_val(dest) && old(self).has_val(src) && (old(
                self,
            ).values@[dest as int].kind matches ValueKind::Constant { .. }) ==> r == Result::<
                (),
                BuildError,
            >::Err(BuildError::NotStorable) && *final(self) == *old(self),
            old(self).has_val(dest) && old(self).has_val(src) && !(old(
                self,
            ).values@[dest as int].kind matches ValueKind::Constant { .. }) && !(
            crate::types::spec_size(&old(self).val_ty(dest)) <= crate::types::SIZE_CAP
                && crate::types::spec_size(&old(self).val_ty(dest)) == crate::types::spec_size(
                &old(self).val_ty(src),
            )) ==> r == Result::<(), BuildError>::Err(BuildError::TypeMismatch) && *final(self)
                == *old(self),
            old(self).has_val(dest) && old(self).has_val(src) && !(old(
                self,
            ).values@[dest as int].kind matches ValueKind::Constant { .. }) && crate::types::spec_size(
                &old(self).val_ty(dest),
            ) <= crate::types::SIZE_CAP && crate::types::spec_size(&old(self).val_ty(dest))
                == crate::types::spec_size(&old(self).val_ty(src)) ==> {
                let cur = old(self).cur_block;
                &&& r == Result::<(), BuildError>::Ok(())
                &&& final(self).insns@ == old(self).insns@.push(Insn::Store { dest, src })
                &&& final(self).values@ == touched(touched(old(self).values@, dest, cur), src, cur)
                &&& final(self).vtypes@ == old(self).vtypes@
                &&& old(self).same_frame(final(self))
            },
    {
        if dest >= self.values.len() || self.values[dest].tyx >= self.vtypes.len() || src
            >= self.values.len() || self.values[src].tyx >= self.vtypes.len() {
            return Err(BuildError::BadValue);
        }
        match self.values[dest].kind {
            ValueKind::Constant { .. } => {
                return Err(BuildError::NotStorable);
            },
            _ => {},
        }
        let sd = self.vtypes[self.values[dest].tyx].size_of();
        let ss = self.vtypes[self.values[src].tyx].size_of();
        let ok = match (sd, ss) {
            (Ok(x), Ok(y)) => x == y,
            _ => false,
        };
        if !ok {
            return Err(BuildError::TypeMismatch);
        }
        self.touch(dest);
        self.touch(src);
        self.insns.push(Insn::Store { dest, src });
        Ok(())
    }

    /// A read of `ty`'s bytes from the address in `ptr` plus `offset`, into
    /// a fresh temporary of type `ty`. `ptr` must carry a machine word
    /// (pointer-sized, unsigned). The offset is taken on trust: the machine
    /// checks the final address against its memory when it runs.
    pub fn insn_load_relative(&mut self, ptr: ValId, offset: usize, ty: Type) -> (r: Result<
        ValId,
        BuildError,
    >)
        ensures
            !old(self).has_val(ptr) ==> r == Result::<ValId, BuildError>::Err(BuildError::BadValue)
                && *final(self) == *old(self),
            old(self).has_val(ptr) && old(self).val_scalar(ptr) != Some(
                Scalar { width: 8, signed: false },
            ) ==> r == Result::<ValId, BuildError>::Err(BuildError::TypeMismatch) && *final(self)
                == *old(self),
            old(self).has_val(ptr) && old(self).val_scalar(ptr) == Some(
                Scalar { width: 8, signed: false },
            ) ==> {
                let v = old(self).values@.len() as usize;
                let cur = old(self).cur_block;
                &&& r == Result::<ValId, BuildError>::Ok(v)
                &&& final(self).insns@ == old(self).insns@.push(
                    Insn::LoadRelative { dest: v, ptr, offset },
                )
                &&& final(self).values@ == touched(old(self).values@, ptr, cur).push(
                    temp_at(old(self).vtypes@.len() as usize, cur),
                )
                &&& final(self).vtypes@ == old(self).vtypes@.push(ty)
                &&& old(self).same_frame(final(self))
            },
    {
        if ptr >= self.values.len() || self.values[ptr].tyx >= self.vtypes.len() {
            return Err(BuildError::BadValue);
        }
        let sp = scalar_of(&self.vtypes[self.values[ptr].tyx]);
        let ok = match sp {
            Some(s) => s == Scalar { width: 8, signed: false },
            None => false,
        };
        if !ok {
            return Err(BuildError::TypeMismatch);
        }
        self.touch(ptr);
        let tyx = self.vtypes.len();
        self.vtypes.push(ty);
        let v = self.values.len();
        self.values.push(
            ValueInfo { tyx, kind: ValueKind::Temporary { block: self.cur_block }, addressable: false },
        );
        self.insns.push(Insn::LoadRelative { dest: v, ptr, offset });
        Ok(v)
    }

    /// A write of `src`'s bytes to the address in `ptr` plus `offset`.
    /// `ptr` must carry a machine word. The offset is taken on trust: the
    /// machine checks the final address against its memory when it runs.
    pub fn insn_store_relative(&mut self, ptr: ValId, offset: usize, src: ValId) -> (r: Result<
        (),
        BuildError,
    >)
        ensures
            !(old(self).has_val(ptr) && old(self).has_val(src)) ==> r == Result::<
                (),
                BuildError,
            >::Err(BuildError::BadValue) && *final(self) == *old(self),
            old(self).has_val(ptr) && old(self).has_val(src) && old(self).val_scalar(ptr) != Some(
                Scalar { width: 8, signed: false },
            ) ==> r == Result::<(), BuildError>::Err(BuildError::TypeMismatch) && *final(self)
                == *old(self),
            old(self).has_val(ptr) && old(self).has_val(src) && old(self).val_scalar(ptr) == Some(
                Scalar { width: 8, signed: false },
            ) ==> {
                let cur = old(self).cur_block;
                &&& r == Result::<(), BuildError>::Ok(())
                &&& final(self).insns@ == old(self).insns@.push(
                    Insn::StoreRelative { ptr, offset, src },
                )
                &&& final(self).values@ == touched(touched(old(self).values@, ptr, cur), src, cur)
                &&& final(self).vtypes@ == old(self).vtypes@
                &&& old(self).same_frame(final(self))
            },
    {
        if ptr >= self.values.len() || self.values[ptr].tyx >= self.vtypes.len() || src
            >= self.values.len() || self.values[src].tyx >= self.vtypes.len() {
            return Err(BuildError::BadValue);
        }
        let sp = scalar_of(&self.vtypes[self.values[ptr].tyx]);
        let ok = match sp {
            Some(s) => s == Scalar { width: 8, signed: false },
            None => false,
        };
        if !ok {
            return Err(BuildError::TypeMismatch);
        }
        self.touch(ptr);
        self.touch(src);
        self.insns.push(Insn::StoreRelative { ptr, offset, src });
        Ok(())
    }

    /// The address of value `src`, as a fresh machine-word temporary. The
    /// source becomes addressable and function-wide: it will live at a
    /// stable frame location.
    pub fn insn_address_of(&mut self, src: ValId) -> (r: Result<ValId, BuildError>)
        ensures
            !old(self).has_val(src) ==> r == Result::<ValId, BuildError>::Err(BuildError::BadValue)
                && *final(self) == *old(self),
            old(self).has_val(src) && (old(self).values@[src as int].kind matches
                ValueKind::Constant { .. }) ==> r == Result::<ValId, BuildError>::Err(
                BuildError::NotStorable,
            ) && *final(self) == *old(self),
            old(self).has_val(src) && !(old(self).values@[src as int].kind matches
                ValueKind::Constant { .. }) ==> {
                let v = old(self).values@.len() as usize;
                let cur = old(self).cur_block;
                &&& r == Result::<ValId, BuildError>::Ok(v)
                &&& final(self).insns@ == old(self).insns@.push(Insn::AddressOf { dest: v, src })
                &&& final(self).values@ == old(self).values@.update(
                    src as int,
                    addressed(old(self).values@[src as int]),
                ).push(temp_at(old(self).vtypes@.len() as usize, cur))
                &&& final(self).vtypes@ == old(self).vtypes@.push(
                    Type::Prim { kind: TypeKind::NUInt },
                )
                &&& old(self).same_frame(final(self))
            },
    {
        if src >= self.values.len() || self.values[src].tyx >= self.vtypes.len() {
            return Err(BuildError::BadValue);
        }
        let info = self.values[src];
        match info.kind {
            ValueKind::Constant { .. } => {
                return Err(BuildError::NotStorable);
            },
            _ => {},
        }
        self.values.set(
            src,
            ValueInfo { tyx: info.tyx, kind: ValueKind::Local, addressable: true },
        );
        let tyx = self.vtypes.len();
        self.vtypes.push(Type::Prim { kind: TypeKind::NUInt });
        let v = self.values.len();
        self.values.push(
            ValueInfo { tyx, kind: ValueKind::Temporary { block: self.cur_block }, addressable: false },
        );
        self.insns.push(Insn::AddressOf { dest: v, src });
        Ok(v)
    }

    /// A numeric conversion of `src` into the machine scalar type `to`:
    /// sign- or zero-extension per the source type, then truncation to the
    /// destination width. Both types must be machine scalars.
    pub fn insn_convert(&mut self, src: ValId, to: Type) -> (r: Result<ValId, BuildError>)
        ensures
            !old(self).has_val(src) ==> r == Result::<ValId, BuildError>::Err(BuildError::BadValue)
                && *final(self) == *old(self),
            old(self).has_val(src) && !(old(self).val_scalar(src) is Some && spec_scalar_of(&to)
                is Some) ==> r == Result::<ValId, BuildError>::Err(BuildError::TypeMismatch)
                && *final(self) == *old(self),
            old(self).has_val(src) && old(self).val_scalar(src) is Some && spec_scalar_of(&to)
                is Some ==> {
                let v = old(self).values@.len() as usize;
                let cur = old(self).cur_block;
                &&& r == Result::<ValId, BuildError>::Ok(v)
                &&& final(self).insns@ == old(self).insns@.push(Insn::Convert { dest: v, src })
                &&& final(self).values@ == touched(old(self).values@, src, cur).push(
                    temp_at(old(self).vtypes@.len() as usize, cur),
                )
                &&& final(self).vtypes@ == old(self).vtypes@.push(to)
                &&& old(self).same_frame(final(self))
            },
    {
        if src >= self.values.len() || self.values[src].tyx >= self.vtypes.len() {
            return Err(BuildError::BadValue);
        }
        let ok = scalar_of(&self.vtypes[self.values[src].tyx]).is_some() && scalar_of(
            &to,
        ).is_some();
        if !ok {
            return Err(BuildError::TypeMismatch);
        }
        self.touch(src);
        let tyx = self.vtypes.len();
        self.vtypes.push(to);
        let v = self.values.len();
        self.values.push(
            ValueInfo { tyx, kind: ValueKind::Temporary { block: self.cur_block }, addressable: false },
        );
        self.insns.push(Insn::Convert { dest: v, src });
        Ok(v)
    }
}

impl UncompiledFunction {
    /// Whether every entry of `args` names a value of this function.
    pub open spec fn has_vals(&self, args: Seq<ValId>) -> bool {
        forall|i: int| 0 <= i < args.len() ==> self.has_val(#[trigger] args[i])
    }

    fn check_vals(&self, args: &Vec<ValId>) -> (r: bool)
        ensures
            r == self.has_vals(args@),
    {
        let mut i: usize = 0;
        while i < args.len()
            invariant
                0 <= i <= args@.len(),
                forall|j: int| 0 <= j < i ==> self.has_val(#[trigger] args@[j]),
            decreases args@.len() - i,
        {
            let v = args[i];
            if v >= self.values.len() || self.values[v].tyx >= self.vtypes.len() {
                return false;
            }
            i = i + 1;
        }
        true
    }

    /// A call of another function of the same context, by its position
    /// there, handing over `args` in order. `ret_ty` declares the callee's
    /// return type at this call site: a machine scalar gives the call a
    /// fresh destination temporary of that type, `Void` gives it none.
    /// Whether `ret_ty` and the argument types agree with the callee's own
    /// declaration is checked when the machine reaches the call. The flags
    /// record tail-call and no-unwind assertions for the backend.
    pub fn insn_call(
        &mut self,
        callee: FuncId,
        args: Vec<ValId>,
        ret_ty: Type,
        flags: CallFlags,
    ) -> (r: Result<Option<ValId>, BuildError>)
        ensures
            !old(self).has_vals(args@) ==> r == Result::<Option<ValId>, BuildError>::Err(
                BuildError::BadValue,
            ) && *final(self) == *old(self),
            old(self).has_vals(args@) && !(spec_scalar_of(&ret_ty) is Some || ret_ty == (
            Type::Prim { kind: TypeKind::Void })) ==> r == Result::<Option<ValId>, BuildError>::Err(
                BuildError::TypeMismatch,
            ) && *final(self) == *old(self),
            old(self).has_vals(args@) && ret_ty == (Type::Prim { kind: TypeKind::Void }) ==> {
                &&& r == Result::<Option<ValId>, BuildError>::Ok(None)
                &&& final(self).insns@ == old(self).insns@.push(
                    Insn::Call { callee, args, dest: None, flags },
                )
                &&& final(self).values@ == touched_all(
                    old(self).values@,
                    args@,
                    old(self).cur_block,
                )
                &&& final(self).vtypes@ == old(self).vtypes@
                &&& old(self).same_frame(final(self))
            },
            old(self).has_vals(args@) && spec_scalar_of(&ret_ty) is Some && ret_ty != (Type::Prim {
                kind: TypeKind::Void,
            }) ==> {
                let v = old(self).values@.len() as usize;
                let cur = old(self).cur_block;
                &&& r == Result::<Option<ValId>, BuildError>::Ok(Some(v))
                &&& final(self).insns@ == old(self).insns@.push(
                    Insn::Call { callee, args, dest: Some(v), flags },
                )
                &&& final(self).values@ == touched_all(old(self).values@, args@, cur).push(
                    temp_at(old(self).vtypes@.len() as usize, cur),
                )
                &&& final(self).vtypes@ == old(self).vtypes@.push(ret_ty)
                &&& old(self).same_frame(final(self))
            },
    {
        if !self.check_vals(&args) {
            return Err(BuildError::BadValue);
        }
        let is_void = match &ret_ty {
            Type::Prim { kind: TypeKind::Void } => true,
            _ => false,
        };
        if is_void {
            self.touch_all(&args);
            self.insns.push(Insn::Call { callee, args, dest: None, flags });
            return Ok(None);
        }
        if scalar_of(&ret_ty).is_none() {
            return Err(BuildError::TypeMismatch);
        }
        self.touch_all(&args);
        proof {
            lemma_touched_all_len(old(self).values@, args@, old(self).cur_block);
        }
        let tyx = self.vtypes.len();
        self.vtypes.push(ret_ty);
        let v = self.values.len();
        self.values.push(
            ValueInfo { tyx, kind: ValueKind::Temporary { block: self.cur_block }, addressable: false },
        );
        self.insns.push(Insn::Call { callee, args, dest: Some(v), flags });
        Ok(Some(v))
    }

    /// A call out to a registered host callback, by its position in the
    /// context's callback table, handing over `args` in order. `ret_ty`
    /// declares what the host hands back, as for `insn_call`. When the
    /// machine reaches this call it suspends and resumes with the host's
    /// answer.
    pub fn insn_call_native(
        &mut self,
        callback: CallbackId,
        args: Vec<ValId>,
        ret_ty: Type,
    ) -> (r: Result<Option<ValId>, BuildError>)
        ensures
            !old(self).has_vals(args@) ==> r == Result::<Option<ValId>, BuildError>::Err(
                BuildError::BadValue,
            ) && *final(self) == *old(self),
            old(self).has_vals(args@) && !(spec_scalar_of(&ret_ty) is Some || ret_ty == (
            Type::Prim { kind: TypeKind::Void })) ==> r == Result::<Option<ValId>, BuildError>::Err(
                BuildError::TypeMismatch,
            ) && *final(self) == *old(self),
            old(self).has_vals(args@) && ret_ty == (Type::Prim { kind: TypeKind::Void }) ==> {
                &&& r == Result::<Option<ValId>, BuildError>::Ok(None)
                &&& final(self).insns@ == old(self).insns@.push(
                    Insn::CallNative { callback, args, dest: None },
                )
                &&& final(self).values@ == touched_all(
                    old(self).values@,
                    args@,
                    old(self).cur_block,
                )
                &&& final(self).vtypes@ == old(self).vtypes@
                &&& old(self).same_frame(final(self))
            },
            old(self).has_vals(args@) && spec_scalar_of(&ret_ty) is Some && ret_ty != (Type::Prim {
                kind: TypeKind::Void,
            }) ==> {
                let v = old(self).values@.len() as usize;
                let cur = old(self).cur_block;
                &&& r == Result::<Option<ValId>, BuildError>::Ok(Some(v))
                &&& final(self).insns@ == old(self).insns@.push(
                    Insn::CallNative { callback, args, dest: Some(v) },
                )
                &&& final(self).values@ == touched_all(old(self).values@, args@, cur).push(
                    temp_at(old(self).vtypes@.len() as usize, cur),
                )
                &&& final(self).vtypes@ == old(self).vtypes@.push(ret_ty)
                &&& old(self).same_frame(final(self))
            },
    {
        if !self.check_vals(&args) {
            return Err(BuildError::BadValue);
        }
        let is_void = match &ret_ty {
            Type::Prim { kind: TypeKind::Void } => true,
            _ => false,
        };
        if is_void {
            self.touch_all(&args);
            self.insns.push(Insn::CallNative { callback, args, dest: None });
            return Ok(None);
        }
        if scalar_of(&ret_ty).is_none() {
            return Err(BuildError::TypeMismatch);
        }
        self.touch_all(&args);
        proof {
            lemma_touched_all_len(old(self).values@, args@, old(self).cur_block);
        }
        let tyx = self.vtypes.len();
        self.vtypes.push(ret_ty);
        let v = self.values.len();
        self.values.push(
            ValueInfo { tyx, kind: ValueKind::Temporary { block: self.cur_block }, addressable: false },
        );
        self.insns.push(Insn::CallNative { callback, args, dest: Some(v) });
        Ok(Some(v))
    }

    /// A fresh label, not yet placed. Branches may name it at once; it must
    /// be placed exactly once before the function compiles.
    pub fn new_label(&mut self) -> (r: LabelId)
        ensures
            r == old(self).labels@.len(),
            final(self).labels@ == old(self).labels@.push(None),
            final(self).insns@ == old(self).insns@,
            final(self).values@ == old(self).values@,
            final(self).vtypes@ == old(self).vtypes@,
            final(self).cur_block == old(self).cur_block,
            old(self).same_tables(final(self)),
    {
        let l = self.labels.len();
        self.labels.push(None);
        l
    }

    /// Places label `l` at the current end of the instruction stream, where
    /// the next appended instruction will sit, and begins a new block.
    /// Fails with `LabelAlreadyPlaced` exactly when `l` was placed before:
    /// each label is placed at most once.
    pub fn insn_label(&mut self, l: LabelId) -> (r: Result<(), BuildError>)
        ensures
            l >= old(self).labels@.len() ==> r == Result::<(), BuildError>::Err(
                BuildError::BadLabel,
            ) && *final(self) == *old(self),
            l < old(self).labels@.len() && old(self).labels@[l as int] is Some ==> r == Result::<
                (),
                BuildError,
            >::Err(BuildError::LabelAlreadyPlaced) && *final(self) == *old(self),
            l < old(self).labels@.len() && old(self).labels@[l as int] is None ==> {
                &&& r == Result::<(), BuildError>::Ok(())
                &&& final(self).labels@ == old(self).labels@.update(
                    l as int,
                    Some(old(self).insns@.len() as usize),
                )
                &&& final(self).insns@ == old(self).insns@
                &&& final(self).cur_block == block_bump(old(self).cur_block)
                &&& old(self).same_tables(final(self))
            },
    {
        if l >= self.labels.len() {
            return Err(BuildError::BadLabel);
        }
        if self.labels[l].is_some() {
            return Err(BuildError::LabelAlreadyPlaced);
        }
        self.labels.set(l, Some(self.insns.len()));
        if self.cur_block < usize::MAX {
            self.cur_block = self.cur_block + 1;
        }
        Ok(())
    }

    /// An unconditional branch to label `l`, which may still be unplaced;
    /// the block ends here.
    pub fn insn_branch(&mut self, l: LabelId) -> (r: Result<(), BuildError>)
        ensures
            l >= old(self).labels@.len() ==> r == Result::<(), BuildError>::Err(
                BuildError::BadLabel,
            ) && *final(self) == *old(self),
            l < old(self).labels@.len() ==> {
                &&& r == Result::<(), BuildError>::Ok(())
                &&& final(self).insns@ == old(self).insns@.push(Insn::Branch { target: l })
                &&& final(self).cur_block == block_bump(old(self).cur_block)
                &&& final(self).labels@ == old(self).labels@
                &&& old(self).same_tables(final(self))
            },
    {
        if l >= self.labels.len() {
            return Err(BuildError::BadLabel);
        }
        self.insns.push(Insn::Branch { target: l });
        if self.cur_block < usize::MAX {
            self.cur_block = self.cur_block + 1;
        }
        Ok(())
    }

    /// A branch to label `l` taken exactly when `cond` holds a non-zero
    /// value; the block ends here.
    pub fn insn_branch_if(&mut self, cond: ValId, l: LabelId) -> (r: Result<(), BuildError>)
        ensures
            !old(self).has_val(cond) ==> r == Result::<(), BuildError>::Err(BuildError::BadValue)
                && *final(self) == *old(self),
            old(self).has_val(cond) && old(self).val_scalar(cond) is None ==> r == Result::<
                (),
                BuildError,
            >::Err(BuildError::TypeMismatch) && *final(self) == *old(self),
            old(self).has_val(cond) && old(self).val_scalar(cond) is Some && l >= old(
                self,
            ).labels@.len() ==> r == Result::<(), BuildError>::Err(BuildError::BadLabel)
                && *final(self) == *old(self),
            old(self).has_val(cond) && old(self).val_scalar(cond) is Some && l < old(
                self,
            ).labels@.len() ==> {
                &&& r == Result::<(), BuildError>::Ok(())
                &&& final(self).insns@ == old(self).insns@.push(
                    Insn::BranchIf { cond, target: l },
                )
                &&& final(self).values@ == touched(old(self).values@, cond, old(self).cur_block)
                &&& final(self).vtypes@ == old(self).vtypes@
                &&& final(self).labels@ == old(self).labels@
                &&& final(self).cur_block == block_bump(old(self).cur_block)
                &&& old(self).same_meta(final(self))
            },
    {
        if cond >= self.values.len() || self.values[cond].tyx >= self.vtypes.len() {
            return Err(BuildError::BadValue);
        }
        if scalar_of(&self.vtypes[self.values[cond].tyx]).is_none() {
            return Err(BuildError::TypeMismatch);
        }
        if l >= self.labels.len() {
            return Err(BuildError::BadLabel);
        }
        self.touch(cond);
        self.insns.push(Insn::BranchIf { cond, target: l });
        if self.cur_block < usize::MAX {
            self.cur_block = self.cur_block + 1;
        }
        Ok(())
    }

    /// A branch to label `l` taken exactly when `cond` holds zero; the
    /// block ends here.
    pub fn insn_branch_if_not(&mut self, cond: ValId, l: LabelId) -> (r: Result<(), BuildError>)
        ensures
            !old(self).has_val(cond) ==> r == Result::<(), BuildError>::Err(BuildError::BadValue)
                && *final(self) == *old(self),
            old(self).has_val(cond) && old(self).val_scalar(cond) is None ==> r == Result::<
                (),
                BuildError,
            >::Err(BuildError::TypeMismatch) && *final(self) == *old(self),
            old(self).has_val(cond) && old(self).val_scalar(cond) is Some && l >= old(
                self,
            ).labels@.len() ==> r == Result::<(), BuildError>::Err(BuildError::BadLabel)
                && *final(self) == *old(self),
            old(self).has_val(cond) && old(self).val_scalar(cond) is Some && l < old(
                self,
            ).labels@.len() ==> {
                &&& r == Result::<(), BuildError>::Ok(())
                &&& final(self).insns@ == old(self).insns@.push(
                    Insn::BranchIfNot { cond, target: l },
                )
                &&& final(self).values@ == touched(old(self).values@, cond, old(self).cur_block)
                &&& final(self).vtypes@ == old(self).vtypes@
                &&& final(self).labels@ == old(self).labels@
                &&& final(self).cur_block == block_bump(old(self).cur_block)
                &&& old(self).same_meta(final(self))
            },
    {
        if cond >= self.values.len() || self.values[cond].tyx >= self.vtypes.len() {
            return Err(BuildError::BadValue);
        }
        if scalar_of(&self.vtypes[self.values[cond].tyx]).is_none() {
            return Err(BuildError::TypeMismatch);
        }
        if l >= self.labels.len() {
            return Err(BuildError::BadLabel);
        }
        self.touch(cond);
        self.insns.push(Insn::BranchIfNot { cond, target: l });
        if self.cur_block < usize::MAX {
            self.cur_block = self.cur_block + 1;
        }
        Ok(())
    }

    /// A multi-way branch: when `index` holds `k` and `k` is within the
    /// table, control goes to `targets[k]`; any other index falls through
    /// to the next instruction. The block ends here.
    #[verifier::loop_isolation(false)]
    pub fn insn_jump_table(&mut self, index: ValId, targets: Vec<LabelId>) -> (r: Result<
        (),
        BuildError,
    >)
        ensures
            !old(self).has_val(index) ==> r == Result::<(), BuildError>::Err(BuildError::BadValue)
                && *final(self) == *old(self),
            old(self).has_val(index) && old(self).val_scalar(index) is None ==> r == Result::<
                (),
                BuildError,
            >::Err(BuildError::TypeMismatch) && *final(self) == *old(self),
            old(self).has_val(index) && old(self).val_scalar(index) is Some && !(forall|i: int|
                0 <= i < targets@.len() ==> #[trigger] targets@[i] < old(self).labels@.len())
                ==> r == Result::<(), BuildError>::Err(BuildError::BadLabel) && *final(self)
                == *old(self),
            old(self).has_val(index) && old(self).val_scalar(index) is Some && (forall|i: int|
                0 <= i < targets@.len() ==> #[trigger] targets@[i] < old(self).labels@.len()) ==> {
                &&& r == Result::<(), BuildError>::Ok(())
                &&& final(self).insns@ == old(self).insns@.push(
                    Insn::JumpTable { index, targets },
                )
                &&& final(self).values@ == touched(old(self).values@, index, old(self).cur_block)
                &&& final(self).vtypes@ == old(self).vtypes@
                &&& final(self).labels@ == old(self).labels@
                &&& final(self).cur_block == block_bump(old(self).cur_block)
                &&& old(self).same_meta(final(self))
            },
    {
        if index >= self.values.len() || self.values[index].tyx >= self.vtypes.len() {
            return Err(BuildError::BadValue);
        }
        if scalar_of(&self.vtypes[self.values[index].tyx]).is_none() {
            return Err(BuildError::TypeMismatch);
        }
        let mut i: usize = 0;
        while i < targets.len()
            invariant
                0 <= i <= targets@.len(),
                forall|j: int| 0 <= j < i ==> #[trigger] targets@[j] < self.labels@.len(),
            decreases targets@.len() - i,
        {
            if targets[i] >= self.labels.len() {
                return Err(BuildError::BadLabel);
            }
            i = i + 1;
        }
        self.touch(index);
        self.insns.push(Insn::JumpTable { index, targets });
        if self.cur_block < usize::MAX {
            self.cur_block = self.cur_block + 1;
        }
        Ok(())
    }

    /// A return of `src`, which must hold a machine scalar; the block ends
    /// here. Running past the last instruction without a return stops the
    /// machine with an error, so every live path should end in a return.
    pub fn insn_return(&mut self, src: ValId) -> (r: Result<(), BuildError>)
        ensures
            !old(self).has_val(src) ==> r == Result::<(), BuildError>::Err(BuildError::BadValue)
                && *final(self) == *old(self),
            old(self).has_val(src) && old(self).val_scalar(src) is None ==> r == Result::<
                (),
                BuildError,
            >::Err(BuildError::TypeMismatch) && *final(self) == *old(self),
            old(self).has_val(src) && old(self).val_scalar(src) is Some ==> {
                &&& r == Result::<(), BuildError>::Ok(())
                &&& final(self).insns@ == old(self).insns@.push(Insn::Return { src })
                &&& final(self).values@ == touched(old(self).values@, src, old(self).cur_block)
                &&& final(self).vtypes@ == old(self).vtypes@
                &&& final(self).labels@ == old(self).labels@
                &&& final(self).cur_block == block_bump(old(self).cur_block)
                &&& old(self).same_meta(final(self))
            },
    {
        if src >= self.values.len() || self.values[src].tyx >= self.vtypes.len() {
            return Err(BuildError::BadValue);
        }
        if scalar_of(&self.vtypes[self.values[src].tyx]).is_none() {
            return Err(BuildError::TypeMismatch);
        }
        self.touch(src);
        self.insns.push(Insn::Return { src });
        if self.cur_block < usize::MAX {
            self.cur_block = self.cur_block + 1;
        }
        Ok(())
    }

    /// A return of the declared return type's zero value (or of nothing for
    /// `Void`): the safe fallback for fall-through paths. The block ends
    /// here.
    pub fn insn_default_return(&mut self)
        ensures
            final(self).insns@ == old(self).insns@.push(Insn::DefaultReturn),
            final(self).values@ == old(self).values@,
            final(self).vtypes@ == old(self).vtypes@,
            final(self).labels@ == old(self).labels@,
            final(self).cur_block == block_bump(old(self).cur_block),
            old(self).same_meta(final(self)),
    {
        self.insns.push(Insn::DefaultReturn);
        if self.cur_block < usize::MAX {
            self.cur_block = self.cur_block + 1;
        }
    }

    /// Sets the optimization level the backend is asked for at compile
    /// time.
    pub fn set_optimization_level(&mut self, level: u32)
        ensures
            final(self).opt_level == level,
            final(self).insns@ == old(self).insns@,
            final(self).values@ == old(self).values@,
            final(self).vtypes@ == old(self).vtypes@,
            final(self).labels@ == old(self).labels@,
            final(self).cur_block == old(self).cur_block,
            final(self).id == old(self).id,
            final(self).abi == old(self).abi,
            final(self).ret == old(self).ret,
            final(self).n_params == old(self).n_params,
            final(self).loops == old(self).loops,
    {
        self.opt_level = level;
    }

    /// Whether value `v` is still a block-scoped temporary (not promoted to
    /// a function-wide local, and not a constant).
    pub fn is_temp(&self, v: ValId) -> (r: Result<bool, BuildError>)
        ensures
            v >= self.values@.len() ==> r == Result::<bool, BuildError>::Err(BuildError::BadValue),
            v < self.values@.len() ==> r == Result::<bool, BuildError>::Ok(
                self.values@[v as int].kind matches ValueKind::Temporary { .. },
            ),
    {
        if v >= self.values.len() {
            return Err(BuildError::BadValue);
        }
        match self.values[v].kind {
            ValueKind::Temporary { .. } => Ok(true),
            _ => Ok(false),
        }
    }

    /// Whether value `v` may have its address taken.
    pub fn is_addressable(&self, v: ValId) -> (r: Result<bool, BuildError>)
        ensures
            v >= self.values@.len() ==> r == Result::<bool, BuildError>::Err(BuildError::BadValue),
            v < self.values@.len() ==> r == Result::<bool, BuildError>::Ok(
                self.values@[v as int].addressable,
            ),
    {
        if v >= self.values.len() {
            return Err(BuildError::BadValue);
        }
        Ok(self.values[v].addressable)
    }

    /// Marks value `v` addressable, pinning it to a stable frame location;
    /// asking again changes nothing.
    pub fn set_addressable(&mut self, v: ValId) -> (r: Result<(), BuildError>)
        ensures
            v >= old(self).values@.len() ==> r == Result::<(), BuildError>::Err(
                BuildError::BadValue,
            ) && *final(self) == *old(self),
            v < old(self).values@.len() ==> {
                &&& r == Result::<(), BuildError>::Ok(())
                &&& final(self).values@ == old(self).values@.update(
                    v as int,
                    ValueInfo {
                        tyx: old(self).values@[v as int].tyx,
                        kind: old(self).values@[v as int].kind,
                        addressable: true,
                    },
                )
                &&& final(self).vtypes@ == old(self).vtypes@
                &&& final(self).insns@ == old(self).insns@
                &&& old(self).same_frame(final(self))
            },
    {
        if v >= self.values.len() {
            return Err(BuildError::BadValue);
        }
        let info = self.values[v];
        self.values.set(
            v,
            ValueInfo { tyx: info.tyx, kind: info.kind, addressable: true },
        );
        Ok(())
    }

    /// The type of value `v`.
    pub fn get_type(&self, v: ValId) -> (r: Result<&Type, BuildError>)
        ensures
            !self.has_val(v) ==> r == Result::<&Type, BuildError>::Err(BuildError::BadValue),
            self.has_val(v) ==> (r matches Result::Ok(t) && *t == self.val_ty(v)),
    {
        if v >= self.values.len() || self.values[v].tyx >= self.vtypes.len() {
            return Err(BuildError::BadValue);
        }
        Ok(&self.vtypes[self.values[v].tyx])
    }
}

/// An open `if`: the label that closes the conditional region.
#[derive(Clone, Copy, Debug, PartialEq, Eq, Structural)]
pub struct IfFrame {
    pub end: LabelId,
}

/// An open `if`/`else`: the label that starts the else region and the label
/// that closes the whole conditional.
#[derive(Clone, Copy, Debug, PartialEq, Eq, Structural)]
pub struct IfElseFrame {
    pub else_label: LabelId,
    pub end: LabelId,
}

/// An open `while` loop: its condition-check label and its exit label.
#[derive(Clone, Copy, Debug, PartialEq, Eq, Structural)]
pub struct WhileFrame {
    pub start: LabelId,
    pub end: LabelId,
}

/// An open `do`/`while` loop: its body label and its exit label.
#[derive(Clone, Copy, Debug, PartialEq, Eq, Structural)]
pub struct DoWhileFrame {
    pub start: LabelId,
    pub end: LabelId,
}

impl UncompiledFunction {
    /// Opens an `if` over `cond`: makes the end label and emits the branch
    /// that skips to it when `cond` holds zero. Emit the then-body next,
    /// then close with `end_if`.
    pub fn begin_if(&mut self, cond: ValId) -> (r: Result<IfFrame, BuildError>)
        ensures
            !old(self).has_val(cond) ==> r == Result::<IfFrame, BuildError>::Err(
                BuildError::BadValue,
            ) && *final(self) == *old(self),
            old(self).has_val(cond) && old(self).val_scalar(cond) is None ==> r == Result::<
                IfFrame,
                BuildError,
            >::Err(BuildError::TypeMismatch) && *final(self) == *old(self),
            old(self).has_val(cond) && old(self).val_scalar(cond) is Some ==> {
                let end = old(self).labels@.len() as usize;
                &&& r == Result::<IfFrame, BuildError>::Ok(IfFrame { end })
                &&& final(self).insns@ == old(self).insns@.push(
                    Insn::BranchIfNot { cond, target: end },
                )
                &&& final(self).labels@ == old(self).labels@.push(None)
                &&& final(self).values@ == touched(old(self).values@, cond, old(self).cur_block)
                &&& final(self).vtypes@ == old(self).vtypes@
                &&& final(self).cur_block == block_bump(old(self).cur_block)
                &&& old(self).same_meta(final(self))
            },
    {
        if cond >= self.values.len() || self.values[cond].tyx >= self.vtypes.len() {
            return Err(BuildError::BadValue);
        }
        if scalar_of(&self.vtypes[self.values[cond].tyx]).is_none() {
            return Err(BuildError::TypeMismatch);
        }
        let end = self.new_label();
        let branched = self.insn_branch_if_not(cond, end);
        proof {
            assert(branched is Ok);
        }
        Ok(IfFrame { end })
    }

    /// Closes an `if`: places its end label. Fails only when the frame's
    /// label was placed by other means in between.
    pub fn end_if(&mut self, f: IfFrame) -> (r: Result<(), BuildError>)
        ensures
            f.end >= old(self).labels@.len() ==> r == Result::<(), BuildError>::Err(
                BuildError::BadLabel,
            ) && *final(self) == *old(self),
            f.end < old(self).labels@.len() && old(self).labels@[f.end as int] is Some ==> r
                == Result::<(), BuildError>::Err(BuildError::LabelAlreadyPlaced) && *final(self)
                == *old(self),
            f.end < old(self).labels@.len() && old(self).labels@[f.end as int] is None ==> {
                &&& r == Result::<(), BuildError>::Ok(())
                &&& final(self).labels@ == old(self).labels@.update(
                    f.end as int,
                    Some(old(self).insns@.len() as usize),
                )
                &&& final(self).insns@ == old(self).insns@
                &&& final(self).cur_block == block_bump(old(self).cur_block)
                &&& old(self).same_tables(final(self))
            },
    {
        self.insn_label(f.end)
    }

    /// Opens an `if`/`else` over `cond`: makes both labels and emits the
    /// branch to the else region taken when `cond` holds zero. Emit the
    /// then-body next, switch with `begin_else`, and close with
    /// `end_if_else`.
    pub fn begin_if_else(&mut self, cond: ValId) -> (r: Result<IfElseFrame, BuildError>)
        ensures
            !old(self).has_val(cond) ==> r == Result::<IfElseFrame, BuildError>::Err(
                BuildError::BadValue,
            ) && *final(self) == *old(self),
            old(self).has_val(cond) && old(self).val_scalar(cond) is None ==> r == Result::<
                IfElseFrame,
                BuildError,
            >::Err(BuildError::TypeMismatch) && *final(self) == *old(self),
            old(self).has_val(cond) && old(self).val_scalar(cond) is Some ==> {
                let else_label = old(self).labels@.len() as usize;
                let end = (old(self).labels@.len() + 1) as usize;
                &&& r == Result::<IfElseFrame, BuildError>::Ok(IfElseFrame { else_label, end })
                &&& final(self).insns@ == old(self).insns@.push(
                    Insn::BranchIfNot { cond, target: else_label },
                )
                &&& final(self).labels@ == old(self).labels@.push(None).push(None)
                &&& final(self).values@ == touched(old(self).values@, cond, old(self).cur_block)
                &&& final(self).vtypes@ == old(self).vtypes@
                &&& final(self).cur_block == block_bump(old(self).cur_block)
                &&& old(self).same_meta(final(self))
            },
    {
        if cond >= self.values.len() || self.values[cond].tyx >= self.vtypes.len() {
            return Err(BuildError::BadValue);
        }
        if scalar_of(&self.vtypes[self.values[cond].tyx]).is_none() {
            return Err(BuildError::TypeMismatch);
        }
        let else_label = self.new_label();
        let end = self.new_label();
        let branched = self.insn_branch_if_not(cond, else_label);
        proof {
            assert(branched is Ok);
        }
        Ok(IfElseFrame { else_label, end })
    }

    /// Switches an `if`/`else` from the then-region to the else-region:
    /// emits the jump over the else-body and places the else label. Emit
    /// the else-body next and close with `end_if_else`.
    pub fn begin_else(&mut self, f: IfElseFrame) -> (r: Result<(), BuildError>)
        ensures
            !(f.else_label < old(self).labels@.len() && f.end < old(self).labels@.len()) ==> r
                == Result::<(), BuildError>::Err(BuildError::BadLabel) && *final(self) == *old(
                self,
            ),
            f.else_label < old(self).labels@.len() && f.end < old(self).labels@.len() && old(
                self,
            ).labels@[f.else_label as int] is Some ==> r == Result::<(), BuildError>::Err(
                BuildError::LabelAlreadyPlaced,
            ) && *final(self) == *old(self),
            f.else_label < old(self).labels@.len() && f.end < old(self).labels@.len() && old(
                self,
            ).labels@[f.else_label as int] is None ==> {
                &&& r == Result::<(), BuildError>::Ok(())
                &&& final(self).insns@ == old(self).insns@.push(Insn::Branch { target: f.end })
                &&& final(self).labels@ == old(self).labels@.update(
                    f.else_label as int,
                    Some((old(self).insns@.len() + 1) as usize),
                )
                &&& final(self).cur_block == block_bump(block_bump(old(self).cur_block))
                &&& old(self).same_tables(final(self))
            },
    {
        if f.else_label >= self.labels.len() || f.end >= self.labels.len() {
            return Err(BuildError::BadLabel);
        }
        if self.labels[f.else_label].is_some() {
            return Err(BuildError::LabelAlreadyPlaced);
        }
        let b = self.insn_branch(f.end);
        proof {
            assert(b is Ok);
        }
        let p = self.insn_label(f.else_label);
        proof {
            assert(p is Ok);
        }
        Ok(())
    }

    /// Closes an `if`/`else`: places its end label.
    pub fn end_if_else(&mut self, f: IfElseFrame) -> (r: Result<(), BuildError>)
        ensures
            f.end >= old(self).labels@.len() ==> r == Result::<(), BuildError>::Err(
                BuildError::BadLabel,
            ) && *final(self) == *old(self),
            f.end < old(self).labels@.len() && old(self).labels@[f.end as int] is Some ==> r
                == Result::<(), BuildError>::Err(BuildError::LabelAlreadyPlaced) && *final(self)
                == *old(self),
            f.end < old(self).labels@.len() && old(self).labels@[f.end as int] is None ==> {
                &&& r == Result::<(), BuildError>::Ok(())
                &&& final(self).labels@ == old(self).labels@.update(
                    f.end as int,
                    Some(old(self).insns@.len() as usize),
                )
                &&& final(self).insns@ == old(self).insns@
                &&& final(self).cur_block == block_bump(old(self).cur_block)
                &&& old(self).same_tables(final(self))
            },
    {
        self.insn_label(f.end)
    }

    /// Opens a `while` loop: makes the start and end labels, places the
    /// start label here — the condition is checked before the body runs —
    /// and records the loop as innermost for `insn_break` and
    /// `insn_continue`. Emit the condition next, hand it to `while_cond`,
    /// emit the body, and close with `end_while`.
    pub fn begin_while(&mut self) -> (r: WhileFrame)
        ensures
            ({
                let start = old(self).labels@.len() as usize;
                let end = (old(self).labels@.len() + 1) as usize;
                &&& r == (WhileFrame { start, end })
                &&& final(self).labels@ == old(self).labels@.push(
                    Some(old(self).insns@.len() as usize),
                ).push(None)
                &&& final(self).insns@ == old(self).insns@
                &&& final(self).values@ == old(self).values@
                &&& final(self).vtypes@ == old(self).vtypes@
                &&& final(self).cur_block == block_bump(old(self).cur_block)
                &&& final(self).loops@ == old(self).loops@.push((start, end))
                &&& final(self).id == old(self).id
                &&& final(self).abi == old(self).abi
                &&& final(self).ret == old(self).ret
                &&& final(self).n_params == old(self).n_params
                &&& final(self).opt_level == old(self).opt_level
            }),
    {
        let start = self.new_label();
        let end = self.new_label();
        let p = self.insn_label(start);
        proof {
            assert(p is Ok);
            assert(self.labels@ =~= old(self).labels@.push(
                Some(old(self).insns@.len() as usize),
            ).push(None));
        }
        self.loops.push((start, end));
        WhileFrame { start, end }
    }

    /// Emits the `while` condition check: leave the loop when `cond` holds
    /// zero. Call it once, right after emitting the condition value at the
    /// top of the loop.
    pub fn while_cond(&mut self, f: &WhileFrame, cond: ValId) -> (r: Result<(), BuildError>)
        ensures
            !old(self).has_val(cond) ==> r == Result::<(), BuildError>::Err(BuildError::BadValue)
                && *final(self) == *old(self),
            old(self).has_val(cond) && old(self).val_scalar(cond) is None ==> r == Result::<
                (),
                BuildError,
            >::Err(BuildError::TypeMismatch) && *final(self) == *old(self),
            old(self).has_val(cond) && old(self).val_scalar(cond) is Some && f.end >= old(
                self,
            ).labels@.len() ==> r == Result::<(), BuildError>::Err(BuildError::BadLabel)
                && *final(self) == *old(self),
            old(self).has_val(cond) && old(self).val_scalar(cond) is Some && f.end < old(
                self,
            ).labels@.len() ==> {
                &&& r == Result::<(), BuildError>::Ok(())
                &&& final(self).insns@ == old(self).insns@.push(
                    Insn::BranchIfNot { cond, target: f.end },
                )
                &&& final(self).values@ == touched(old(self).values@, cond, old(self).cur_block)
                &&& final(self).vtypes@ == old(self).vtypes@
                &&& final(self).labels@ == old(self).labels@
                &&& final(self).cur_block == block_bump(old(self).cur_block)
                &&& old(self).same_meta(final(self))
            },
    {
        self.insn_branch_if_not(cond, f.end)
    }

    /// Closes a `while` loop: jumps back to the condition check, places the
    /// exit label, and releases the loop from the innermost-loop stack,
    /// which must end with this very loop.
    pub fn end_while(&mut self, f: WhileFrame) -> (r: Result<(), BuildError>)
        ensures
            !(old(self).loops@.len() > 0 && old(self).loops@.last() == (f.start, f.end)) ==> r
                == Result::<(), BuildError>::Err(BuildError::NoLoop) && *final(self) == *old(self),
            old(self).loops@.len() > 0 && old(self).loops@.last() == (f.start, f.end) && !(f.start
                < old(self).labels@.len() && f.end < old(self).labels@.len()) ==> r == Result::<
                (),
                BuildError,
            >::Err(BuildError::BadLabel) && *final(self) == *old(self),
            old(self).loops@.len() > 0 && old(self).loops@.last() == (f.start, f.end) && f.start
                < old(self).labels@.len() && f.end < old(self).labels@.len() && old(
                self,
            ).labels@[f.end as int] is Some ==> r == Result::<(), BuildError>::Err(
                BuildError::LabelAlreadyPlaced,
            ) && *final(self) == *old(self),
            old(self).loops@.len() > 0 && old(self).loops@.last() == (f.start, f.end) && f.start
                < old(self).labels@.len() && f.end < old(self).labels@.len() && old(
                self,
            ).labels@[f.end as int] is None ==> {
                &&& r == Result::<(), BuildError>::Ok(())
                &&& final(self).insns@ == old(self).insns@.push(Insn::Branch { target: f.start })
                &&& final(self).labels@ == old(self).labels@.update(
                    f.end as int,
                    Some((old(self).insns@.len() + 1) as usize),
                )
                &&& final(self).values@ == old(self).values@
                &&& final(self).vtypes@ == old(self).vtypes@
                &&& final(self).cur_block == block_bump(block_bump(old(self).cur_block))
                &&& final(self).loops@ == old(self).loops@.drop_last()
                &&& final(self).id == old(self).id
                &&& final(self).abi == old(self).abi
                &&& final(self).ret == old(self).ret
                &&& final(self).n_params == old(self).n_params
                &&& final(self).opt_level == old(self).opt_level
            },
    {
        let fits = self.loops.len() > 0;
        if !fits {
            return Err(BuildError::NoLoop);
        }
        let last = self.loops[self.loops.len() - 1];
        if !(last.0 == f.start && last.1 == f.end) {
            return Err(BuildError::NoLoop);
        }
        if f.start >= self.labels.len() || f.end >= self.labels.len() {
            return Err(BuildError::BadLabel);
        }
        if self.labels[f.end].is_some() {
            return Err(BuildError::LabelAlreadyPlaced);
        }
        let b = self.insn_branch(f.start);
        proof {
            assert(b is Ok);
        }
        let p = self.insn_label(f.end);
        proof {
            assert(p is Ok);
        }
        let _ = self.loops.pop();
        Ok(())
    }

    /// Opens a `do`/`while` loop: makes the body and exit labels, places
    /// the body label here — the body runs before the condition is first
    /// checked — and records the loop as innermost. Emit the body, then the
    /// condition value, and close with `end_do_while`.
    pub fn begin_do_while(&mut self) -> (r: DoWhileFrame)
        ensures
            ({
                let start = old(self).labels@.len() as usize;
                let end = (old(self).labels@.len() + 1) as usize;
                &&& r == (DoWhileFrame { start, end })
                &&& final(self).labels@ == old(self).labels@.push(
                    Some(old(self).insns@.len() as usize),
                ).push(None)
                &&& final(self).insns@ == old(self).insns@
                &&& final(self).values@ == old(self).values@
                &&& final(self).vtypes@ == old(self).vtypes@
                &&& final(self).cur_block == block_bump(old(self).cur_block)
                &&& final(self).loops@ == old(self).loops@.push((start, end))
                &&& final(self).id == old(self).id
                &&& final(self).abi == old(self).abi
                &&& final(self).ret == old(self).ret
                &&& final(self).n_params == old(self).n_params
                &&& final(self).opt_level == old(self).opt_level
            }),
    {
        let start = self.new_label();
        let end = self.new_label();
        let p = self.insn_label(start);
        proof {
            assert(p is Ok);
            assert(self.labels@ =~= old(self).labels@.push(
                Some(old(self).insns@.len() as usize),
            ).push(None));
        }
        self.loops.push((start, end));
        DoWhileFrame { start, end }
    }

    /// Closes a `do`/`while` loop: jumps back to the body when `cond` holds
    /// a non-zero value, places the exit label, and releases the loop from
    /// the innermost-loop stack, which must end with this very loop.
    pub fn end_do_while(&mut self, f: DoWhileFrame, cond: ValId) -> (r: Result<(), BuildError>)
        ensures
            !(old(self).loops@.len() > 0 && old(self).loops@.last() == (f.start, f.end)) ==> r
                == Result::<(), BuildError>::Err(BuildError::NoLoop) && *final(self) == *old(self),
            old(self).loops@.len() > 0 && old(self).loops@.last() == (f.start, f.end) && !old(
                self,
            ).has_val(cond) ==> r == Result::<(), BuildError>::Err(BuildError::BadValue)
                && *final(self) == *old(self),
            old(self).loops@.len() > 0 && old(self).loops@.last() == (f.start, f.end) && old(
                self,
            ).has_val(cond) && old(self).val_scalar(cond) is None ==> r == Result::<
                (),
                BuildError,
            >::Err(BuildError::TypeMismatch) && *final(self) == *old(self),
            old(self).loops@.len() > 0 && old(self).loops@.last() == (f.start, f.end) && old(
                self,
            ).has_val(cond) && old(self).val_scalar(cond) is Some && !(f.start < old(
                self,
            ).labels@.len() && f.end < old(self).labels@.len() && old(
                self,
            ).labels@[f.end as int] is None) ==> (r == Result::<(), BuildError>::Err(
                BuildError::BadLabel,
            ) || r == Result::<(), BuildError>::Err(BuildError::LabelAlreadyPlaced))
                && *final(self) == *old(self),
            old(self).loops@.len() > 0 && old(self).loops@.last() == (f.start, f.end) && old(
                self,
            ).has_val(cond) && old(self).val_scalar(cond) is Some && f.start < old(
                self,
            ).labels@.len() && f.end < old(self).labels@.len() && old(
                self,
            ).labels@[f.end as int] is None ==> {
                &&& r == Result::<(), BuildError>::Ok(())
                &&& final(self).insns@ == old(self).insns@.push(
                    Insn::BranchIf { cond, target: f.start },
                )
                &&& final(self).labels@ == old(self).labels@.update(
                    f.end as int,
                    Some((old(self).insns@.len() + 1) as usize),
                )
                &&& final(self).values@ == touched(old(self).values@, cond, old(self).cur_block)
                &&& final(self).vtypes@ == old(self).vtypes@
                &&& final(self).cur_block == block_bump(block_bump(old(self).cur_block))
                &&& final(self).loops@ == old(self).loops@.drop_last()
                &&& final(self).id == old(self).id
                &&& final(self).abi == old(self).abi
                &&& final(self).ret == old(self).ret
                &&& final(self).n_params == old(self).n_params
                &&& final(self).opt_level == old(self).opt_level
            },
    {
        let fits = self.loops.len() > 0;
        if !fits {
            return Err(BuildError::NoLoop);
        }
        let last = self.loops[self.loops.len() - 1];
        if !(last.0 == f.start && last.1 == f.end) {
            return Err(BuildError::NoLoop);
        }
        if cond >= self.values.len() || self.values[cond].tyx >= self.vtypes.len() {
            return Err(BuildError::BadValue);
        }
        if scalar_of(&self.vtypes[self.values[cond].tyx]).is_none() {
            return Err(BuildError::TypeMismatch);
        }
        if f.start >= self.labels.len() || f.end >= self.labels.len() {
            return Err(BuildError::BadLabel);
        }
        if self.labels[f.end].is_some() {
            return Err(BuildError::LabelAlreadyPlaced);
        }
        let b = self.insn_branch_if(cond, f.start);
        proof {
            assert(b is Ok);
        }
        let p = self.insn_label(f.end);
        proof {
            assert(p is Ok);
        }
        let _ = self.loops.pop();
        Ok(())
    }

    /// A jump out of the innermost open structured loop, to just after its
    /// closing point; `NoLoop` when no structured loop is open.
    pub fn insn_break(&mut self) -> (r: Result<(), BuildError>)
        ensures
            old(self).loops@.len() == 0 ==> r == Result::<(), BuildError>::Err(BuildError::NoLoop)
                && *final(self) == *old(self),
            old(self).loops@.len() > 0 && old(self).loops@.last().1 >= old(self).labels@.len()
                ==> r == Result::<(), BuildError>::Err(BuildError::BadLabel) && *final(self)
                == *old(self),
            old(self).loops@.len() > 0 && old(self).loops@.last().1 < old(self).labels@.len()
                ==> {
                &&& r == Result::<(), BuildError>::Ok(())
                &&& final(self).insns@ == old(self).insns@.push(
                    Insn::Branch { target: old(self).loops@.last().1 },
                )
                &&& final(self).labels@ == old(self).labels@
                &&& final(self).cur_block == block_bump(old(self).cur_block)
                &&& old(self).same_tables(final(self))
            },
    {
        if self.loops.len() == 0 {
            return Err(BuildError::NoLoop);
        }
        let last = self.loops[self.loops.len() - 1];
        self.insn_branch(last.1)
    }

    /// A jump back to the innermost open structured loop's start: the
    /// condition check of a `while`, the body top of a `do`/`while`;
    /// `NoLoop` when no structured loop is open.
    pub fn insn_continue(&mut self) -> (r: Result<(), BuildError>)
        ensures
            old(self).loops@.len() == 0 ==> r == Result::<(), BuildError>::Err(BuildError::NoLoop)
                && *final(self) == *old(self),
            old(self).loops@.len() > 0 && old(self).loops@.last().0 >= old(self).labels@.len()
                ==> r == Result::<(), BuildError>::Err(BuildError::BadLabel) && *final(self)
                == *old(self),
            old(self).loops@.len() > 0 && old(self).loops@.last().0 < old(self).labels@.len()
                ==> {
                &&& r == Result::<(), BuildError>::Ok(())
                &&& final(self).insns@ == old(self).insns@.push(
                    Insn::Branch { target: old(self).loops@.last().0 },
                )
                &&& final(self).labels@ == old(self).labels@
                &&& final(self).cur_block == block_bump(old(self).cur_block)
                &&& old(self).same_tables(final(self))
            },
    {
        if self.loops.len() == 0 {
            return Err(BuildError::NoLoop);
        }
        let last = self.loops[self.loops.len() - 1];
        self.insn_branch(last.0)
    }
}

impl UncompiledFunction {
    /// Whether value `v` holds a pointer to a struct or union.
    pub open spec fn points_to_aggregate(&self, v: ValId) -> bool {
        &&& self.has_val(v)
        &&& self.val_ty(v) matches Type::Pointer { .. }
        &&& self.val_ty(v).spec_pointee().spec_is_aggregate()
    }

    /// The members of the aggregate value `v` points to.
    pub open spec fn pointee_fields(&self, v: ValId) -> Seq<crate::types::Field> {
        self.val_ty(v).spec_pointee().spec_fields()
    }

    /// Indexing sugar over `insn_load_relative`: a read of member `index`
    /// of the struct or union that `ptr` points to, at its declared offset,
    /// into a fresh temporary whose type is a structural copy of the
    /// member's. One load instruction is emitted immediately.
    pub fn insn_load_field(&mut self, ptr: ValId, index: usize) -> (r: Result<ValId, BuildError>)
        ensures
            !old(self).has_val(ptr) ==> r == Result::<ValId, BuildError>::Err(BuildError::BadValue)
                && *final(self) == *old(self),
            old(self).has_val(ptr) && !old(self).points_to_aggregate(ptr) ==> r == Result::<
                ValId,
                BuildError,
            >::Err(BuildError::TypeMismatch) && *final(self) == *old(self),
            old(self).points_to_aggregate(ptr) && index >= old(self).pointee_fields(ptr).len()
                ==> r == Result::<ValId, BuildError>::Err(BuildError::NoSuchField) && *final(self)
                == *old(self),
            old(self).points_to_aggregate(ptr) && index < old(self).pointee_fields(ptr).len()
                ==> {
                let v = old(self).values@.len() as usize;
                let cur = old(self).cur_block;
                let fld = old(self).pointee_fields(ptr)[index as int];
                &&& r == Result::<ValId, BuildError>::Ok(v)
                &&& final(self).insns@ == old(self).insns@.push(
                    Insn::LoadRelative { dest: v, ptr, offset: fld.offset },
                )
                &&& final(self).values@ == touched(old(self).values@, ptr, cur).push(
                    temp_at(old(self).vtypes@.len() as usize, cur),
                )
                &&& final(self).vtypes@.len() == old(self).vtypes@.len() + 1
                &&& final(self).vtypes@.subrange(0, old(self).vtypes@.len() as int) == old(
                    self,
                ).vtypes@
                &&& crate::types::ty_eq(&final(self).vtypes@.last(), &fld.ty)
                &&& old(self).same_frame(final(self))
            },
    {
        if ptr >= self.values.len() || self.values[ptr].tyx >= self.vtypes.len() {
            return Err(BuildError::BadValue);
        }
        let looked = {
            let pt = &self.vtypes[self.values[ptr].tyx];
            match pt {
                Type::Pointer { elem } => match &**elem {
                    Type::Struct { fields } => {
                        if index >= fields.len() {
                            Err(BuildError::NoSuchField)
                        } else {
                            Ok((fields[index].offset, fields[index].ty.duplicate()))
                        }
                    },
                    Type::Union { fields } => {
                        if index >= fields.len() {
                            Err(BuildError::NoSuchField)
                        } else {
                            Ok((fields[index].offset, fields[index].ty.duplicate()))
                        }
                    },
                    _ => Err(BuildError::TypeMismatch),
                },
                _ => Err(BuildError::TypeMismatch),
            }
        };
        let (off, dup) = match looked {
            Ok(x) => x,
            Err(e) => {
                return Err(e);
            },
        };
        self.touch(ptr);
        let tyx = self.vtypes.len();
        self.vtypes.push(dup);
        proof {
            assert(self.vtypes@.subrange(0, old(self).vtypes@.len() as int) =~= old(
                self,
            ).vtypes@);
        }
        let v = self.values.len();
        self.values.push(
            ValueInfo { tyx, kind: ValueKind::Temporary { block: self.cur_block }, addressable: false },
        );
        self.insns.push(Insn::LoadRelative { dest: v, ptr, offset: off });
        Ok(v)
    }

}

} // verus!
