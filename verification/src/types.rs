//! The type system: primitive kinds, pointers, aggregates and call
//! signatures, with structural equality and packed layout.

use vstd::prelude::*;

verus! {

/// The tag that classifies a [`Type`]: one tag per primitive kind, plus one
/// tag each for pointers, structs, unions and signatures.
#[derive(Clone, Copy, Debug, PartialEq, Eq, Structural)]
pub enum TypeKind {
    Void,
    Bool,
    SByte,
    UByte,
    Short,
    UShort,
    Int,
    UInt,
    Long,
    ULong,
    NInt,
    NUInt,
    Float32,
    Float64,
    Pointer,
    Struct,
    Union,
    Signature,
}

/// The calling convention carried by a signature type.
#[derive(Clone, Copy, Debug, PartialEq, Eq, Structural)]
pub enum Abi {
    CDecl,
    VarArg,
    StdCall,
    FastCall,
}

/// One aggregate member: an optional debug name, the member's type, and its
/// byte offset from the start of the aggregate.
pub struct Field {
    pub name: Option<String>,
    pub ty: Type,
    pub offset: usize,
}

/// The shape of a value: a primitive kind, a pointer to an element type, an
/// aggregate with ordered fields, or a call signature.
pub enum Type {
    Prim { kind: TypeKind },
    Pointer { elem: Box<Type> },
    Struct { fields: Vec<Field> },
    Union { fields: Vec<Field> },
    Signature { abi: Abi, ret: Box<Type>, params: Vec<Type> },
}

/// The error a type constructor or accessor reports: an argument of the
/// wrong kind, or a layout that does not fit in the address space.
#[derive(Clone, Copy, Debug, PartialEq, Eq, Structural)]
pub enum TypeError {
    NotPrimitive,
    NotPointer,
    NotAggregate,
    NotSignature,
    NoSuchField,
    WrongArity,
    TooLarge,
}

impl TypeKind {
    /// Whether the tag names a primitive kind (not a pointer, aggregate or
    /// signature).
    pub open spec fn spec_is_primitive(self) -> bool {
        !(self == TypeKind::Pointer || self == TypeKind::Struct || self == TypeKind::Union
            || self == TypeKind::Signature)
    }

    /// Whether the tag names a primitive kind.
    pub fn is_primitive(self) -> (r: bool)
        ensures
            r == self.spec_is_primitive(),
    {
        !(self == TypeKind::Pointer || self == TypeKind::Struct || self == TypeKind::Union
            || self == TypeKind::Signature)
    }
}

impl Type {
    /// The kind tag of this type.
    pub open spec fn spec_kind(&self) -> TypeKind {
        match self {
            Type::Prim { kind } => *kind,
            Type::Pointer { .. } => TypeKind::Pointer,
            Type::Struct { .. } => TypeKind::Struct,
            Type::Union { .. } => TypeKind::Union,
            Type::Signature { .. } => TypeKind::Signature,
        }
    }

    /// The type behind a pointer type; `Void` stands in for every other
    /// case.
    pub open spec fn spec_pointee(&self) -> Type {
        match self {
            Type::Pointer { elem } => **elem,
            _ => Type::Prim { kind: TypeKind::Void },
        }
    }

    /// Whether this type is a struct or union.
    pub open spec fn spec_is_aggregate(&self) -> bool {
        self matches Type::Struct { .. } || self matches Type::Union { .. }
    }

    /// The kind tag of this type.
    pub fn kind(&self) -> (k: TypeKind)
        ensures
            k == self.spec_kind(),
    {
        match self {
            Type::Prim { kind } => *kind,
            Type::Pointer { .. } => TypeKind::Pointer,
            Type::Struct { .. } => TypeKind::Struct,
            Type::Union { .. } => TypeKind::Union,
            Type::Signature { .. } => TypeKind::Signature,
        }
    }
}

/// Structural equality of types: equal kinds, structurally equal
/// constituents, and for aggregates equal field offsets in the same order.
/// Field names play no part.
pub open spec fn ty_eq(a: &Type, b: &Type) -> bool
    decreases a, 0nat,
{
    match (a, b) {
        (Type::Prim { kind: ka }, Type::Prim { kind: kb }) => ka == kb,
        (Type::Pointer { elem: ea }, Type::Pointer { elem: eb }) => ty_eq(ea, eb),
        (Type::Struct { fields: fa }, Type::Struct { fields: fb }) => fields_eq(fa@, fb@),
        (Type::Union { fields: fa }, Type::Union { fields: fb }) => fields_eq(fa@, fb@),
        (
            Type::Signature { abi: aa, ret: ra, params: pa },
            Type::Signature { abi: ab, ret: rb, params: pb },
        ) => {
            &&& aa == ab
            &&& ty_eq(ra, rb)
            &&& params_eq(pa@, pb@)
        },
        _ => false,
    }
}

/// Structural equality of two ordered parameter rows: equal length, and
/// structurally equal types at each position.
pub open spec fn params_eq(pa: Seq<Type>, pb: Seq<Type>) -> bool
    decreases pa, 2nat,
{
    &&& pa.len() == pb.len()
    &&& forall|i: int| 0 <= i < pa.len() ==> param_eq(#[trigger] pa[i], pb[i])
}

/// Structural equality of one parameter pair.
pub open spec fn param_eq(a: Type, b: Type) -> bool
    decreases a, 1nat,
{
    ty_eq(&a, &b)
}

/// Structural equality of two ordered field sequences: equal length, and at
/// each position structurally equal types at equal offsets.
pub open spec fn fields_eq(fa: Seq<Field>, fb: Seq<Field>) -> bool
    decreases fa, 2nat,
{
    &&& fa.len() == fb.len()
    &&& forall|i: int| 0 <= i < fa.len() ==> field_eq(#[trigger] fa[i], fb[i])
}

/// Structural equality of one field pair: equal offset and structurally
/// equal type; the names are ignored.
pub open spec fn field_eq(fa: Field, fb: Field) -> bool
    decreases fa, 1nat,
{
    fa.offset == fb.offset && ty_eq(&fa.ty, &fb.ty)
}

/// Structural equality, decided. Two calls of a primitive constructor, or
/// two aggregate constructions with structurally equal members, compare
/// equal here no matter where or in which order they were made.
#[verifier::loop_isolation(false)]
pub fn type_eq(a: &Type, b: &Type) -> (r: bool)
    ensures
        r == ty_eq(a, b),
    decreases a,
{
    match (a, b) {
        (Type::Prim { kind: ka }, Type::Prim { kind: kb }) => ka == kb,
        (Type::Pointer { elem: ea }, Type::Pointer { elem: eb }) => type_eq(ea, eb),
        (Type::Struct { fields: fa }, Type::Struct { fields: fb }) => fields_equal(fa, fb),
        (Type::Union { fields: fa }, Type::Union { fields: fb }) => fields_equal(fa, fb),
        (
            Type::Signature { abi: aa, ret: ra, params: pa },
            Type::Signature { abi: ab, ret: rb, params: pb },
        ) => {
            if aa != ab || pa.len() != pb.len() || !type_eq(ra, rb) {
                proof {
                    assert(pa@.len() != pb@.len() ==> !params_eq(pa@, pb@));
                }
                return false;
            }
            let mut i: usize = 0;
            while i < pa.len()
                invariant
                    0 <= i <= pa@.len(),
                    pa@.len() == pb@.len(),
                    forall|j: int| 0 <= j < i ==> param_eq(#[trigger] pa@[j], pb@[j]),
                decreases pa@.len() - i,
            {
                if !type_eq(&pa[i], &pb[i]) {
                    proof {
                        assert(!param_eq(pa@[i as int], pb@[i as int]));
                        assert(!params_eq(pa@, pb@));
                    }
                    return false;
                }
                i = i + 1;
            }
            proof {
                assert(params_eq(pa@, pb@));
            }
            true
        },
        _ => false,
    }
}

#[verifier::loop_isolation(false)]
fn fields_equal(fa: &Vec<Field>, fb: &Vec<Field>) -> (r: bool)
    ensures
        r == fields_eq(fa@, fb@),
    decreases fa,
{
    if fa.len() != fb.len() {
        return false;
    }
    let mut i: usize = 0;
    while i < fa.len()
        invariant
            0 <= i <= fa@.len(),
            fa@.len() == fb@.len(),
            forall|j: int| 0 <= j < i ==> field_eq(#[trigger] fa@[j], fb@[j]),
        decreases fa@.len() - i,
    {
        if fa[i].offset != fb[i].offset || !type_eq(&fa[i].ty, &fb[i].ty) {
            return false;
        }
        i = i + 1;
    }
    true
}

/// No constructed type is larger than this many bytes, so that layouts and
/// frame offsets always fit comfortably in the address space.
pub const SIZE_CAP: usize = 0x1000_0000;

/// The byte size of a primitive kind. Pointer-, struct-, union- and
/// signature-tagged inputs are not primitive and get size zero here.
pub open spec fn prim_size(k: TypeKind) -> nat {
    match k {
        TypeKind::Void => 0,
        TypeKind::Bool => 1,
        TypeKind::SByte => 1,
        TypeKind::UByte => 1,
        TypeKind::Short => 2,
        TypeKind::UShort => 2,
        TypeKind::Int => 4,
        TypeKind::UInt => 4,
        TypeKind::Long => 8,
        TypeKind::ULong => 8,
        TypeKind::NInt => 8,
        TypeKind::NUInt => 8,
        TypeKind::Float32 => 4,
        TypeKind::Float64 => 8,
        TypeKind::Pointer => 0,
        TypeKind::Struct => 0,
        TypeKind::Union => 0,
        TypeKind::Signature => 0,
    }
}

/// The byte size of a type: primitives by kind, pointers and signatures one
/// machine word, structs the sum and unions the maximum of their members.
pub open spec fn spec_size(t: &Type) -> nat
    decreases t,
{
    match t {
        Type::Prim { kind } => prim_size(*kind),
        Type::Pointer { .. } => 8,
        Type::Struct { fields } => sum_fields(fields@),
        Type::Union { fields } => max_fields(fields@),
        Type::Signature { .. } => 8,
    }
}

/// The summed byte size of a field sequence: a packed struct's size.
pub open spec fn sum_fields(fs: Seq<Field>) -> nat
    decreases fs,
{
    if fs.len() == 0 {
        0
    } else {
        sum_fields(fs.subrange(0, fs.len() - 1)) + spec_size(&fs[fs.len() - 1].ty)
    }
}

/// The largest byte size among a field sequence's types: a union's size.
pub open spec fn max_fields(fs: Seq<Field>) -> nat
    decreases fs,
{
    if fs.len() == 0 {
        0
    } else {
        let rest = max_fields(fs.subrange(0, fs.len() - 1));
        let last = spec_size(&fs[fs.len() - 1].ty);
        if last > rest {
            last
        } else {
            rest
        }
    }
}

/// The summed byte size of a type sequence: the packed offset that the member
/// after the sequence would get.
pub open spec fn sum_types(ts: Seq<Type>) -> nat
    decreases ts,
{
    if ts.len() == 0 {
        0
    } else {
        sum_types(ts.subrange(0, ts.len() - 1)) + spec_size(&ts[ts.len() - 1])
    }
}

/// A prefix never sums to more than the whole sequence.
pub proof fn lemma_sum_types_prefix(ts: Seq<Type>, i: int)
    requires
        0 <= i <= ts.len(),
    ensures
        sum_types(ts.subrange(0, i)) <= sum_types(ts),
    decreases ts.len() - i,
{
    if i < ts.len() {
        lemma_sum_types_prefix(ts, i + 1);
        assert(ts.subrange(0, i + 1).subrange(0, i) =~= ts.subrange(0, i));
        assert(sum_types(ts.subrange(0, i)) <= sum_types(ts.subrange(0, i + 1)));
    } else {
        assert(ts.subrange(0, i) =~= ts);
    }
}

/// No member's size exceeds the struct sum of its sequence.
pub proof fn lemma_sum_fields_elem(fs: Seq<Field>, i: int)
    requires
        0 <= i < fs.len(),
    ensures
        spec_size(&fs[i].ty) <= sum_fields(fs),
    decreases fs.len(),
{
    if i + 1 < fs.len() {
        lemma_sum_fields_elem(fs.subrange(0, fs.len() - 1), i);
        assert(fs.subrange(0, fs.len() - 1)[i] == fs[i]);
    }
}

/// No member's size exceeds the union maximum of its sequence.
pub proof fn lemma_max_fields_elem(fs: Seq<Field>, i: int)
    requires
        0 <= i < fs.len(),
    ensures
        spec_size(&fs[i].ty) <= max_fields(fs),
    decreases fs.len(),
{
    if i + 1 < fs.len() {
        lemma_max_fields_elem(fs.subrange(0, fs.len() - 1), i);
        assert(fs.subrange(0, fs.len() - 1)[i] == fs[i]);
    }
}

impl Type {
    /// The byte size of this type, or `TooLarge` exactly when it exceeds
    /// [`SIZE_CAP`].
    #[verifier::loop_isolation(false)]
    pub fn size_of(&self) -> (r: Result<usize, TypeError>)
        ensures
            r == if spec_size(self) > SIZE_CAP {
                Result::<usize, TypeError>::Err(TypeError::TooLarge)
            } else {
                Result::<usize, TypeError>::Ok(spec_size(self) as usize)
            },
        decreases self,
    {
        match self {
            Type::Prim { kind } => {
                let s: usize = match kind {
                    TypeKind::Void => 0,
                    TypeKind::Bool => 1,
                    TypeKind::SByte => 1,
                    TypeKind::UByte => 1,
                    TypeKind::Short => 2,
                    TypeKind::UShort => 2,
                    TypeKind::Int => 4,
                    TypeKind::UInt => 4,
                    TypeKind::Long => 8,
                    TypeKind::ULong => 8,
                    TypeKind::NInt => 8,
                    TypeKind::NUInt => 8,
                    TypeKind::Float32 => 4,
                    TypeKind::Float64 => 8,
                    TypeKind::Pointer => 0,
                    TypeKind::Struct => 0,
                    TypeKind::Union => 0,
                    TypeKind::Signature => 0,
                };
                Ok(s)
            },
            Type::Pointer { .. } => Ok(8),
            Type::Signature { .. } => Ok(8),
            Type::Struct { fields } => {
                let mut total: usize = 0;
                let mut i: usize = 0;
                while i < fields.len()
                    invariant
                        0 <= i <= fields@.len(),
                        total == sum_fields(fields@.subrange(0, i as int)),
                        total <= SIZE_CAP,
                    decreases fields@.len() - i,
                {
                    let s = match fields[i].ty.size_of() {
                        Ok(s) => s,
                        Err(_) => {
                            proof {
                                lemma_sum_fields_elem(fields@, i as int);
                            }
                            return Err(TypeError::TooLarge);
                        },
                    };
                    if total + s > SIZE_CAP {
                        proof {
                            lemma_sum_fields_prefix(fields@, i + 1);
                            assert(fields@.subrange(0, i + 1).subrange(0, i as int) =~= fields@
                                .subrange(0, i as int));
                        }
                        return Err(TypeError::TooLarge);
                    }
                    proof {
                        assert(fields@.subrange(0, i + 1).subrange(0, i as int) =~= fields@
                            .subrange(0, i as int));
                    }
                    total = total + s;
                    i = i + 1;
                }
                proof {
                    assert(fields@.subrange(0, fields@.len() as int) =~= fields@);
                }
                Ok(total)
            },
            Type::Union { fields } => {
                let mut biggest: usize = 0;
                let mut i: usize = 0;
                while i < fields.len()
                    invariant
                        0 <= i <= fields@.len(),
                        biggest == max_fields(fields@.subrange(0, i as int)),
                        biggest <= SIZE_CAP,
                    decreases fields@.len() - i,
                {
                    let s = match fields[i].ty.size_of() {
                        Ok(s) => s,
                        Err(_) => {
                            proof {
                                lemma_max_fields_elem(fields@, i as int);
                            }
                            return Err(TypeError::TooLarge);
                        },
                    };
                    proof {
                        assert(fields@.subrange(0, i + 1).subrange(0, i as int) =~= fields@
                            .subrange(0, i as int));
                    }
                    if s > biggest {
                        biggest = s;
                    }
                    i = i + 1;
                }
                proof {
                    assert(fields@.subrange(0, fields@.len() as int) =~= fields@);
                }
                Ok(biggest)
            },
        }
    }
}

/// A prefix never sums to more than the whole field sequence.
pub proof fn lemma_sum_fields_prefix(fs: Seq<Field>, i: int)
    requires
        0 <= i <= fs.len(),
    ensures
        sum_fields(fs.subrange(0, i)) <= sum_fields(fs),
    decreases fs.len() - i,
{
    if i < fs.len() {
        lemma_sum_fields_prefix(fs, i + 1);
        assert(fs.subrange(0, i + 1).subrange(0, i) =~= fs.subrange(0, i));
        assert(sum_fields(fs.subrange(0, i)) <= sum_fields(fs.subrange(0, i + 1)));
    } else {
        assert(fs.subrange(0, i) =~= fs);
    }
}

/// No member's size exceeds the type-sequence sum.
pub proof fn lemma_sum_types_elem(ts: Seq<Type>, i: int)
    requires
        0 <= i < ts.len(),
    ensures
        spec_size(&ts[i]) <= sum_types(ts),
    decreases ts.len(),
{
    if i + 1 < ts.len() {
        lemma_sum_types_elem(ts.subrange(0, ts.len() - 1), i);
        assert(ts.subrange(0, ts.len() - 1)[i] == ts[i]);
    }
}

/// The canonical type for a primitive kind, or `NotPrimitive` when the kind
/// tags a pointer, aggregate or signature. Every call with the same kind
/// returns the same, structurally equal type.
pub fn get(kind: TypeKind) -> (r: Result<Type, TypeError>)
    ensures
        r == if kind.spec_is_primitive() {
            Result::<Type, TypeError>::Ok(Type::Prim { kind })
        } else {
            Result::<Type, TypeError>::Err(TypeError::NotPrimitive)
        },
{
    if kind.is_primitive() {
        Ok(Type::Prim { kind })
    } else {
        Err(TypeError::NotPrimitive)
    }
}

impl Type {
    /// The ordered members of a struct or union; empty for any other type.
    pub open spec fn spec_fields(&self) -> Seq<Field> {
        match self {
            Type::Struct { fields } => fields@,
            Type::Union { fields } => fields@,
            _ => Seq::empty(),
        }
    }

    /// A pointer type to `elem`.
    pub fn new_pointer(elem: Type) -> (r: Type)
        ensures
            r matches Type::Pointer { elem: e } && e == elem,
    {
        Type::Pointer { elem: Box::new(elem) }
    }

    /// A packed struct type over the given member types, in order: each
    /// member's offset is the summed size of the members before it. Fails
    /// with `TooLarge` exactly when the whole layout would exceed
    /// [`SIZE_CAP`].
    #[verifier::loop_isolation(false)]
    pub fn new_struct(tys: Vec<Type>) -> (r: Result<Type, TypeError>)
        ensures
            sum_types(tys@) > SIZE_CAP ==> r == Result::<Type, TypeError>::Err(
                TypeError::TooLarge,
            ),
            sum_types(tys@) <= SIZE_CAP ==> (r matches Result::Ok(t) && packed_struct_of(
                tys@,
                &t,
            )),
    {
        let ghost all = tys@;
        let mut rest = tys;
        let mut fields: Vec<Field> = Vec::new();
        let mut off: usize = 0;
        while rest.len() > 0
            invariant
                fields@.len() + rest@.len() == all.len(),
                rest@ == all.subrange(fields@.len() as int, all.len() as int),
                off == sum_types(all.subrange(0, fields@.len() as int)),
                off <= SIZE_CAP,
                forall|j: int|
                    0 <= j < fields@.len() ==> {
                        &&& (#[trigger] fields@[j]).ty == all[j]
                        &&& fields@[j].name is None
                        &&& fields@[j].offset == sum_types(all.subrange(0, j))
                    },
            decreases rest@.len(),
        {
            let ghost i = fields@.len() as int;
            let ty = rest.remove(0);
            assert(ty == all[i]);
            let s = match ty.size_of() {
                Ok(s) => s,
                Err(_) => {
                    proof {
                        lemma_sum_types_elem(all, i);
                    }
                    return Err(TypeError::TooLarge);
                },
            };
            if off > SIZE_CAP - s {
                proof {
                    lemma_sum_types_prefix(all, i + 1);
                    assert(all.subrange(0, i + 1).subrange(0, i) =~= all.subrange(0, i));
                }
                return Err(TypeError::TooLarge);
            }
            proof {
                assert(all.subrange(0, i + 1).subrange(0, i) =~= all.subrange(0, i));
                assert(rest@ == all.subrange(i + 1, all.len() as int));
            }
            fields.push(Field { name: None, ty, offset: off });
            off = off + s;
        }
        proof {
            assert(all.subrange(0, all.len() as int) =~= all);
        }
        Ok(Type::Struct { fields })
    }

    /// A union type over the given member types, in order, every member at
    /// offset zero. Fails with `TooLarge` exactly when some member exceeds
    /// [`SIZE_CAP`].
    #[verifier::loop_isolation(false)]
    pub fn new_union(tys: Vec<Type>) -> (r: Result<Type, TypeError>)
        ensures
            (exists|i: int| 0 <= i < tys@.len() && spec_size(&tys@[i]) > SIZE_CAP) ==> r
                == Result::<Type, TypeError>::Err(TypeError::TooLarge),
            (forall|i: int| 0 <= i < tys@.len() ==> spec_size(&tys@[i]) <= SIZE_CAP) ==> (r matches
                Result::Ok(t) && union_of(tys@, &t)),
    {
        let ghost all = tys@;
        let mut rest = tys;
        let mut fields: Vec<Field> = Vec::new();
        while rest.len() > 0
            invariant
                fields@.len() + rest@.len() == all.len(),
                rest@ == all.subrange(fields@.len() as int, all.len() as int),
                forall|j: int|
                    0 <= j < fields@.len() ==> {
                        &&& (#[trigger] fields@[j]).ty == all[j]
                        &&& fields@[j].name is None
                        &&& fields@[j].offset == 0
                    },
                forall|j: int|
                    0 <= j < fields@.len() ==> #[trigger] spec_size(&all[j]) <= SIZE_CAP,
            decreases rest@.len(),
        {
            let ghost i = fields@.len() as int;
            let ty = rest.remove(0);
            assert(ty == all[i]);
            match ty.size_of() {
                Ok(_) => {},
                Err(_) => {
                    return Err(TypeError::TooLarge);
                },
            };
            proof {
                assert(rest@ == all.subrange(i + 1, all.len() as int));
            }
            fields.push(Field { name: None, ty, offset: 0 });
        }
        Ok(Type::Union { fields })
    }

    /// A call-signature type with the given calling convention, return type
    /// and ordered parameter types.
    pub fn new_signature(abi: Abi, ret: Type, params: Vec<Type>) -> (r: Type)
        ensures
            r matches Type::Signature { abi: a, ret: rt, params: ps } && a == abi && rt == ret
                && ps@ == params@,
    {
        Type::Signature { abi, ret: Box::new(ret), params }
    }

    /// Attaches one debug name per member of a struct or union, in order,
    /// and returns the renamed type. Fails with `NotAggregate` on any other
    /// type and with `WrongArity` when the name count differs from the
    /// member count; offsets and member types are never changed.
    pub fn with_names(self, names: Vec<String>) -> (r: Result<Type, TypeError>)
        ensures
            !self.spec_is_aggregate() ==> r == Result::<Type, TypeError>::Err(
                TypeError::NotAggregate,
            ),
            self.spec_is_aggregate() && names@.len() != self.spec_fields().len() ==> r == Result::<
                Type,
                TypeError,
            >::Err(TypeError::WrongArity),
            self.spec_is_aggregate() && names@.len() == self.spec_fields().len() ==> (r matches
                Result::Ok(t) && {
                &&& t.spec_kind() == self.spec_kind()
                &&& t.spec_fields().len() == self.spec_fields().len()
                &&& forall|j: int|
                    0 <= j < names@.len() ==> {
                        &&& (#[trigger] t.spec_fields()[j]).ty == self.spec_fields()[j].ty
                        &&& t.spec_fields()[j].offset == self.spec_fields()[j].offset
                        &&& t.spec_fields()[j].name == Some(names@[j])
                    }
            }),
    {
        match self {
            Type::Struct { fields } => {
                let mut fields = fields;
                match rename_fields(&mut fields, names) {
                    Ok(_) => Ok(Type::Struct { fields }),
                    Err(e) => Err(e),
                }
            },
            Type::Union { fields } => {
                let mut fields = fields;
                match rename_fields(&mut fields, names) {
                    Ok(_) => Ok(Type::Union { fields }),
                    Err(e) => Err(e),
                }
            },
            _ => Err(TypeError::NotAggregate),
        }
    }
}

/// Whether `t` is the packed struct type over exactly the member types
/// `tys`: unnamed members in order, each at the packed offset.
pub open spec fn packed_struct_of(tys: Seq<Type>, t: &Type) -> bool {
    &&& t matches Type::Struct { fields }
    &&& fields@.len() == tys.len()
    &&& forall|j: int|
        0 <= j < tys.len() ==> {
            &&& (#[trigger] fields@[j]).ty == tys[j]
            &&& fields@[j].name is None
            &&& fields@[j].offset == sum_types(tys.subrange(0, j))
        }
}

/// Whether `t` is the union type over exactly the member types `tys`:
/// unnamed members in order, all at offset zero.
pub open spec fn union_of(tys: Seq<Type>, t: &Type) -> bool {
    &&& t matches Type::Union { fields }
    &&& fields@.len() == tys.len()
    &&& forall|j: int|
        0 <= j < tys.len() ==> {
            &&& (#[trigger] fields@[j]).ty == tys[j]
            &&& fields@[j].name is None
            &&& fields@[j].offset == 0
        }
}

#[verifier::loop_isolation(false)]
fn rename_fields(fields: &mut Vec<Field>, names: Vec<String>) -> (r: Result<(), TypeError>)
    ensures
        names@.len() != old(fields)@.len() ==> r == Result::<(), TypeError>::Err(
            TypeError::WrongArity,
        ) && *final(fields) == *old(fields),
        names@.len() == old(fields)@.len() ==> {
            &&& r == Result::<(), TypeError>::Ok(())
            &&& final(fields)@.len() == old(fields)@.len()
            &&& forall|j: int|
                0 <= j < names@.len() ==> {
                    &&& (#[trigger] final(fields)@[j]).ty == old(fields)@[j].ty
                    &&& final(fields)@[j].offset == old(fields)@[j].offset
                    &&& final(fields)@[j].name == Some(names@[j])
                }
        },
{
    if names.len() != fields.len() {
        return Err(TypeError::WrongArity);
    }
    let mut rest = names;
    let mut i: usize = 0;
    while i < fields.len()
        invariant
            i + rest@.len() == names@.len(),
            fields@.len() == old(fields)@.len(),
            rest@ == names@.subrange(i as int, names@.len() as int),
            forall|j: int|
                i <= j < fields@.len() ==> #[trigger] fields@[j] == old(fields)@[j],
            forall|j: int|
                0 <= j < i ==> {
                    &&& (#[trigger] fields@[j]).ty == old(fields)@[j].ty
                    &&& fields@[j].offset == old(fields)@[j].offset
                    &&& fields@[j].name == Some(names@[j])
                },
        decreases fields@.len() - i,
    {
        let n = rest.remove(0);
        assert(n == names@[i as int]);
        let mut tmp = Field { name: None, ty: Type::Prim { kind: TypeKind::Void }, offset: 0 };
        fields.set_and_swap(i, &mut tmp);
        tmp.name = Some(n);
        fields.set_and_swap(i, &mut tmp);
        i = i + 1;
    }
    Ok(())
}

/// Whether the field carries exactly the debug name `n`.
pub open spec fn name_matches(f: Field, n: Seq<char>) -> bool {
    f.name matches Some(s) && s@ == n
}

impl Type {
    /// The element type behind a pointer type; `NotPointer` on any other
    /// type.
    pub fn get_ref(&self) -> (r: Result<&Type, TypeError>)
        ensures
            self matches Type::Pointer { elem } ==> (r matches Result::Ok(e) && *e == elem),
            !(self matches Type::Pointer { .. }) ==> r == Result::<&Type, TypeError>::Err(
                TypeError::NotPointer,
            ),
    {
        match self {
            Type::Pointer { elem } => Ok(&**elem),
            _ => Err(TypeError::NotPointer),
        }
    }

    /// The return type of a signature type; `NotSignature` on any other
    /// type.
    pub fn get_return(&self) -> (r: Result<&Type, TypeError>)
        ensures
            self matches Type::Signature { ret, .. } ==> (r matches Result::Ok(e) && *e == ret),
            !(self matches Type::Signature { .. }) ==> r == Result::<&Type, TypeError>::Err(
                TypeError::NotSignature,
            ),
    {
        match self {
            Type::Signature { ret, .. } => Ok(&**ret),
            _ => Err(TypeError::NotSignature),
        }
    }

    /// The calling convention of a signature type; `NotSignature` on any
    /// other type.
    pub fn get_abi(&self) -> (r: Result<Abi, TypeError>)
        ensures
            self matches Type::Signature { .. } ==> r == Result::<Abi, TypeError>::Ok(
                self->Signature_abi,
            ),
            !(self matches Type::Signature { .. }) ==> r == Result::<Abi, TypeError>::Err(
                TypeError::NotSignature,
            ),
    {
        match self {
            Type::Signature { abi, .. } => Ok(*abi),
            _ => Err(TypeError::NotSignature),
        }
    }

    /// The ordered parameter types of a signature type.
    pub open spec fn spec_params(&self) -> Seq<Type> {
        match self {
            Type::Signature { params, .. } => params@,
            _ => Seq::empty(),
        }
    }

    /// How many parameters a signature type declares; `NotSignature` on any
    /// other type.
    pub fn param_count(&self) -> (r: Result<usize, TypeError>)
        ensures
            self matches Type::Signature { params, .. } ==> r == Result::<usize, TypeError>::Ok(
                params@.len() as usize,
            ),
            !(self matches Type::Signature { .. }) ==> r == Result::<usize, TypeError>::Err(
                TypeError::NotSignature,
            ),
    {
        match self {
            Type::Signature { params, .. } => Ok(params.len()),
            _ => Err(TypeError::NotSignature),
        }
    }

    /// The parameter type at `i` of a signature type; `NoSuchField` when `i`
    /// is out of range.
    pub fn param_at(&self, i: usize) -> (r: Result<&Type, TypeError>)
        ensures
            self matches Type::Signature { .. } && i < self.spec_params().len() ==> (r matches
                Result::Ok(e) && *e == self.spec_params()[i as int]),
            self matches Type::Signature { .. } && i >= self.spec_params().len() ==> r == Result::<
                &Type,
                TypeError,
            >::Err(TypeError::NoSuchField),
            !(self matches Type::Signature { .. }) ==> r == Result::<&Type, TypeError>::Err(
                TypeError::NotSignature,
            ),
    {
        match self {
            Type::Signature { params, .. } => {
                if i < params.len() {
                    Ok(&params[i])
                } else {
                    Err(TypeError::NoSuchField)
                }
            },
            _ => Err(TypeError::NotSignature),
        }
    }

    /// How many members a struct or union declares; `NotAggregate` on any
    /// other type.
    pub fn field_count(&self) -> (r: Result<usize, TypeError>)
        ensures
            self.spec_is_aggregate() ==> r == Result::<usize, TypeError>::Ok(
                self.spec_fields().len() as usize,
            ),
            !self.spec_is_aggregate() ==> r == Result::<usize, TypeError>::Err(
                TypeError::NotAggregate,
            ),
    {
        match self {
            Type::Struct { fields } => Ok(fields.len()),
            Type::Union { fields } => Ok(fields.len()),
            _ => Err(TypeError::NotAggregate),
        }
    }

    /// The member at position `i` of a struct or union; `NoSuchField` when
    /// `i` is out of range.
    pub fn get_field_at(&self, i: usize) -> (r: Result<&Field, TypeError>)
        ensures
            self.spec_is_aggregate() && i < self.spec_fields().len() ==> (r matches Result::Ok(f)
                && *f == self.spec_fields()[i as int]),
            self.spec_is_aggregate() && i >= self.spec_fields().len() ==> r == Result::<
                &Field,
                TypeError,
            >::Err(TypeError::NoSuchField),
            !self.spec_is_aggregate() ==> r == Result::<&Field, TypeError>::Err(
                TypeError::NotAggregate,
            ),
    {
        match self {
            Type::Struct { fields } => {
                if i < fields.len() {
                    Ok(&fields[i])
                } else {
                    Err(TypeError::NoSuchField)
                }
            },
            Type::Union { fields } => {
                if i < fields.len() {
                    Ok(&fields[i])
                } else {
                    Err(TypeError::NoSuchField)
                }
            },
            _ => Err(TypeError::NotAggregate),
        }
    }

    /// The first member of a struct or union carrying the debug name `name`;
    /// `NoSuchField` when no member carries it. Members without a name are
    /// only reachable by position.
    #[verifier::loop_isolation(false)]
    pub fn get_field(&self, name: &String) -> (r: Result<&Field, TypeError>)
        ensures
            !self.spec_is_aggregate() ==> r == Result::<&Field, TypeError>::Err(
                TypeError::NotAggregate,
            ),
            self.spec_is_aggregate() ==> match r {
                Result::Ok(f) => exists|k: int|
                    {
                        &&& 0 <= k < self.spec_fields().len()
                        &&& *f == self.spec_fields()[k]
                        &&& name_matches(#[trigger] self.spec_fields()[k], name@)
                        &&& forall|j: int|
                            0 <= j < k ==> !name_matches(#[trigger] self.spec_fields()[j], name@)
                    },
                Result::Err(e) => e == TypeError::NoSuchField && forall|j: int|
                    0 <= j < self.spec_fields().len() ==> !name_matches(
                        #[trigger] self.spec_fields()[j],
                        name@,
                    ),
            },
    {
        match self {
            Type::Struct { fields } => match field_lookup(fields, name) {
                Some(k) => {
                    proof {
                        assert(name_matches(self.spec_fields()[k as int], name@));
                        assert(forall|j: int|
                            0 <= j < k ==> !name_matches(#[trigger] self.spec_fields()[j], name@));
                    }
                    Ok(&fields[k])
                },
                None => {
                    proof {
                        assert(forall|j: int|
                            0 <= j < self.spec_fields().len() ==> !name_matches(
                                #[trigger] self.spec_fields()[j],
                                name@,
                            ));
                    }
                    Err(TypeError::NoSuchField)
                },
            },
            Type::Union { fields } => match field_lookup(fields, name) {
                Some(k) => {
                    proof {
                        assert(name_matches(self.spec_fields()[k as int], name@));
                        assert(forall|j: int|
                            0 <= j < k ==> !name_matches(#[trigger] self.spec_fields()[j], name@));
                    }
                    Ok(&fields[k])
                },
                None => {
                    proof {
                        assert(forall|j: int|
                            0 <= j < self.spec_fields().len() ==> !name_matches(
                                #[trigger] self.spec_fields()[j],
                                name@,
                            ));
                    }
                    Err(TypeError::NoSuchField)
                },
            },
            _ => Err(TypeError::NotAggregate),
        }
    }
}

/// The position of the first field named `name`, or `None` when no field
/// carries that name.
#[verifier::loop_isolation(false)]
pub(crate) fn field_lookup(fields: &Vec<Field>, name: &String) -> (r: Option<usize>)
    ensures
        r matches Some(k) ==> 0 <= k < fields@.len() && name_matches(fields@[k as int], name@)
            && forall|j: int| 0 <= j < k ==> !name_matches(#[trigger] fields@[j], name@),
        r is None ==> forall|j: int|
            0 <= j < fields@.len() ==> !name_matches(#[trigger] fields@[j], name@),
{
    let mut i: usize = 0;
    while i < fields.len()
        invariant
            0 <= i <= fields@.len(),
            forall|j: int| 0 <= j < i ==> !name_matches(#[trigger] fields@[j], name@),
        decreases fields@.len() - i,
    {
        let hit = match &fields[i].name {
            Some(n) => n.eq(name),
            None => false,
        };
        if hit {
            return Some(i);
        }
        i = i + 1;
    }
    None
}

impl Type {
    /// The position of the first member of a struct or union carrying the
    /// debug name `name`: what positional operations, such as indexing
    /// sugar, take. `NoSuchField` when no member carries the name.
    pub fn get_field_index(&self, name: &String) -> (r: Result<usize, TypeError>)
        ensures
            !self.spec_is_aggregate() ==> r == Result::<usize, TypeError>::Err(
                TypeError::NotAggregate,
            ),
            self.spec_is_aggregate() ==> match r {
                Result::Ok(k) => {
                    &&& 0 <= k < self.spec_fields().len()
                    &&& name_matches(self.spec_fields()[k as int], name@)
                    &&& forall|j: int|
                        0 <= j < k ==> !name_matches(#[trigger] self.spec_fields()[j], name@)
                },
                Result::Err(e) => e == TypeError::NoSuchField && forall|j: int|
                    0 <= j < self.spec_fields().len() ==> !name_matches(
                        #[trigger] self.spec_fields()[j],
                        name@,
                    ),
            },
    {
        match self {
            Type::Struct { fields } => match field_lookup(fields, name) {
                Some(k) => {
                    proof {
                        assert(name_matches(self.spec_fields()[k as int], name@));
                        assert(forall|j: int|
                            0 <= j < k ==> !name_matches(#[trigger] self.spec_fields()[j], name@));
                    }
                    Ok(k)
                },
                None => {
                    proof {
                        assert(forall|j: int|
                            0 <= j < self.spec_fields().len() ==> !name_matches(
                                #[trigger] self.spec_fields()[j],
                                name@,
                            ));
                    }
                    Err(TypeError::NoSuchField)
                },
            },
            Type::Union { fields } => match field_lookup(fields, name) {
                Some(k) => {
                    proof {
                        assert(name_matches(self.spec_fields()[k as int], name@));
                        assert(forall|j: int|
                            0 <= j < k ==> !name_matches(#[trigger] self.spec_fields()[j], name@));
                    }
                    Ok(k)
                },
                None => {
                    proof {
                        assert(forall|j: int|
                            0 <= j < self.spec_fields().len() ==> !name_matches(
                                #[trigger] self.spec_fields()[j],
                                name@,
                            ));
                    }
                    Err(TypeError::NoSuchField)
                },
            },
            _ => Err(TypeError::NotAggregate),
        }
    }
}

/// Every primitive kind has one canonical type: its kind tag is the kind it
/// was asked for, and any two types made from the same kind are structurally
/// equal, so repeated requests are interchangeable.
pub proof fn lemma_primitive_canonical(k: TypeKind)
    requires
        k.spec_is_primitive(),
    ensures
        (Type::Prim { kind: k }).spec_kind() == k,
        ty_eq(&Type::Prim { kind: k }, &Type::Prim { kind: k }),
{
}

/// Two struct types whose members run in the same order with structurally
/// equal types at equal offsets are structurally equal, whatever their
/// member names and wherever each was constructed.
pub proof fn lemma_struct_equality_ignores_names(a: &Type, b: &Type)
    requires
        a matches Type::Struct { .. },
        b matches Type::Struct { .. },
        a.spec_fields().len() == b.spec_fields().len(),
        forall|i: int|
            0 <= i < a.spec_fields().len() ==> (#[trigger] a.spec_fields()[i]).offset
                == b.spec_fields()[i].offset && ty_eq(&a.spec_fields()[i].ty, &b.spec_fields()[i].ty),
    ensures
        ty_eq(a, b),
{
    assert forall|i: int| 0 <= i < a.spec_fields().len() implies field_eq(
        #[trigger] a.spec_fields()[i],
        b.spec_fields()[i],
    ) by {}
    assert(fields_eq(a.spec_fields(), b.spec_fields()));
}

/// Structural equality is reflexive: every type equals itself, so a type
/// retrieved twice compares equal.
pub proof fn lemma_ty_eq_refl(t: &Type)
    ensures
        ty_eq(t, t),
    decreases t,
{
    match t {
        Type::Prim { .. } => {},
        Type::Pointer { elem } => {
            lemma_ty_eq_refl(elem);
            assert(ty_eq(t, t));
        },
        Type::Struct { fields } => {
            assert forall|i: int| 0 <= i < fields@.len() implies field_eq(
                #[trigger] fields@[i],
                fields@[i],
            ) by {
                lemma_ty_eq_refl(&fields@[i].ty);
            }
            assert(fields_eq(fields@, fields@));
            assert(ty_eq(t, t));
        },
        Type::Union { fields } => {
            assert forall|i: int| 0 <= i < fields@.len() implies field_eq(
                #[trigger] fields@[i],
                fields@[i],
            ) by {
                lemma_ty_eq_refl(&fields@[i].ty);
            }
            assert(fields_eq(fields@, fields@));
        },
        Type::Signature { ret, params, .. } => {
            lemma_ty_eq_refl(ret);
            assert forall|i: int| 0 <= i < params@.len() implies param_eq(
                #[trigger] params@[i],
                params@[i],
            ) by {
                lemma_ty_eq_refl(&params@[i]);
            }
            assert(ty_eq(ret, ret));
            assert(params_eq(params@, params@));
            assert(ty_eq(t, t));
        },
    }
}

/// Structurally equal field rows are structurally equal at every
/// position.
pub proof fn lemma_fields_eq_at(fa: Seq<Field>, fb: Seq<Field>, i: int)
    requires
        fields_eq(fa, fb),
        0 <= i < fa.len(),
    ensures
        field_eq(fa[i], fb[i]),
{
    assert(field_eq(fa[i], fb[i]));
}

/// Structurally equal signatures are structurally equal at every
/// parameter position.
pub proof fn lemma_params_eq_at(pa: Seq<Type>, pb: Seq<Type>, i: int)
    requires
        params_eq(pa, pb),
        0 <= i < pa.len(),
    ensures
        ty_eq(&pa[i], &pb[i]),
{
    assert(param_eq(pa[i], pb[i]));
}

/// Structural equality is symmetric: comparing in either order decides the
/// same.
pub proof fn lemma_ty_eq_sym(a: &Type, b: &Type)
    requires
        ty_eq(a, b),
    ensures
        ty_eq(b, a),
    decreases a,
{
    match a {
        Type::Prim { .. } => {
            assert(b matches Type::Prim { .. });
            assert(ty_eq(b, a));
        },
        Type::Pointer { elem: ea } => {
            let eb = b->Pointer_elem;
            assert(b matches Type::Pointer { .. });
            lemma_ty_eq_sym(ea, &eb);
            assert(ty_eq(b, a));
        },
        Type::Struct { fields: fa } => {
            let fbs = b.spec_fields();
            assert(b matches Type::Struct { .. });
            assert(fields_eq(fa@, fbs));
            assert forall|i: int| 0 <= i < fbs.len() implies field_eq(
                #[trigger] fbs[i],
                fa@[i],
            ) by {
                lemma_fields_eq_at(fa@, fbs, i);
                lemma_ty_eq_sym(&fa@[i].ty, &fbs[i].ty);
            }
            assert(fields_eq(fbs, fa@));
        },
        Type::Union { fields: fa } => {
            let fbs = b.spec_fields();
            assert(b matches Type::Union { .. });
            assert(fields_eq(fa@, fbs));
            assert forall|i: int| 0 <= i < fbs.len() implies field_eq(
                #[trigger] fbs[i],
                fa@[i],
            ) by {
                lemma_fields_eq_at(fa@, fbs, i);
                lemma_ty_eq_sym(&fa@[i].ty, &fbs[i].ty);
            }
            assert(fields_eq(fbs, fa@));
            assert(ty_eq(b, a));
        },
        Type::Signature { abi: aa, ret: ra, params: pa } => {
            let rb = b->Signature_ret;
            let pbs = b.spec_params();
            assert(b matches Type::Signature { .. });
            assert(params_eq(pa@, pbs));
            lemma_ty_eq_sym(ra, &rb);
            assert forall|i: int| 0 <= i < pbs.len() implies param_eq(
                #[trigger] pbs[i],
                pa@[i],
            ) by {
                lemma_params_eq_at(pa@, pbs, i);
                lemma_ty_eq_sym(&pa@[i], &pbs[i]);
            }
            assert(params_eq(pbs, pa@));
        },
    }
}

/// Structural equality is transitive: types equal to one type are equal to
/// each other.
pub proof fn lemma_ty_eq_trans(a: &Type, b: &Type, c: &Type)
    requires
        ty_eq(a, b),
        ty_eq(b, c),
    ensures
        ty_eq(a, c),
    decreases a,
{
    match a {
        Type::Prim { .. } => {
            assert(b matches Type::Prim { .. } && c matches Type::Prim { .. });
        },
        Type::Pointer { elem: ea } => {
            let eb = b->Pointer_elem;
            let ec = c->Pointer_elem;
            assert(b matches Type::Pointer { .. } && c matches Type::Pointer { .. });
            lemma_ty_eq_trans(ea, &eb, &ec);
        },
        Type::Struct { fields: fa } => {
            let fbs = b.spec_fields();
            let fcs = c.spec_fields();
            assert(b matches Type::Struct { .. } && c matches Type::Struct { .. });
            assert(fields_eq(fa@, fbs) && fields_eq(fbs, fcs));
            assert forall|i: int| 0 <= i < fa@.len() implies field_eq(
                #[trigger] fa@[i],
                fcs[i],
            ) by {
                lemma_fields_eq_at(fa@, fbs, i);
                lemma_fields_eq_at(fbs, fcs, i);
                lemma_ty_eq_trans(&fa@[i].ty, &fbs[i].ty, &fcs[i].ty);
            }
            assert(fields_eq(fa@, fcs));
        },
        Type::Union { fields: fa } => {
            let fbs = b.spec_fields();
            let fcs = c.spec_fields();
            assert(b matches Type::Union { .. } && c matches Type::Union { .. });
            assert(fields_eq(fa@, fbs) && fields_eq(fbs, fcs));
            assert forall|i: int| 0 <= i < fa@.len() implies field_eq(
                #[trigger] fa@[i],
                fcs[i],
            ) by {
                lemma_fields_eq_at(fa@, fbs, i);
                lemma_fields_eq_at(fbs, fcs, i);
                lemma_ty_eq_trans(&fa@[i].ty, &fbs[i].ty, &fcs[i].ty);
            }
            assert(fields_eq(fa@, fcs));
        },
        Type::Signature { abi: aa, ret: ra, params: pa } => {
            let rb = b->Signature_ret;
            let rc = c->Signature_ret;
            let pbs = b.spec_params();
            let pcs = c.spec_params();
            assert(b matches Type::Signature { .. } && c matches Type::Signature { .. });
            assert(params_eq(pa@, pbs) && params_eq(pbs, pcs));
            lemma_ty_eq_trans(ra, &rb, &rc);
            assert forall|i: int| 0 <= i < pa@.len() implies param_eq(
                #[trigger] pa@[i],
                pcs[i],
            ) by {
                lemma_params_eq_at(pa@, pbs, i);
                lemma_params_eq_at(pbs, pcs, i);
                lemma_ty_eq_trans(&pa@[i], &pbs[i], &pcs[i]);
            }
            assert(params_eq(pa@, pcs));
        },
    }
}

/// Structurally equal types have one byte size: layout depends on
/// structure alone.
pub proof fn lemma_ty_eq_size(a: &Type, b: &Type)
    requires
        ty_eq(a, b),
    ensures
        spec_size(a) == spec_size(b),
    decreases a,
{
    match (a, b) {
        (Type::Struct { fields: fa }, Type::Struct { fields: fb }) => {
            lemma_fields_eq_sum(fa@, fb@);
        },
        (Type::Union { fields: fa }, Type::Union { fields: fb }) => {
            lemma_fields_eq_max(fa@, fb@);
        },
        _ => {},
    }
}

/// Structurally equal field rows sum to one struct size.
pub proof fn lemma_fields_eq_sum(fa: Seq<Field>, fb: Seq<Field>)
    requires
        fields_eq(fa, fb),
    ensures
        sum_fields(fa) == sum_fields(fb),
    decreases fa,
{
    if fa.len() > 0 {
        let n = fa.len() as int;
        assert(field_eq(fa[n - 1], fb[n - 1]));
        lemma_ty_eq_size(&fa[n - 1].ty, &fb[n - 1].ty);
        assert forall|i: int| 0 <= i < n - 1 implies field_eq(
            #[trigger] fa.subrange(0, n - 1)[i],
            fb.subrange(0, n - 1)[i],
        ) by {
            assert(field_eq(fa[i], fb[i]));
        }
        assert(fields_eq(fa.subrange(0, n - 1), fb.subrange(0, n - 1)));
        lemma_fields_eq_sum(fa.subrange(0, n - 1), fb.subrange(0, n - 1));
    }
}

/// Structurally equal field rows have one union size.
pub proof fn lemma_fields_eq_max(fa: Seq<Field>, fb: Seq<Field>)
    requires
        fields_eq(fa, fb),
    ensures
        max_fields(fa) == max_fields(fb),
    decreases fa,
{
    if fa.len() > 0 {
        let n = fa.len() as int;
        assert(field_eq(fa[n - 1], fb[n - 1]));
        lemma_ty_eq_size(&fa[n - 1].ty, &fb[n - 1].ty);
        assert forall|i: int| 0 <= i < n - 1 implies field_eq(
            #[trigger] fa.subrange(0, n - 1)[i],
            fb.subrange(0, n - 1)[i],
        ) by {
            assert(field_eq(fa[i], fb[i]));
        }
        assert(fields_eq(fa.subrange(0, n - 1), fb.subrange(0, n - 1)));
        lemma_fields_eq_max(fa.subrange(0, n - 1), fb.subrange(0, n - 1));
    }
}

/// Structurally equal member rows produce one packed offset at every
/// prefix.
pub proof fn lemma_sum_types_congruent(ts1: Seq<Type>, ts2: Seq<Type>, i: int)
    requires
        ts1.len() == ts2.len(),
        forall|j: int| 0 <= j < ts1.len() ==> #[trigger] ty_eq(&ts1[j], &ts2[j]),
        0 <= i <= ts1.len(),
    ensures
        sum_types(ts1.subrange(0, i)) == sum_types(ts2.subrange(0, i)),
    decreases i,
{
    if i > 0 {
        lemma_sum_types_congruent(ts1, ts2, i - 1);
        assert(ts1.subrange(0, i).subrange(0, i - 1) =~= ts1.subrange(0, i - 1));
        assert(ts2.subrange(0, i).subrange(0, i - 1) =~= ts2.subrange(0, i - 1));
        assert(ty_eq(&ts1[i - 1], &ts2[i - 1]));
        lemma_ty_eq_size(&ts1[i - 1], &ts2[i - 1]);
    }
}

/// The packed struct constructor is canonical: two constructions over
/// structurally equal member rows compare structurally equal, whenever and
/// wherever each was made — equality is deterministic across creation
/// order.
pub proof fn lemma_new_struct_canonical(tys1: Seq<Type>, tys2: Seq<Type>, t1: &Type, t2: &Type)
    requires
        tys1.len() == tys2.len(),
        forall|j: int| 0 <= j < tys1.len() ==> #[trigger] ty_eq(&tys1[j], &tys2[j]),
        packed_struct_of(tys1, t1),
        packed_struct_of(tys2, t2),
    ensures
        ty_eq(t1, t2),
{
    assert forall|i: int| 0 <= i < t1.spec_fields().len() implies field_eq(
        #[trigger] t1.spec_fields()[i],
        t2.spec_fields()[i],
    ) by {
        assert(ty_eq(&tys1[i], &tys2[i]));
        lemma_sum_types_congruent(tys1, tys2, i);
    }
    assert(fields_eq(t1.spec_fields(), t2.spec_fields()));
}

impl Type {
    /// A fresh type structurally equal to this one, field names and all:
    /// what indexing sugar uses to give a loaded field's value its own
    /// type.
    #[verifier::loop_isolation(false)]
    pub fn duplicate(&self) -> (r: Type)
        ensures
            ty_eq(&r, self),
            r.spec_kind() == self.spec_kind(),
        decreases self,
    {
        match self {
            Type::Prim { kind } => Type::Prim { kind: *kind },
            Type::Pointer { elem } => {
                let e = (&**elem).duplicate();
                proof {
                    lemma_ty_eq_sym(&e, elem);
                    lemma_ty_eq_sym(elem, &e);
                }
                Type::Pointer { elem: Box::new(e) }
            },
            Type::Struct { fields } => Type::Struct { fields: duplicate_fields(fields) },
            Type::Union { fields } => Type::Union { fields: duplicate_fields(fields) },
            Type::Signature { abi, ret, params } => {
                let r2 = (&**ret).duplicate();
                let mut ps: Vec<Type> = Vec::new();
                let mut i: usize = 0;
                while i < params.len()
                    invariant
                        0 <= i <= params@.len(),
                        ps@.len() == i,
                        forall|j: int| 0 <= j < i ==> param_eq(#[trigger] ps@[j], params@[j]),
                    decreases params@.len() - i,
                {
                    let p = params[i].duplicate();
                    proof {
                        assert(param_eq(p, params@[i as int]));
                    }
                    ps.push(p);
                    i = i + 1;
                }
                proof {
                    assert(params_eq(ps@, params@));
                }
                Type::Signature { abi: *abi, ret: Box::new(r2), params: ps }
            },
        }
    }
}

#[verifier::loop_isolation(false)]
fn duplicate_fields(fields: &Vec<Field>) -> (r: Vec<Field>)
    ensures
        fields_eq(r@, fields@),
    decreases fields,
{
    let mut out: Vec<Field> = Vec::new();
    let mut i: usize = 0;
    while i < fields.len()
        invariant
            0 <= i <= fields@.len(),
            out@.len() == i,
            forall|j: int| 0 <= j < i ==> field_eq(#[trigger] out@[j], fields@[j]),
        decreases fields@.len() - i,
    {
        let name = match &fields[i].name {
            Some(n) => Some(n.clone()),
            None => None,
        };
        let ty = fields[i].ty.duplicate();
        let f = Field { name, ty, offset: fields[i].offset };
        proof {
            assert(field_eq(f, fields@[i as int]));
        }
        out.push(f);
        i = i + 1;
    }
    out
}

} // verus!
