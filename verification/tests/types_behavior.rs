//! The type system from outside: canonical primitives, structural
//! equality, layout and field lookup.

use jit::types::get;
use jit::types::type_eq;
use jit::types::Abi;
use jit::types::Type;
use jit::types::TypeError;
use jit::types::TypeKind;

fn int_ty() -> Type {
    get(TypeKind::Int).unwrap()
}

fn long_ty() -> Type {
    get(TypeKind::Long).unwrap()
}

#[test]
fn test_primitive_canonical() {
    let kinds = [
        TypeKind::Void,
        TypeKind::Bool,
        TypeKind::SByte,
        TypeKind::UByte,
        TypeKind::Short,
        TypeKind::UShort,
        TypeKind::Int,
        TypeKind::UInt,
        TypeKind::Long,
        TypeKind::ULong,
        TypeKind::NInt,
        TypeKind::NUInt,
        TypeKind::Float32,
        TypeKind::Float64,
    ];
    for k in kinds {
        let a = get(k).unwrap();
        let b = get(k).unwrap();
        assert_eq!(a.kind(), k);
        assert_eq!(b.kind(), k);
        assert!(type_eq(&a, &b));
    }
    assert!(!type_eq(&get(TypeKind::Int).unwrap(), &get(TypeKind::UInt).unwrap()));
    assert!(matches!(get(TypeKind::Struct), Err(TypeError::NotPrimitive)));
    assert!(matches!(get(TypeKind::Pointer), Err(TypeError::NotPrimitive)));
}

#[test]
fn test_struct_equality_ignores_names() {
    let a = Type::new_struct(vec![int_ty(), long_ty()]).unwrap();
    let b = Type::new_struct(vec![int_ty(), long_ty()]).unwrap();
    let named = b
        .with_names(vec!["x".to_string(), "y".to_string()])
        .unwrap();
    assert!(type_eq(&a, &named));
    assert!(type_eq(&named, &named));
    let c = Type::new_struct(vec![long_ty(), int_ty()]).unwrap();
    assert!(!type_eq(&a, &c));
    let u = Type::new_union(vec![int_ty(), long_ty()]).unwrap();
    assert!(!type_eq(&a, &u));
}

#[test]
fn test_struct_layout() {
    // Packed offsets: Int at 0 (4 bytes), Long right after at 4.
    let s = Type::new_struct(vec![int_ty(), long_ty()]).unwrap();
    assert_eq!(s.size_of().unwrap(), 12);
    assert_eq!(s.field_count().unwrap(), 2);
    assert_eq!(s.get_field_at(0).unwrap().offset, 0);
    assert_eq!(s.get_field_at(1).unwrap().offset, 4);
    assert!(matches!(s.get_field_at(2), Err(TypeError::NoSuchField)));
    let u = Type::new_union(vec![int_ty(), long_ty()]).unwrap();
    assert_eq!(u.size_of().unwrap(), 8);
    assert_eq!(u.get_field_at(1).unwrap().offset, 0);
}

#[test]
fn test_field_lookup_by_name() {
    let s = Type::new_struct(vec![int_ty(), long_ty()])
        .unwrap()
        .with_names(vec!["x".to_string(), "y".to_string()])
        .unwrap();
    let y = s.get_field(&"y".to_string()).unwrap();
    assert_eq!(y.offset, 4);
    assert_eq!(y.ty.kind(), TypeKind::Long);
    assert!(matches!(
        s.get_field(&"z".to_string()),
        Err(TypeError::NoSuchField)
    ));
    assert!(matches!(
        int_ty().get_field(&"x".to_string()),
        Err(TypeError::NotAggregate)
    ));
    assert!(matches!(
        int_ty().with_names(vec!["x".to_string()]),
        Err(TypeError::NotAggregate)
    ));
    assert!(matches!(
        Type::new_struct(vec![int_ty()])
            .unwrap()
            .with_names(vec!["a".to_string(), "b".to_string()]),
        Err(TypeError::WrongArity)
    ));
}

#[test]
fn test_field_index_by_name() {
    let s = Type::new_struct(vec![int_ty(), long_ty()])
        .unwrap()
        .with_names(vec!["x".to_string(), "y".to_string()])
        .unwrap();
    assert_eq!(s.get_field_index(&"x".to_string()).unwrap(), 0);
    assert_eq!(s.get_field_index(&"y".to_string()).unwrap(), 1);
    assert!(matches!(
        s.get_field_index(&"z".to_string()),
        Err(TypeError::NoSuchField)
    ));
    assert!(matches!(
        int_ty().get_field_index(&"x".to_string()),
        Err(TypeError::NotAggregate)
    ));
}

#[test]
fn test_pointer_and_signature() {
    let p = Type::new_pointer(int_ty());
    assert_eq!(p.kind(), TypeKind::Pointer);
    assert_eq!(p.get_ref().unwrap().kind(), TypeKind::Int);
    assert!(matches!(int_ty().get_ref(), Err(TypeError::NotPointer)));
    assert_eq!(p.size_of().unwrap(), 8);

    let sig = Type::new_signature(Abi::CDecl, long_ty(), vec![int_ty(), int_ty()]);
    assert_eq!(sig.kind(), TypeKind::Signature);
    assert_eq!(sig.get_return().unwrap().kind(), TypeKind::Long);
    assert_eq!(sig.get_abi().unwrap(), Abi::CDecl);
    assert_eq!(sig.param_count().unwrap(), 2);
    assert_eq!(sig.param_at(1).unwrap().kind(), TypeKind::Int);
    assert!(matches!(sig.param_at(2), Err(TypeError::NoSuchField)));
    assert!(matches!(int_ty().get_return(), Err(TypeError::NotSignature)));
}
