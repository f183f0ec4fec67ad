//! Whole functions built, compiled and run: loops, branches, calls,
//! memory through pointer arguments, and host callbacks.

use jit::builder::BuildError;
use jit::context::Context;
use jit::context::HostArg;
use jit::ir::BinOp;
use jit::ir::CallFlags;
use jit::ir::UnOp;
use jit::machine::CompileError;
use jit::machine::RunError;
use jit::types::get;
use jit::types::Abi;
use jit::types::Type;
use jit::types::TypeKind;

const FUEL: u64 = 1_000_000;

fn prim(k: TypeKind) -> Type {
    get(k).unwrap()
}

fn sig(ret: TypeKind, params: &[TypeKind]) -> Type {
    let ps = params.iter().map(|k| prim(*k)).collect::<Vec<_>>();
    Type::new_signature(Abi::CDecl, prim(ret), ps)
}

fn words(vals: &[u64]) -> Vec<HostArg> {
    vals.iter().map(|v| HostArg::Word(*v)).collect()
}

#[test]
pub fn test_fib() {
    // An iterative Fibonacci over a do-while loop: the body runs before the
    // condition is first checked, exactly as the function needs for n > 2.
    let mut ctx = Context::<()>::new();
    let mut func = ctx
        .new_function(sig(TypeKind::ULong, &[TypeKind::ULong]))
        .unwrap();
    let n = func.param(0).unwrap();
    let two = func.make_const(prim(TypeKind::ULong), 2);
    let one = func.make_const(prim(TypeKind::ULong), 1);
    let ty = prim(TypeKind::ULong);
    let a = func.create_value(ty);
    let b = func.create_value(prim(TypeKind::ULong));
    let c = func.create_value(prim(TypeKind::ULong));
    func.insn_store(a, one).unwrap();
    func.insn_store(b, one).unwrap();
    // return 1 if n <= 2
    let le = func.insn_binary(BinOp::CmpLe, n, two).unwrap();
    let f = func.begin_if(le).unwrap();
    func.insn_return(one).unwrap();
    func.end_if(f).unwrap();
    // loop n times and keep adding the last two numbers
    let d = func.begin_do_while();
    let s = func.insn_binary(BinOp::Add, a, b).unwrap();
    func.insn_store(c, s).unwrap();
    func.insn_store(b, a).unwrap();
    func.insn_store(a, c).unwrap();
    let nm = func.insn_binary(BinOp::Sub, n, one).unwrap();
    func.insn_store(n, nm).unwrap();
    let again = func.insn_binary(BinOp::CmpGt, n, two).unwrap();
    func.end_do_while(d, again).unwrap();
    func.insn_return(c).unwrap();
    func.set_optimization_level(3);
    let fid = ctx.compile(func).unwrap();
    let fib = |x: u64| ctx.invoke(fid, &words(&[x]), FUEL).unwrap();
    assert_eq!(fib(1), 1);
    assert_eq!(fib(2), 1);
    assert_eq!(fib(3), 2);
    assert_eq!(fib(4), 3);
    assert_eq!(fib(5), 5);
    assert_eq!(fib(6), 8);
    assert_eq!(fib(7), 13);
    assert_eq!(fib(8), 21);
}

#[test]
fn test_gcd() {
    // Subtraction-form gcd through two self-calls under tail/no-unwind
    // flags, resolved when the machine runs.
    let mut ctx = Context::<()>::new();
    let mut func = ctx
        .new_function(sig(TypeKind::NUInt, &[TypeKind::NUInt, TypeKind::NUInt]))
        .unwrap();
    let me = func.id;
    let x = func.param(0).unwrap();
    let y = func.param(1).unwrap();
    let flags = CallFlags {
        tail: true,
        no_throw: true,
    };
    let eq = func.insn_binary(BinOp::CmpEq, x, y).unwrap();
    let f1 = func.begin_if(eq).unwrap();
    func.insn_return(x).unwrap();
    func.end_if(f1).unwrap();
    let lt = func.insn_binary(BinOp::CmpLt, x, y).unwrap();
    let f2 = func.begin_if(lt).unwrap();
    let ymx = func.insn_binary(BinOp::Sub, y, x).unwrap();
    let v = func
        .insn_call(me, vec![x, ymx], prim(TypeKind::NUInt), flags)
        .unwrap()
        .unwrap();
    func.insn_return(v).unwrap();
    func.end_if(f2).unwrap();
    let xmy = func.insn_binary(BinOp::Sub, x, y).unwrap();
    let v2 = func
        .insn_call(me, vec![xmy, y], prim(TypeKind::NUInt), flags)
        .unwrap()
        .unwrap();
    func.insn_return(v2).unwrap();
    let fid = ctx.compile(func).unwrap();
    assert_eq!(ctx.invoke(fid, &words(&[90, 50]), FUEL).unwrap(), 10);
    assert_eq!(ctx.invoke(fid, &words(&[48, 18]), FUEL).unwrap(), 6);
}

#[test]
fn test_store_load_round_trip() {
    // A value stored into a local and loaded right back comes out unchanged,
    // for every primitive width, signed and unsigned.
    let cases: &[(TypeKind, u64, u64)] = &[
        (TypeKind::UByte, 0xAB, 0xAB),
        (TypeKind::SByte, (-5i8) as u8 as u64, (-5i8) as u8 as u64),
        (TypeKind::UShort, 0xBEEF, 0xBEEF),
        (TypeKind::Short, (-2i16) as u16 as u64, (-2i16) as u16 as u64),
        (TypeKind::UInt, 0xDEAD_BEEF, 0xDEAD_BEEF),
        (TypeKind::Int, (-7i32) as u32 as u64, (-7i32) as u32 as u64),
        (TypeKind::ULong, 0x0123_4567_89AB_CDEF, 0x0123_4567_89AB_CDEF),
        (TypeKind::Long, (-9i64) as u64, (-9i64) as u64),
        (TypeKind::Bool, 1, 1),
    ];
    for (k, input, expect) in cases {
        let mut ctx = Context::<()>::new();
        let mut func = ctx.new_function(sig(*k, &[*k])).unwrap();
        let p = func.param(0).unwrap();
        let local = func.create_value(prim(*k));
        func.insn_store(local, p).unwrap();
        let back = func.insn_load(local).unwrap();
        func.insn_return(back).unwrap();
        let fid = ctx.compile(func).unwrap();
        assert_eq!(ctx.invoke(fid, &words(&[*input]), FUEL).unwrap(), *expect);
    }
}

#[test]
fn test_forward_branch_if_else() {
    // Both labels of the conditional are branched to before they are
    // placed; the compiled function takes each arm on the right input.
    let mut ctx = Context::<()>::new();
    let mut func = ctx
        .new_function(sig(TypeKind::Int, &[TypeKind::Int]))
        .unwrap();
    let x = func.param(0).unwrap();
    let three = func.make_const(prim(TypeKind::Int), 3);
    let c1 = func.make_const(prim(TypeKind::Int), 1);
    let c2 = func.make_const(prim(TypeKind::Int), 2);
    let eq = func.insn_binary(BinOp::CmpEq, x, three).unwrap();
    let f = func.begin_if_else(eq).unwrap();
    func.insn_return(c1).unwrap();
    func.begin_else(f).unwrap();
    func.insn_return(c2).unwrap();
    func.end_if_else(f).unwrap();
    func.insn_default_return();
    let fid = ctx.compile(func).unwrap();
    assert_eq!(ctx.invoke(fid, &words(&[3]), FUEL).unwrap(), 1);
    assert_eq!(ctx.invoke(fid, &words(&[4]), FUEL).unwrap(), 2);
}

#[test]
fn test_while_checks_condition_first() {
    // The loop leaves a sentinel untouched when its guard starts false: the
    // guard runs before the body ever does.
    let mut ctx = Context::<()>::new();
    let mut func = ctx
        .new_function(sig(TypeKind::UInt, &[TypeKind::UInt]))
        .unwrap();
    let n = func.param(0).unwrap();
    let hundred = func.make_const(prim(TypeKind::UInt), 100);
    let sentinel = func.create_value(prim(TypeKind::UInt));
    let seven = func.make_const(prim(TypeKind::UInt), 7);
    let big = func.make_const(prim(TypeKind::UInt), 999);
    let zero = func.make_const(prim(TypeKind::UInt), 0);
    func.insn_store(sentinel, seven).unwrap();
    let w = func.begin_while();
    let gt = func.insn_binary(BinOp::CmpGt, n, hundred).unwrap();
    func.while_cond(&w, gt).unwrap();
    func.insn_store(sentinel, big).unwrap();
    func.insn_store(n, zero).unwrap();
    func.end_while(w).unwrap();
    let back = func.insn_load(sentinel).unwrap();
    func.insn_return(back).unwrap();
    let fid = ctx.compile(func).unwrap();
    // Guard false at once: the body never ran.
    assert_eq!(ctx.invoke(fid, &words(&[5]), FUEL).unwrap(), 7);
    // Guard true once: the body ran and then the guard stopped the loop.
    assert_eq!(ctx.invoke(fid, &words(&[200]), FUEL).unwrap(), 999);
}

#[test]
fn test_tuple() {
    // A pointer parameter to a pair of ints, read by field offset.
    let mut ctx = Context::<()>::new();
    let ptr_ty = Type::new_pointer(
        Type::new_struct(vec![prim(TypeKind::Int), prim(TypeKind::Int)]).unwrap(),
    );
    let f_sig = Type::new_signature(Abi::CDecl, prim(TypeKind::Int), vec![ptr_ty]);
    let mut func = ctx.new_function(f_sig).unwrap();
    let thing = func.param(0).unwrap();
    // Indexing sugar: a load of each member at its declared offset.
    let x = func.insn_load_field(thing, 0).unwrap();
    let y = func.insn_load_field(thing, 1).unwrap();
    let prod = func.insn_binary(BinOp::Mul, x, y).unwrap();
    func.insn_return(prod).unwrap();
    let fid = ctx.compile(func).unwrap();

    let pair = |a: i32, b: i32| {
        let mut bytes = a.to_le_bytes().to_vec();
        bytes.extend_from_slice(&b.to_le_bytes());
        vec![HostArg::Buf(bytes)]
    };
    let r1 = ctx.invoke(fid, &pair(2, 5), FUEL).unwrap();
    assert_eq!(r1 as u32 as i32, 10);
    let r2 = ctx.invoke(fid, &pair(1, -32), FUEL).unwrap();
    assert_eq!(r2 as u32 as i32, -32);
}

#[test]
fn test_struct_field_mutation() {
    // A two-field floating-point struct behind a pointer: each field is
    // multiplied in place by a scalar, the product computed by a host
    // callback on the raw bit patterns. Nothing else in the buffer moves.
    let mut ctx = Context::<()>::new();
    let cb_mul = ctx.register_callback().unwrap();
    let pos_ty = Type::new_pointer(
        Type::new_struct(vec![prim(TypeKind::Float64), prim(TypeKind::Float64)]).unwrap(),
    );
    let f_sig = Type::new_signature(
        Abi::CDecl,
        prim(TypeKind::Void),
        vec![pos_ty, prim(TypeKind::ULong)],
    );
    let mut func = ctx.new_function(f_sig).unwrap();
    let pos = func.param(0).unwrap();
    let mult = func.param(1).unwrap();
    for offset in [0usize, 8usize] {
        let field = func
            .insn_load_relative(pos, offset, prim(TypeKind::ULong))
            .unwrap();
        let scaled = func
            .insn_call_native(cb_mul, vec![field, mult], prim(TypeKind::ULong))
            .unwrap()
            .unwrap();
        func.insn_store_relative(pos, offset, scaled).unwrap();
    }
    func.insn_default_return();
    let fid = ctx.compile(func).unwrap();

    let mut bytes = 1.0f64.to_le_bytes().to_vec();
    bytes.extend_from_slice(&2.0f64.to_le_bytes());
    let args = vec![HostArg::Buf(bytes), HostArg::Word(2.0f64.to_bits())];
    let mut m = ctx.start(fid, &args).unwrap();
    loop {
        ctx.run(&mut m, FUEL);
        match m.awaiting_callback() {
            Some(cb) => {
                assert_eq!(cb, cb_mul);
                let a = f64::from_bits(m.awaiting_arg(0).unwrap());
                let b = f64::from_bits(m.awaiting_arg(1).unwrap());
                ctx.resume(&mut m, (a * b).to_bits());
            }
            None => break,
        }
    }
    assert!(m.finished().is_some());
    let out = m.read_buffer(0).unwrap();
    let x = f64::from_le_bytes(out[0..8].try_into().unwrap());
    let y = f64::from_le_bytes(out[8..16].try_into().unwrap());
    assert_eq!(x, 2.0);
    assert_eq!(y, 4.0);
}

#[test]
fn test_closure() {
    // A compiled function calls back into the host once per invocation; the
    // host adds the argument to a counter it owns.
    let mut ctx = Context::<()>::new();
    let add_num = ctx.register_callback().unwrap();
    let mut func = ctx
        .new_function(sig(TypeKind::Void, &[TypeKind::UInt]))
        .unwrap();
    let n = func.param(0).unwrap();
    func.insn_call_native(add_num, vec![n], prim(TypeKind::Void))
        .unwrap();
    func.insn_default_return();
    let fid = ctx.compile(func).unwrap();

    let mut num: u32 = 1;
    assert_eq!(num, 1);
    let mut m = ctx.start(fid, &words(&[1])).unwrap();
    let mut calls = 0;
    loop {
        ctx.run(&mut m, FUEL);
        match m.awaiting_callback() {
            Some(cb) => {
                assert_eq!(cb, add_num);
                num += m.awaiting_arg(0).unwrap() as u32;
                calls += 1;
                ctx.resume(&mut m, 0);
            }
            None => break,
        }
    }
    assert!(m.finished().is_some());
    assert_eq!(num, 2);
    assert_eq!(calls, 1);
}

#[test]
fn test_closure_cell() {
    // The host callback replaces its state with the argument.
    let mut ctx = Context::<()>::new();
    let set_num = ctx.register_callback().unwrap();
    let mut func = ctx
        .new_function(sig(TypeKind::Void, &[TypeKind::UInt]))
        .unwrap();
    let n = func.param(0).unwrap();
    func.insn_call_native(set_num, vec![n], prim(TypeKind::Void))
        .unwrap();
    func.insn_default_return();
    let fid = ctx.compile(func).unwrap();

    let mut num: u32 = 1;
    assert_eq!(num, 1);
    let mut m = ctx.start(fid, &words(&[2])).unwrap();
    loop {
        ctx.run(&mut m, FUEL);
        match m.awaiting_callback() {
            Some(cb) => {
                assert_eq!(cb, set_num);
                num = m.awaiting_arg(0).unwrap() as u32;
                ctx.resume(&mut m, 0);
            }
            None => break,
        }
    }
    assert_eq!(num, 2);
}

#[test]
fn test_context_tags() {
    let mut ctx = Context::<isize>::new();
    ctx.set_tag(0, 3);
    ctx.set_tag(1, 33);
    assert_eq!(*ctx.get_tag(0).unwrap(), 3);
    assert_eq!(*ctx.get_tag(1).unwrap(), 33);
    assert!(ctx.get_tag(2).is_none());
    ctx.set_tag(0, 4);
    assert_eq!(*ctx.get_tag(0).unwrap(), 4);
}

#[test]
fn test_jump_table() {
    // Indexes inside the table reach their labels; any other index falls
    // through safely.
    let mut ctx = Context::<()>::new();
    let mut func = ctx
        .new_function(sig(TypeKind::Int, &[TypeKind::UInt]))
        .unwrap();
    let i = func.param(0).unwrap();
    let c10 = func.make_const(prim(TypeKind::Int), 10);
    let c20 = func.make_const(prim(TypeKind::Int), 20);
    let c99 = func.make_const(prim(TypeKind::Int), 99);
    let l0 = func.new_label();
    let l1 = func.new_label();
    func.insn_jump_table(i, vec![l0, l1]).unwrap();
    func.insn_return(c99).unwrap();
    func.insn_label(l0).unwrap();
    func.insn_return(c10).unwrap();
    func.insn_label(l1).unwrap();
    func.insn_return(c20).unwrap();
    let fid = ctx.compile(func).unwrap();
    assert_eq!(ctx.invoke(fid, &words(&[0]), FUEL).unwrap(), 10);
    assert_eq!(ctx.invoke(fid, &words(&[1]), FUEL).unwrap(), 20);
    assert_eq!(ctx.invoke(fid, &words(&[7]), FUEL).unwrap(), 99);
}

#[test]
fn test_convert() {
    // Sign extension, zero extension and truncation.
    let mut ctx = Context::<()>::new();
    let mut f1 = ctx
        .new_function(sig(TypeKind::Long, &[TypeKind::Int]))
        .unwrap();
    let p = f1.param(0).unwrap();
    let widened = f1.insn_convert(p, prim(TypeKind::Long)).unwrap();
    f1.insn_return(widened).unwrap();
    let fid1 = ctx.compile(f1).unwrap();
    let r = ctx
        .invoke(fid1, &words(&[(-5i32) as u32 as u64]), FUEL)
        .unwrap();
    assert_eq!(r as i64, -5);

    let mut f2 = ctx
        .new_function(sig(TypeKind::Int, &[TypeKind::UByte]))
        .unwrap();
    let p = f2.param(0).unwrap();
    let widened = f2.insn_convert(p, prim(TypeKind::Int)).unwrap();
    f2.insn_return(widened).unwrap();
    let fid2 = ctx.compile(f2).unwrap();
    assert_eq!(ctx.invoke(fid2, &words(&[200]), FUEL).unwrap(), 200);

    let mut f3 = ctx
        .new_function(sig(TypeKind::UByte, &[TypeKind::Long]))
        .unwrap();
    let p = f3.param(0).unwrap();
    let narrowed = f3.insn_convert(p, prim(TypeKind::UByte)).unwrap();
    f3.insn_return(narrowed).unwrap();
    let fid3 = ctx.compile(f3).unwrap();
    assert_eq!(
        ctx.invoke(fid3, &words(&[(-1i64) as u64]), FUEL).unwrap(),
        255
    );
}

#[test]
fn test_arithmetic_traps() {
    // Division by zero is a trap, not a crash, and reaches the host as the
    // arithmetic error.
    let mut ctx = Context::<()>::new();
    let mut func = ctx
        .new_function(sig(TypeKind::Int, &[TypeKind::Int, TypeKind::Int]))
        .unwrap();
    let a = func.param(0).unwrap();
    let b = func.param(1).unwrap();
    let q = func.insn_binary(BinOp::Div, a, b).unwrap();
    func.insn_return(q).unwrap();
    let fid = ctx.compile(func).unwrap();
    assert_eq!(ctx.invoke(fid, &words(&[7, 2]), FUEL).unwrap(), 3);
    assert!(matches!(
        ctx.invoke(fid, &words(&[7, 0]), FUEL),
        Err(RunError::Arithmetic)
    ));
}

#[test]
fn test_unplaced_label_fails_compile() {
    // A label branched to but never placed is the compile-time error the
    // deferred-verification model promises.
    let mut ctx = Context::<()>::new();
    let mut func = ctx.new_function(sig(TypeKind::Int, &[])).unwrap();
    let l = func.new_label();
    func.insn_branch(l).unwrap();
    assert!(matches!(
        ctx.compile(func),
        Err(CompileError::UnplacedLabel)
    ));
}

#[test]
fn test_label_placed_once() {
    let mut ctx = Context::<()>::new();
    let mut func = ctx.new_function(sig(TypeKind::Int, &[])).unwrap();
    let l = func.new_label();
    func.insn_label(l).unwrap();
    assert!(matches!(
        func.insn_label(l),
        Err(BuildError::LabelAlreadyPlaced)
    ));
}

#[test]
fn test_temporary_promotion() {
    // A temporary referenced from a later block becomes a function-wide
    // local, transparently.
    let mut ctx = Context::<()>::new();
    let mut func = ctx.new_function(sig(TypeKind::Int, &[])).unwrap();
    let v = func.create_value(prim(TypeKind::Int));
    assert_eq!(func.is_temp(v).unwrap(), true);
    assert_eq!(func.is_addressable(v).unwrap(), false);
    let l = func.new_label();
    func.insn_label(l).unwrap();
    let copy = func.insn_load(v).unwrap();
    assert_eq!(func.is_temp(v).unwrap(), false);
    assert_eq!(func.is_temp(copy).unwrap(), true);
    func.set_addressable(v).unwrap();
    assert_eq!(func.is_addressable(v).unwrap(), true);
    func.set_addressable(v).unwrap();
    assert_eq!(func.is_addressable(v).unwrap(), true);
}

#[test]
fn test_function_lifecycle() {
    // Compilation is one-way: a compiled function cannot be compiled again,
    // and an uncompiled one cannot be run.
    let mut ctx = Context::<()>::new();
    assert_eq!(ctx.function_count(), 0);
    let mut f1 = ctx.new_function(sig(TypeKind::Int, &[])).unwrap();
    let c = f1.make_const(prim(TypeKind::Int), 5);
    f1.insn_return(c).unwrap();
    let pending = ctx.new_function(sig(TypeKind::Int, &[])).unwrap();
    assert_eq!(ctx.function_count(), 2);
    assert!(matches!(
        ctx.invoke(pending.id, &words(&[]), FUEL),
        Err(RunError::NotCompiled)
    ));
    let fid = ctx.compile(f1).unwrap();
    assert_eq!(ctx.invoke(fid, &words(&[]), FUEL).unwrap(), 5);
    assert!(matches!(
        ctx.invoke(fid, &words(&[1]), FUEL),
        Err(RunError::SignatureMismatch)
    ));
}

#[test]
fn test_missing_return_traps() {
    // Falling off the end of a function without a return stops the run
    // with an error rather than running wild.
    let mut ctx = Context::<()>::new();
    let mut func = ctx.new_function(sig(TypeKind::Int, &[])).unwrap();
    let a = func.make_const(prim(TypeKind::Int), 1);
    let b = func.make_const(prim(TypeKind::Int), 2);
    func.insn_binary(BinOp::Add, a, b).unwrap();
    let fid = ctx.compile(func).unwrap();
    assert!(matches!(
        ctx.invoke(fid, &words(&[]), FUEL),
        Err(RunError::FellOff)
    ));
}

#[test]
fn test_break_and_continue() {
    // Sum 1..=n, but skip 3 with a continue and stop past 5 with a break.
    let mut ctx = Context::<()>::new();
    let mut func = ctx
        .new_function(sig(TypeKind::UInt, &[TypeKind::UInt]))
        .unwrap();
    let n = func.param(0).unwrap();
    let zero = func.make_const(prim(TypeKind::UInt), 0);
    let one = func.make_const(prim(TypeKind::UInt), 1);
    let three = func.make_const(prim(TypeKind::UInt), 3);
    let five = func.make_const(prim(TypeKind::UInt), 5);
    let i = func.create_value(prim(TypeKind::UInt));
    let total = func.create_value(prim(TypeKind::UInt));
    func.insn_store(i, zero).unwrap();
    func.insn_store(total, zero).unwrap();
    let w = func.begin_while();
    let cond = func.insn_binary(BinOp::CmpLt, i, n).unwrap();
    func.while_cond(&w, cond).unwrap();
    let inext = func.insn_binary(BinOp::Add, i, one).unwrap();
    func.insn_store(i, inext).unwrap();
    let past = func.insn_binary(BinOp::CmpGt, i, five).unwrap();
    let fb = func.begin_if(past).unwrap();
    func.insn_break().unwrap();
    func.end_if(fb).unwrap();
    let skip = func.insn_binary(BinOp::CmpEq, i, three).unwrap();
    let fc = func.begin_if(skip).unwrap();
    func.insn_continue().unwrap();
    func.end_if(fc).unwrap();
    let tnext = func.insn_binary(BinOp::Add, total, i).unwrap();
    func.insn_store(total, tnext).unwrap();
    func.end_while(w).unwrap();
    let back = func.insn_load(total).unwrap();
    func.insn_return(back).unwrap();
    let fid = ctx.compile(func).unwrap();
    // 1 + 2 + 4 + 5 = 12: three skipped, six broke the loop.
    assert_eq!(ctx.invoke(fid, &words(&[10]), FUEL).unwrap(), 12);
    assert_eq!(ctx.invoke(fid, &words(&[2]), FUEL).unwrap(), 3);
}

#[test]
fn test_shifts_and_bitwise() {
    let mut ctx = Context::<()>::new();
    let mut func = ctx
        .new_function(sig(
            TypeKind::UInt,
            &[TypeKind::UInt, TypeKind::UInt, TypeKind::UInt],
        ))
        .unwrap();
    let a = func.param(0).unwrap();
    let b = func.param(1).unwrap();
    let s = func.param(2).unwrap();
    // ((a & b) | (a ^ b)) << s  ==  (a | b) << s
    let and = func.insn_binary(BinOp::And, a, b).unwrap();
    let xor = func.insn_binary(BinOp::Xor, a, b).unwrap();
    let or = func.insn_binary(BinOp::Or, and, xor).unwrap();
    let shl = func.insn_binary(BinOp::Shl, or, s).unwrap();
    func.insn_return(shl).unwrap();
    let fid = ctx.compile(func).unwrap();
    assert_eq!(
        ctx.invoke(fid, &words(&[0b1100, 0b1010, 1]), FUEL).unwrap(),
        0b11100
    );
    // Left shift wraps at the type's width.
    assert_eq!(
        ctx.invoke(fid, &words(&[0x8000_0001, 0, 1]), FUEL).unwrap(),
        2
    );
}

#[test]
fn test_signed_arithmetic() {
    let mut ctx = Context::<()>::new();
    let mut func = ctx
        .new_function(sig(TypeKind::Int, &[TypeKind::Int, TypeKind::Int]))
        .unwrap();
    let a = func.param(0).unwrap();
    let b = func.param(1).unwrap();
    let q = func.insn_binary(BinOp::Div, a, b).unwrap();
    func.insn_return(q).unwrap();
    let fid = ctx.compile(func).unwrap();
    let run = |x: i32, y: i32| {
        ctx.invoke(fid, &words(&[x as u32 as u64, y as u32 as u64]), FUEL)
            .unwrap() as u32 as i32
    };
    // Native division truncates toward zero.
    assert_eq!(run(7, 2), 3);
    assert_eq!(run(-7, 2), -3);
    assert_eq!(run(7, -2), -3);
    assert_eq!(run(-7, -2), 3);
}

#[test]
fn test_block_queries() {
    // Derived block facts: code after an unconditional return with no label
    // leading to it is unreachable; branch targets are reachable; a block
    // closed by a return is dead to fall-through.
    let mut ctx = Context::<()>::new();
    let mut func = ctx
        .new_function(sig(TypeKind::Int, &[TypeKind::Int]))
        .unwrap();
    let x = func.param(0).unwrap();
    let zero = func.make_const(prim(TypeKind::Int), 0);
    let c1 = func.make_const(prim(TypeKind::Int), 1);
    let c2 = func.make_const(prim(TypeKind::Int), 2);
    let c3 = func.make_const(prim(TypeKind::Int), 3);
    let l = func.new_label();
    let eq = func.insn_binary(BinOp::CmpEq, x, zero).unwrap();
    func.insn_branch_if(eq, l).unwrap(); // 1
    func.insn_return(c1).unwrap(); // 2
    func.insn_return(c2).unwrap(); // 3: unreachable
    func.insn_label(l).unwrap(); // placed at 4
    func.insn_return(c3).unwrap(); // 4
    let fid = ctx.compile(func).unwrap();
    let cf = ctx.compiled(fid).unwrap();
    assert!(cf.block_is_reachable(0));
    assert!(cf.block_is_reachable(2));
    assert!(!cf.block_is_reachable(3));
    assert!(cf.block_is_reachable(4));
    // The entry block runs to the conditional branch: a conditional does
    // not make the block dead to fall-through.
    assert_eq!(cf.block_end(0), 2);
    assert!(!cf.block_ends_in_dead(0));
    // The block of the first return ends dead.
    assert_eq!(cf.block_end(2), 3);
    assert!(cf.block_ends_in_dead(2));
    assert_eq!(ctx.invoke(fid, &words(&[0]), FUEL).unwrap(), 3);
    assert_eq!(ctx.invoke(fid, &words(&[9]), FUEL).unwrap(), 1);
}

#[test]
fn test_unary_and_rem() {
    let mut ctx = Context::<()>::new();
    let mut func = ctx
        .new_function(sig(TypeKind::Int, &[TypeKind::Int, TypeKind::Int]))
        .unwrap();
    let a = func.param(0).unwrap();
    let b = func.param(1).unwrap();
    // -(a % b) + !0  ==  -(a % b) - 1
    let r = func.insn_binary(BinOp::Rem, a, b).unwrap();
    let n = func.insn_unary(UnOp::Neg, r).unwrap();
    let zero = func.make_const(prim(TypeKind::Int), 0);
    let m1 = func.insn_unary(UnOp::Not, zero).unwrap();
    let s = func.insn_binary(BinOp::Add, n, m1).unwrap();
    func.insn_return(s).unwrap();
    let fid = ctx.compile(func).unwrap();
    let run = |x: i32, y: i32| {
        ctx.invoke(fid, &words(&[x as u32 as u64, y as u32 as u64]), FUEL)
            .unwrap() as u32 as i32
    };
    // Native remainder carries the dividend's sign.
    assert_eq!(run(7, 3), -2);
    assert_eq!(run(-7, 3), 0);
}

#[test]
fn test_address_of() {
    // Taking a local's address and storing through it lands in the local.
    let mut ctx = Context::<()>::new();
    let mut func = ctx.new_function(sig(TypeKind::UInt, &[])).unwrap();
    let local = func.create_value(prim(TypeKind::UInt));
    let c41 = func.make_const(prim(TypeKind::UInt), 41);
    let one = func.make_const(prim(TypeKind::UInt), 1);
    func.insn_store(local, c41).unwrap();
    let addr = func.insn_address_of(local).unwrap();
    assert_eq!(func.is_addressable(local).unwrap(), true);
    let seen = func.insn_load_relative(addr, 0, prim(TypeKind::UInt)).unwrap();
    let bumped = func.insn_binary(BinOp::Add, seen, one).unwrap();
    func.insn_store_relative(addr, 0, bumped).unwrap();
    let back = func.insn_load(local).unwrap();
    func.insn_return(back).unwrap();
    let fid = ctx.compile(func).unwrap();
    assert_eq!(ctx.invoke(fid, &words(&[]), FUEL).unwrap(), 42);
}
