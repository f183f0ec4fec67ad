//! The machine's scalar arithmetic: two's-complement operations over
//! canonical little-endian words, each defined as a mathematical function
//! and computed by a verified routine.

use vstd::prelude::*;

use vstd::arithmetic::div_mod::lemma_fundamental_div_mod;
use vstd::arithmetic::div_mod::lemma_fundamental_div_mod_converse_div;
use vstd::arithmetic::div_mod::lemma_fundamental_div_mod_converse_mod;
use vstd::arithmetic::div_mod::lemma_mod_bound;
use vstd::arithmetic::div_mod::lemma_mod_multiples_vanish;
use vstd::arithmetic::div_mod::lemma_small_mod;

use crate::ir::BinOp;
use crate::ir::Scalar;
use crate::ir::UnOp;
use crate::ir::valid_width;
use crate::mem::lemma_p256_mono;
use crate::mem::lemma_p256_pos;
use crate::mem::lemma_p256_values;
use crate::mem::p256;
use crate::mem::p256_exec;

verus! {

/// The signed or unsigned value a canonical `w`-byte word stands for.
pub open spec fn to_int_s(bits: u64, s: Scalar) -> int {
    if s.signed && 2 * (bits as nat) >= p256(s.width as nat) {
        bits - p256(s.width as nat)
    } else {
        bits as int
    }
}

/// The canonical `w`-byte word standing for `v`, wrapped two's-complement.
pub open spec fn of_int_s(v: int, w: u8) -> u64 {
    (v % (p256(w as nat) as int)) as u64
}

/// The magnitude of `v`.
pub open spec fn abs_i(v: int) -> int {
    if v < 0 {
        -v
    } else {
        v
    }
}

/// Division truncated toward zero, as native integer division behaves.
pub open spec fn tdiv(a: int, b: int) -> int {
    if (a < 0) == (b < 0) {
        abs_i(a) / abs_i(b)
    } else {
        -(abs_i(a) / abs_i(b))
    }
}

/// The remainder that pairs with [`tdiv`]: it carries the dividend's sign.
pub open spec fn tmod(a: int, b: int) -> int {
    a - b * tdiv(a, b)
}

/// Two to the `n`.
pub open spec fn p2(n: nat) -> nat
    decreases n,
{
    if n == 0 {
        1
    } else {
        2 * p2((n - 1) as nat)
    }
}

/// Powers of two grow with the exponent.
pub proof fn lemma_p2_mono(a: nat, b: nat)
    requires
        a <= b,
    ensures
        p2(a) <= p2(b),
    decreases b,
{
    if a < b {
        lemma_p2_mono(a, (b - 1) as nat);
    }
}

/// A power of two is never zero.
pub proof fn lemma_p2_pos(n: nat)
    ensures
        p2(n) >= 1,
    decreases n,
{
    if n > 0 {
        lemma_p2_pos((n - 1) as nat);
    }
}

/// Sixty-four doublings, concretely.
pub proof fn lemma_p2_63()
    ensures
        p2(63) == 0x8000_0000_0000_0000,
    decreases 64int,
{
    reveal_with_fuel(p2, 64);
}

/// The shift count an operand worth `b` induces at width `w`: shifts are
/// taken modulo the width in bits.
pub open spec fn shift_amount(b: u64, w: u8) -> nat {
    (b as nat) % (8 * (w as nat))
}

/// What a two-operand operation yields on the canonical words `a` and `b`
/// of shape `s`: the wrapped result, or nothing where native arithmetic has
/// no result (division by zero, and overflowing signed division).
pub open spec fn eval_binary(op: BinOp, s: Scalar, a: u64, b: u64) -> Option<u64> {
    let w = s.width;
    let ai = to_int_s(a, s);
    let bi = to_int_s(b, s);
    match op {
        BinOp::Add => Some(of_int_s(a + b, w)),
        BinOp::Sub => Some(of_int_s(a - b, w)),
        BinOp::Mul => Some(of_int_s(a * b, w)),
        BinOp::Div => {
            if bi == 0 || (s.signed && 2 * ai == -(p256(w as nat) as int) && bi == -1) {
                None
            } else {
                Some(of_int_s(tdiv(ai, bi), w))
            }
        },
        BinOp::Rem => {
            if bi == 0 || (s.signed && 2 * ai == -(p256(w as nat) as int) && bi == -1) {
                None
            } else {
                Some(of_int_s(tmod(ai, bi), w))
            }
        },
        BinOp::And => Some(a & b),
        BinOp::Or => Some(a | b),
        BinOp::Xor => Some(a ^ b),
        BinOp::Shl => Some(of_int_s(a * p2(shift_amount(b, w)), w)),
        BinOp::Shr => {
            if s.signed {
                Some(of_int_s(ai / (p2(shift_amount(b, w)) as int), w))
            } else {
                Some((((a as nat) / p2(shift_amount(b, w))) as u64))
            }
        },
        BinOp::CmpEq => Some(if ai == bi { 1 } else { 0 }),
        BinOp::CmpNe => Some(if ai != bi { 1 } else { 0 }),
        BinOp::CmpLt => Some(if ai < bi { 1 } else { 0 }),
        BinOp::CmpLe => Some(if ai <= bi { 1 } else { 0 }),
        BinOp::CmpGt => Some(if ai > bi { 1 } else { 0 }),
        BinOp::CmpGe => Some(if ai >= bi { 1 } else { 0 }),
    }
}

/// What a one-operand operation yields on the canonical word `a` of shape
/// `s`.
pub open spec fn eval_unary(op: UnOp, s: Scalar, a: u64) -> u64 {
    match op {
        UnOp::Neg => of_int_s(-(a as int), s.width),
        UnOp::Not => of_int_s(-(a as int) - 1, s.width),
    }
}

/// What a conversion yields: the value of `a` under `from`, re-wrapped to
/// the width of `to`.
pub open spec fn eval_convert(a: u64, from: Scalar, to: Scalar) -> u64 {
    of_int_s(to_int_s(a, from), to.width)
}

/// The euclidean residue of `-mag`, decided: zero for multiples, else the
/// modulus minus the positive residue.
fn mod_neg(mag: u128, m: u128) -> (r: u64)
    requires
        1 <= m,
        m <= p256(8),
    ensures
        r == (-(mag as int)) % (m as int),
{
    proof {
        lemma_p256_values();
    }
    let k = mag % m;
    proof {
        lemma_fundamental_div_mod(mag as int, m as int);
        let q0 = (mag as int) / (m as int);
        let k0 = (mag as int) % (m as int);
        if k == 0 {
            assert((-q0) * (m as int) + 0 == -(mag as int)) by (nonlinear_arith)
                requires
                    mag as int == (m as int) * q0 + k0,
                    k0 == 0,
            ;
            lemma_fundamental_div_mod_converse_mod(-(mag as int), m as int, -q0, 0);
        } else {
            assert((-q0 - 1) * (m as int) + ((m as int) - k0) == -(mag as int))
                by (nonlinear_arith)
                requires
                    mag as int == (m as int) * q0 + k0,
            ;
            lemma_fundamental_div_mod_converse_mod(
                -(mag as int),
                m as int,
                -q0 - 1,
                m - k,
            );
        }
    }
    if k == 0 {
        0
    } else {
        (m - k) as u64
    }
}

/// The euclidean residue of a nonnegative `mag`, decided.
fn mod_pos(mag: u128, m: u128) -> (r: u64)
    requires
        1 <= m,
        m <= p256(8),
    ensures
        r == (mag as int) % (m as int),
{
    proof {
        lemma_p256_values();
    }
    (mag % m) as u64
}

/// The signed reading of a canonical word, split into sign and magnitude.
fn split_signed(a: u64, s: Scalar) -> (r: (bool, u64))
    requires
        valid_width(s.width),
        (a as nat) < p256(s.width as nat),
    ensures
        to_int_s(a, s) == if r.0 {
            -(r.1 as int)
        } else {
            r.1 as int
        },
        r.1 as nat <= p256(s.width as nat),
        r.0 ==> 1 <= r.1,
{
    proof {
        lemma_p256_values();
        lemma_p256_mono(s.width as nat, 8);
    }
    let m = p256_exec(s.width);
    if s.signed && 2 * (a as u128) >= m {
        (true, (m - a as u128) as u64)
    } else {
        (false, a)
    }
}

/// Two to the `n`, decided.
#[verifier::loop_isolation(false)]
fn p2_exec(n: u64) -> (r: u64)
    requires
        n <= 63,
    ensures
        r == p2(n as nat),
{
    proof {
        lemma_p2_63();
    }
    let mut p: u64 = 1;
    let mut i: u64 = 0;
    while i < n
        invariant
            0 <= i <= n,
            p == p2(i as nat),
        decreases n - i,
    {
        proof {
            lemma_p2_mono((i + 1) as nat, 63);
        }
        p = p * 2;
        i = i + 1;
    }
    p
}

/// One two-operand operation, computed: exactly [`eval_binary`].
#[verifier::rlimit(60)]
pub fn exec_binary(op: BinOp, s: Scalar, a: u64, b: u64) -> (r: Option<u64>)
    requires
        valid_width(s.width),
        (a as nat) < p256(s.width as nat),
        (b as nat) < p256(s.width as nat),
    ensures
        r == eval_binary(op, s, a, b),
{
    proof {
        lemma_p256_values();
        lemma_p256_mono(s.width as nat, 8);
        lemma_p256_pos(s.width as nat);
    }
    let m = p256_exec(s.width);
    let w = s.width;
    let ghost ai = to_int_s(a, s);
    let ghost bi = to_int_s(b, s);
    match op {
        BinOp::Add => Some(mod_pos(a as u128 + b as u128, m)),
        BinOp::Sub => {
            if a >= b {
                Some(mod_pos((a - b) as u128, m))
            } else {
                Some(mod_neg((b - a) as u128, m))
            }
        },
        BinOp::Mul => {
            proof {
                assert((a as u128) * (b as u128) <= u128::MAX) by (nonlinear_arith)
                    requires
                        a <= u64::MAX,
                        b <= u64::MAX,
                ;
            }
            Some(mod_pos(a as u128 * b as u128, m))
        },
        BinOp::Div => {
            let (na, ma) = split_signed(a, s);
            let (nb, mb) = split_signed(b, s);
            if mb == 0 {
                return None;
            }
            if s.signed && na && nb && 2 * (ma as u128) == m && mb == 1 {
                return None;
            }
            proof {
                assert(bi != 0);
                assert(!(s.signed && 2 * ai == -(p256(w as nat) as int) && bi == -1));
                assert(abs_i(ai) == ma as int);
                assert(abs_i(bi) == mb as int);
                assert((ai < 0) == (na && ma > 0));
                assert((bi < 0) == (nb && mb > 0));
            }
            let q = ma / mb;
            if na == nb || q == 0 {
                proof {
                    if na != nb {
                        assert(tdiv(ai, bi) == 0 - q as int);
                    } else {
                        assert(tdiv(ai, bi) == q as int);
                    }
                    lemma_small_mod(q as nat, p256(w as nat));
                }
                Some(mod_pos(q as u128, m))
            } else {
                proof {
                    assert(tdiv(ai, bi) == -(q as int));
                }
                Some(mod_neg(q as u128, m))
            }
        },
        BinOp::Rem => {
            let (na, ma) = split_signed(a, s);
            let (nb, mb) = split_signed(b, s);
            if mb == 0 {
                return None;
            }
            if s.signed && na && nb && 2 * (ma as u128) == m && mb == 1 {
                return None;
            }
            let q = ma / mb;
            let rm = ma % mb;
            proof {
                assert(bi != 0);
                assert(!(s.signed && 2 * ai == -(p256(w as nat) as int) && bi == -1));
                assert(abs_i(ai) == ma as int);
                assert(abs_i(bi) == mb as int);
                assert((ai < 0) == (na && ma > 0));
                assert((bi < 0) == (nb && mb > 0));
                lemma_fundamental_div_mod(ma as int, mb as int);
                assert(ma as int == (mb as int) * (q as int) + rm as int);
                if na && (!nb || mb as int * q as int >= 0) {
                }
                assert(tmod(ai, bi) == if na {
                    -(rm as int)
                } else {
                    rm as int
                }) by (nonlinear_arith)
                    requires
                        ma as int == (mb as int) * (q as int) + rm as int,
                        abs_i(ai) == ma as int,
                        abs_i(bi) == mb as int,
                        (ai < 0) == (na && ma > 0),
                        (bi < 0) == (nb && mb > 0),
                        mb > 0,
                        0 <= rm < mb,
                        q == ma / mb,
                        tmod(ai, bi) == ai - bi * tdiv(ai, bi),
                        tdiv(ai, bi) == if (ai < 0) == (bi < 0) {
                            abs_i(ai) / abs_i(bi)
                        } else {
                            -(abs_i(ai) / abs_i(bi))
                        },
                ;
            }
            if na {
                Some(mod_neg(rm as u128, m))
            } else {
                proof {
                    lemma_small_mod(rm as nat, p256(w as nat));
                }
                Some(mod_pos(rm as u128, m))
            }
        },
        BinOp::And => Some(a & b),
        BinOp::Or => Some(a | b),
        BinOp::Xor => Some(a ^ b),
        BinOp::Shl => {
            let bits_w = 8 * (w as u64);
            let sh = b % bits_w;
            let p = p2_exec(sh);
            proof {
                assert((a as u128) * (p as u128) <= u128::MAX) by (nonlinear_arith)
                    requires
                        a <= u64::MAX,
                        p <= u64::MAX,
                ;
            }
            Some(mod_pos(a as u128 * p as u128, m))
        },
        BinOp::Shr => {
            let bits_w = 8 * (w as u64);
            let sh = b % bits_w;
            let p = p2_exec(sh);
            proof {
                lemma_p2_pos(sh as nat);
            }
            if !s.signed {
                return Some(a / p);
            }
            let (na, ma) = split_signed(a, s);
            if !na {
                let q = a / p;
                proof {
                    vstd::arithmetic::div_mod::lemma_div_nonincreasing(a as int, p as int);
                    lemma_small_mod((a / p) as nat, p256(w as nat));
                }
                Some(q)
            } else {
                let c = ((ma as u128) + (p as u128) - 1) / (p as u128);
                proof {
                    let mi = ma as int;
                    let pi = p as int;
                    let ci = c as int;
                    lemma_fundamental_div_mod(mi + pi - 1, pi);
                    assert((-ci) * pi + (pi * ci - mi) == -mi) by (nonlinear_arith)
                        requires
                            true,
                    ;
                    lemma_fundamental_div_mod_converse_div(-mi, pi, -ci, pi * ci - mi);
                    assert(ai / pi == -ci);
                }
                Some(mod_neg(c, m))
            }
        },
        BinOp::CmpEq => {
            proof {
                assert((ai == bi) == (a == b));
            }
            Some(if a == b { 1 } else { 0 })
        },
        BinOp::CmpNe => {
            proof {
                assert((ai == bi) == (a == b));
            }
            Some(if a != b { 1 } else { 0 })
        },
        BinOp::CmpLt => Some(if exec_lt(a, b, s, m) { 1 } else { 0 }),
        BinOp::CmpLe => Some(if exec_lt(b, a, s, m) { 0 } else { 1 }),
        BinOp::CmpGt => Some(if exec_lt(b, a, s, m) { 1 } else { 0 }),
        BinOp::CmpGe => Some(if exec_lt(a, b, s, m) { 0 } else { 1 }),
    }
}

/// Whether `a` reads below `b` under shape `s`.
fn exec_lt(a: u64, b: u64, s: Scalar, m: u128) -> (r: bool)
    requires
        valid_width(s.width),
        (a as nat) < p256(s.width as nat),
        (b as nat) < p256(s.width as nat),
        m == p256(s.width as nat),
    ensures
        r == (to_int_s(a, s) < to_int_s(b, s)),
{
    proof {
        lemma_p256_values();
        lemma_p256_mono(s.width as nat, 8);
    }
    let (na, ma) = split_signed(a, s);
    let (nb, mb) = split_signed(b, s);
    if na != nb {
        na
    } else if na {
        ma > mb
    } else {
        ma < mb
    }
}

/// One one-operand operation, computed: exactly [`eval_unary`].
pub fn exec_unary(op: UnOp, s: Scalar, a: u64) -> (r: u64)
    requires
        valid_width(s.width),
        (a as nat) < p256(s.width as nat),
    ensures
        r == eval_unary(op, s, a),
{
    proof {
        lemma_p256_values();
        lemma_p256_mono(s.width as nat, 8);
        lemma_p256_pos(s.width as nat);
    }
    let m = p256_exec(s.width);
    match op {
        UnOp::Neg => mod_neg(a as u128, m),
        UnOp::Not => mod_neg(a as u128 + 1, m),
    }
}

/// One conversion, computed: exactly [`eval_convert`].
pub fn exec_convert(a: u64, from: Scalar, to: Scalar) -> (r: u64)
    requires
        valid_width(from.width),
        valid_width(to.width),
        (a as nat) < p256(from.width as nat),
    ensures
        r == eval_convert(a, from, to),
{
    proof {
        lemma_p256_values();
        lemma_p256_mono(from.width as nat, 8);
        lemma_p256_mono(to.width as nat, 8);
        lemma_p256_pos(to.width as nat);
    }
    let m = p256_exec(to.width);
    let (na, ma) = split_signed(a, from);
    if na {
        mod_neg(ma as u128, m)
    } else {
        mod_pos(ma as u128, m)
    }
}

} // verus!
