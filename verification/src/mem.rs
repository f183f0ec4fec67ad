//! The byte memory of the machine: little-endian words read and written at
//! byte addresses, with the round-trip law that makes loads see stores.

use vstd::prelude::*;

use vstd::arithmetic::div_mod::lemma_div_denominator;
use vstd::arithmetic::div_mod::lemma_mod_breakdown;
use vstd::arithmetic::div_mod::lemma_small_mod;

verus! {

/// 256 to the `w`: the number of values a `w`-byte word can hold.
pub open spec fn p256(w: nat) -> nat
    decreases w,
{
    if w == 0 {
        1
    } else {
        256 * p256((w - 1) as nat)
    }
}

/// The concrete word capacities, up to eight bytes.
pub proof fn lemma_p256_values()
    ensures
        p256(0) == 1,
        p256(1) == 0x100,
        p256(2) == 0x10000,
        p256(4) == 0x1_0000_0000,
        p256(7) == 0x100_0000_0000_0000,
        p256(8) == 0x1_0000_0000_0000_0000,
{
    reveal_with_fuel(p256, 9);
}

/// A word capacity is never zero.
pub proof fn lemma_p256_pos(w: nat)
    ensures
        p256(w) >= 1,
    decreases w,
{
    if w > 0 {
        lemma_p256_pos((w - 1) as nat);
    }
}

/// Word capacity grows with width.
pub proof fn lemma_p256_mono(a: nat, b: nat)
    requires
        a <= b,
    ensures
        p256(a) <= p256(b),
    decreases b,
{
    if a < b {
        lemma_p256_mono(a, (b - 1) as nat);
    }
}

/// Byte `k` of the little-endian encoding of `bits`.
pub open spec fn byte_of(bits: u64, k: nat) -> u8 {
    (((bits as nat) / p256(k)) % 256) as u8
}

/// The value of the `w`-byte little-endian word at `addr`.
pub open spec fn word_read(mem: Seq<u8>, addr: int, w: nat) -> nat
    decreases w,
{
    if w == 0 {
        0
    } else {
        (mem[addr] + 256 * word_read(mem, addr + 1, (w - 1) as nat)) as nat
    }
}

/// The memory after the `w`-byte little-endian encoding of `bits` is
/// written at `addr`; bytes elsewhere keep their value.
pub open spec fn word_write(mem: Seq<u8>, addr: int, w: nat, bits: u64) -> Seq<u8> {
    Seq::new(
        mem.len(),
        |i: int|
            if addr <= i < addr + w {
                byte_of(bits, (i - addr) as nat)
            } else {
                mem[i]
            },
    )
}

/// A word never reads as more than its width can hold.
pub proof fn lemma_word_read_bound(mem: Seq<u8>, addr: int, w: nat)
    ensures
        word_read(mem, addr, w) < p256(w),
    decreases w,
{
    if w > 0 {
        lemma_word_read_bound(mem, addr + 1, (w - 1) as nat);
    }
}

/// Reading a region whose bytes are the little-endian encoding of `bits`
/// yields `bits` reduced to the region's width.
pub proof fn lemma_read_encoded(mem: Seq<u8>, addr: int, w: nat, bits: u64)
    requires
        forall|k: int| 0 <= k < w ==> mem[addr + k] == #[trigger] byte_of(bits, k as nat),
    ensures
        word_read(mem, addr, w) == (bits as nat) % p256(w),
    decreases w,
{
    if w == 0 {
        assert(p256(0) == 1);
        assert((bits as nat) % 1 == 0) by {
            lemma_small_mod(0, 1);
            vstd::arithmetic::div_mod::lemma_mod_multiples_basic(bits as int, 1);
        }
    } else {
        let rest = (bits as nat) / 256;
        assert(rest <= bits as nat) by {
            vstd::arithmetic::div_mod::lemma_div_nonincreasing(bits as int, 256);
        }
        let restu = rest as u64;
        assert forall|k: int| 0 <= k < w - 1 implies mem[addr + 1 + k] == #[trigger] byte_of(
            restu,
            k as nat,
        ) by {
            assert(mem[addr + (k + 1)] == byte_of(bits, (k + 1) as nat));
            assert(((bits as nat) / p256((k + 1) as nat)) == (rest / p256(k as nat))) by {
                assert(p256((k + 1) as nat) == 256 * p256(k as nat)) by {
                    assert(p256((k + 1) as nat) == 256 * p256(((k + 1) - 1) as nat));
                }
                lemma_p256_pos(k as nat);
                lemma_div_denominator(bits as int, 256, p256(k as nat) as int);
            }
        }
        lemma_read_encoded(mem, addr + 1, (w - 1) as nat, restu);
        let k0: int = 0;
        assert(mem[addr + k0] == byte_of(bits, k0 as nat));
        assert(mem[addr] == byte_of(bits, 0));
        assert(byte_of(bits, 0) == (bits as nat) % 256) by {
            assert(p256(0) == 1);
            vstd::arithmetic::div_mod::lemma_div_basics(bits as int);
        }
        assert((bits as nat) % p256(w) == 256 * (rest % p256((w - 1) as nat)) + (bits as nat)
            % 256) by {
            assert(p256(w) == 256 * p256((w - 1) as nat));
            lemma_p256_pos((w - 1) as nat);
            lemma_mod_breakdown(bits as int, 256, p256((w - 1) as nat) as int);
        }
    }
}

/// The round trip: a word written and read back at one address and width is
/// unchanged, as long as it fits the width.
pub proof fn lemma_word_roundtrip(mem: Seq<u8>, addr: int, w: nat, bits: u64)
    requires
        0 <= addr,
        addr + w <= mem.len(),
        (bits as nat) < p256(w),
    ensures
        word_read(word_write(mem, addr, w, bits), addr, w) == bits,
{
    let m2 = word_write(mem, addr, w, bits);
    assert forall|k: int| 0 <= k < w implies m2[addr + k] == #[trigger] byte_of(bits, k as nat) by {}
    lemma_read_encoded(m2, addr, w, bits);
    lemma_small_mod(bits as nat, p256(w));
}

/// Writing one region leaves every byte outside it unchanged.
pub proof fn lemma_word_write_frame(mem: Seq<u8>, addr: int, w: nat, bits: u64, i: int)
    requires
        0 <= i < mem.len(),
        i < addr || addr + w <= i,
    ensures
        word_write(mem, addr, w, bits)[i] == mem[i],
{
}

/// Reading is unaffected by a write to a disjoint region.
pub proof fn lemma_read_after_disjoint_write(
    mem: Seq<u8>,
    raddr: int,
    rw: nat,
    waddr: int,
    ww: nat,
    bits: u64,
)
    requires
        0 <= raddr,
        raddr + rw <= mem.len(),
        raddr + rw <= waddr || waddr + ww <= raddr,
    ensures
        word_read(word_write(mem, waddr, ww, bits), raddr, rw) == word_read(mem, raddr, rw),
    decreases rw,
{
    if rw > 0 {
        lemma_read_after_disjoint_write(mem, raddr + 1, (rw - 1) as nat, waddr, ww, bits);
    }
}

/// The `w`-byte capacity, decided, for machine widths.
pub fn p256_exec(w: u8) -> (r: u128)
    requires
        w <= 8,
    ensures
        r == p256(w as nat),
{
    proof {
        reveal_with_fuel(p256, 9);
    }
    match w {
        0 => 1,
        1 => 0x100,
        2 => 0x10000,
        3 => 0x100_0000,
        4 => 0x1_0000_0000,
        5 => 0x100_0000_0000,
        6 => 0x1_0000_0000_0000,
        7 => 0x100_0000_0000_0000,
        _ => 0x1_0000_0000_0000_0000,
    }
}

/// Reads the `w`-byte little-endian word at `addr`, or nothing when the
/// region runs past the end of memory.
#[verifier::loop_isolation(false)]
pub fn read_word(mem: &Vec<u8>, addr: usize, w: u8) -> (r: Option<u64>)
    requires
        w <= 8,
    ensures
        addr + w <= mem@.len() ==> r == Some((word_read(mem@, addr as int, w as nat) as u64)),
        addr + w > mem@.len() ==> r is None,
{
    if mem.len() < w as usize || addr > mem.len() - w as usize {
        return None;
    }
    proof {
        lemma_p256_values();
    }
    let mut r: u64 = 0;
    let mut i: usize = w as usize;
    while i > 0
        invariant
            0 <= i <= w,
            addr + w <= mem@.len(),
            r == word_read(mem@, addr + i, (w - i) as nat),
            r < p256((w - i) as nat),
        decreases i,
    {
        i = i - 1;
        proof {
            lemma_word_read_bound(mem@, addr + i + 1, (w - i - 1) as nat);
            lemma_p256_mono((w - i - 1) as nat, 7);
        }
        r = r * 256 + mem[addr + i] as u64;
        proof {
            assert(p256((w - i) as nat) == 256 * p256((w - i - 1) as nat));
        }
    }
    Some(r)
}

/// Writes the `w`-byte little-endian encoding of `bits` at `addr`; reports
/// whether the region fit in memory, which is otherwise unchanged.
#[verifier::loop_isolation(false)]
pub fn write_word(mem: &mut Vec<u8>, addr: usize, w: u8, bits: u64) -> (r: bool)
    requires
        w <= 8,
    ensures
        addr + w <= old(mem)@.len() ==> r == true && final(mem)@ == word_write(
            old(mem)@,
            addr as int,
            w as nat,
            bits,
        ),
        addr + w > old(mem)@.len() ==> r == false && final(mem)@ == old(mem)@,
    decreases w,
{
    if mem.len() < w as usize || addr > mem.len() - w as usize {
        return false;
    }
    proof {
        lemma_p256_values();
    }
    let mut cur: u64 = bits;
    let mut k: usize = 0;
    while k < w as usize
        invariant
            0 <= k <= w,
            addr + w <= old(mem)@.len(),
            mem@.len() == old(mem)@.len(),
            cur == (bits as nat) / p256(k as nat),
            forall|i: int|
                0 <= i < mem@.len() && !(addr <= i < addr + k) ==> mem@[i] == old(mem)@[i],
            forall|i: int|
                addr <= i < addr + k ==> mem@[i] == byte_of(bits, (i - addr) as nat),
        decreases w - k,
    {
        let b: u8 = (cur % 256) as u8;
        proof {
            assert(b == byte_of(bits, k as nat));
        }
        mem.set(addr + k, b);
        proof {
            assert((bits as nat) / p256((k + 1) as nat) == ((bits as nat) / p256(k as nat))
                / 256) by {
                assert(p256((k + 1) as nat) == 256 * p256(k as nat));
                lemma_div_denominator(bits as int, p256(k as nat) as int, 256);
                assert((bits as nat) / (p256(k as nat) * 256) == ((bits as nat) / p256(k as nat))
                    / 256);
                assert(p256(k as nat) * 256 == 256 * p256(k as nat)) by (nonlinear_arith);
            }
        }
        cur = cur / 256;
        k = k + 1;
    }
    proof {
        assert(mem@ =~= word_write(old(mem)@, addr as int, w as nat, bits));
    }
    true
}

/// The memory after `n` bytes at `src` are copied to `dst`; the copy reads
/// the original bytes, so overlap behaves like a simultaneous move.
pub open spec fn mem_copy(mem: Seq<u8>, dst: int, src: int, n: nat) -> Seq<u8> {
    Seq::new(
        mem.len(),
        |i: int|
            if dst <= i < dst + n {
                mem[src + (i - dst)]
            } else {
                mem[i]
            },
    )
}

/// Copies `n` bytes from `src` to `dst`; reports whether both regions fit
/// in memory, which is otherwise unchanged.
#[verifier::loop_isolation(false)]
pub fn copy_bytes(mem: &mut Vec<u8>, dst: usize, src: usize, n: usize) -> (r: bool)
    ensures
        dst + n <= old(mem)@.len() && src + n <= old(mem)@.len() ==> r == true && final(mem)@
            == mem_copy(old(mem)@, dst as int, src as int, n as nat),
        !(dst + n <= old(mem)@.len() && src + n <= old(mem)@.len()) ==> r == false && final(mem)@
            == old(mem)@,
{
    if n > mem.len() || dst > mem.len() - n || src > mem.len() - n {
        return false;
    }
    let mut buf: Vec<u8> = Vec::new();
    let mut k: usize = 0;
    while k < n
        invariant
            0 <= k <= n,
            src + n <= mem@.len(),
            mem@ == old(mem)@,
            buf@.len() == k,
            forall|i: int| 0 <= i < k ==> buf@[i] == old(mem)@[src + i],
        decreases n - k,
    {
        buf.push(mem[src + k]);
        k = k + 1;
    }
    let mut k: usize = 0;
    while k < n
        invariant
            0 <= k <= n,
            dst + n <= mem@.len(),
            src + n <= mem@.len(),
            mem@.len() == old(mem)@.len(),
            buf@.len() == n,
            forall|i: int| 0 <= i < n ==> buf@[i] == old(mem)@[src + i],
            forall|i: int|
                0 <= i < mem@.len() && !(dst <= i < dst + k) ==> mem@[i] == old(mem)@[i],
            forall|i: int| dst <= i < dst + k ==> mem@[i] == old(mem)@[src + (i - dst)],
        decreases n - k,
    {
        mem.set(dst + k, buf[k]);
        k = k + 1;
    }
    proof {
        assert(mem@ =~= mem_copy(old(mem)@, dst as int, src as int, n as nat));
    }
    true
}

/// The memory after `n` zero bytes are appended: how a frame is opened.
pub open spec fn mem_grown(mem: Seq<u8>, n: nat) -> Seq<u8> {
    mem + Seq::new(n, |i: int| 0u8)
}

/// Appends `n` zero bytes.
#[verifier::loop_isolation(false)]
pub fn grow_zeros(mem: &mut Vec<u8>, n: usize)
    ensures
        final(mem)@ == mem_grown(old(mem)@, n as nat),
{
    let mut k: usize = 0;
    while k < n
        invariant
            0 <= k <= n,
            mem@.len() == old(mem)@.len() + k,
            forall|i: int| 0 <= i < old(mem)@.len() ==> mem@[i] == old(mem)@[i],
            forall|i: int| old(mem)@.len() <= i < mem@.len() ==> mem@[i] == 0u8,
        decreases n - k,
    {
        mem.push(0u8);
        k = k + 1;
    }
    proof {
        assert(mem@ =~= mem_grown(old(mem)@, n as nat));
    }
}

} // verus!
