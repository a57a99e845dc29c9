//! Bounds-checked little-endian integer reads from a byte buffer.
use vstd::prelude::*;

verus! {

/// The unsigned little-endian integer held by the `n` bytes of `s` at `o`.
pub open spec fn le_uint(s: Seq<u8>, o: int, n: nat) -> nat
    decreases n,
{
    if n == 0 {
        0
    } else {
        s[o] as nat + 256 * le_uint(s, o + 1, (n - 1) as nat)
    }
}

/// `256` to the power `n`.
pub open spec fn radix(n: nat) -> nat
    decreases n,
{
    if n == 0 {
        1
    } else {
        256 * radix((n - 1) as nat)
    }
}

/// Whether `n` bytes at offset `o` lie inside a buffer of `len` bytes.
pub open spec fn fits(len: int, o: int, n: int) -> bool {
    0 <= o && o + n <= len
}

pub proof fn lemma_le_uint_bound(s: Seq<u8>, o: int, n: nat)
    ensures
        le_uint(s, o, n) < radix(n),
    decreases n,
{
    if n > 0 {
        let rest = le_uint(s, o + 1, (n - 1) as nat);
        lemma_le_uint_bound(s, o + 1, (n - 1) as nat);
        let r = radix((n - 1) as nat);
        let b = s[o] as nat;
        assert(b + 256 * rest < 256 * r) by (nonlinear_arith)
            requires
                b < 256,
                rest < r,
        ;
    }
}

pub proof fn lemma_radix_values()
    ensures
        radix(2) == 0x1_0000,
        radix(4) == 0x1_0000_0000,
        radix(8) == 0x1_0000_0000_0000_0000,
{
    reveal_with_fuel(radix, 9);
    assert(radix(1) == 256);
    assert(radix(2) == 0x1_0000);
    assert(radix(3) == 0x100_0000);
    assert(radix(4) == 0x1_0000_0000);
    assert(radix(5) == 0x100_0000_0000);
    assert(radix(6) == 0x1_0000_0000_0000);
    assert(radix(7) == 0x100_0000_0000_0000);
    assert(radix(8) == 0x1_0000_0000_0000_0000);
}

/// Reads `n` little-endian bytes at `o`, or `None` if they leave the buffer.
fn read_le(b: &[u8], o: usize, n: usize) -> (r: Option<u64>)
    requires
        n <= 8,
    ensures
        r is Some <==> fits(b@.len() as int, o as int, n as int),
        r matches Some(v) ==> v as nat == le_uint(b@, o as int, n as nat),
{
    if o > b.len() || n > b.len() - o {
        return None;
    }
    let mut v: u64 = 0;
    let mut i: usize = n;
    while i > 0
        invariant
            i <= n <= 8,
            o + n <= b.len(),
            v as nat == le_uint(b@, o + i, (n - i) as nat),
        decreases i,
    {
        proof {
            lemma_le_uint_bound(b@, o + i, (n - i) as nat);
            lemma_radix_values();
            assert(radix((n - i) as nat) <= radix(7)) by {
                lemma_radix_mono((n - i) as nat, 7);
            }
            assert(v * 256 + 255 <= u64::MAX) by (nonlinear_arith)
                requires
                    v < 0x100_0000_0000_0000,
            ;
        }
        i = i - 1;
        v = v * 256 + b[o + i] as u64;
    }
    Some(v)
}

pub proof fn lemma_radix_mono(a: nat, b: nat)
    requires
        a <= b,
    ensures
        radix(a) <= radix(b),
    decreases b,
{
    if a < b {
        lemma_radix_mono(a, (b - 1) as nat);
    }
}

/// Reads the 16-bit little-endian integer at `o`.
pub fn rd16(b: &[u8], o: usize) -> (r: Option<u16>)
    ensures
        r is Some <==> fits(b@.len() as int, o as int, 2),
        r matches Some(v) ==> v as nat == le_uint(b@, o as int, 2),
{
    match read_le(b, o, 2) {
        Some(v) => {
            proof {
                lemma_le_uint_bound(b@, o as int, 2);
                lemma_radix_values();
            }
            Some(v as u16)
        },
        None => None,
    }
}

/// Reads the 32-bit little-endian integer at `o`.
pub fn rd32(b: &[u8], o: usize) -> (r: Option<u32>)
    ensures
        r is Some <==> fits(b@.len() as int, o as int, 4),
        r matches Some(v) ==> v as nat == le_uint(b@, o as int, 4),
{
    match read_le(b, o, 4) {
        Some(v) => {
            proof {
                lemma_le_uint_bound(b@, o as int, 4);
                lemma_radix_values();
            }
            Some(v as u32)
        },
        None => None,
    }
}

/// Reads the 64-bit little-endian integer at `o`.
pub fn rd64(b: &[u8], o: usize) -> (r: Option<u64>)
    ensures
        r is Some <==> fits(b@.len() as int, o as int, 8),
        r matches Some(v) ==> v as nat == le_uint(b@, o as int, 8),
{
    read_le(b, o, 8)
}

} // verus!
