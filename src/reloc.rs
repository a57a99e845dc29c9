//! Base-relative relocation of a staged position-independent image.
use vstd::prelude::*;
use vstd::arithmetic::div_mod::lemma_div_denominator;

use crate::bytes::{fits, le_uint, radix, rd16, rd32, rd64};
use crate::elf::{elf_phnum, ph_offset, ph_type, elf_phoff, elf_phentsize, PT_DYNAMIC};

verus! {

/// Dynamic tags that locate the relocation table.
pub const DT_NULL: u64 = 0;

pub const DT_RELA: u64 = 7;

pub const DT_RELASZ: u64 = 8;

pub const DT_RELAENT: u64 = 9;

/// The base-plus-addend relocation type, the only one applied.
pub const R_X86_64_RELATIVE: u64 = 8;

/// Stride of the relocation table when the dynamic segment names none.
pub const DEFAULT_RELA_ENT: usize = 24;

/// Where the relocation table is: its address, byte size and entry stride.
pub struct RelaTable {
    pub vaddr: usize,
    pub size: usize,
    pub ent: usize,
}

/// Bytes of the ELF header that must be present to find the program headers.
pub const PH_TABLE_FIELDS_END: usize = 58;

/// Walks the `(tag, value)` pairs of a dynamic segment from `d` up to `end`,
/// updating what is known of the relocation table, until a null tag.
pub open spec fn dyn_walk(s: Seq<u8>, d: int, end: int, t: (usize, usize, usize)) -> (
    usize,
    usize,
    usize,
)
    decreases end - d,
{
    if d + 16 > end {
        t
    } else {
        let tag = le_uint(s, d, 8);
        let val = le_uint(s, d + 8, 8) as usize;
        if tag == DT_NULL {
            t
        } else if tag == DT_RELA {
            dyn_walk(s, d + 16, end, (val, t.1, t.2))
        } else if tag == DT_RELASZ {
            dyn_walk(s, d + 16, end, (t.0, val, t.2))
        } else if tag == DT_RELAENT {
            dyn_walk(s, d + 16, end, (t.0, t.1, val))
        } else {
            dyn_walk(s, d + 16, end, t)
        }
    }
}

/// Scans the program headers from the `i`-th on for dynamic segments and
/// walks each; `None` where a header or a segment lies outside the file.
pub open spec fn dyn_scan(s: Seq<u8>, i: int, t: (usize, usize, usize)) -> Option<
    (usize, usize, usize),
>
    decreases elf_phnum(s) - i,
{
    if i >= elf_phnum(s) {
        Some(t)
    } else {
        let o = ph_offset(s, i);
        if !fits(s.len() as int, o, 4) {
            None
        } else if ph_type(s, o) != PT_DYNAMIC {
            dyn_scan(s, i + 1, t)
        } else if !fits(s.len() as int, o, 40) {
            None
        } else {
            let off = le_uint(s, o + 8, 8) as usize as int;
            let size = le_uint(s, o + 32, 8) as usize as int;
            if off + size > s.len() {
                None
            } else {
                dyn_scan(s, i + 1, dyn_walk(s, off, off + size, t))
            }
        }
    }
}

/// The relocation table that the file `s` names: address, size and stride.
pub open spec fn rela_table(s: Seq<u8>) -> Option<(usize, usize, usize)> {
    if s.len() < PH_TABLE_FIELDS_END {
        None
    } else {
        dyn_scan(s, 0, (0, 0, DEFAULT_RELA_ENT))
    }
}

/// `buf` with the 64-bit little-endian encoding of `v` at `o`.
pub open spec fn put_le64(buf: Seq<u8>, o: int, v: nat) -> Seq<u8> {
    Seq::new(
        buf.len(),
        |k: int|
            if o <= k < o + 8 {
                ((v / radix((k - o) as nat)) % 256) as u8
            } else {
                buf[k]
            },
    )
}

/// Applies the relocation entry read at image offset `p` of `buf`, where the
/// image is staged at `base` and linked from `min`; `None` where it must
/// not be applied.
pub open spec fn apply_entry(buf: Seq<u8>, base: int, size: int, min: int, p: int) -> Option<
    Seq<u8>,
> {
    let r_offset = le_uint(buf, p, 8) as usize as int;
    let r_type = le_uint(buf, p + 8, 8) % 0x1_0000_0000;
    let addend = le_uint(buf, p + 16, 8) as u64 as i64 as int;
    if r_type != R_X86_64_RELATIVE {
        Some(buf)
    } else if r_offset < min || base + (r_offset - min) > usize::MAX || r_offset - min + 8 > size {
        None
    } else if base + addend < 0 || base + addend > u64::MAX {
        None
    } else {
        Some(put_le64(buf, r_offset - min, (base + addend) as nat))
    }
}

/// Applies the relocation entries at addresses `off`, `off + ent`, ... below
/// `end` in turn, each read from the image as the earlier ones left it.
pub open spec fn rela_walk(buf: Seq<u8>, base: int, size: int, min: int, off: int, end: int, ent: int) -> Option<
    Seq<u8>,
>
    decreases if end > off {
        end - off
    } else {
        0
    },
{
    if off >= end || ent <= 0 {
        Some(buf)
    } else if off - base < 0 || off - base + 24 > size {
        None
    } else {
        match apply_entry(buf, base, size, min, off - base) {
            None => None,
            Some(next) => {
                if off + ent > usize::MAX {
                    None
                } else {
                    rela_walk(next, base, size, min, off + ent, end, ent)
                }
            },
        }
    }
}

/// The staged image `buf` once the relocations that the file `s` names are
/// applied, or `None` where the table or an entry is out of range.
pub open spec fn relocated(s: Seq<u8>, buf: Seq<u8>, base: int, size: int, min: int) -> Option<
    Seq<u8>,
> {
    match rela_table(s) {
        None => None,
        Some(t) => {
            if t.0 == 0 || t.1 == 0 || t.2 == 0 {
                Some(buf)
            } else if t.0 < min || base + (t.0 - min) + t.1 > usize::MAX {
                None
            } else {
                rela_walk(buf, base, size, min, base + (t.0 - min), base + (t.0 - min) + t.1, t.2 as int)
            }
        },
    }
}

fn walk_dynamic(bytes: &[u8], start: usize, end: usize, t: &mut RelaTable)
    requires
        start <= end <= bytes@.len(),
    ensures
        (final(t).vaddr, final(t).size, final(t).ent) == dyn_walk(
            bytes@,
            start as int,
            end as int,
            (old(t).vaddr, old(t).size, old(t).ent),
        ),
{
    let mut d = start;
    while d <= end && 16 <= end - d
        invariant
            start <= d,
            end <= bytes@.len(),
            dyn_walk(bytes@, start as int, end as int, (old(t).vaddr, old(t).size, old(t).ent))
                == dyn_walk(bytes@, d as int, end as int, (t.vaddr, t.size, t.ent)),
        decreases end - d,
    {
        let tag = match rd64(bytes, d) {
            Some(v) => v,
            None => return,
        };
        let val = match rd64(bytes, d + 8) {
            Some(v) => #[verifier::truncate] (v as usize),
            None => return,
        };
        if tag == DT_NULL {
            return;
        } else if tag == DT_RELA {
            t.vaddr = val;
        } else if tag == DT_RELASZ {
            t.size = val;
        } else if tag == DT_RELAENT {
            t.ent = val;
        }
        d = d + 16;
    }
}

/// Finds the relocation table through the dynamic segments of the file.
pub fn find_rela_table(bytes: &[u8]) -> (r: Option<RelaTable>)
    ensures
        r is Some <==> rela_table(bytes@) is Some,
        r matches Some(t) ==> (t.vaddr, t.size, t.ent) == rela_table(bytes@)->0,
{
    let phoff = match rd64(bytes, 32) {
        Some(v) => #[verifier::truncate] (v as usize),
        None => return None,
    };
    let phentsize = match rd16(bytes, 54) {
        Some(v) => v as usize,
        None => return None,
    };
    let phnum = match rd16(bytes, 56) {
        Some(v) => v as usize,
        None => return None,
    };
    let ghost s = bytes@;
    assert(s.len() == bytes.len());
    let mut t = RelaTable { vaddr: 0, size: 0, ent: DEFAULT_RELA_ENT };
    let mut i: usize = 0;
    while i < phnum
        invariant
            s == bytes@,
            s.len() <= usize::MAX,
            s.len() >= PH_TABLE_FIELDS_END,
            phoff == elf_phoff(s),
            phentsize as int == elf_phentsize(s),
            phnum as int == elf_phnum(s),
            i <= phnum,
            rela_table(s) == dyn_scan(s, i as int, (t.vaddr, t.size, t.ent)),
        decreases phnum - i,
    {
        assert(ph_offset(s, i as int) == phoff + i * phentsize);
        let o = match i.checked_mul(phentsize) {
            Some(step) => match phoff.checked_add(step) {
                Some(o) => o,
                None => return None,
            },
            None => {
                assert(phoff + i * phentsize > usize::MAX) by (nonlinear_arith)
                    requires
                        i * phentsize > usize::MAX,
                ;
                return None;
            },
        };
        let p_type = match rd32(bytes, o) {
            Some(v) => v,
            None => return None,
        };
        if p_type == PT_DYNAMIC {
            if o > bytes.len() || 40 > bytes.len() - o {
                return None;
            }
            let dyn_off = match rd64(bytes, o + 8) {
                Some(v) => #[verifier::truncate] (v as usize),
                None => return None,
            };
            let dyn_size = match rd64(bytes, o + 32) {
                Some(v) => #[verifier::truncate] (v as usize),
                None => return None,
            };
            if dyn_off > bytes.len() || dyn_size > bytes.len() - dyn_off {
                return None;
            }
            walk_dynamic(bytes, dyn_off, dyn_off + dyn_size, &mut t);
        }
        i = i + 1;
    }
    Some(t)
}

proof fn lemma_radix_step(k: nat)
    ensures
        radix(k + 1) == radix(k) * 256,
        radix(k) > 0,
    decreases k,
{
    if k > 0 {
        lemma_radix_step((k - 1) as nat);
    }
}

/// Writes the 64-bit little-endian encoding of `v` at offset `o`.
pub fn write_le64(buf: &mut [u8], o: usize, v: u64)
    requires
        o + 8 <= old(buf)@.len(),
    ensures
        final(buf)@ == put_le64(old(buf)@, o as int, v as nat),
{
    let ghost before = buf@;
    let mut x = v;
    let mut k: usize = 0;
    assert(radix(0) == 1);
    assert(v as nat / 1 == v as nat);
    while k < 8
        invariant
            o + 8 <= buf.len(),
            k <= 8,
            buf@.len() == before.len(),
            x as nat == v as nat / radix(k as nat),
            radix(k as nat) > 0,
            forall|j: int|
                0 <= j < buf@.len() ==> #[trigger] buf@[j] == if o <= j < o + k {
                    ((v as nat / radix((j - o) as nat)) % 256) as u8
                } else {
                    before[j]
                },
        decreases 8 - k,
    {
        buf[o + k] = (x % 256) as u8;
        proof {
            lemma_radix_step(k as nat);
            lemma_div_denominator(v as int, radix(k as nat) as int, 256);
        }
        x = x / 256;
        k = k + 1;
    }
    assert(buf@ =~= put_le64(before, o as int, v as nat));
}

/// Applies the relocation entry at image offset `p` of the staged image.
fn apply_rela_entry(staging: &mut [u8], base: usize, size: usize, min_vaddr: usize, p: usize) -> (ok: bool)
    requires
        size <= old(staging)@.len(),
        p + 24 <= size,
    ensures
        ok <==> apply_entry(old(staging)@, base as int, size as int, min_vaddr as int, p as int) is Some,
        ok ==> final(staging)@ == apply_entry(old(staging)@, base as int, size as int, min_vaddr as int, p as int)->0,
        final(staging)@.len() == old(staging)@.len(),
        forall|k: int| size <= k < old(staging)@.len() ==> #[trigger] final(staging)@[k] == old(staging)@[k],
{
    let r_offset = match rd64(staging, p) {
        Some(v) => #[verifier::truncate] (v as usize),
        None => return false,
    };
    let r_info = match rd64(staging, p + 8) {
        Some(v) => v,
        None => return false,
    };
    let r_addend = match rd64(staging, p + 16) {
        Some(v) => #[verifier::truncate] (v as i64),
        None => return false,
    };
    if r_info % 0x1_0000_0000 != R_X86_64_RELATIVE {
        return true;
    }
    if r_offset < min_vaddr {
        return false;
    }
    let dst = r_offset - min_vaddr;
    if base > usize::MAX - dst || dst > size || 8 > size - dst {
        return false;
    }
    let value: i128 = base as i128 + r_addend as i128;
    if value < 0 || value > u64::MAX as i128 {
        return false;
    }
    write_le64(staging, dst, value as u64);
    true
}

/// Applies every base-plus-addend relocation that the file names to the
/// image staged at `base` (its first `size` bytes in `staging`), linked from
/// `min_vaddr`. Other relocation types are left alone; a file that names no
/// table leaves the image as it is.
pub fn apply_relative_relocations(
    bytes: &[u8],
    staging: &mut [u8],
    base: usize,
    min_vaddr: usize,
    size: usize,
) -> (r: Option<()>)
    requires
        size <= old(staging)@.len(),
    ensures
        r is Some <==> relocated(bytes@, old(staging)@, base as int, size as int, min_vaddr as int) is Some,
        r is Some ==> final(staging)@ == relocated(bytes@, old(staging)@, base as int, size as int, min_vaddr as int)->0,
        final(staging)@.len() == old(staging)@.len(),
        forall|k: int| size <= k < old(staging)@.len() ==> #[trigger] final(staging)@[k] == old(staging)@[k],
{
    let t = match find_rela_table(bytes) {
        Some(t) => t,
        None => return None,
    };
    if t.vaddr == 0 || t.size == 0 || t.ent == 0 {
        return Some(());
    }
    if t.vaddr < min_vaddr {
        return None;
    }
    let rela_off = t.vaddr - min_vaddr;
    if base > usize::MAX - rela_off || t.size > usize::MAX - (base + rela_off) {
        return None;
    }
    let mut off = base + rela_off;
    let end = off + t.size;
    let ghost first = off;
    let ghost before = staging@;
    while off < end
        invariant
            before == old(staging)@,
            size <= staging@.len(),
            forall|k: int| size <= k < before.len() ==> #[trigger] staging@[k] == before[k],
            staging@.len() == before.len(),
            t.ent > 0,
            relocated(bytes@, before, base as int, size as int, min_vaddr as int) == rela_walk(
                before,
                base as int,
                size as int,
                min_vaddr as int,
                first as int,
                end as int,
                t.ent as int,
            ),
            rela_walk(before, base as int, size as int, min_vaddr as int, first as int, end as int, t.ent as int)
                == rela_walk(staging@, base as int, size as int, min_vaddr as int, off as int, end as int, t.ent as int),
        decreases if end > off {
            end - off
        } else {
            0
        },
    {
        if off < base || off - base > size || 24 > size - (off - base) {
            return None;
        }
        if !apply_rela_entry(staging, base, size, min_vaddr, off - base) {
            return None;
        }
        if t.ent > usize::MAX - off {
            return None;
        }
        off = off + t.ent;
    }
    Some(())
}

} // verus!

verus! {

proof fn lemma_put_le64_suffix(buf: Seq<u8>, o: int, v: nat, k: nat)
    requires
        0 <= o,
        o + 8 <= buf.len(),
        k <= 8,
        v < radix(8),
    ensures
        le_uint(put_le64(buf, o, v), o + k, (8 - k) as nat) == v / radix(k),
    decreases 8 - k,
{
    let b = put_le64(buf, o, v);
    lemma_radix_step(k);
    if k == 8 {
        assert(v / radix(8) == 0) by (nonlinear_arith)
            requires
                v < radix(8),
        ;
    } else {
        lemma_put_le64_suffix(buf, o, v, k + 1);
        let x = v / radix(k);
        lemma_div_denominator(v as int, radix(k) as int, 256);
        assert(v / radix(k + 1) == x / 256);
        assert(b[o + k] == x % 256);
        assert(x == 256 * (x / 256) + x % 256) by (nonlinear_arith);
    }
}

/// The eight bytes that `put_le64` stores read back as the value stored.
pub proof fn lemma_put_le64_reads_back(buf: Seq<u8>, o: int, v: nat)
    requires
        0 <= o,
        o + 8 <= buf.len(),
        v <= u64::MAX,
    ensures
        le_uint(put_le64(buf, o, v), o, 8) == v,
        forall|k: int| 0 <= k < buf.len() && !(o <= k < o + 8) ==> #[trigger] put_le64(buf, o, v)[k] == buf[k],
{
    crate::bytes::lemma_radix_values();
    lemma_put_le64_suffix(buf, o, v, 0);
    assert(radix(0) == 1);
}

/// A base-plus-addend entry at image offset `p`, with target `r_offset` at
/// offset `r_offset - min` inside the image, writes `base + addend` there
/// as a 64-bit little-endian value and leaves every other byte as it was.
pub proof fn lemma_relative_entry(buf: Seq<u8>, base: int, size: int, min: int, p: int)
    requires
        0 <= p,
        p + 24 <= size <= buf.len(),
        le_uint(buf, p + 8, 8) % 0x1_0000_0000 == R_X86_64_RELATIVE,
        min <= le_uint(buf, p, 8) as usize as int,
        le_uint(buf, p, 8) as usize as int - min + 8 <= size,
        base + (le_uint(buf, p, 8) as usize as int - min) <= usize::MAX,
        0 <= base + le_uint(buf, p + 16, 8) as u64 as i64 as int <= u64::MAX,
    ensures
        ({
            let o = le_uint(buf, p, 8) as usize as int - min;
            let value = base + le_uint(buf, p + 16, 8) as u64 as i64 as int;
            apply_entry(buf, base, size, min, p) matches Some(out) && le_uint(out, o, 8) == value
                && out.len() == buf.len() && forall|k: int|
                0 <= k < buf.len() && !(o <= k < o + 8) ==> #[trigger] out[k] == buf[k]
        }),
{
    let o = le_uint(buf, p, 8) as usize as int - min;
    let value = base + le_uint(buf, p + 16, 8) as u64 as i64 as int;
    lemma_put_le64_reads_back(buf, o, value as nat);
}

} // verus!
