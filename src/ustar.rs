//! A linear reader of tar-like archives: 512-byte header blocks, each
//! followed by its payload padded to the next block.
use vstd::prelude::*;
use vstd::slice::slice_subrange;
use vstd::string::StringSliceAdditionalSpecFns;
use vstd::utf8::valid_utf8;

use crate::text::decode_utf8;

verus! {

pub const BLOCK_SIZE: usize = 512;

/// Bytes of a header that may hold the entry's name.
pub const NAME_FIELD_LEN: usize = 100;

/// Where the octal size field of a header starts, and how long it is.
pub const SIZE_FIELD_OFFSET: usize = 124;

pub const SIZE_FIELD_LEN: usize = 12;

/// One archive member: its name and its payload, both borrowed from the archive.
#[derive(Clone, Copy, Debug, PartialEq, Eq)]
pub struct UstarEntry<'a> {
    pub name: &'a str,
    pub data: &'a [u8],
}

pub open spec fn is_octal_digit(b: u8) -> bool {
    0x30 <= b <= 0x37
}

/// NUL and space, which may pad a field before its digits.
pub open spec fn is_padding(b: u8) -> bool {
    b == 0 || b == 0x20
}

/// The octal number in `f` from position `i` on, after the digits before it
/// gave `v` (`found` if there was one). NUL and space before the first digit
/// are skipped; once a digit was read, the first non-digit ends the number.
/// No digit at all gives `None`.
pub open spec fn octal_scan(f: Seq<u8>, i: int, v: nat, found: bool) -> Option<nat>
    decreases f.len() - i,
{
    if i >= f.len() || (!is_octal_digit(f[i]) && (found || !is_padding(f[i]))) {
        if found {
            Some(v)
        } else {
            None
        }
    } else if !is_octal_digit(f[i]) {
        octal_scan(f, i + 1, v, found)
    } else {
        octal_scan(f, i + 1, 8 * v + (f[i] - 0x30) as nat, true)
    }
}

pub open spec fn octal_value(f: Seq<u8>) -> Option<nat> {
    octal_scan(f, 0, 0, false)
}

/// `8` to the power `n`.
pub open spec fn pow8(n: nat) -> nat
    decreases n,
{
    if n == 0 {
        1
    } else {
        8 * pow8((n - 1) as nat)
    }
}

proof fn lemma_pow8_mono(a: nat, b: nat)
    requires
        a <= b,
    ensures
        pow8(a) <= pow8(b),
    decreases b,
{
    if a < b {
        lemma_pow8_mono(a, (b - 1) as nat);
    }
}

proof fn lemma_pow8_twelve()
    ensures
        pow8(12) == 0x10_0000_0000,
{
    reveal_with_fuel(pow8, 13);
}

/// Parses the octal number of a size field: leading NULs and spaces are
/// skipped, and the first non-digit after a digit ends the number.
pub fn parse_octal(field: &[u8]) -> (r: Option<u64>)
    requires
        field@.len() <= SIZE_FIELD_LEN,
    ensures
        r is Some <==> octal_value(field@) is Some,
        r matches Some(v) ==> v as nat == octal_value(field@)->0,
{
    let mut value: u64 = 0;
    let mut found = false;
    let mut i: usize = 0;
    proof {
        lemma_pow8_twelve();
    }
    while i < field.len()
        invariant_except_break
            octal_value(field@) == octal_scan(field@, i as int, value as nat, found),
        invariant
            i <= field@.len() <= SIZE_FIELD_LEN,
            value < pow8(i as nat),
            pow8(12) == 0x10_0000_0000,
        ensures
            octal_value(field@) == (if found {
                Some(value as nat)
            } else {
                None
            }),
        decreases field@.len() - i,
    {
        let b = field[i];
        if b < 0x30 || b > 0x37 {
            if found || (b != 0 && b != 0x20) {
                break;
            }
            i = i + 1;
            continue;
        }
        proof {
            lemma_pow8_mono((i + 1) as nat, 12);
            let d = (b - 0x30) as int;
            let p = pow8(i as nat);
            assert(pow8((i + 1) as nat) == 8 * p);
            assert(value * 8 + d < 8 * p) by (nonlinear_arith)
                requires
                    value < p,
                    0 <= d < 8,
            ;
        }
        found = true;
        value = value * 8 + (b - 0x30) as u64;
        i = i + 1;
    }
    if found {
        Some(value)
    } else {
        None
    }
}

/// The header block at `off` is all zero bytes.
pub open spec fn block_is_zero(a: Seq<u8>, off: int) -> bool {
    forall|k: int| off <= k < off + BLOCK_SIZE ==> #[trigger] a[k] == 0
}

/// The length of the name of the header at `off`: up to its first NUL, at
/// most the whole name field. The search starts at `k`.
pub open spec fn name_len_from(a: Seq<u8>, off: int, k: int) -> int
    decreases NAME_FIELD_LEN - k,
{
    if k >= NAME_FIELD_LEN {
        NAME_FIELD_LEN as int
    } else if a[off + k] == 0 {
        k
    } else {
        name_len_from(a, off, k + 1)
    }
}

pub open spec fn name_len(a: Seq<u8>, off: int) -> int {
    name_len_from(a, off, 0)
}

pub open spec fn entry_name(a: Seq<u8>, off: int) -> Seq<u8> {
    a.subrange(off, off + name_len(a, off))
}

pub open spec fn entry_size(a: Seq<u8>, off: int) -> Option<nat> {
    octal_value(
        a.subrange(off + SIZE_FIELD_OFFSET, off + SIZE_FIELD_OFFSET + SIZE_FIELD_LEN),
    )
}

/// `n` rounded up to a whole number of blocks.
pub open spec fn block_round_up(n: int) -> int {
    (n + 511) / 512 * 512
}

/// Scans the archive from the header at `off` for the entry named `needle`:
/// the header offset and payload size of the first one, or `None` where the
/// archive ends, a name is not UTF-8, a size is malformed or a payload is cut
/// short before it is found.
pub open spec fn ustar_scan(a: Seq<u8>, needle: Seq<u8>, off: int) -> Option<(int, nat)>
    decreases a.len() + 1024 - off,
{
    if off < 0 || off + BLOCK_SIZE > a.len() || block_is_zero(a, off) {
        None
    } else if !valid_utf8(entry_name(a, off)) {
        None
    } else {
        match entry_size(a, off) {
            None => None,
            Some(size) => {
                if off + BLOCK_SIZE + size > a.len() {
                    None
                } else if entry_name(a, off) == needle {
                    Some((off, size))
                } else {
                    ustar_scan(a, needle, off + BLOCK_SIZE + block_round_up(size as int))
                }
            },
        }
    }
}

fn block_all_zero(a: &[u8], off: usize) -> (r: bool)
    requires
        off + BLOCK_SIZE <= a@.len(),
    ensures
        r == block_is_zero(a@, off as int),
{
    let mut k: usize = 0;
    while k < BLOCK_SIZE
        invariant
            off + BLOCK_SIZE <= a.len(),
            forall|j: int| off <= j < off + k ==> #[trigger] a@[j] == 0,
        decreases BLOCK_SIZE - k,
    {
        if a[off + k] != 0 {
            return false;
        }
        k = k + 1;
    }
    true
}

fn name_end(a: &[u8], off: usize) -> (r: usize)
    requires
        off + BLOCK_SIZE <= a@.len(),
    ensures
        r as int == name_len(a@, off as int),
        r <= NAME_FIELD_LEN,
{
    let mut k: usize = 0;
    while k < NAME_FIELD_LEN
        invariant
            off + BLOCK_SIZE <= a.len(),
            k <= NAME_FIELD_LEN,
            name_len(a@, off as int) == name_len_from(a@, off as int, k as int),
        decreases NAME_FIELD_LEN - k,
    {
        if a[off + k] == 0 {
            return k;
        }
        k = k + 1;
    }
    k
}

fn bytes_equal(x: &[u8], y: &[u8]) -> (r: bool)
    ensures
        r == (x@ == y@),
{
    if x.len() != y.len() {
        return false;
    }
    let mut k: usize = 0;
    while k < x.len()
        invariant
            x@.len() == y@.len(),
            k <= x@.len(),
            forall|j: int| 0 <= j < k ==> x@[j] == y@[j],
        decreases x@.len() - k,
    {
        if x[k] != y[k] {
            return false;
        }
        k = k + 1;
    }
    assert(x@ =~= y@);
    true
}

/// Finds the entry named `needle`, scanning header blocks from the start.
pub fn find_file<'a>(archive: &'a [u8], needle: &str) -> (r: Option<UstarEntry<'a>>)
    ensures
        r is Some <==> ustar_scan(archive@, needle.spec_bytes(), 0) is Some,
        r matches Some(e) ==> {
            let (off, size) = ustar_scan(archive@, needle.spec_bytes(), 0)->0;
            &&& e.name.spec_bytes() == entry_name(archive@, off)
            &&& e.name.spec_bytes() == needle.spec_bytes()
            &&& e.data@ == archive@.subrange(off + BLOCK_SIZE, off + BLOCK_SIZE + size)
        },
{
    let want = needle.as_bytes();
    let ghost a = archive@;
    let mut off: usize = 0;
    while off <= archive.len() && BLOCK_SIZE <= archive.len() - off
        invariant
            a == archive@,
            want@ == needle.spec_bytes(),
            ustar_scan(a, want@, 0) == ustar_scan(a, want@, off as int),
        decreases archive@.len() - off,
    {
        if block_all_zero(archive, off) {
            return None;
        }
        let nl = name_end(archive, off);
        let name_bytes = slice_subrange(archive, off, off + nl);
        let name = match decode_utf8(name_bytes) {
            Some(t) => t,
            None => return None,
        };
        let size_field = slice_subrange(
            archive,
            off + SIZE_FIELD_OFFSET,
            off + SIZE_FIELD_OFFSET + SIZE_FIELD_LEN,
        );
        let size = match parse_octal(size_field) {
            Some(v) => v,
            None => return None,
        };
        let data_start = off + BLOCK_SIZE;
        if size > (archive.len() - data_start) as u64 {
            return None;
        }
        let size = size as usize;
        let data_end = data_start + size;
        if bytes_equal(name_bytes, want) {
            let data = slice_subrange(archive, data_start, data_end);
            return Some(UstarEntry { name, data });
        }
        let padded = (size + 511) / 512 * 512;
        if padded > archive.len() - data_start {
            assert(ustar_scan(a, want@, data_start + padded) is None);
            return None;
        }
        off = data_start + padded;
    }
    None
}

} // verus!

verus! {

/// An archive that opens with an all-zero block holds no entry at all.
pub proof fn lemma_leading_zero_block(a: Seq<u8>, needle: Seq<u8>)
    requires
        block_is_zero(a, 0),
    ensures
        ustar_scan(a, needle, 0) is None,
{
}

} // verus!

verus! {

/// An archive of one entry, named `name` and holding `payload`, followed by
/// an all-zero block after the payload's padding: looking up `name` yields
/// exactly that payload; looking up any other name yields nothing.
pub proof fn lemma_single_entry_archive(a: Seq<u8>, name: Seq<u8>, payload: Seq<u8>, other: Seq<u8>)
    requires
        !block_is_zero(a, 0),
        entry_name(a, 0) == name,
        valid_utf8(name),
        entry_size(a, 0) == Some(payload.len()),
        BLOCK_SIZE + block_round_up(payload.len() as int) + BLOCK_SIZE <= a.len(),
        a.subrange(BLOCK_SIZE as int, BLOCK_SIZE + payload.len()) == payload,
        block_is_zero(a, BLOCK_SIZE + block_round_up(payload.len() as int)),
        other != name,
    ensures
        ustar_scan(a, name, 0) == Some((0int, payload.len())),
        ustar_scan(a, other, 0) is None,
{
    assert(payload.len() <= block_round_up(payload.len() as int));
    let next = BLOCK_SIZE + block_round_up(payload.len() as int);
    assert(ustar_scan(a, other, next) is None);
}

} // verus!
