//! ELF64 header parsing: entry point and loadable segment headers.
use vstd::prelude::*;

use crate::bytes::{fits, le_uint, rd16, rd32, rd64};

verus! {

/// How many loadable segment headers an image keeps; further ones are dropped.
pub const MAX_LOAD_HEADERS: usize = 8;

/// Size of the ELF64 file header.
pub const ELF_HEADER_SIZE: usize = 64;

/// Program header type of a loadable segment.
pub const PT_LOAD: u32 = 1;

/// Program header type of the dynamic-linking segment.
pub const PT_DYNAMIC: u32 = 2;

/// Bytes of one program header that the parser reads.
pub const PH_READ_SIZE: usize = 48;

/// One loadable segment: where it lies in the file and where it goes in memory.
#[derive(Clone, Copy, Debug)]
pub struct ProgramHeader {
    pub file_offset: usize,
    pub virt_addr: usize,
    pub file_size: usize,
    pub mem_size: usize,
    pub flags: u32,
}

/// A parsed ELF64 executable, borrowing the bytes it was parsed from.
#[derive(Clone, Copy, Debug)]
pub struct ElfImage<'a> {
    pub entry: usize,
    pub data: &'a [u8],
    pub program_headers: [Option<ProgramHeader>; 8],
}

/// Magic, 64-bit class and little-endian encoding, in a buffer that holds a
/// whole file header.
pub open spec fn elf_ident_ok(s: Seq<u8>) -> bool {
    &&& s.len() >= ELF_HEADER_SIZE
    &&& s[0] == 0x7f && s[1] == 0x45 && s[2] == 0x4c && s[3] == 0x46
    &&& s[4] == 2
    &&& s[5] == 1
}

pub open spec fn elf_entry(s: Seq<u8>) -> usize {
    le_uint(s, 24, 8) as usize
}

pub open spec fn elf_phoff(s: Seq<u8>) -> usize {
    le_uint(s, 32, 8) as usize
}

pub open spec fn elf_phentsize(s: Seq<u8>) -> int {
    le_uint(s, 54, 2) as int
}

pub open spec fn elf_phnum(s: Seq<u8>) -> int {
    le_uint(s, 56, 2) as int
}

/// Offset of the `i`-th program header.
pub open spec fn ph_offset(s: Seq<u8>, i: int) -> int {
    elf_phoff(s) + i * elf_phentsize(s)
}

/// The program header type stored at `o`.
pub open spec fn ph_type(s: Seq<u8>, o: int) -> nat {
    le_uint(s, o, 4)
}

/// The loadable segment header stored at `o`.
pub open spec fn ph_at(s: Seq<u8>, o: int) -> ProgramHeader {
    ProgramHeader {
        flags: le_uint(s, o + 4, 4) as u32,
        file_offset: le_uint(s, o + 8, 8) as usize,
        virt_addr: le_uint(s, o + 16, 8) as usize,
        file_size: le_uint(s, o + 32, 8) as usize,
        mem_size: le_uint(s, o + 40, 8) as usize,
    }
}

/// The loadable headers collected from the `i`-th program header on, after
/// `acc` was collected from the earlier ones; `None` where a header that is
/// read lies outside the buffer. Collection stops at the first loadable
/// header found once `acc` is full.
pub open spec fn load_scan(s: Seq<u8>, i: int, acc: Seq<ProgramHeader>) -> Option<
    Seq<ProgramHeader>,
>
    decreases elf_phnum(s) - i,
{
    if i >= elf_phnum(s) {
        Some(acc)
    } else {
        let o = ph_offset(s, i);
        if !fits(s.len() as int, o, 4) {
            None
        } else if ph_type(s, o) != PT_LOAD {
            load_scan(s, i + 1, acc)
        } else if acc.len() >= MAX_LOAD_HEADERS {
            Some(acc)
        } else if !fits(s.len() as int, o, PH_READ_SIZE as int) {
            None
        } else {
            load_scan(s, i + 1, acc.push(ph_at(s, o)))
        }
    }
}

/// The loadable headers of the file `s`, in table order, at most eight.
pub open spec fn elf_load_headers(s: Seq<u8>) -> Option<Seq<ProgramHeader>> {
    load_scan(s, 0, seq![])
}

/// `hs` holds the headers of `acc` in its first slots and nothing after them.
pub open spec fn headers_hold(hs: [Option<ProgramHeader>; 8], acc: Seq<ProgramHeader>) -> bool {
    &&& acc.len() <= MAX_LOAD_HEADERS
    &&& forall|j: int|
        0 <= j < MAX_LOAD_HEADERS ==> #[trigger] hs@[j] == if j < acc.len() {
            Some(acc[j])
        } else {
            None
        }
}

/// Reads the loadable segment header at `o`.
fn read_program_header(image: &[u8], o: usize) -> (r: Option<ProgramHeader>)
    ensures
        r is Some <==> fits(image@.len() as int, o as int, PH_READ_SIZE as int),
        r matches Some(h) ==> h == ph_at(image@, o as int),
{
    if o > image.len() || PH_READ_SIZE > image.len() - o {
        return None;
    }
    let flags = match rd32(image, o + 4) {
        Some(v) => v,
        None => return None,
    };
    let file_offset = match rd64(image, o + 8) {
        Some(v) => #[verifier::truncate] (v as usize),
        None => return None,
    };
    let virt_addr = match rd64(image, o + 16) {
        Some(v) => #[verifier::truncate] (v as usize),
        None => return None,
    };
    let file_size = match rd64(image, o + 32) {
        Some(v) => #[verifier::truncate] (v as usize),
        None => return None,
    };
    let mem_size = match rd64(image, o + 40) {
        Some(v) => #[verifier::truncate] (v as usize),
        None => return None,
    };
    Some(ProgramHeader { file_offset, virt_addr, file_size, mem_size, flags })
}

/// Parses an ELF64 little-endian executable: its entry point and up to eight
/// loadable segment headers. Any field read outside the buffer fails the parse.
pub fn parse_elf64(image: &[u8]) -> (r: Option<ElfImage<'_>>)
    ensures
        r is Some <==> elf_ident_ok(image@) && elf_load_headers(image@) is Some,
        r matches Some(img) ==> {
            &&& img.entry == elf_entry(image@)
            &&& img.data@ == image@
            &&& headers_hold(img.program_headers, elf_load_headers(image@)->0)
        },
{
    if image.len() < ELF_HEADER_SIZE {
        return None;
    }
    if image[0] != 0x7f || image[1] != 0x45 || image[2] != 0x4c || image[3] != 0x46 {
        return None;
    }
    if image[4] != 2 || image[5] != 1 {
        return None;
    }
    let entry = match rd64(image, 24) {
        Some(v) => #[verifier::truncate] (v as usize),
        None => return None,
    };
    let phoff = match rd64(image, 32) {
        Some(v) => #[verifier::truncate] (v as usize),
        None => return None,
    };
    let phentsize = match rd16(image, 54) {
        Some(v) => #[verifier::truncate] (v as usize),
        None => return None,
    };
    let phnum = match rd16(image, 56) {
        Some(v) => #[verifier::truncate] (v as usize),
        None => return None,
    };
    let ghost s = image@;
    let mut headers: [Option<ProgramHeader>; 8] = [None; 8];
    let mut seen: usize = 0;
    let ghost mut acc: Seq<ProgramHeader> = seq![];
    let mut i: usize = 0;
    while i < phnum
        invariant_except_break
            i <= phnum,
            load_scan(s, 0, seq![]) == load_scan(s, i as int, acc),
        invariant
            s == image@,
            s.len() <= usize::MAX,
            elf_ident_ok(s),
            phoff == elf_phoff(s),
            phentsize as int == elf_phentsize(s),
            phnum as int == elf_phnum(s),
            seen == acc.len(),
            headers_hold(headers, acc),
        ensures
            load_scan(s, 0, seq![]) == Some(acc),
        decreases phnum - i,
    {
        assert(ph_offset(s, i as int) == phoff + i * phentsize);
        let o = match i.checked_mul(phentsize) {
            Some(step) => match phoff.checked_add(step) {
                Some(o) => o,
                None => return None,
            },
            None => {
                assert(phoff + i * phentsize > usize::MAX) by (nonlinear_arith)
                    requires
                        i * phentsize > usize::MAX,
                ;
                return None;
            },
        };
        let p_type = match rd32(image, o) {
            Some(v) => v,
            None => return None,
        };
        if p_type != PT_LOAD {
            i = i + 1;
            continue;
        }
        if seen == MAX_LOAD_HEADERS {
            break;
        }
        let h = match read_program_header(image, o) {
            Some(h) => h,
            None => return None,
        };
        headers[seen] = Some(h);
        proof {
            acc = acc.push(h);
        }
        seen = seen + 1;
        i = i + 1;
    }
    Some(ElfImage { entry, data: image, program_headers: headers })
}

} // verus!

verus! {

/// A buffer shorter than a file header, or one without the ELF magic, is not
/// an ELF64 file.
pub proof fn lemma_short_or_unmarked_rejected(s: Seq<u8>)
    requires
        s.len() < ELF_HEADER_SIZE || s[0] != 0x7f || s[1] != 0x45 || s[2] != 0x4c || s[3] != 0x46,
    ensures
        !elf_ident_ok(s),
{
}

/// A file whose program header table is empty has no loadable headers.
pub proof fn lemma_no_segments(s: Seq<u8>)
    requires
        elf_phnum(s) == 0,
    ensures
        elf_load_headers(s) == Some(Seq::<ProgramHeader>::empty()),
{
    assert(seq![] =~= Seq::<ProgramHeader>::empty());
}

proof fn lemma_load_scan_capped(s: Seq<u8>, i: int, acc: Seq<ProgramHeader>)
    requires
        acc.len() <= MAX_LOAD_HEADERS,
    ensures
        load_scan(s, i, acc) matches Some(r) ==> r.len() <= MAX_LOAD_HEADERS,
    decreases elf_phnum(s) - i,
{
    if i < elf_phnum(s) {
        let o = ph_offset(s, i);
        if fits(s.len() as int, o, 4) {
            if ph_type(s, o) != PT_LOAD {
                lemma_load_scan_capped(s, i + 1, acc);
            } else if acc.len() < MAX_LOAD_HEADERS && fits(s.len() as int, o, PH_READ_SIZE as int) {
                lemma_load_scan_capped(s, i + 1, acc.push(ph_at(s, o)));
            }
        }
    }
}

/// How many loadable headers the program header table holds from the
/// `i`-th entry on.
pub open spec fn load_count(s: Seq<u8>, i: int) -> int
    decreases elf_phnum(s) - i,
{
    if i >= elf_phnum(s) {
        0
    } else {
        (if ph_type(s, ph_offset(s, i)) == PT_LOAD {
            1int
        } else {
            0int
        }) + load_count(s, i + 1)
    }
}

/// Every entry of the program header table lies inside the file.
pub open spec fn table_readable(s: Seq<u8>) -> bool {
    forall|i: int|
        0 <= i < elf_phnum(s) ==> fits(s.len() as int, #[trigger] ph_offset(s, i), PH_READ_SIZE as int)
}

proof fn lemma_load_scan_count(s: Seq<u8>, i: int, acc: Seq<ProgramHeader>)
    requires
        0 <= i,
        acc.len() <= MAX_LOAD_HEADERS,
        table_readable(s),
    ensures
        load_scan(s, i, acc) matches Some(r) && r.len() == if acc.len() + load_count(s, i)
            < MAX_LOAD_HEADERS {
            acc.len() + load_count(s, i)
        } else {
            MAX_LOAD_HEADERS as int
        },
    decreases elf_phnum(s) - i,
{
    if i < elf_phnum(s) {
        let o = ph_offset(s, i);
        assert(fits(s.len() as int, o, PH_READ_SIZE as int));
        if ph_type(s, o) != PT_LOAD {
            lemma_load_scan_count(s, i + 1, acc);
        } else if acc.len() < MAX_LOAD_HEADERS {
            lemma_load_scan_count(s, i + 1, acc.push(ph_at(s, o)));
        } else {
            lemma_load_count_nonneg(s, i + 1);
        }
    }
}

proof fn lemma_load_count_nonneg(s: Seq<u8>, i: int)
    ensures
        load_count(s, i) >= 0,
    decreases elf_phnum(s) - i,
{
    if i < elf_phnum(s) {
        lemma_load_count_nonneg(s, i + 1);
    }
}

/// Every loadable header of the table from the `i`-th entry on, in table order.
pub open spec fn all_load_headers(s: Seq<u8>, i: int) -> Seq<ProgramHeader>
    decreases elf_phnum(s) - i,
{
    if i >= elf_phnum(s) {
        seq![]
    } else if ph_type(s, ph_offset(s, i)) == PT_LOAD {
        seq![ph_at(s, ph_offset(s, i))] + all_load_headers(s, i + 1)
    } else {
        all_load_headers(s, i + 1)
    }
}

/// The first `MAX_LOAD_HEADERS` of `hs`, or all of them if there are fewer.
pub open spec fn first_eight(hs: Seq<ProgramHeader>) -> Seq<ProgramHeader> {
    if hs.len() < MAX_LOAD_HEADERS {
        hs
    } else {
        hs.take(MAX_LOAD_HEADERS as int)
    }
}

proof fn lemma_load_scan_first(s: Seq<u8>, i: int, acc: Seq<ProgramHeader>)
    requires
        0 <= i,
        acc.len() <= MAX_LOAD_HEADERS,
        table_readable(s),
    ensures
        load_scan(s, i, acc) == Some(first_eight(acc + all_load_headers(s, i))),
    decreases elf_phnum(s) - i,
{
    if i < elf_phnum(s) {
        let o = ph_offset(s, i);
        assert(fits(s.len() as int, o, PH_READ_SIZE as int));
        if ph_type(s, o) != PT_LOAD {
            lemma_load_scan_first(s, i + 1, acc);
        } else if acc.len() < MAX_LOAD_HEADERS {
            let next = acc.push(ph_at(s, o));
            lemma_load_scan_first(s, i + 1, next);
            assert(next + all_load_headers(s, i + 1) =~= acc + all_load_headers(s, i));
        } else {
            assert(first_eight(acc + all_load_headers(s, i)) =~= acc);
        }
    } else {
        assert(acc + all_load_headers(s, i) =~= acc);
    }
}

/// Where the whole program header table lies inside the file, the headers
/// kept are the first eight loadable ones in table order, each read as it
/// stands in the table; later ones are dropped.
pub proof fn lemma_first_eight_loads(s: Seq<u8>)
    requires
        table_readable(s),
    ensures
        elf_load_headers(s) == Some(first_eight(all_load_headers(s, 0))),
{
    lemma_load_scan_first(s, 0, seq![]);
    assert(seq![] + all_load_headers(s, 0) =~= all_load_headers(s, 0));
}

/// However many loadable segments a file has, at most eight headers are
/// kept; where the whole table lies inside the file, exactly as many as it
/// has loadable segments, up to eight.
pub proof fn lemma_load_headers_capped(s: Seq<u8>)
    ensures
        elf_load_headers(s) matches Some(r) ==> r.len() <= MAX_LOAD_HEADERS,
        table_readable(s) ==> (elf_load_headers(s) matches Some(r) && r.len() == if load_count(
            s,
            0,
        ) < MAX_LOAD_HEADERS {
            load_count(s, 0)
        } else {
            MAX_LOAD_HEADERS as int
        }),
{
    lemma_load_scan_capped(s, 0, seq![]);
    if table_readable(s) {
        lemma_load_scan_count(s, 0, seq![]);
    }
}

} // verus!
