//! Places the loadable segments of an executable in a staging buffer,
//! relocates position-independent images, and computes the launch address.
use vstd::prelude::*;

use crate::bytes::{le_uint, rd16};
use crate::elf::ProgramHeader;
use crate::reloc::{apply_relative_relocations, relocated};

verus! {

/// Capacity of the staging buffer that the kernel reserves for the program.
pub const INIT_LOAD_BUF_SIZE: usize = 2 * 1024 * 1024;

/// ELF type of a position-independent executable.
pub const ET_DYN: u16 = 3;

/// The lowest segment address among the first `n` slots; `usize::MAX` if none.
pub open spec fn image_min(hs: Seq<Option<ProgramHeader>>, n: int) -> int
    decreases n,
{
    if n <= 0 {
        usize::MAX as int
    } else {
        let m = image_min(hs, n - 1);
        match hs[n - 1] {
            Some(h) => if (h.virt_addr as int) < m {
                h.virt_addr as int
            } else {
                m
            },
            None => m,
        }
    }
}

/// The highest segment end among the first `n` slots; `0` if none.
pub open spec fn image_end(hs: Seq<Option<ProgramHeader>>, n: int) -> int
    decreases n,
{
    if n <= 0 {
        0
    } else {
        let m = image_end(hs, n - 1);
        match hs[n - 1] {
            Some(h) => if h.virt_addr + h.mem_size > m {
                h.virt_addr + h.mem_size
            } else {
                m
            },
            None => m,
        }
    }
}

/// No segment among the first `n` slots ends past the address space.
pub open spec fn ends_fit(hs: Seq<Option<ProgramHeader>>, n: int) -> bool {
    forall|j: int|
        0 <= j < n ==> (#[trigger] hs[j] matches Some(h) ==> h.virt_addr + h.mem_size
            <= usize::MAX)
}

/// The segment can be copied from a file of `src_len` bytes into an image of
/// `size` bytes that starts at address `min`.
pub open spec fn seg_ok(h: ProgramHeader, src_len: int, min: int, size: int) -> bool {
    &&& h.file_offset + h.file_size <= src_len
    &&& h.virt_addr - min + h.file_size <= size
    &&& h.virt_addr - min + h.mem_size <= size
}

pub open spec fn segs_ok(hs: Seq<Option<ProgramHeader>>, src_len: int, min: int, size: int) -> bool {
    forall|j: int|
        0 <= j < hs.len() ==> (#[trigger] hs[j] matches Some(h) ==> seg_ok(h, src_len, min, size))
}

/// `buf` with the segment `h` of `src` placed: its file bytes, then zeros up
/// to its memory size.
pub open spec fn place(buf: Seq<u8>, src: Seq<u8>, h: ProgramHeader, min: int) -> Seq<u8> {
    let dst = h.virt_addr - min;
    Seq::new(
        buf.len(),
        |k: int|
            if dst <= k < dst + h.file_size {
                src[h.file_offset + (k - dst)]
            } else if dst + h.file_size <= k < dst + h.mem_size {
                0u8
            } else {
                buf[k]
            },
    )
}

/// `buf` with the segments of the first `n` slots placed in slot order.
pub open spec fn staged(buf: Seq<u8>, src: Seq<u8>, hs: Seq<Option<ProgramHeader>>, n: int, min: int) -> Seq<u8>
    decreases n,
{
    if n <= 0 {
        buf
    } else {
        let b = staged(buf, src, hs, n - 1, min);
        match hs[n - 1] {
            Some(h) => place(b, src, h, min),
            None => b,
        }
    }
}

/// `buf` with its first `size` bytes zeroed.
pub open spec fn zero_prefix(buf: Seq<u8>, size: int) -> Seq<u8> {
    Seq::new(buf.len(), |k: int| if k < size { 0u8 } else { buf[k] })
}

/// The image staged from `src` in `buf`, relocated where the file is
/// position-independent; `None` where relocation fails.
pub open spec fn load_result(src: Seq<u8>, hs: Seq<Option<ProgramHeader>>, buf: Seq<u8>, base: int) -> Option<Seq<u8>> {
    let min = image_min(hs, 8);
    let size = image_end(hs, 8) - min;
    let placed = staged(zero_prefix(buf, size), src, hs, 8, min);
    if le_uint(src, 16, 2) == ET_DYN {
        relocated(src, placed, base, size, min)
    } else {
        Some(placed)
    }
}

/// Every check of the load passes, but for the relocation.
pub open spec fn load_accepts(src: Seq<u8>, hs: Seq<Option<ProgramHeader>>, entry: int, cap: int, base: int) -> bool {
    let min = image_min(hs, 8);
    let max = image_end(hs, 8);
    &&& ends_fit(hs, 8)
    &&& min != usize::MAX
    &&& max > min
    &&& max - min <= cap
    &&& segs_ok(hs, src.len() as int, min, max - min)
    &&& src.len() >= 18
    &&& entry >= min
    &&& base + (entry - min) <= usize::MAX
}

proof fn lemma_min_max(hs: Seq<Option<ProgramHeader>>, n: int)
    requires
        0 <= n <= hs.len(),
    ensures
        forall|j: int|
            0 <= j < n ==> (#[trigger] hs[j] matches Some(h) ==> image_min(hs, n) <= h.virt_addr
                && h.virt_addr + h.mem_size <= image_end(hs, n)),
        0 <= image_end(hs, n),
        image_min(hs, n) <= usize::MAX,
    decreases n,
{
    if n > 0 {
        lemma_min_max(hs, n - 1);
    }
}

/// The lowest segment address and the highest segment end, or `None` where a
/// segment ends past the address space.
fn image_span(headers: &[Option<ProgramHeader>; 8]) -> (r: Option<(usize, usize)>)
    ensures
        r is Some <==> ends_fit(headers@, 8),
        r matches Some(p) ==> p.0 == image_min(headers@, 8) && p.1 == image_end(headers@, 8),
{
    let mut lo: usize = usize::MAX;
    let mut hi: usize = 0;
    let mut j: usize = 0;
    while j < 8
        invariant
            j <= 8,
            headers@.len() == 8,
            lo == image_min(headers@, j as int),
            hi == image_end(headers@, j as int),
            ends_fit(headers@, j as int),
        decreases 8 - j,
    {
        if let Some(h) = headers[j] {
            if h.mem_size > usize::MAX - h.virt_addr {
                return None;
            }
            if h.virt_addr < lo {
                lo = h.virt_addr;
            }
            if h.virt_addr + h.mem_size > hi {
                hi = h.virt_addr + h.mem_size;
            }
        }
        j = j + 1;
    }
    Some((lo, hi))
}

fn zero_fill(staging: &mut [u8], size: usize)
    requires
        size <= old(staging)@.len(),
    ensures
        final(staging)@ == zero_prefix(old(staging)@, size as int),
{
    let ghost before = staging@;
    let mut k: usize = 0;
    while k < size
        invariant
            size <= staging@.len(),
            k <= size,
            staging@.len() == before.len(),
            forall|j: int|
                0 <= j < staging@.len() ==> #[trigger] staging@[j] == if j < k {
                    0u8
                } else {
                    before[j]
                },
        decreases size - k,
    {
        staging[k] = 0;
        k = k + 1;
    }
    assert(staging@ =~= zero_prefix(before, size as int));
}

/// Copies the segment `h` into the image of `size` bytes, then zero-fills it
/// up to its memory size; fails, having written nothing, when it does not fit.
fn place_segment(src: &[u8], h: ProgramHeader, staging: &mut [u8], min: usize, size: usize) -> (ok: bool)
    requires
        min <= h.virt_addr,
        size <= old(staging)@.len(),
    ensures
        ok == seg_ok(h, src@.len() as int, min as int, size as int),
        ok ==> final(staging)@ == place(old(staging)@, src@, h, min as int),
        !ok ==> final(staging)@ == old(staging)@,
        forall|k: int| size <= k < old(staging)@.len() ==> #[trigger] final(staging)@[k] == old(staging)@[k],
{
    if h.file_size > src.len() || h.file_offset > src.len() - h.file_size {
        return false;
    }
    let dst = h.virt_addr - min;
    if dst > size || h.file_size > size - dst || h.mem_size > size - dst {
        return false;
    }
    let ghost before = staging@;
    let mut k: usize = 0;
    while k < h.file_size
        invariant
            size <= staging@.len(),
            staging@.len() == before.len(),
            dst + h.file_size <= size,
            h.file_offset + h.file_size <= src.len(),
            k <= h.file_size,
            forall|j: int|
                0 <= j < staging@.len() ==> #[trigger] staging@[j] == if dst <= j < dst + k {
                    src@[h.file_offset + (j - dst)]
                } else {
                    before[j]
                },
        decreases h.file_size - k,
    {
        staging[dst + k] = src[h.file_offset + k];
        k = k + 1;
    }
    let mut k: usize = h.file_size;
    while k < h.mem_size
        invariant
            size <= staging@.len(),
            staging@.len() == before.len(),
            dst + h.mem_size <= size,
            h.file_size <= k,
            k <= h.mem_size || k == h.file_size,
            h.file_offset + h.file_size <= src@.len(),
            forall|j: int|
                0 <= j < staging@.len() ==> #[trigger] staging@[j] == if dst <= j < dst
                    + h.file_size {
                    src@[h.file_offset + (j - dst)]
                } else if dst + h.file_size <= j < dst + k {
                    0u8
                } else {
                    before[j]
                },
        decreases h.mem_size - k,
    {
        staging[dst + k] = 0;
        k = k + 1;
    }
    assert(staging@ =~= place(before, src@, h, min as int));
    true
}

/// Loads the executable `bytes`, whose loadable segments are `headers` and
/// whose entry point is `entry`, into `staging`, a buffer that lies at
/// address `staging_base`. Segments are placed relative to the lowest
/// segment address; the unused parts of the image are zero; a
/// position-independent image is relocated. Returns the launch address.
pub fn load_init_image(
    bytes: &[u8],
    headers: &[Option<ProgramHeader>; 8],
    entry: usize,
    staging: &mut [u8],
    staging_base: usize,
) -> (r: Option<usize>)
    ensures
        r is Some <==> load_accepts(bytes@, headers@, entry as int, old(staging)@.len() as int, staging_base as int)
            && load_result(bytes@, headers@, old(staging)@, staging_base as int) is Some,
        r matches Some(a) ==> a == staging_base + (entry - image_min(headers@, 8)),
        r is Some ==> final(staging)@ == load_result(bytes@, headers@, old(staging)@, staging_base as int)->0,
        final(staging)@.len() == old(staging)@.len(),
        forall|k: int|
            image_end(headers@, 8) - image_min(headers@, 8) <= k < old(staging)@.len()
                ==> #[trigger] final(staging)@[k] == old(staging)@[k],
{
    let ghost hs = headers@;
    let (min_vaddr, max_vaddr) = match image_span(headers) {
        Some(p) => p,
        None => return None,
    };
    if min_vaddr == usize::MAX || max_vaddr <= min_vaddr {
        return None;
    }
    let image_size = max_vaddr - min_vaddr;
    if image_size > staging.len() {
        return None;
    }
    proof {
        lemma_min_max(hs, 8);
    }
    zero_fill(staging, image_size);
    let ghost zeroed = staging@;
    assert(forall|k: int| image_size <= k < zeroed.len() ==> #[trigger] staging@[k] == old(staging)@[k]);
    let mut j: usize = 0;
    while j < 8
        invariant
            j <= 8,
            hs == headers@,
            hs.len() == 8,
            min_vaddr == image_min(hs, 8),
            image_size == image_end(hs, 8) - image_min(hs, 8),
            image_size <= staging@.len(),
            staging@.len() == zeroed.len(),
            zeroed.len() == old(staging)@.len(),
            forall|k: int| image_size <= k < zeroed.len() ==> #[trigger] staging@[k] == old(staging)@[k],
            forall|i: int|
                0 <= i < 8 ==> (#[trigger] hs[i] matches Some(h) ==> min_vaddr <= h.virt_addr),
            segs_ok(hs.subrange(0, j as int), bytes@.len() as int, min_vaddr as int, image_size as int),
            staging@ == staged(zeroed, bytes@, hs, j as int, min_vaddr as int),
        decreases 8 - j,
    {
        if let Some(h) = headers[j] {
            if !place_segment(bytes, h, staging, min_vaddr, image_size) {
                assert(hs[j as int] == Some(h));
                assert(!segs_ok(hs, bytes@.len() as int, min_vaddr as int, image_size as int));
                return None;
            }
        }
        assert(hs.subrange(0, j + 1).subrange(0, j as int) =~= hs.subrange(0, j as int));
        j = j + 1;
    }
    assert(hs.subrange(0, 8) =~= hs);
    let e_type = match rd16(bytes, 16) {
        Some(v) => v,
        None => return None,
    };
    if e_type == ET_DYN {
        if apply_relative_relocations(bytes, staging, staging_base, min_vaddr, image_size).is_none() {
            return None;
        }
    }
    if entry < min_vaddr || entry - min_vaddr > usize::MAX - staging_base {
        return None;
    }
    Some(staging_base + (entry - min_vaddr))
}

} // verus!

verus! {

/// Where an image of one segment, at file offset zero and address `0x1000`,
/// with `n` file bytes and `k` more bytes of memory, loads without
/// relocation: the image starts at that address, opens with the segment's
/// file bytes, and continues with `k` zero bytes.
pub proof fn lemma_single_segment_image(
    src: Seq<u8>,
    hs: Seq<Option<ProgramHeader>>,
    buf: Seq<u8>,
    base: int,
    n: int,
    k: int,
)
    requires
        hs.len() == 8,
        hs[0] matches Some(h) && h.file_offset == 0 && h.virt_addr == 0x1000 && h.file_size == n
            && h.mem_size == n + k,
        forall|j: int| 1 <= j < 8 ==> #[trigger] hs[j] is None,
        0 <= n,
        0 <= k,
        n + k <= buf.len(),
        n <= src.len(),
        le_uint(src, 16, 2) != ET_DYN,
    ensures
        image_min(hs, 8) == 0x1000,
        load_result(src, hs, buf, base) matches Some(img) ==> {
            &&& img.subrange(0, n) == src.subrange(0, n)
            &&& forall|j: int| n <= j < n + k ==> #[trigger] img[j] == 0
        },
{
    reveal_with_fuel(image_min, 9);
    reveal_with_fuel(image_end, 9);
    reveal_with_fuel(staged, 9);
    let size = image_end(hs, 8) - image_min(hs, 8);
    let z = zero_prefix(buf, size);
    let h = hs[0]->0;
    assert(staged(z, src, hs, 8, 0x1000) == place(z, src, h, 0x1000));
    let img = place(z, src, h, 0x1000);
    assert(img.subrange(0, n) =~= src.subrange(0, n));
}

/// A launch address taken from an entry point inside the image lies inside
/// the staged image.
pub proof fn lemma_launch_inside_image(hs: Seq<Option<ProgramHeader>>, entry: int, base: int)
    requires
        image_min(hs, 8) <= entry < image_end(hs, 8),
    ensures
        base <= base + (entry - image_min(hs, 8)) < base + (image_end(hs, 8) - image_min(hs, 8)),
{
}

} // verus!

verus! {

/// An image of a code segment and, above it, a data segment with no file
/// bytes: the image spans from the code's address to the data's end, the
/// data segment is all zero after a load without relocation, and an entry
/// point inside the code gives a launch address inside the staged image.
pub proof fn lemma_code_and_data_image(
    src: Seq<u8>,
    hs: Seq<Option<ProgramHeader>>,
    buf: Seq<u8>,
    base: int,
    entry: int,
)
    requires
        hs.len() == 8,
        hs[0] matches Some(c) && c.file_size <= c.mem_size,
        hs[1] matches Some(d) && d.file_size == 0 && d.mem_size > 0 && hs[0]->0.virt_addr
            + hs[0]->0.mem_size <= d.virt_addr,
        forall|j: int| 2 <= j < 8 ==> #[trigger] hs[j] is None,
        ends_fit(hs, 8),
        hs[0]->0.virt_addr <= entry < hs[0]->0.virt_addr + hs[0]->0.mem_size,
        le_uint(src, 16, 2) != ET_DYN,
    ensures
        image_min(hs, 8) == hs[0]->0.virt_addr,
        image_end(hs, 8) == hs[1]->0.virt_addr + hs[1]->0.mem_size,
        base <= base + (entry - image_min(hs, 8)) < base + (image_end(hs, 8) - image_min(hs, 8)),
        load_result(src, hs, buf, base) matches Some(img) ==> forall|j: int|
            hs[1]->0.virt_addr - hs[0]->0.virt_addr <= j < hs[1]->0.virt_addr + hs[1]->0.mem_size
                - hs[0]->0.virt_addr && j < buf.len() ==> #[trigger] img[j] == 0,
{
    reveal_with_fuel(image_min, 9);
    reveal_with_fuel(image_end, 9);
    reveal_with_fuel(staged, 9);
    let c = hs[0]->0;
    let d = hs[1]->0;
    assert(hs[0] == Some(c));
    assert(hs[1] == Some(d));
    assert(d.virt_addr + d.mem_size <= usize::MAX);
    let min = image_min(hs, 8);
    let size = image_end(hs, 8) - min;
    let z = zero_prefix(buf, size);
    assert(staged(z, src, hs, 8, min) == place(place(z, src, c, min), src, d, min));
}

} // verus!
