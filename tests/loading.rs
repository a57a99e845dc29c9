use minikernel::elf::{parse_elf64, ProgramHeader};
use minikernel::loader::load_init_image;
use minikernel::reloc::{apply_relative_relocations, find_rela_table, write_le64};
use minikernel::ustar::find_file;

fn put16(b: &mut [u8], o: usize, v: u16) {
    b[o..o + 2].copy_from_slice(&v.to_le_bytes());
}

fn put32(b: &mut [u8], o: usize, v: u32) {
    b[o..o + 4].copy_from_slice(&v.to_le_bytes());
}

fn put64(b: &mut [u8], o: usize, v: u64) {
    b[o..o + 8].copy_from_slice(&v.to_le_bytes());
}

/// (type, offset, vaddr, filesz, memsz)
fn mk_elf(e_type: u16, entry: u64, segs: &[(u32, u64, u64, u64, u64)], len: usize) -> Vec<u8> {
    let mut b = vec![0u8; len];
    b[0..4].copy_from_slice(b"\x7fELF");
    b[4] = 2;
    b[5] = 1;
    put16(&mut b, 16, e_type);
    put64(&mut b, 24, entry);
    put64(&mut b, 32, 64);
    put16(&mut b, 54, 56);
    put16(&mut b, 56, segs.len() as u16);
    for (i, s) in segs.iter().enumerate() {
        let o = 64 + 56 * i;
        put32(&mut b, o, s.0);
        put64(&mut b, o + 8, s.1);
        put64(&mut b, o + 16, s.2);
        put64(&mut b, o + 32, s.3);
        put64(&mut b, o + 40, s.4);
    }
    b
}

fn seg(file_offset: usize, virt_addr: usize, file_size: usize, mem_size: usize) -> ProgramHeader {
    ProgramHeader { file_offset, virt_addr, file_size, mem_size, flags: 5 }
}

fn one(h: ProgramHeader) -> [Option<ProgramHeader>; 8] {
    let mut hs = [None; 8];
    hs[0] = Some(h);
    hs
}

const BASE: usize = 0x20_0000;

#[test]
fn single_segment_copies_and_zero_fills() {
    let n = 100;
    let k = 60;
    let src: Vec<u8> = (0..200u32).map(|i| (i % 251) as u8 + 1).collect();
    let mut src = src;
    put16(&mut src, 16, 2);
    let mut staging = vec![0xAAu8; 4096];
    let launch = load_init_image(&src, &one(seg(0, 0x1000, n, n + k)), 0x1010, &mut staging, BASE)
        .expect("loaded");
    assert_eq!(&staging[..n], &src[..n]);
    assert!(staging[n..n + k].iter().all(|&b| b == 0));
    assert!(staging[n + k..].iter().all(|&b| b == 0xAA));
    assert_eq!(launch - BASE, 0x1010 - 0x1000);
}

#[test]
fn entry_below_image_fails() {
    let mut src = vec![1u8; 64];
    put16(&mut src, 16, 2);
    let mut staging = vec![0u8; 4096];
    assert!(load_init_image(&src, &one(seg(0, 0x1000, 32, 32)), 0xfff, &mut staging, BASE).is_none());
}

#[test]
fn no_segments_fails() {
    let mut src = vec![1u8; 64];
    put16(&mut src, 16, 2);
    let mut staging = vec![0u8; 4096];
    assert!(load_init_image(&src, &[None; 8], 0x1000, &mut staging, BASE).is_none());
}

#[test]
fn empty_span_fails() {
    let mut src = vec![1u8; 64];
    put16(&mut src, 16, 2);
    let mut staging = vec![0u8; 4096];
    assert!(load_init_image(&src, &one(seg(0, 0x1000, 0, 0)), 0x1000, &mut staging, BASE).is_none());
}

#[test]
fn image_larger_than_staging_fails() {
    let mut src = vec![1u8; 64];
    put16(&mut src, 16, 2);
    let mut staging = vec![0u8; 4096];
    assert!(load_init_image(&src, &one(seg(0, 0x1000, 32, 4097)), 0x1000, &mut staging, BASE).is_none());
}

#[test]
fn segment_past_source_fails() {
    let mut src = vec![1u8; 64];
    put16(&mut src, 16, 2);
    let mut staging = vec![0u8; 4096];
    assert!(load_init_image(&src, &one(seg(32, 0x1000, 33, 64)), 0x1000, &mut staging, BASE).is_none());
}

#[test]
fn overflowing_segment_end_fails() {
    let mut src = vec![1u8; 64];
    put16(&mut src, 16, 2);
    let mut staging = vec![0u8; 4096];
    let h = seg(0, usize::MAX - 8, 4, 16);
    assert!(load_init_image(&src, &one(h), usize::MAX - 8, &mut staging, BASE).is_none());
}

/// A position-independent file: one LOAD segment covering the whole file at
/// address zero, a dynamic segment naming a table of one relocation.
fn pie_with_relocation(r_offset: u64, r_type: u64, addend: i64) -> Vec<u8> {
    let mut b = mk_elf(3, 0x10, &[(1, 0, 0, 0x400, 0x400), (2, 0x100, 0x100, 64, 64)], 0x400);
    put64(&mut b, 0x100, 7);
    put64(&mut b, 0x108, 0x200);
    put64(&mut b, 0x110, 8);
    put64(&mut b, 0x118, 24);
    put64(&mut b, 0x120, 9);
    put64(&mut b, 0x128, 24);
    put64(&mut b, 0x130, 0);
    put64(&mut b, 0x200, r_offset);
    put64(&mut b, 0x208, r_type);
    put64(&mut b, 0x210, addend as u64);
    b
}

#[test]
fn relative_relocation_writes_base_plus_addend() {
    let b = pie_with_relocation(0x300, 8, 0x1234);
    let img = parse_elf64(&b).expect("elf");
    let mut staging = vec![0u8; 0x1000];
    let launch = load_init_image(&b, &img.program_headers, img.entry, &mut staging, BASE).expect("loaded");
    assert_eq!(launch, BASE + 0x10);
    let expected = ((BASE + 0x1234) as u64).to_le_bytes();
    assert_eq!(&staging[0x300..0x308], &expected);
    assert_eq!(&staging[..0x300], &b[..0x300]);
    assert_eq!(&staging[0x308..0x400], &b[0x308..0x400]);
}

#[test]
fn other_relocation_types_are_skipped() {
    let b = pie_with_relocation(0x300, 1, 0x1234);
    let img = parse_elf64(&b).expect("elf");
    let mut staging = vec![0u8; 0x1000];
    assert!(load_init_image(&b, &img.program_headers, img.entry, &mut staging, BASE).is_some());
    assert_eq!(&staging[..0x400], &b[..]);
}

#[test]
fn relocation_outside_image_fails() {
    let b = pie_with_relocation(0x3fc, 8, 0);
    let img = parse_elf64(&b).expect("elf");
    let mut staging = vec![0x55u8; 0x1000];
    assert!(load_init_image(&b, &img.program_headers, img.entry, &mut staging, BASE).is_none());
    assert!(staging[0x400..].iter().all(|&b| b == 0x55));
}

#[test]
fn relocation_table_is_found() {
    let b = pie_with_relocation(0x300, 8, 0);
    let t = find_rela_table(&b).expect("table");
    assert_eq!((t.vaddr, t.size, t.ent), (0x200, 24, 24));
    let plain = mk_elf(3, 0, &[(1, 0, 0, 64, 64)], 0x100);
    let t = find_rela_table(&plain).expect("no dynamic segment");
    assert_eq!((t.vaddr, t.size, t.ent), (0, 0, 24));
}

#[test]
fn missing_relocation_table_is_a_no_op() {
    let plain = mk_elf(3, 0, &[(1, 0, 0, 64, 64)], 0x100);
    let mut staging = vec![9u8; 0x100];
    assert_eq!(apply_relative_relocations(&plain, &mut staging, BASE, 0, 0x100), Some(()));
    assert!(staging.iter().all(|&b| b == 9));
}

#[test]
fn little_endian_store() {
    let mut buf = vec![0u8; 12];
    write_le64(&mut buf, 2, 0x1122_3344_5566_7788);
    assert_eq!(buf, vec![0, 0, 0x88, 0x77, 0x66, 0x55, 0x44, 0x33, 0x22, 0x11, 0, 0]);
}

#[test]
fn archive_to_launch_end_to_end() {
    let code: [u8; 16] = [0x90; 16];
    let mut elf = mk_elf(
        2,
        0x401004,
        &[(1, 0x100, 0x401000, 16, 16), (1, 0x110, 0x402000, 0, 0x20)],
        0x110,
    );
    elf[0x100..0x110].copy_from_slice(&code);

    let mut tar = vec![0u8; 512];
    tar[..8].copy_from_slice(b"init.elf");
    let size = format!("{:011o}\0", elf.len());
    tar[124..136].copy_from_slice(size.as_bytes());
    tar.extend_from_slice(&elf);
    tar.resize(tar.len() + 1024 + (512 - elf.len() % 512), 0);

    let entry = find_file(&tar, "init.elf").expect("init.elf");
    let img = parse_elf64(entry.data).expect("elf");
    let mut staging = vec![0xEEu8; 0x2000];
    let launch = load_init_image(entry.data, &img.program_headers, img.entry, &mut staging, BASE)
        .expect("loaded");
    let image_size = 0x402020 - 0x401000;
    assert!(launch >= BASE && launch < BASE + image_size);
    assert_eq!(launch, BASE + 4);
    assert_eq!(&staging[..16], &code);
    assert!(staging[16..image_size].iter().all(|&b| b == 0));
}
