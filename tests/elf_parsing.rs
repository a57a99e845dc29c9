use minikernel::bytes::{rd16, rd32, rd64};
use minikernel::elf::parse_elf64;

fn put16(b: &mut [u8], o: usize, v: u16) {
    b[o..o + 2].copy_from_slice(&v.to_le_bytes());
}

fn put32(b: &mut [u8], o: usize, v: u32) {
    b[o..o + 4].copy_from_slice(&v.to_le_bytes());
}

fn put64(b: &mut [u8], o: usize, v: u64) {
    b[o..o + 8].copy_from_slice(&v.to_le_bytes());
}

/// (type, offset, vaddr, filesz, memsz)
fn mk_elf(e_type: u16, entry: u64, segs: &[(u32, u64, u64, u64, u64)], len: usize) -> Vec<u8> {
    let mut b = vec![0u8; len];
    b[0..4].copy_from_slice(b"\x7fELF");
    b[4] = 2;
    b[5] = 1;
    put16(&mut b, 16, e_type);
    put64(&mut b, 24, entry);
    put64(&mut b, 32, 64);
    put16(&mut b, 54, 56);
    put16(&mut b, 56, segs.len() as u16);
    for (i, s) in segs.iter().enumerate() {
        let o = 64 + 56 * i;
        put32(&mut b, o, s.0);
        put32(&mut b, o + 4, 5);
        put64(&mut b, o + 8, s.1);
        put64(&mut b, o + 16, s.2);
        put64(&mut b, o + 32, s.3);
        put64(&mut b, o + 40, s.4);
    }
    b
}

#[test]
fn rejects_non_elf() {
    assert!(parse_elf64(b"nope").is_none());
}

#[test]
fn rejects_short_buffer_with_magic() {
    let full = mk_elf(2, 0x1000, &[], 64);
    assert!(parse_elf64(&full).is_some());
    assert!(parse_elf64(&full[..63]).is_none());
}

#[test]
fn rejects_bad_magic_class_and_encoding() {
    let mut b = mk_elf(2, 0x1000, &[], 64);
    b[1] = b'X';
    assert!(parse_elf64(&b).is_none());
    let mut b = mk_elf(2, 0x1000, &[], 64);
    b[4] = 1;
    assert!(parse_elf64(&b).is_none());
    let mut b = mk_elf(2, 0x1000, &[], 64);
    b[5] = 2;
    assert!(parse_elf64(&b).is_none());
}

#[test]
fn zero_segments_gives_empty_header_set() {
    let b = mk_elf(2, 0x4242, &[], 64);
    let img = parse_elf64(&b).expect("elf");
    assert_eq!(img.entry, 0x4242);
    assert!(img.program_headers.iter().all(|h| h.is_none()));
    assert_eq!(img.data, &b[..]);
}

#[test]
fn single_segment_round_trips() {
    let b = mk_elf(2, 0x1000, &[(1, 0x80, 0x1000, 0x30, 0x50)], 0x200);
    let img = parse_elf64(&b).expect("elf");
    let h = img.program_headers[0].expect("segment");
    assert_eq!(h.file_offset, 0x80);
    assert_eq!(h.virt_addr, 0x1000);
    assert_eq!(h.file_size, 0x30);
    assert_eq!(h.mem_size, 0x50);
    assert_eq!(h.flags, 5);
    assert!(img.program_headers[1..].iter().all(|h| h.is_none()));
}

#[test]
fn ninth_load_segment_is_dropped() {
    let segs: Vec<(u32, u64, u64, u64, u64)> =
        (0..10u64).map(|i| (1, i, 0x1000 * (i + 1), 1, 1)).collect();
    let b = mk_elf(2, 0x1000, &segs, 64 + 56 * 10);
    let img = parse_elf64(&b).expect("elf");
    for (i, h) in img.program_headers.iter().enumerate() {
        assert_eq!(h.expect("kept").virt_addr, 0x1000 * (i + 1));
    }
}

#[test]
fn non_load_segments_are_skipped() {
    let b = mk_elf(2, 0x1000, &[(2, 0, 0x9000, 1, 1), (1, 0, 0x1000, 1, 1)], 0x200);
    let img = parse_elf64(&b).expect("elf");
    assert_eq!(img.program_headers[0].expect("load").virt_addr, 0x1000);
    assert!(img.program_headers[1].is_none());
}

#[test]
fn truncated_program_header_table_fails() {
    let b = mk_elf(2, 0x1000, &[(1, 0, 0x1000, 1, 1)], 64 + 56);
    assert!(parse_elf64(&b).is_some());
    assert!(parse_elf64(&b[..64 + 40]).is_none());
}

#[test]
fn field_reads_are_little_endian_and_bounded() {
    let b = [0x01u8, 0x02, 0x03, 0x04, 0x05, 0x06, 0x07, 0x08, 0x09];
    assert_eq!(rd16(&b, 0), Some(0x0201));
    assert_eq!(rd32(&b, 1), Some(0x0504_0302));
    assert_eq!(rd64(&b, 1), Some(0x0908_0706_0504_0302));
    assert_eq!(rd16(&b, 8), None);
    assert_eq!(rd32(&b, 6), None);
    assert_eq!(rd64(&b, 2), None);
    assert_eq!(rd64(&b, usize::MAX), None);
}

#[test]
fn eight_load_segments_all_kept() {
    let segs: Vec<(u32, u64, u64, u64, u64)> =
        (0..8u64).map(|i| (1, i, 0x1000 * (i + 1), 1, 1)).collect();
    let b = mk_elf(2, 0x1000, &segs, 64 + 56 * 8);
    let img = parse_elf64(&b).expect("elf");
    assert!(img.program_headers.iter().all(|h| h.is_some()));
    assert_eq!(img.program_headers[7].expect("last").file_offset, 7);
}
