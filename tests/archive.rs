use minikernel::ustar::{find_file, parse_octal};

fn mk_header(name: &str, payload: &[u8]) -> [u8; 512] {
    let mut h = [0u8; 512];
    h[..name.len()].copy_from_slice(name.as_bytes());
    h[100..108].copy_from_slice(b"0000644\0");
    h[108..116].copy_from_slice(b"0000000\0");
    h[116..124].copy_from_slice(b"0000000\0");
    let size = format!("{:011o}\0", payload.len());
    h[124..136].copy_from_slice(size.as_bytes());
    h[257..263].copy_from_slice(b"ustar\0");
    h
}

fn push_entry(tar: &mut Vec<u8>, name: &str, payload: &[u8]) {
    tar.extend_from_slice(&mk_header(name, payload));
    tar.extend_from_slice(payload);
    let padded = (tar.len() + 511) / 512 * 512;
    tar.resize(padded, 0);
}

#[test]
fn finds_named_file() {
    let payload = b"hello";
    let mut tar = std::vec::Vec::new();
    tar.extend_from_slice(&mk_header("init.elf", payload));
    tar.extend_from_slice(payload);
    tar.resize(1024, 0);

    let e = find_file(&tar, "init.elf").expect("file");
    assert_eq!(e.data, payload);
}

#[test]
fn finds_entry_after_others() {
    let mut tar = Vec::new();
    push_entry(&mut tar, "readme", &[7u8; 600]);
    push_entry(&mut tar, "init.elf", b"payload bytes");
    tar.resize(tar.len() + 1024, 0);
    let e = find_file(&tar, "init.elf").expect("file");
    assert_eq!(e.name, "init.elf");
    assert_eq!(e.data, b"payload bytes");
    let r = find_file(&tar, "readme").expect("file");
    assert_eq!(r.data.len(), 600);
}

#[test]
fn missing_name_is_absent() {
    let mut tar = Vec::new();
    push_entry(&mut tar, "init.elf", b"hello");
    tar.resize(tar.len() + 1024, 0);
    assert!(find_file(&tar, "other.elf").is_none());
    assert!(find_file(&tar, "init").is_none());
}

#[test]
fn leading_zero_block_is_absent() {
    let mut tar = vec![0u8; 512];
    push_entry(&mut tar, "init.elf", b"hello");
    assert!(find_file(&tar, "init.elf").is_none());
}

#[test]
fn short_archive_is_absent() {
    let tar = mk_header("init.elf", b"");
    assert!(find_file(&tar[..511], "init.elf").is_none());
}

#[test]
fn payload_past_the_end_fails() {
    let mut tar = Vec::new();
    tar.extend_from_slice(&mk_header("init.elf", &[1u8; 100]));
    tar.extend_from_slice(&[1u8; 50]);
    assert!(find_file(&tar, "init.elf").is_none());
}

#[test]
fn name_that_is_not_utf8_ends_scan() {
    let mut tar = Vec::new();
    let mut h = mk_header("xx", b"");
    h[0] = 0xff;
    tar.extend_from_slice(&h);
    push_entry(&mut tar, "init.elf", b"hello");
    assert!(find_file(&tar, "init.elf").is_none());
}

#[test]
fn octal_size_field() {
    assert_eq!(parse_octal(b"00000000017\0"), Some(15));
    assert_eq!(parse_octal(b" 644 \0"), Some(420));
    assert_eq!(parse_octal(b"12x7"), Some(10));
    assert_eq!(parse_octal(b"\0\0 "), None);
    assert_eq!(parse_octal(b"9"), None);
    assert_eq!(parse_octal(b"777777777777"), Some(0o777777777777));
    assert_eq!(parse_octal(b"12\0 34"), Some(0o12));
    assert_eq!(parse_octal(b"12 34"), Some(0o12));
    assert_eq!(parse_octal(b"  \0017\0"), Some(0o17));
}
