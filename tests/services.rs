use minikernel::idt::{syscall_idt, IdtEntry, IDT_LEN, SYSCALL_VECTOR};
use minikernel::mem::{MemManager, USER_MEM_POOL_SIZE};
use minikernel::syscall::{
    decode_return, syscall_dispatch, KernelState, EBADF, EINVAL, ENOMEM, ENOSYS, FD_STDIN, FD_STDOUT, SYS_MEMMAP,
    SYS_READ, SYS_WRITE,
};

const POOL: usize = 0x40_0000;

#[test]
fn sequential_pages_increase_without_overlap() {
    let mut m = MemManager::new(POOL);
    let mut last: Option<usize> = None;
    for _ in 0..8 {
        let a = m.memmap(4096).expect("page");
        assert_eq!(a % 4096, 0);
        if let Some(p) = last {
            assert!(a >= p + 4096);
        }
        last = Some(a);
    }
    assert_eq!(m.next_offset(), 8 * 4096);
}

#[test]
fn request_lengths_round_up_to_pages() {
    let mut m = MemManager::new(POOL);
    assert_eq!(m.memmap(1), Some(POOL));
    assert_eq!(m.memmap(4097), Some(POOL + 4096));
    assert_eq!(m.memmap(0), Some(POOL + 3 * 4096));
    assert_eq!(m.next_offset(), 3 * 4096);
}

#[test]
fn oversized_request_fails_and_keeps_cursor() {
    let mut m = MemManager::new(POOL);
    assert_eq!(m.memmap(4096), Some(POOL));
    assert_eq!(m.memmap(USER_MEM_POOL_SIZE), None);
    assert_eq!(m.next_offset(), 4096);
    assert_eq!(m.memmap(usize::MAX), None);
    assert_eq!(m.next_offset(), 4096);
    assert_eq!(m.memmap(4096), Some(POOL + 4096));
    assert_eq!(m.memmap(USER_MEM_POOL_SIZE - 2 * 4096), Some(POOL + 2 * 4096));
    assert_eq!(m.memmap(1), None);
}

#[test]
fn write_to_stdout_returns_length() {
    let mut st = KernelState::new(POOL);
    let mut text = "hello, kernel\n".as_bytes().to_vec();
    let r = syscall_dispatch(&mut st, SYS_WRITE, FD_STDOUT, text.len() as u64, &mut text);
    assert_eq!(r.ret, 14);
    assert!(r.echo);
    assert_eq!(text, "hello, kernel\n".as_bytes().to_vec());
}

#[test]
fn write_to_other_descriptor_fails() {
    let mut st = KernelState::new(POOL);
    for fd in [0u64, 2, 7] {
        let mut buf = b"hi".to_vec();
        let r = syscall_dispatch(&mut st, SYS_WRITE, fd, 2, &mut buf);
        assert!(r.ret < 0);
        assert_eq!(r.ret, EBADF);
        assert!(!r.echo);
    }
}

#[test]
fn write_of_invalid_text_fails() {
    let mut st = KernelState::new(POOL);
    let mut buf = vec![0xc3u8, 0x28];
    let r = syscall_dispatch(&mut st, SYS_WRITE, FD_STDOUT, 2, &mut buf);
    assert_eq!(r.ret, EINVAL);
    assert!(!r.echo);
}

#[test]
fn unknown_call_is_not_implemented() {
    let mut st = KernelState::new(POOL);
    assert_eq!(syscall_dispatch(&mut st, 60, 0, 0, &mut []).ret, ENOSYS);
    assert_eq!(syscall_dispatch(&mut st, 2, 1, 0, &mut []).ret, ENOSYS);
}

#[test]
fn read_returns_canned_line_truncated() {
    let mut st = KernelState::new(POOL);
    let mut buf = vec![b'#'; 64];
    assert_eq!(syscall_dispatch(&mut st, SYS_READ, FD_STDIN, 64, &mut buf).ret, 18);
    assert_eq!(&buf[..18], b"typed-from-kernel\n");
    assert!(buf[18..].iter().all(|&b| b == b'#'));
    let mut short = vec![b'#'; 5];
    assert_eq!(syscall_dispatch(&mut st, SYS_READ, FD_STDIN, 5, &mut short).ret, 5);
    assert_eq!(short, b"typed".to_vec());
    let mut other = vec![b'#'; 5];
    assert_eq!(syscall_dispatch(&mut st, SYS_READ, FD_STDOUT, 5, &mut other).ret, EBADF);
    assert_eq!(other, vec![b'#'; 5]);
}

#[test]
fn memmap_call_uses_pool() {
    let mut st = KernelState::new(POOL);
    assert_eq!(syscall_dispatch(&mut st, SYS_MEMMAP, 100, 0, &mut []).ret, POOL as i64);
    assert_eq!(syscall_dispatch(&mut st, SYS_MEMMAP, 100, 0, &mut []).ret, (POOL + 4096) as i64);
    assert_eq!(
        syscall_dispatch(&mut st, SYS_MEMMAP, USER_MEM_POOL_SIZE as u64, 0, &mut []).ret,
        ENOMEM
    );
}

#[test]
fn gate_descriptor_fields() {
    let mut e = IdtEntry::missing();
    e.set(0x1234_5678_9abc_def0, 3, 0x28);
    assert_eq!(e.off1, 0xdef0);
    assert_eq!(e.off2, 0x9abc);
    assert_eq!(e.off3, 0x1234_5678);
    assert_eq!(e.sel, 0x28);
    assert_eq!(e.attrs, 0xEE);
    assert_eq!(e.ist, 0);
    assert_eq!(e.zero, 0);
}

#[test]
fn table_has_only_the_syscall_gate() {
    let t = syscall_idt(0xffff_8000_0010_2030, 0x08);
    assert_eq!(t.len(), IDT_LEN);
    for (v, e) in t.iter().enumerate() {
        if v == SYSCALL_VECTOR {
            assert_eq!(e.off1, 0x2030);
            assert_eq!(e.off2, 0x0010);
            assert_eq!(e.off3, 0xffff_8000);
            assert_eq!(e.attrs, 0xEE);
        } else {
            assert_eq!(*e, IdtEntry::missing());
        }
    }
}

#[test]
fn return_values_decode() {
    assert_eq!(decode_return(18), Ok(18));
    assert_eq!(decode_return(0), Ok(0));
    assert_eq!(decode_return(-38), Err(-38));
}
