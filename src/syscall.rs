//! The three system calls offered to the loaded program: write, read and
//! memmap. The kernel's shared state is passed in and updated explicitly;
//! the trap entry reads and writes the caller's memory around the call.
use vstd::prelude::*;
use vstd::utf8::valid_utf8;

use crate::mem::MemManager;
use crate::text::decode_utf8;

verus! {

pub const SYS_READ: u64 = 0;

pub const SYS_WRITE: u64 = 1;

pub const SYS_MEMMAP: u64 = 9;

pub const FD_STDIN: u64 = 0;

pub const FD_STDOUT: u64 = 1;

/// Returned for a descriptor that the call does not serve.
pub const EBADF: i64 = -9;

/// Returned when the memory pool cannot hold a request.
pub const ENOMEM: i64 = -12;

/// Returned for bytes that are not valid text.
pub const EINVAL: i64 = -22;

/// Returned for an unknown system call number.
pub const ENOSYS: i64 = -38;

/// Length of the line that every read answers with.
pub const CANNED_INPUT_LEN: usize = 18;

/// The line that every read answers with: `typed-from-kernel` and a newline.
pub open spec fn canned_line() -> Seq<u8> {
    seq![
        0x74u8, 0x79, 0x70, 0x65, 0x64, 0x2d, 0x66, 0x72, 0x6f, 0x6d, 0x2d, 0x6b, 0x65, 0x72,
        0x6e, 0x65, 0x6c, 0x0a,
    ]
}

/// What the caller of a system call makes of its return value: a negative
/// value is an error code, any other a count or an address.
pub fn decode_return(ret: i64) -> (r: Result<usize, isize>)
    ensures
        ret < 0 ==> r == Err::<usize, isize>(#[verifier::truncate] (ret as isize)),
        ret >= 0 ==> r == Ok::<usize, isize>(#[verifier::truncate] (ret as usize)),
{
    if ret < 0 {
        Err(#[verifier::truncate] (ret as isize))
    } else {
        Ok(#[verifier::truncate] (ret as usize))
    }
}

/// The bytes of the line that every read answers with.
pub fn canned_input() -> (r: [u8; 18])
    ensures
        r@ == canned_line(),
{
    let r: [u8; 18] = [
        0x74u8, 0x79, 0x70, 0x65, 0x64, 0x2d, 0x66, 0x72, 0x6f, 0x6d, 0x2d, 0x6b, 0x65, 0x72,
        0x6e, 0x65, 0x6c, 0x0a,
    ];
    assert(r@ =~= canned_line());
    r
}

/// What the system calls share: the memory pool of the program.
pub struct KernelState {
    pub mem: MemManager,
}

impl KernelState {
    /// An empty pool that starts at `pool_base`.
    pub fn new(pool_base: usize) -> (r: Self)
        requires
            pool_base % crate::mem::PAGE_SIZE == 0,
            pool_base + crate::mem::USER_MEM_POOL_SIZE <= usize::MAX,
        ensures
            r.mem.wf(),
            r.mem.base_addr() == pool_base,
            r.mem.cursor() == 0,
    {
        KernelState { mem: MemManager::new(pool_base) }
    }
}

/// The answer to one system call: the value returned to the caller, and
/// whether the caller's bytes are to be shown on the console.
#[derive(Clone, Copy, Debug, PartialEq, Eq, Structural)]
pub struct SyscallOutcome {
    pub ret: i64,
    pub echo: bool,
}

/// The return value of a memmap call on `mem` for `length` bytes.
pub open spec fn memmap_return(mem: MemManager, length: int) -> i64 {
    match mem.grant(length) {
        Some(a) => a as i64,
        None => ENOMEM,
    }
}

/// The number of bytes that a read into a buffer of `len` bytes receives.
pub open spec fn read_count(len: u64) -> int {
    if len < CANNED_INPUT_LEN {
        len as int
    } else {
        CANNED_INPUT_LEN as int
    }
}

/// Serves system call `nr` with arguments `arg0` (a descriptor, or the length
/// of a memmap) and `len`; `user` is the caller's buffer of `len` bytes. A
/// write shows the buffer's bytes when they are valid text; a read fills its
/// first bytes with the canned line.
pub fn syscall_dispatch(state: &mut KernelState, nr: u64, arg0: u64, len: u64, user: &mut [u8]) -> (r: SyscallOutcome)
    requires
        old(state).mem.wf(),
        (nr == SYS_WRITE && arg0 == FD_STDOUT) || (nr == SYS_READ && arg0 == FD_STDIN)
            ==> old(user)@.len() == len,
    ensures
        final(state).mem.wf(),
        final(state).mem.base_addr() == old(state).mem.base_addr(),
        r.echo == (nr == SYS_WRITE && arg0 == FD_STDOUT && valid_utf8(old(user)@)),
        nr == SYS_WRITE && arg0 == FD_STDOUT && valid_utf8(old(user)@) ==> r.ret
            == #[verifier::truncate] (len as i64),
        nr == SYS_WRITE && arg0 == FD_STDOUT && !valid_utf8(old(user)@) ==> r.ret == EINVAL,
        nr == SYS_WRITE && arg0 != FD_STDOUT ==> r.ret == EBADF,
        nr == SYS_READ && arg0 == FD_STDIN ==> r.ret == read_count(len) && final(user)@
            == canned_line().subrange(0, read_count(len)) + old(user)@.subrange(
            read_count(len),
            old(user)@.len() as int,
        ),
        nr == SYS_READ && arg0 != FD_STDIN ==> r.ret == EBADF,
        nr == SYS_MEMMAP ==> r.ret == memmap_return(
            old(state).mem,
            #[verifier::truncate] (arg0 as usize) as int,
        ) && final(state).mem.cursor() == old(state).mem.cursor_after(
            #[verifier::truncate] (arg0 as usize) as int,
        ),
        nr != SYS_MEMMAP ==> final(state).mem == old(state).mem,
        !(nr == SYS_READ && arg0 == FD_STDIN) ==> final(user)@ == old(user)@,
        nr != SYS_WRITE && nr != SYS_READ && nr != SYS_MEMMAP ==> r.ret == ENOSYS,
{
    if nr == SYS_WRITE {
        if arg0 != FD_STDOUT {
            return SyscallOutcome { ret: EBADF, echo: false };
        }
        if decode_utf8(user).is_none() {
            return SyscallOutcome { ret: EINVAL, echo: false };
        }
        SyscallOutcome { ret: #[verifier::truncate] (len as i64), echo: true }
    } else if nr == SYS_READ {
        if arg0 != FD_STDIN {
            return SyscallOutcome { ret: EBADF, echo: false };
        }
        let canned = canned_input();
        let n: usize = if len < CANNED_INPUT_LEN as u64 {
            len as usize
        } else {
            CANNED_INPUT_LEN
        };
        let ghost before = user@;
        let mut k: usize = 0;
        while k < n
            invariant
                n == read_count(len),
                n <= user@.len(),
                user@.len() == before.len(),
                state.mem == old(state).mem,
                canned@ == canned_line(),
                k <= n,
                forall|j: int|
                    0 <= j < user@.len() ==> #[trigger] user@[j] == if j < k {
                        canned_line()[j]
                    } else {
                        before[j]
                    },
            decreases n - k,
        {
            user[k] = canned[k];
            k = k + 1;
        }
        assert(user@ =~= canned_line().subrange(0, n as int) + before.subrange(n as int, before.len() as int));
        SyscallOutcome { ret: n as i64, echo: false }
    } else if nr == SYS_MEMMAP {
        let length = #[verifier::truncate] (arg0 as usize);
        let ret = match state.mem.memmap(length) {
            Some(addr) => #[verifier::truncate] (addr as i64),
            None => ENOMEM,
        };
        SyscallOutcome { ret, echo: false }
    } else {
        SyscallOutcome { ret: ENOSYS, echo: false }
    }
}

} // verus!
