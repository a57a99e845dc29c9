//! Interrupt descriptor table entries: one trap gate for system calls, every
//! other vector left unhandled.
use vstd::prelude::*;

verus! {

/// Number of vectors in the table.
pub const IDT_LEN: usize = 256;

/// The vector that system calls trap through.
pub const SYSCALL_VECTOR: usize = 0x80;

/// One 16-byte interrupt descriptor.
#[derive(Clone, Copy, Debug, PartialEq, Eq, Structural)]
pub struct IdtEntry {
    pub off1: u16,
    pub sel: u16,
    pub ist: u8,
    pub attrs: u8,
    pub off2: u16,
    pub off3: u32,
    pub zero: u32,
}

impl IdtEntry {
    /// The descriptor of an unhandled vector: all fields zero.
    pub open spec fn is_missing(&self) -> bool {
        self.off1 == 0 && self.sel == 0 && self.ist == 0 && self.attrs == 0 && self.off2 == 0
            && self.off3 == 0 && self.zero == 0
    }

    /// A present 64-bit interrupt gate to `addr` through code segment
    /// `selector`, callable from privilege level `dpl`.
    pub open spec fn is_gate(&self, addr: u64, dpl: u8, selector: u16) -> bool {
        &&& self.off1 as int == addr as int % 0x1_0000
        &&& self.off2 as int == (addr as int / 0x1_0000) % 0x1_0000
        &&& self.off3 as int == addr as int / 0x1_0000_0000
        &&& self.sel == selector
        &&& self.ist == 0
        &&& self.attrs as int == 0x8E + 32 * (dpl as int % 4)
        &&& self.zero == 0
    }

    /// The handler address that the descriptor points to.
    pub open spec fn handler(&self) -> int {
        self.off1 + 0x1_0000 * self.off2 + 0x1_0000_0000 * self.off3
    }

    pub fn missing() -> (r: Self)
        ensures
            r.is_missing(),
    {
        IdtEntry { off1: 0, sel: 0, ist: 0, attrs: 0, off2: 0, off3: 0, zero: 0 }
    }

    /// Makes this descriptor a gate to `addr`.
    pub fn set(&mut self, addr: u64, dpl: u8, selector: u16)
        ensures
            final(self).is_gate(addr, dpl, selector),
    {
        self.off1 = addr as u16;
        self.sel = selector;
        self.ist = 0;
        self.attrs = 0x8E | ((dpl & 0x3) << 5);
        self.off2 = (addr >> 16) as u16;
        self.off3 = (addr >> 32) as u32;
        self.zero = 0;
        proof {
            let a = addr;
            let d = dpl;
            assert((a as u16) as u64 == a % 0x1_0000) by (bit_vector);
            assert(((a >> 16u64) as u16) as u64 == (a / 0x1_0000) % 0x1_0000) by (bit_vector);
            assert(((a >> 32u64) as u32) as u64 == a / 0x1_0000_0000) by (bit_vector);
            assert(0x8Eu8 | ((d & 0x3u8) << 5u8) == 0x8Eu8 + 32u8 * (d % 4u8)) by (bit_vector);
        }
    }
}

/// A gate's three offset fields give back the whole handler address.
pub proof fn lemma_gate_handler(e: IdtEntry, addr: u64, dpl: u8, selector: u16)
    requires
        e.is_gate(addr, dpl, selector),
    ensures
        e.handler() == addr,
{
    let a = addr as int;
    assert(a == a % 0x1_0000 + 0x1_0000 * ((a / 0x1_0000) % 0x1_0000) + 0x1_0000_0000 * (a
        / 0x1_0000_0000)) by (nonlinear_arith)
        requires
            0 <= a,
    ;
}

/// The table that the kernel installs: a gate to `handler` for system calls,
/// callable from user mode, and nothing on any other vector.
pub fn syscall_idt(handler: u64, selector: u16) -> (r: [IdtEntry; IDT_LEN])
    ensures
        r@.len() == IDT_LEN,
        r@[SYSCALL_VECTOR as int].is_gate(handler, 3, selector),
        forall|v: int| 0 <= v < IDT_LEN && v != SYSCALL_VECTOR ==> #[trigger] r@[v].is_missing(),
{
    let mut table = [IdtEntry::missing(); IDT_LEN];
    let mut gate = IdtEntry::missing();
    gate.set(handler, 3, selector);
    table[SYSCALL_VECTOR] = gate;
    table
}

} // verus!
