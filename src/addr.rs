//! Sv39 virtual and physical addresses, page-table-entry flags and
//! page-table entries, with their bitfields stated as arithmetic.
use vstd::prelude::*;

verus! {

/// The offset of an address inside its page.
pub open spec fn offset_of(x: u64) -> u64 {
    (x % 4096) as u64
}

/// The index into the table of level `level` (0, 1 or 2) that an Sv39 virtual
/// address selects: bits `[12 + 9 * level, 21 + 9 * level)`.
pub open spec fn vpn_of(x: u64, level: nat) -> u64 {
    if level == 0 {
        ((x / 0x1000) % 512) as u64
    } else if level == 1 {
        ((x / 0x20_0000) % 512) as u64
    } else {
        ((x / 0x4000_0000) % 512) as u64
    }
}

/// A legal Sv39 virtual address: bits 63 to 38 are all equal.
pub open spec fn is_canonical(x: u64) -> bool {
    x / 0x40_0000_0000 == 0 || x / 0x40_0000_0000 == 0x3ff_ffff
}

/// The page that holds an address.
pub open spec fn page_of(x: u64) -> u64 {
    (x - x % 4096) as u64
}

/// The frame bits of a physical address: bits 12 to 55.
pub open spec fn frame_of(x: u64) -> u64 {
    (x % 0x100_0000_0000_0000 - x % 4096) as u64
}

/// The page-table entry that maps to the frame at `frame` with `flags`.
pub open spec fn pte_bits(frame: u64, flags: u64) -> u64 {
    ((frame >> 12u64) << 10u64) | flags
}

/// The address that a page-table entry points to.
pub open spec fn pte_frame(e: u64) -> u64 {
    (e >> 10u64) << 12u64
}

pub open spec fn bit_set(x: u64, mask: u64) -> bool {
    x & mask != 0
}

pub const V_FLAG: u64 = 1;
pub const R_FLAG: u64 = 2;
pub const W_FLAG: u64 = 4;
pub const X_FLAG: u64 = 8;
pub const U_FLAG: u64 = 16;

/// Bit facts behind the field accessors.
pub proof fn lemma_fields(x: u64)
    by (bit_vector)
    ensures
        x & 0xfff == x % 4096,
        (x & 0x1f_f000) >> 12u64 == (x / 0x1000) % 512,
        (x & 0x3fe0_0000) >> 21u64 == (x / 0x20_0000) % 512,
        (x & 0x7f_c000_0000) >> 30u64 == (x / 0x4000_0000) % 512,
        x & !0xfffu64 == x - x % 4096,
        x & 0xff_ffff_ffff_f000 == x % 0x100_0000_0000_0000 - x % 4096,
        (x & 0xffff_ffc0_0000_0000 == 0) == (x / 0x40_0000_0000 == 0),
        (x & 0xffff_ffc0_0000_0000 == 0xffff_ffc0_0000_0000) == (x / 0x40_0000_0000
            == 0x3ff_ffff),
        (x & 0xff_ffff_ffff_f000) % 4096 == 0,
        x & 0xff_ffff_ffff_f000 < 0x100_0000_0000_0000,
        ((x >> 10u64) << 12u64) % 4096 == 0,
{
}

/// Or-ing an offset into the frame address of an entry adds it.
pub proof fn lemma_or_offset(e: u64, o: u64)
    by (bit_vector)
    requires
        o < 4096,
    ensures
        ((e >> 10u64) << 12u64) | o == ((e >> 10u64) << 12u64) + o,
        ((e >> 10u64) << 12u64) + o <= u64::MAX,
{
}

/// An entry built from a page-aligned frame below 2^56 and flags below 2^10
/// gives back the frame and the flags.
pub proof fn lemma_pte_bits(frame: u64, flags: u64)
    requires
        frame % 4096 == 0,
        frame < 0x100_0000_0000_0000,
        flags < 1024,
    ensures
        pte_frame(pte_bits(frame, flags)) == frame,
        pte_bits(frame, flags) & 1 == flags & 1,
        pte_bits(frame, flags) & 2 == flags & 2,
        pte_bits(frame, flags) & 4 == flags & 4,
        pte_bits(frame, flags) & 8 == flags & 8,
        pte_bits(frame, flags) & 16 == flags & 16,
{
    assert(pte_frame(pte_bits(frame, flags)) == frame
        && pte_bits(frame, flags) & 1 == flags & 1
        && pte_bits(frame, flags) & 2 == flags & 2
        && pte_bits(frame, flags) & 4 == flags & 4
        && pte_bits(frame, flags) & 8 == flags & 8
        && pte_bits(frame, flags) & 16 == flags & 16) by (bit_vector)
        requires
            frame % 4096 == 0,
            frame < 0x100_0000_0000_0000,
            flags < 1024,
    ;
}

/// The flag bits of a page-table entry (V, R, W, X, U, G, A, D, RSW).
#[derive(Clone, Copy, Debug)]
pub struct PTEFlags(u64);

/// An Sv39 virtual address.
#[derive(Clone, Copy, Debug)]
pub struct VirtAddr(u64);

/// A physical address.
#[derive(Clone, Copy, Debug)]
pub struct PhysAddr(u64);

/// A 64-bit Sv39 page-table entry.
#[derive(Clone, Copy, Debug)]
pub struct PageTableEntry(u64);

impl View for PTEFlags {
    type V = u64;

    closed spec fn view(&self) -> u64 {
        self.0
    }
}

impl View for VirtAddr {
    type V = u64;

    closed spec fn view(&self) -> u64 {
        self.0
    }
}

impl View for PhysAddr {
    type V = u64;

    closed spec fn view(&self) -> u64 {
        self.0
    }
}

impl View for PageTableEntry {
    type V = u64;

    closed spec fn view(&self) -> u64 {
        self.0
    }
}

impl VirtAddr {
    pub fn from_raw(addr: u64) -> (r: Self)
        ensures
            r@ == addr,
    {
        VirtAddr(addr)
    }

    /// The offset inside the page.
    pub fn offset(&self) -> (r: u64)
        ensures
            r == offset_of(self@),
    {
        proof {
            lemma_fields(self.0);
        }
        self.0 & 0xfff
    }

    /// The index into the level-0 table.
    pub fn vpn0(&self) -> (r: u64)
        ensures
            r == vpn_of(self@, 0),
            r < 512,
    {
        proof {
            lemma_fields(self.0);
        }
        (self.0 & 0x1f_f000) >> 12
    }

    /// The index into the level-1 table.
    pub fn vpn1(&self) -> (r: u64)
        ensures
            r == vpn_of(self@, 1),
            r < 512,
    {
        proof {
            lemma_fields(self.0);
        }
        (self.0 & 0x3fe0_0000) >> 21
    }

    /// The index into the level-2 (root) table.
    pub fn vpn2(&self) -> (r: u64)
        ensures
            r == vpn_of(self@, 2),
            r < 512,
    {
        proof {
            lemma_fields(self.0);
        }
        (self.0 & 0x7f_c000_0000) >> 30
    }

    /// The index into the table of `level`.
    pub fn vpn(&self, level: crate::paging::PageTableLevel) -> (r: u64)
        ensures
            r == vpn_of(self@, level.spec_num()),
            r < 512,
    {
        match level {
            crate::paging::PageTableLevel::L2 => self.vpn2(),
            crate::paging::PageTableLevel::L1 => self.vpn1(),
            crate::paging::PageTableLevel::L0 => self.vpn0(),
        }
    }

    /// Whether bits 63 to 38 are all equal, as Sv39 demands.
    pub fn assert_valid(&self) -> (r: bool)
        ensures
            r == is_canonical(self@),
    {
        proof {
            lemma_fields(self.0);
        }
        let top = self.0 & 0xffff_ffc0_0000_0000;
        top == 0xffff_ffc0_0000_0000 || top == 0
    }

    pub fn as_u64(&self) -> (r: u64)
        ensures
            r == self@,
    {
        self.0
    }

    /// Clears the offset, leaving the page's address.
    pub fn round_down(&mut self)
        ensures
            final(self)@ == page_of(old(self)@),
    {
        proof {
            lemma_fields(self.0);
        }
        self.0 = self.0 & !0xfffu64;
    }
}

impl PhysAddr {
    pub fn from_raw(addr: u64) -> (r: Self)
        ensures
            r@ == addr,
    {
        PhysAddr(addr)
    }

    /// The offset inside the frame.
    pub fn offset(&self) -> (r: u64)
        ensures
            r == offset_of(self@),
    {
        proof {
            lemma_fields(self.0);
        }
        self.0 & 0xfff
    }

    /// The address of the frame: bits 12 to 55.
    pub fn frame_adrr(&self) -> (r: u64)
        ensures
            r == frame_of(self@),
    {
        proof {
            lemma_fields(self.0);
        }
        self.0 & 0xff_ffff_ffff_f000
    }

    pub fn as_u64(&self) -> (r: u64)
        ensures
            r == self@,
    {
        self.0
    }

    /// Clears the offset, leaving the frame's address.
    pub fn round_down(&mut self)
        ensures
            final(self)@ == page_of(old(self)@),
    {
        proof {
            lemma_fields(self.0);
        }
        self.0 = self.0 & !0xfffu64;
    }
}

/// A physical address below 2^56 is its frame address or-ed with its offset.
pub proof fn lemma_frame_offset_round_trip(x: u64)
    requires
        x < 0x100_0000_0000_0000,
    ensures
        frame_of(x) | offset_of(x) == x,
{
    assert((x % 0x100_0000_0000_0000 - x % 4096) as u64 | (x % 4096) as u64 == x) by (bit_vector)
        requires
            x < 0x100_0000_0000_0000,
    ;
}

impl PTEFlags {
    /// The flags with exactly these bits.
    pub fn from_bits(bits: u64) -> (r: Self)
        ensures
            r@ == bits,
    {
        PTEFlags(bits)
    }

    /// Only the valid bit.
    pub fn valid() -> (r: Self)
        ensures
            r@ == V_FLAG,
    {
        PTEFlags(V_FLAG)
    }

    /// The flags of an entry that points to the next table: valid, with no
    /// permission bits.
    pub fn redirect() -> (r: Self)
        ensures
            r@ == V_FLAG,
    {
        PTEFlags(V_FLAG)
    }

    pub fn readable(self) -> (r: Self)
        ensures
            r@ == self@ | R_FLAG,
    {
        PTEFlags(self.0 | R_FLAG)
    }

    pub fn writable(self) -> (r: Self)
        ensures
            r@ == self@ | W_FLAG,
    {
        PTEFlags(self.0 | W_FLAG)
    }

    pub fn executable(self) -> (r: Self)
        ensures
            r@ == self@ | X_FLAG,
    {
        PTEFlags(self.0 | X_FLAG)
    }

    /// Accessible from user mode.
    pub fn userable(self) -> (r: Self)
        ensures
            r@ == self@ | U_FLAG,
    {
        PTEFlags(self.0 | U_FLAG)
    }

    pub fn is_valid(&self) -> (r: bool)
        ensures
            r == bit_set(self@, V_FLAG),
    {
        (self.0 & V_FLAG) > 0
    }

    /// No permission bit: an entry with these flags points to another table.
    pub fn is_redirect(&self) -> (r: bool)
        ensures
            r == (!bit_set(self@, R_FLAG) && !bit_set(self@, W_FLAG) && !bit_set(self@, X_FLAG)),
    {
        !self.is_readable() && !self.is_writable() && !self.is_executable()
    }

    pub fn is_readable(&self) -> (r: bool)
        ensures
            r == bit_set(self@, R_FLAG),
    {
        (self.0 & R_FLAG) > 0
    }

    pub fn is_writable(&self) -> (r: bool)
        ensures
            r == bit_set(self@, W_FLAG),
    {
        (self.0 & W_FLAG) > 0
    }

    pub fn is_executable(&self) -> (r: bool)
        ensures
            r == bit_set(self@, X_FLAG),
    {
        (self.0 & X_FLAG) > 0
    }

    pub fn is_userable(&self) -> (r: bool)
        ensures
            r == bit_set(self@, U_FLAG),
    {
        (self.0 & U_FLAG) > 0
    }

    pub fn as_u64(&self) -> (r: u64)
        ensures
            r == self@,
    {
        self.0
    }
}

impl PageTableEntry {
    /// The entry with every bit clear.
    pub fn new_invalid() -> (r: Self)
        ensures
            r@ == 0,
    {
        PageTableEntry(0)
    }

    /// An entry pointing at the frame at address `frame`, with `flags`.
    pub fn new(frame: u64, flags: PTEFlags) -> (r: Self)
        ensures
            r@ == pte_bits(frame, flags@),
    {
        PageTableEntry(((frame >> 12) << 10) | flags.0)
    }

    pub fn from_raw(bits: u64) -> (r: Self)
        ensures
            r@ == bits,
    {
        PageTableEntry(bits)
    }

    pub fn is_valid(&self) -> (r: bool)
        ensures
            r == bit_set(self@, V_FLAG),
    {
        (self.0 & V_FLAG) > 0
    }

    pub fn is_readable(&self) -> (r: bool)
        ensures
            r == bit_set(self@, R_FLAG),
    {
        (self.0 & R_FLAG) > 0
    }

    pub fn is_writable(&self) -> (r: bool)
        ensures
            r == bit_set(self@, W_FLAG),
    {
        (self.0 & W_FLAG) > 0
    }

    pub fn is_executable(&self) -> (r: bool)
        ensures
            r == bit_set(self@, X_FLAG),
    {
        (self.0 & X_FLAG) > 0
    }

    pub fn is_userable(&self) -> (r: bool)
        ensures
            r == bit_set(self@, U_FLAG),
    {
        (self.0 & U_FLAG) > 0
    }

    /// No permission bit: the entry points to the next table.
    pub fn is_redirect(&self) -> (r: bool)
        ensures
            r == (!bit_set(self@, R_FLAG) && !bit_set(self@, W_FLAG) && !bit_set(self@, X_FLAG)),
    {
        !self.is_readable() && !self.is_executable() && !self.is_writable()
    }

    /// The page-aligned address that the entry points to.
    pub fn frame_addr(&self) -> (r: u64)
        ensures
            r == pte_frame(self@),
    {
        (self.0 >> 10) << 12
    }

    /// Points the entry at `frame_addr` with `flags`.
    pub fn set(&mut self, frame_addr: u64, flags: PTEFlags)
        ensures
            final(self)@ == pte_bits(frame_addr, flags@),
    {
        self.0 = ((frame_addr >> 12) << 10) | flags.0;
    }

    pub fn as_u64(&self) -> (r: u64)
        ensures
            r == self@,
    {
        self.0
    }
}

} // verus!
