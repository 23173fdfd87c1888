use kernel::addr::{PTEFlags, PageTableEntry, PhysAddr, VirtAddr};
use kernel::paging::{make_satp, zerod_frame, PageTableLevel};
use kernel::param::{
    boot_stack_top, context_id, mtimecmp_addr, plic_claim_addr, plic_claimed, plic_enable_addr,
    plic_enable_mask, plic_priority, plic_threshold_addr, PLIC_SCLAIM, PLIC_SENABLE, PLIC_SPRIORITY,
};

#[test]
fn virt_addr_fields() {
    let va = VirtAddr::from_raw(0x0000_0040_2030_4567);
    assert_eq!(va.offset(), 0x567);
    assert_eq!(va.vpn0(), (0x0000_0040_2030_4567u64 >> 12) & 0x1ff);
    assert_eq!(va.vpn1(), (0x0000_0040_2030_4567u64 >> 21) & 0x1ff);
    assert_eq!(va.vpn2(), (0x0000_0040_2030_4567u64 >> 30) & 0x1ff);
    assert_eq!(va.vpn(PageTableLevel::L0), va.vpn0());
    assert_eq!(va.vpn(PageTableLevel::L1), va.vpn1());
    assert_eq!(va.vpn(PageTableLevel::L2), va.vpn2());
    assert_eq!(va.as_u64(), 0x0000_0040_2030_4567);
}

#[test]
fn virt_addr_canonical() {
    assert!(VirtAddr::from_raw(0x3f_ffff_ffff).assert_valid());
    assert!(VirtAddr::from_raw(0xffff_ffc0_0000_0000).assert_valid());
    assert!(!VirtAddr::from_raw(0x40_0000_0000).assert_valid());
    assert!(!VirtAddr::from_raw(0x8000_0000_0000_0000).assert_valid());
}

#[test]
fn round_down_clears_offset() {
    let mut va = VirtAddr::from_raw(0x8000_1234);
    va.round_down();
    assert_eq!(va.as_u64(), 0x8000_1000);
    let mut pa = PhysAddr::from_raw(0x8000_1fff);
    pa.round_down();
    assert_eq!(pa.as_u64(), 0x8000_1000);
}

#[test]
fn phys_frame_and_offset_round_trip() {
    for x in [0u64, 0x8000_0000, 0x8765_4321, 0x00ff_ffff_ffff_ffff, 0x1000, 0xfff] {
        let pa = PhysAddr::from_raw(x);
        assert!(pa.offset() < 4096);
        assert_eq!(pa.frame_adrr() | pa.offset(), x);
    }
}

#[test]
fn phys_frame_drops_bits_above_55() {
    let pa = PhysAddr::from_raw(0xff00_0000_8000_1234);
    assert_eq!(pa.frame_adrr(), 0x8000_1000);
    assert_eq!(pa.offset(), 0x234);
}

#[test]
fn pte_flags_builders() {
    let f = PTEFlags::valid().readable().writable();
    assert_eq!(f.as_u64(), 7);
    assert!(f.is_valid() && f.is_readable() && f.is_writable() && !f.is_executable());
    assert!(!f.is_redirect());
    let x = PTEFlags::valid().readable().executable().userable();
    assert_eq!(x.as_u64(), 27);
    assert!(x.is_userable());
    assert!(PTEFlags::redirect().is_redirect());
    assert!(PTEFlags::redirect().is_valid());
}

#[test]
fn pte_encodes_frame_and_flags() {
    let e = PageTableEntry::new(0x8020_3000, PTEFlags::valid().readable());
    assert_eq!(e.as_u64(), (0x80203u64 << 10) | 3);
    assert_eq!(e.frame_addr(), 0x8020_3000);
    assert!(e.is_valid() && e.is_readable() && !e.is_writable() && !e.is_redirect());
    let mut e2 = PageTableEntry::new_invalid();
    assert!(!e2.is_valid());
    e2.set(0x8040_0000, PTEFlags::redirect());
    assert!(e2.is_valid() && e2.is_redirect());
    assert_eq!(e2.frame_addr(), 0x8040_0000);
}

#[test]
fn satp_for_sv39() {
    assert_eq!(make_satp(0x8020_0000), 0x8000_0000_0008_0200);
    assert_eq!(make_satp(0), 8u64 << 60);
}

#[test]
fn zeroed_frame_is_zero() {
    let f = zerod_frame();
    assert!(f.0.iter().all(|b| *b == 0));
}

#[test]
fn levels_step_down() {
    assert_eq!(PageTableLevel::L2.one_level_down(), Some(PageTableLevel::L1));
    assert_eq!(PageTableLevel::L1.one_level_down(), Some(PageTableLevel::L0));
    assert_eq!(PageTableLevel::L0.one_level_down(), None);
}

#[test]
fn plic_registers_per_hart() {
    assert_eq!(PLIC_SENABLE(0), 0x0C00_2080);
    assert_eq!(PLIC_SENABLE(3), 0x0C00_2380);
    assert_eq!(PLIC_SPRIORITY(1), 0x0C20_3000);
    assert_eq!(PLIC_SCLAIM(2), 0x0C20_5004);
    assert_eq!(context_id(0), 1);
    assert_eq!(context_id(5), 11);
    assert_eq!(plic_enable_addr(1), 0x0C00_2000 + 3 * 0x80);
    assert_eq!(plic_threshold_addr(0), 0x0C20_1000);
    assert_eq!(plic_claim_addr(0), 0x0C20_1004);
    assert_eq!(plic_priority(10), 0x0C00_0028);
    assert_eq!(plic_enable_mask(), (1 << 10) | (1 << 1));
    assert_eq!(plic_claimed(0), None);
    assert_eq!(plic_claimed(10), Some(10));
}

#[test]
fn clint_and_stacks() {
    assert_eq!(mtimecmp_addr(0), 0x0200_4000);
    assert_eq!(mtimecmp_addr(7), 0x0200_4038);
    assert_eq!(boot_stack_top(0x8001_0000, 0), 0x8001_0000 + 163840);
    assert_eq!(boot_stack_top(0x8001_0000, 2), 0x8001_0000 + 3 * 163840);
}
