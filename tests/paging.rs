use kernel::addr::{PTEFlags, PhysAddr, VirtAddr};
use kernel::paging::{init_kernel_page_table, kernel_regions, MapError, PageTablePool};
use kernel::param::{HEAP_START, STACK_SIZE, TRAMPOLINE_VADDR, TRAPFRAME_VADDR};
use kernel::space::{map_user_space, segment_flags, ActivationError, ParsedExecutable, Segment};

fn rw() -> PTEFlags {
    PTEFlags::valid().readable().writable()
}

fn pa_of(r: Option<PhysAddr>) -> Option<u64> {
    r.map(|p| p.as_u64())
}

#[test]
fn map_then_translate() {
    let mut pool = PageTablePool::new(0x8100_0000, 8);
    let r = pool.strong_map(VirtAddr::from_raw(0x4000_1234), PhysAddr::from_raw(0x8050_0000), rw());
    assert!(matches!(r, Ok(None)));
    let t = pool.try_translate(VirtAddr::from_raw(0x4000_1abc), PTEFlags::valid().readable());
    assert_eq!(pa_of(t), Some(0x8050_0abc));
    assert_eq!(pa_of(pool.try_translate(VirtAddr::from_raw(0x4000_2000), PTEFlags::valid())), None);
}

#[test]
fn translate_checks_permissions() {
    let mut pool = PageTablePool::new(0x8100_0000, 8);
    pool.strong_map(VirtAddr::from_raw(0x1000), PhysAddr::from_raw(0x8000_0000), rw()).unwrap();
    let x = PTEFlags::valid().executable();
    assert_eq!(pa_of(pool.try_translate(VirtAddr::from_raw(0x1000), x)), None);
    let u = PTEFlags::valid().readable().userable();
    assert_eq!(pa_of(pool.try_translate(VirtAddr::from_raw(0x1000), u)), None);
    let w = PTEFlags::valid().writable();
    assert_eq!(pa_of(pool.try_translate(VirtAddr::from_raw(0x1008), w)), Some(0x8000_0008));
}

#[test]
fn remap_returns_previous_leaf() {
    let mut pool = PageTablePool::new(0x8100_0000, 8);
    pool.strong_map(VirtAddr::from_raw(0x5000), PhysAddr::from_raw(0x8000_0000), rw()).unwrap();
    let prev = pool
        .strong_map(VirtAddr::from_raw(0x5000), PhysAddr::from_raw(0x8000_1000), rw())
        .unwrap()
        .expect("a leaf was there");
    assert_eq!(prev.frame_addr(), 0x8000_0000);
    assert!(prev.is_valid() && prev.is_writable());
    assert_eq!(pa_of(pool.try_translate(VirtAddr::from_raw(0x5000), PTEFlags::valid())), Some(0x8000_1000));
}

#[test]
fn pool_exhaustion_is_reported() {
    let mut pool = PageTablePool::new(0x8100_0000, 2);
    let r = pool.strong_map(VirtAddr::from_raw(0x1000), PhysAddr::from_raw(0x8000_0000), rw());
    assert!(matches!(r, Err(MapError::OutOfTables)));
    assert_eq!(pa_of(pool.try_translate(VirtAddr::from_raw(0x1000), PTEFlags::valid())), None);
    let mut pool3 = PageTablePool::new(0x8100_0000, 3);
    assert!(pool3.strong_map(VirtAddr::from_raw(0x1000), PhysAddr::from_raw(0x8000_0000), rw()).is_ok());
    assert!(pool3.strong_map(VirtAddr::from_raw(0x2000), PhysAddr::from_raw(0x8000_1000), rw()).is_ok());
    let far = pool3.strong_map(VirtAddr::from_raw(0x4000_0000), PhysAddr::from_raw(0x8000_2000), rw());
    assert!(matches!(far, Err(MapError::OutOfTables)));
}

#[test]
fn kernel_regions_layout() {
    let regions = kernel_regions(0x8001_0000, 0x8002_0000);
    assert_eq!(regions.len(), 11);
    assert_eq!(regions[2].start, 0x0C00_0000);
    assert_eq!(regions[2].npages, 1024);
    assert_eq!(regions[3].npages, 15);
    assert_eq!(regions[4].start, 0x8001_0000);
    assert_eq!(regions[4].npages, 16);
    assert_eq!(regions[10].start, 0x8002_0000);
    assert_eq!(regions[10].flags.as_u64(), 15);
}

#[test]
fn kernel_identity_translation() {
    let mut pool = PageTablePool::new(0x8100_0000, 256);
    let trampoline = 0x8000_7000;
    init_kernel_page_table(&mut pool, 0x8001_0000, 0x8002_0000, trampoline).unwrap();
    let r = PTEFlags::valid().readable();
    for pa in [0x1000_0000u64, 0x1000_1004, 0x0C20_1004, 0x0200_4008, 0x0200_bff8, 0x8000_0123, 0x8001_5000, 0x8500_0000] {
        assert_eq!(pa_of(pool.try_translate(VirtAddr::from_raw(pa), r)), Some(pa));
    }
    let x = PTEFlags::valid().executable();
    assert_eq!(pa_of(pool.try_translate(VirtAddr::from_raw(0x8000_2000), x)), Some(0x8000_2000));
    assert_eq!(pa_of(pool.try_translate(VirtAddr::from_raw(0x8001_5000), x)), None);
    assert_eq!(pa_of(pool.try_translate(VirtAddr::from_raw(0x8000_f000), r)), None);
    let tr = pool.try_translate(VirtAddr::from_raw(TRAMPOLINE_VADDR as u64 + 0x10), x);
    assert_eq!(pa_of(tr), Some(trampoline + 0x10));
}

fn frames() -> Vec<u64> {
    (0..1040u64).map(|i| 0x8800_0000 + i * 4096).collect()
}

fn program() -> ParsedExecutable {
    ParsedExecutable {
        entry_point: 0x1000,
        segs: vec![
            Segment { p_type: 1, p_flags: 5, p_offset: 0x1000, p_vaddr: 0x1000, p_memsz: 0x1800 },
            Segment { p_type: 1, p_flags: 6, p_offset: 0x3000, p_vaddr: 0x4000, p_memsz: 0x10 },
        ],
    }
}

#[test]
fn user_space_layout() {
    let mut pool = PageTablePool::new(0x8100_0000, 64);
    let fr = frames();
    let top = map_user_space(&mut pool, &program(), 0x8400_0000, &fr, 0x8300_0000, 0x8000_7000).unwrap();
    let base = top - STACK_SIZE as u64;
    assert_eq!(base, 0x5000 + STACK_SIZE as u64 + 4096);
    let ru = PTEFlags::valid().readable().userable();
    let xu = PTEFlags::valid().executable().userable();
    assert_eq!(pa_of(pool.try_translate(VirtAddr::from_raw(0x1004), xu)), Some(0x8400_1004));
    assert_eq!(pa_of(pool.try_translate(VirtAddr::from_raw(0x2004), ru)), Some(0x8400_2004));
    assert_eq!(pa_of(pool.try_translate(VirtAddr::from_raw(0x4008), PTEFlags::valid().writable())), Some(0x8400_3008));
    assert_eq!(pa_of(pool.try_translate(VirtAddr::from_raw(0x1004), PTEFlags::valid().writable())), None);
    assert_eq!(pa_of(pool.try_translate(VirtAddr::from_raw(base), ru)), Some(fr[0]));
    assert_eq!(pa_of(pool.try_translate(VirtAddr::from_raw(top - 8), ru)), Some(fr[39] + 4088));
    assert_eq!(pa_of(pool.try_translate(VirtAddr::from_raw(HEAP_START + 4096), ru)), Some(fr[41]));
    let rw = PTEFlags::valid().readable().writable();
    assert_eq!(pa_of(pool.try_translate(VirtAddr::from_raw(TRAPFRAME_VADDR as u64), rw)), Some(0x8300_0000));
    assert_eq!(pa_of(pool.try_translate(VirtAddr::from_raw(TRAPFRAME_VADDR as u64), ru)), None);
    let x = PTEFlags::valid().executable();
    assert_eq!(pa_of(pool.try_translate(VirtAddr::from_raw(TRAMPOLINE_VADDR as u64), x)), Some(0x8000_7000));
}

#[test]
fn stack_guard_page_is_unmapped() {
    let mut pool = PageTablePool::new(0x8100_0000, 64);
    let top = map_user_space(&mut pool, &program(), 0x8400_0000, &frames(), 0x8300_0000, 0x8000_7000).unwrap();
    let base = top - STACK_SIZE as u64;
    let store = PTEFlags::valid().writable().userable();
    assert_eq!(pa_of(pool.try_translate(VirtAddr::from_raw(base - 16), store)), None);
    assert_eq!(pa_of(pool.try_translate(VirtAddr::from_raw(base - 4096), PTEFlags::valid())), None);
    assert!(pool.try_translate(VirtAddr::from_raw(base), store).is_some());
}

#[test]
fn trampoline_shared_with_kernel() {
    let trampoline = 0x8000_7000;
    let mut kpool = PageTablePool::new(0x8100_0000, 256);
    init_kernel_page_table(&mut kpool, 0x8001_0000, 0x8002_0000, trampoline).unwrap();
    let mut upool = PageTablePool::new(0x8200_0000, 64);
    map_user_space(&mut upool, &program(), 0x8400_0000, &frames(), 0x8300_0000, trampoline).unwrap();
    let x = PTEFlags::valid().readable().executable();
    for off in [0u64, 0x44, 0xffc] {
        let va = VirtAddr::from_raw(TRAMPOLINE_VADDR as u64 + off);
        assert_eq!(pa_of(kpool.try_translate(va, x)), pa_of(upool.try_translate(va, x)));
        assert_eq!(pa_of(upool.try_translate(va, x)), Some(trampoline + off));
    }
}

#[test]
fn empty_program_faults_on_entry() {
    let mut pool = PageTablePool::new(0x8100_0000, 64);
    let exe = ParsedExecutable { entry_point: 0x1000, segs: vec![] };
    let top = map_user_space(&mut pool, &exe, 0x8400_0000, &frames(), 0x8300_0000, 0x8000_7000).unwrap();
    assert_eq!(top, 2 * STACK_SIZE as u64 + 4096);
    let fetch = PTEFlags::valid().executable().userable();
    assert_eq!(pa_of(pool.try_translate(VirtAddr::from_raw(exe.entry_point), fetch)), None);
}

#[test]
fn unaligned_segment_maps_from_its_page() {
    let mut pool = PageTablePool::new(0x8100_0000, 64);
    let unaligned = ParsedExecutable {
        entry_point: 0x1004,
        segs: vec![Segment { p_type: 1, p_flags: 4, p_offset: 0x2004, p_vaddr: 0x1004, p_memsz: 0x1000 }],
    };
    let top = map_user_space(&mut pool, &unaligned, 0x8400_0000, &frames(), 0x8300_0000, 0x8000_7000).unwrap();
    assert_eq!(top, 0x3000 + 2 * STACK_SIZE as u64 + 4096);
    let ru = PTEFlags::valid().readable().userable();
    assert_eq!(pa_of(pool.try_translate(VirtAddr::from_raw(0x1004), ru)), Some(0x8400_2004));
    assert_eq!(pa_of(pool.try_translate(VirtAddr::from_raw(0x2008), ru)), Some(0x8400_3008));
    assert_eq!(pa_of(pool.try_translate(VirtAddr::from_raw(0x3000), ru)), None);
}

#[test]
fn bad_segments_are_refused() {
    let mut pool = PageTablePool::new(0x8100_0000, 64);
    let no_perm = ParsedExecutable {
        entry_point: 0,
        segs: vec![Segment { p_type: 1, p_flags: 0, p_offset: 0, p_vaddr: 0x1000, p_memsz: 8 }],
    };
    let r = map_user_space(&mut pool, &no_perm, 0x8400_0000, &frames(), 0x8300_0000, 0x8000_7000);
    assert_eq!(r, Err(ActivationError::BadSegment));
    let mut pool1 = PageTablePool::new(0x8100_0000, 64);
    let too_high = ParsedExecutable {
        entry_point: 0,
        segs: vec![Segment { p_type: 1, p_flags: 4, p_offset: 0, p_vaddr: 0x8c7f_d000, p_memsz: 0x2000 }],
    };
    let r1 = map_user_space(&mut pool1, &too_high, 0x8400_0000, &frames(), 0x8300_0000, 0x8000_7000);
    assert_eq!(r1, Err(ActivationError::BadSegment));
    let mut pool3 = PageTablePool::new(0x8100_0000, 64);
    let no_stack_room = ParsedExecutable {
        entry_point: 0,
        segs: vec![Segment { p_type: 1, p_flags: 4, p_offset: 0, p_vaddr: 0x8c7c_0000, p_memsz: 0x10 }],
    };
    let r3 = map_user_space(&mut pool3, &no_stack_room, 0x8400_0000, &frames(), 0x8300_0000, 0x8000_7000);
    assert_eq!(r3, Err(ActivationError::BadSegment));
    let mut pool2 = PageTablePool::new(0x8100_0000, 64);
    let clash = ParsedExecutable {
        entry_point: 0,
        segs: vec![Segment { p_type: 1, p_flags: 4, p_offset: 0, p_vaddr: 0x21fe_0000, p_memsz: 8 }],
    };
    let r2 = map_user_space(&mut pool2, &clash, 0x8400_0000, &frames(), 0x8300_0000, 0x8000_7000);
    assert_eq!(r2, Err(ActivationError::Collision));
}

#[test]
fn segment_flag_bits() {
    assert_eq!(segment_flags(4).as_u64(), 1 | 2 | 16);
    assert_eq!(segment_flags(5).as_u64(), 1 | 2 | 8 | 16);
    assert_eq!(segment_flags(6).as_u64(), 1 | 2 | 4 | 16);
    assert_eq!(segment_flags(7).as_u64(), 31);
}

#[test]
fn overlapping_segments_collide() {
    let mut pool = PageTablePool::new(0x8100_0000, 64);
    let exe = ParsedExecutable {
        entry_point: 0x1000,
        segs: vec![
            Segment { p_type: 1, p_flags: 5, p_offset: 0, p_vaddr: 0x1000, p_memsz: 0x2000 },
            Segment { p_type: 1, p_flags: 6, p_offset: 0x2000, p_vaddr: 0x2000, p_memsz: 0x100 },
        ],
    };
    let r = map_user_space(&mut pool, &exe, 0x8400_0000, &frames(), 0x8300_0000, 0x8000_7000);
    assert_eq!(r, Err(ActivationError::Collision));
}

#[test]
fn non_loadable_segments_are_skipped() {
    let mut pool = PageTablePool::new(0x8100_0000, 64);
    let exe = ParsedExecutable {
        entry_point: 0x1000,
        segs: vec![
            Segment { p_type: 4, p_flags: 4, p_offset: 0, p_vaddr: 0x9003, p_memsz: 0x20 },
            Segment { p_type: 1, p_flags: 5, p_offset: 0, p_vaddr: 0x1000, p_memsz: 0x10 },
        ],
    };
    let top = map_user_space(&mut pool, &exe, 0x8400_0000, &frames(), 0x8300_0000, 0x8000_7000).unwrap();
    assert_eq!(top, 0x2000 + 2 * STACK_SIZE as u64 + 4096);
    assert!(pool.try_translate(VirtAddr::from_raw(0x9000), PTEFlags::valid()).is_none());
}

#[test]
fn translate_gives_exact_address() {
    let mut pool = PageTablePool::new(0x8100_0000, 8);
    pool.strong_map(VirtAddr::from_raw(0x7000), PhysAddr::from_raw(0x8070_0000), rw()).unwrap();
    let pa = pool.translate(VirtAddr::from_raw(0x7123), PTEFlags::valid().readable());
    assert_eq!(pa.as_u64(), 0x8070_0123);
}

#[test]
fn write_only_leaf_does_not_translate() {
    let mut pool = PageTablePool::new(0x8100_0000, 8);
    let w = PTEFlags::valid().writable();
    pool.strong_map(VirtAddr::from_raw(0x7000), PhysAddr::from_raw(0x8070_0000), w).unwrap();
    assert!(pool.try_translate(VirtAddr::from_raw(0x7000), PTEFlags::valid()).is_none());
    assert!(pool.walk(VirtAddr::from_raw(0x7000)).is_some());
}

#[test]
fn too_small_pool_runs_out() {
    let mut pool = PageTablePool::new(0x8100_0000, 3);
    let r = map_user_space(&mut pool, &program(), 0x8400_0000, &frames(), 0x8300_0000, 0x8000_7000);
    assert_eq!(r, Err(ActivationError::OutOfTables));
}
