use kernel::param::NPROC;
use kernel::addr::{PTEFlags, VirtAddr};
use kernel::paging::PageTablePool;
use kernel::proc::{
    cproc, proc, user_proc_entry, ActivateError, AtomicProcStatus, ProcStatus, ProcTable, Trapframe,
    CPU,
};
use kernel::space::{ActivationError, ParsedExecutable, Segment};

fn frames() -> Vec<u64> {
    (0..1040u64).map(|i| 0x8800_0000 + i * 4096).collect()
}

fn pool_of(id: u8) -> PageTablePool {
    PageTablePool::new(0x8600_0000 + id as u64 * 4096, 64)
}

fn empty_exe() -> ParsedExecutable {
    ParsedExecutable { entry_point: 0x1000, segs: vec![] }
}

/// Activates slot `id` with an executable that has no segments.
fn activate_empty(t: &mut ProcTable, id: u8) -> Result<(), ActivateError> {
    let mut pool = pool_of(id);
    t.activate(id, &empty_exe(), &mut pool, 0x8400_0000, &frames(), 0x8000_7000)
}

fn table() -> ProcTable {
    let tfs: Vec<u64> = (0..NPROC as u64).map(|i| 0x8300_0000 + i * 4096).collect();
    let ks: Vec<u64> = (0..NPROC as u64).map(|i| 0x8400_0000 + i * 163840).collect();
    let pts: Vec<u64> = (0..NPROC as u64).map(|i| 0x8600_0000 + i * 4096).collect();
    ProcTable::new(&tfs, &ks, &pts)
}

#[test]
fn new_table_is_unused() {
    let t = table();
    let p = proc(&t, 7);
    assert_eq!(p.name(), "X");
    assert_eq!(p.id(), 7);
    assert_eq!(p.status(), ProcStatus::Unused);
    assert_eq!(p.trapframe_addr, 0x8300_0000 + 7 * 4096);
    assert_eq!(cproc(&t, 0), None);
    assert!(CPU::new().current_proc.is_none());
}

#[test]
fn atomic_status_cas() {
    let mut s = AtomicProcStatus::new(ProcStatus::Inactive);
    assert_eq!(s.load(), ProcStatus::Inactive);
    assert_eq!(s.compare_exchange(ProcStatus::Unused, ProcStatus::Running), Err(ProcStatus::Inactive));
    assert_eq!(s.load(), ProcStatus::Inactive);
    assert_eq!(s.compare_exchange(ProcStatus::Inactive, ProcStatus::Runnable), Ok(ProcStatus::Inactive));
    assert_eq!(s.load(), ProcStatus::Runnable);
    s.store(ProcStatus::Unused);
    assert_eq!(s.load(), ProcStatus::Unused);
}

#[test]
fn alloc_takes_lowest_unused() {
    let mut t = table();
    assert_eq!(t.alloc_proc("init"), Some(0));
    assert_eq!(t.alloc_proc("sh"), Some(1));
    assert_eq!(proc(&t, 1).name(), "sh");
    assert_eq!(proc(&t, 1).status(), ProcStatus::Inactive);
}

#[test]
fn full_table_has_no_slot() {
    let mut t = table();
    for i in 0..NPROC {
        let id = t.alloc_proc("p").unwrap();
        assert_eq!(id as usize, i);
        activate_empty(&mut t, id).unwrap();
    }
    assert_eq!(t.alloc_proc("one more"), None);
}

#[test]
fn activation_needs_inactive() {
    let mut t = table();
    assert_eq!(activate_empty(&mut t, 3), Err(ActivateError::NotInactive(ProcStatus::Unused)));
    let id = t.alloc_proc("a").unwrap();
    activate_empty(&mut t, id).unwrap();
    assert_eq!(proc(&t, id).status(), ProcStatus::Runnable);
    assert_eq!(proc(&t, id).trapframe.epc, 0x1000);
    assert_eq!(proc(&t, id).trapframe.sp, 2 * 163840 + 4096);
    assert_eq!(activate_empty(&mut t, id), Err(ActivateError::NotInactive(ProcStatus::Runnable)));
}

#[test]
fn scheduler_runs_each_process_on_one_hart() {
    let mut t = table();
    let a = t.alloc_proc("a").unwrap();
    let b = t.alloc_proc("b").unwrap();
    activate_empty(&mut t, a).unwrap();
    activate_empty(&mut t, b).unwrap();
    assert_eq!(t.schedule(0), Some(a));
    assert_eq!(t.schedule(1), Some(b));
    assert_eq!(t.schedule(2), None);
    assert_eq!(cproc(&t, 0), Some(a));
    assert_eq!(cproc(&t, 1), Some(b));
    assert_eq!(proc(&t, a).status(), ProcStatus::Running);
    assert_eq!(t.yield_current(0), a);
    assert_eq!(proc(&t, a).status(), ProcStatus::Runnable);
    assert_eq!(cproc(&t, 0), None);
    assert_eq!(t.schedule(2), Some(a));
    assert_eq!(cproc(&t, 2), Some(a));
}

#[test]
fn exit_frees_slot_for_reuse() {
    let mut t = table();
    let a = t.alloc_proc("x1").unwrap();
    let b = t.alloc_proc("x2").unwrap();
    activate_empty(&mut t, a).unwrap();
    activate_empty(&mut t, b).unwrap();
    assert_eq!(t.schedule(0), Some(a));
    assert_eq!(t.schedule(1), Some(b));
    assert_eq!(t.exit_syscall(1, 7), b);
    assert_eq!(t.exit_syscall(0, 7), a);
    assert_eq!(proc(&t, a).status(), ProcStatus::Unused);
    assert_eq!(proc(&t, b).status(), ProcStatus::Unused);
    assert_eq!(t.alloc_proc("again"), Some(a));
}

#[test]
fn trapframe_kernel_half() {
    let mut tf = Trapframe::zeroed();
    tf.a0 = 5;
    user_proc_entry(&mut tf, 0x8000_0000_0008_0200, 3, 0x8400_0000, 0x8000_1234);
    assert_eq!(tf.kernel_satp, 0x8000_0000_0008_0200);
    assert_eq!(tf.kernel_hartid, 3);
    assert_eq!(tf.kernel_sp, 0x8400_0000 + 163840);
    assert_eq!(tf.kernel_trap, 0x8000_1234);
    assert_eq!(tf.a0, 5);
}

#[test]
fn activation_builds_the_address_space() {
    let mut t = table();
    let id = t.alloc_proc("prog").unwrap();
    let exe = ParsedExecutable {
        entry_point: 0x1000,
        segs: vec![Segment { p_type: 1, p_flags: 5, p_offset: 0x1000, p_vaddr: 0x1000, p_memsz: 0x800 }],
    };
    let mut pool = pool_of(id);
    t.activate(id, &exe, &mut pool, 0x8400_0000, &frames(), 0x8000_7000).unwrap();
    let p = proc(&t, id);
    assert_eq!(p.status(), ProcStatus::Runnable);
    assert_eq!(p.trapframe.epc, 0x1000);
    let top = p.trapframe.sp;
    assert_eq!(top, 0x2000 + 2 * 163840 + 4096);
    let rw = PTEFlags::valid().readable().writable();
    let tf = pool.try_translate(VirtAddr::from_raw(0x8c7f_e000), rw).unwrap();
    assert_eq!(tf.as_u64(), p.trapframe_addr);
    let xu = PTEFlags::valid().executable().userable();
    assert_eq!(pool.try_translate(VirtAddr::from_raw(0x1010), xu).unwrap().as_u64(), 0x8400_1010);
    let guard = top - 163840 - 16;
    assert!(pool.try_translate(VirtAddr::from_raw(guard), PTEFlags::valid()).is_none());
}

#[test]
fn failed_activation_leaves_slot_inactive() {
    let mut t = table();
    let id = t.alloc_proc("bad").unwrap();
    let exe = ParsedExecutable {
        entry_point: 0,
        segs: vec![Segment { p_type: 1, p_flags: 0, p_offset: 0, p_vaddr: 0x1000, p_memsz: 8 }],
    };
    let mut pool = pool_of(id);
    let r = t.activate(id, &exe, &mut pool, 0x8400_0000, &frames(), 0x8000_7000);
    assert_eq!(r, Err(ActivateError::AddressSpace(ActivationError::BadSegment)));
    assert_eq!(proc(&t, id).status(), ProcStatus::Inactive);
}
