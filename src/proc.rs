//! The process table, the per-hart CPU records and the scheduler's decisions.
//! A slot's status moves Unused -> Inactive (allocation) -> Runnable
//! (activation) <-> Running (scheduling and yielding), and back to Unused on
//! exit.
use vstd::prelude::*;
use crate::param::{NCPU, NPROC, STACK_SIZE};
use crate::paging::PageTablePool;
use crate::space::{
    data_end_of, heap_meets_segment, map_user_space, segment_ok, segments_overlap, stack_meets_heap,
    unmapped_from, user_space_mapped, user_top, ActivationError, ParsedExecutable, HEAP_PAGES, STACK_PAGES,
};
use crate::param::PAGE_SIZE;

verus! {

/// Index of a process slot.
pub type ProcId = u8;

/// The life-cycle state of a process slot.
#[derive(Clone, Copy, PartialEq, Eq, Debug, Structural)]
pub enum ProcStatus {
    Unused,
    Inactive,
    Runnable,
    Running,
}

/// The ordinal that stands for a status in the status word.
pub open spec fn status_ordinal(s: ProcStatus) -> usize {
    match s {
        ProcStatus::Unused => 0,
        ProcStatus::Inactive => 1,
        ProcStatus::Runnable => 2,
        ProcStatus::Running => 3,
    }
}

/// A status kept as its ordinal in a machine word, changed by stores and
/// compare-and-exchange.
pub struct AtomicProcStatus {
    word: usize,
}

impl View for AtomicProcStatus {
    type V = ProcStatus;

    closed spec fn view(&self) -> ProcStatus {
        if self.word == 0 {
            ProcStatus::Unused
        } else if self.word == 1 {
            ProcStatus::Inactive
        } else if self.word == 2 {
            ProcStatus::Runnable
        } else {
            ProcStatus::Running
        }
    }
}

impl AtomicProcStatus {
    pub closed spec fn wf(&self) -> bool {
        self.word < 4
    }

    fn ordinal(val: ProcStatus) -> (r: usize)
        ensures
            r == status_ordinal(val),
    {
        match val {
            ProcStatus::Unused => 0,
            ProcStatus::Inactive => 1,
            ProcStatus::Runnable => 2,
            ProcStatus::Running => 3,
        }
    }

    pub fn new(val: ProcStatus) -> (r: Self)
        ensures
            r.wf(),
            r@ == val,
    {
        AtomicProcStatus { word: Self::ordinal(val) }
    }

    pub fn load(&self) -> (r: ProcStatus)
        requires
            self.wf(),
        ensures
            r == self@,
    {
        if self.word == 0 {
            ProcStatus::Unused
        } else if self.word == 1 {
            ProcStatus::Inactive
        } else if self.word == 2 {
            ProcStatus::Runnable
        } else {
            ProcStatus::Running
        }
    }

    pub fn store(&mut self, val: ProcStatus)
        ensures
            final(self).wf(),
            final(self)@ == val,
    {
        self.word = Self::ordinal(val);
    }

    /// Sets the status to `new` if it is `current`. Returns the status found:
    /// `Ok` when it was `current`, `Err` otherwise.
    pub fn compare_exchange(&mut self, current: ProcStatus, new: ProcStatus) -> (r: Result<
        ProcStatus,
        ProcStatus,
    >)
        requires
            old(self).wf(),
        ensures
            final(self).wf(),
            old(self)@ == current ==> r == Ok::<ProcStatus, ProcStatus>(current) && final(self)@
                == new,
            old(self)@ != current ==> r == Err::<ProcStatus, ProcStatus>(old(self)@) && final(
                self)@ == old(self)@,
    {
        let found = self.load();
        if found == current {
            self.store(new);
            Ok(found)
        } else {
            Err(found)
        }
    }
}

/// The saved user registers and the kernel state that the trampoline needs,
/// in the layout the trampoline reads.
#[derive(Clone, Copy, Debug)]
pub struct Trapframe {
    pub kernel_satp: u64,
    pub kernel_sp: u64,
    pub kernel_trap: u64,
    pub epc: u64,
    pub kernel_hartid: u64,
    pub ra: u64,
    pub sp: u64,
    pub gp: u64,
    pub tp: u64,
    pub t0: u64,
    pub t1: u64,
    pub t2: u64,
    pub s0: u64,
    pub s1: u64,
    pub a0: u64,
    pub a1: u64,
    pub a2: u64,
    pub a3: u64,
    pub a4: u64,
    pub a5: u64,
    pub a6: u64,
    pub a7: u64,
    pub s2: u64,
    pub s3: u64,
    pub s4: u64,
    pub s5: u64,
    pub s6: u64,
    pub s7: u64,
    pub s8: u64,
    pub s9: u64,
    pub s10: u64,
    pub s11: u64,
    pub t3: u64,
    pub t4: u64,
    pub t5: u64,
    pub t6: u64,
}

impl Trapframe {
    /// A trapframe with every register zero.
    pub fn zeroed() -> (r: Self)
        ensures
            r == (Trapframe { kernel_satp: 0, kernel_sp: 0, kernel_trap: 0, epc: 0, kernel_hartid: 0, ra: 0, sp: 0, gp: 0, tp: 0, t0: 0, t1: 0, t2: 0, s0: 0, s1: 0, a0: 0, a1: 0, a2: 0, a3: 0, a4: 0, a5: 0, a6: 0, a7: 0, s2: 0, s3: 0, s4: 0, s5: 0, s6: 0, s7: 0, s8: 0, s9: 0, s10: 0, s11: 0, t3: 0, t4: 0, t5: 0, t6: 0 }),
    {
        Trapframe {
            kernel_satp: 0,
            kernel_sp: 0,
            kernel_trap: 0,
            epc: 0,
            kernel_hartid: 0,
            ra: 0,
            sp: 0,
            gp: 0,
            tp: 0,
            t0: 0,
            t1: 0,
            t2: 0,
            s0: 0,
            s1: 0,
            a0: 0,
            a1: 0,
            a2: 0,
            a3: 0,
            a4: 0,
            a5: 0,
            a6: 0,
            a7: 0,
            s2: 0,
            s3: 0,
            s4: 0,
            s5: 0,
            s6: 0,
            s7: 0,
            s8: 0,
            s9: 0,
            s10: 0,
            s11: 0,
            t3: 0,
            t4: 0,
            t5: 0,
            t6: 0,
        }
    }
}

/// Fills in the kernel half of a trapframe before returning to user mode:
/// the kernel's `satp`, the hart id, the top of the process's kernel stack
/// and the entry of the user trap handler.
pub fn user_proc_entry(
    tf: &mut Trapframe,
    kernel_satp: u64,
    hart_id: u64,
    kernel_stack: u64,
    usertrap: u64,
)
    requires
        kernel_stack + STACK_SIZE <= u64::MAX,
    ensures
        *final(tf) == (Trapframe {
            kernel_satp,
            kernel_hartid: hart_id,
            kernel_sp: (kernel_stack + STACK_SIZE) as u64,
            kernel_trap: usertrap,
            ..*old(tf)
        }),
{
    tf.kernel_satp = kernel_satp;
    tf.kernel_hartid = hart_id;
    tf.kernel_sp = kernel_stack + STACK_SIZE as u64;
    tf.kernel_trap = usertrap;
}

/// The name of a slot that was never used.
pub open spec fn inactive_name() -> Seq<char> {
    seq!['X']
}

/// A process slot.
pub struct Process {
    name: String,
    id: ProcId,
    status: AtomicProcStatus,
    /// Where the process's trapframe lives in physical memory.
    pub trapframe_addr: u64,
    /// The bottom of the process's kernel stack.
    pub kernel_stack: u64,
    /// The root of the process's page table.
    pub page_table_addr: u64,
    pub trapframe: Trapframe,
}

impl Process {
    pub closed spec fn spec_name(&self) -> Seq<char> {
        self.name@
    }

    pub closed spec fn spec_id(&self) -> ProcId {
        self.id
    }

    pub closed spec fn spec_status(&self) -> ProcStatus {
        self.status@
    }

    pub closed spec fn wf(&self) -> bool {
        self.status.wf()
    }

    pub fn name(&self) -> (r: &str)
        ensures
            r@ == self.spec_name(),
    {
        self.name.as_str()
    }

    pub fn id(&self) -> (r: ProcId)
        ensures
            r == self.spec_id(),
    {
        self.id
    }

    pub fn status(&self) -> (r: ProcStatus)
        requires
            self.wf(),
        ensures
            r == self.spec_status(),
    {
        self.status.load()
    }
}

/// A hart's record: the process it runs, if any.
#[derive(Clone, Copy, Debug)]
pub struct CPU {
    pub current_proc: Option<ProcId>,
}

impl CPU {
    /// A hart that runs nothing.
    pub fn new() -> (r: Self)
        ensures
            r.current_proc.is_none(),
    {
        CPU { current_proc: None }
    }
}

/// Why a process could not be activated.
#[derive(Clone, Copy, PartialEq, Eq, Debug, Structural)]
pub enum ActivateError {
    /// The slot is not `Inactive`.
    NotInactive(ProcStatus),
    /// The address space could not be built.
    AddressSpace(ActivationError),
}

/// The process slots and the harts' records, shared by all harts.
pub struct ProcTable {
    procs: Vec<Process>,
    cpus: Vec<CPU>,
}

impl ProcTable {
    pub closed spec fn status_of(&self, p: int) -> ProcStatus {
        self.procs@[p].spec_status()
    }

    pub closed spec fn name_of(&self, p: int) -> Seq<char> {
        self.procs@[p].spec_name()
    }

    pub closed spec fn trapframe_of(&self, p: int) -> Trapframe {
        self.procs@[p].trapframe
    }

    /// Where slot `p`'s trapframe lives in physical memory.
    pub closed spec fn trapframe_addr_of(&self, p: int) -> u64 {
        self.procs@[p].trapframe_addr
    }

    /// Where slot `p`'s root page table lives in physical memory.
    pub closed spec fn page_table_addr_of(&self, p: int) -> u64 {
        self.procs@[p].page_table_addr
    }

    /// The process hart `h` runs, if any.
    pub closed spec fn running_on(&self, h: int) -> Option<ProcId> {
        self.cpus@[h].current_proc
    }

    /// The table's invariant: a hart that runs a process holds a `Running`
    /// slot, no two harts hold the same slot, and every `Running` slot is held
    /// by a hart.
    pub closed spec fn wf(&self) -> bool {
        &&& self.procs@.len() == NPROC
        &&& self.cpus@.len() == NCPU
        &&& forall|p: int| 0 <= p < NPROC ==> (#[trigger] self.procs@[p]).wf() && self.procs@[p].id == p
        &&& forall|h: int|
            0 <= h < NCPU && (#[trigger] self.cpus@[h]).current_proc.is_some() ==> {
                let p = self.cpus@[h].current_proc.unwrap() as int;
                p < NPROC && self.status_of(p) == ProcStatus::Running
            }
        &&& forall|h1: int, h2: int|
            0 <= h1 < NCPU && 0 <= h2 < NCPU && h1 != h2 && (#[trigger] self.cpus@[h1]).current_proc.is_some()
                ==> (#[trigger] self.cpus@[h2]).current_proc != self.cpus@[h1].current_proc
        &&& forall|p: int|
            0 <= p < NPROC && self.status_of(p) == ProcStatus::Running ==> exists|h: int|
                0 <= h < NCPU && (#[trigger] self.cpus@[h]).current_proc == Some(p as ProcId)
    }

    /// Every slot unused and named `X`, with its memory at the given
    /// addresses; every hart idle.
    pub fn new(trapframes: &Vec<u64>, kernel_stacks: &Vec<u64>, page_tables: &Vec<u64>) -> (r:
        Self)
        requires
            trapframes@.len() == NPROC,
            kernel_stacks@.len() == NPROC,
            page_tables@.len() == NPROC,
        ensures
            r.wf(),
            forall|p: int|
                0 <= p < NPROC ==> r.status_of(p) == ProcStatus::Unused && r.name_of(p)
                    == inactive_name(),
            forall|h: int| 0 <= h < NCPU ==> r.running_on(h).is_none(),
    {
        let mut procs: Vec<Process> = Vec::new();
        let mut i: usize = 0;
        while i < NPROC
            invariant
                i <= NPROC,
                trapframes@.len() == NPROC,
                kernel_stacks@.len() == NPROC,
                page_tables@.len() == NPROC,
                procs@.len() == i,
                forall|p: int|
                    0 <= p < i ==> (#[trigger] procs@[p]).wf() && procs@[p].id == p
                        && procs@[p].spec_status() == ProcStatus::Unused && procs@[p].spec_name()
                        == inactive_name(),
            decreases NPROC - i,
        {
            let name = String::from_str("X");
            proof {
                reveal_strlit("X");
            }
            procs.push(
                Process {
                    name,
                    id: i as ProcId,
                    status: AtomicProcStatus::new(ProcStatus::Unused),
                    trapframe_addr: trapframes[i],
                    kernel_stack: kernel_stacks[i],
                    page_table_addr: page_tables[i],
                    trapframe: Trapframe::zeroed(),
                },
            );
            i = i + 1;
        }
        let mut cpus: Vec<CPU> = Vec::new();
        let mut h: usize = 0;
        while h < NCPU
            invariant
                h <= NCPU,
                cpus@.len() == h,
                forall|k: int| 0 <= k < h ==> (#[trigger] cpus@[k]).current_proc.is_none(),
            decreases NCPU - h,
        {
            cpus.push(CPU::new());
            h = h + 1;
        }
        ProcTable { procs, cpus }
    }

    /// Takes the first `Unused` slot for a process named `name`: it becomes
    /// `Inactive`. None when every slot is in use.
    pub fn alloc_proc(&mut self, name: &str) -> (r: Option<ProcId>)
        requires
            old(self).wf(),
        ensures
            final(self).wf(),
            r.is_none() <==> forall|p: int| 0 <= p < NPROC ==> old(self).status_of(p) != ProcStatus::Unused,
            r.is_none() ==> *final(self) == *old(self),
            r.is_some() ==> ({
                let id = r.unwrap() as int;
                &&& id < NPROC
                &&& old(self).status_of(id) == ProcStatus::Unused
                &&& forall|p: int| 0 <= p < id ==> old(self).status_of(p) != ProcStatus::Unused
                &&& final(self).status_of(id) == ProcStatus::Inactive
                &&& final(self).name_of(id) == name@
                &&& final(self).trapframe_of(id) == old(self).trapframe_of(id)
                &&& forall|p: int|
                    0 <= p < NPROC && p != id ==> final(self).status_of(p) == old(self).status_of(p)
                        && final(self).name_of(p) == old(self).name_of(p) && final(self).trapframe_of(p)
                        == old(self).trapframe_of(p)
                &&& forall|h: int| 0 <= h < NCPU ==> final(self).running_on(h) == old(self).running_on(h)
            }),
    {
        let mut i: usize = 0;
        while i < NPROC
            invariant
                i <= NPROC,
                self.wf(),
                *self == *old(self),
                forall|p: int| 0 <= p < i ==> old(self).status_of(p) != ProcStatus::Unused,
            decreases NPROC - i,
        {
            if self.procs[i].status.load() == ProcStatus::Unused {
                let ghost pre = *self;
                let _ = self.procs[i].status.compare_exchange(ProcStatus::Unused, ProcStatus::Inactive);
                self.procs[i].name = name.to_owned();
                proof {
                    assert forall|p: int| 0 <= p < NPROC implies (#[trigger] self.procs@[p]).wf()
                        && self.procs@[p].id == p by {
                        assert(pre.procs@[p].wf());
                    }
                    assert forall|q: int|
                        0 <= q < NPROC && self.status_of(q) == ProcStatus::Running implies exists|h: int|
                            0 <= h < NCPU && (#[trigger] self.cpus@[h]).current_proc == Some(q as ProcId) by {
                        assert(pre.status_of(q) == ProcStatus::Running);
                    }
                }
                return Some(i as ProcId);
            }
            i = i + 1;
        }
        None
    }

    /// Makes the `Inactive` slot `id` runnable, starting at `entry` with its
    /// stack pointer at `stack_top`.
    fn make_runnable(&mut self, id: ProcId, entry: u64, stack_top: u64) -> (r: Result<
        (),
        ActivateError,
    >)
        requires
            old(self).wf(),
            id < NPROC,
        ensures
            final(self).wf(),
            old(self).status_of(id as int) != ProcStatus::Inactive ==> r == Err::<(), ActivateError>(
                ActivateError::NotInactive(old(self).status_of(id as int)),
            ) && *final(self) == *old(self),
            old(self).status_of(id as int) == ProcStatus::Inactive ==> {
                &&& r is Ok
                &&& final(self).status_of(id as int) == ProcStatus::Runnable
                &&& final(self).trapframe_of(id as int) == (Trapframe {
                    epc: entry,
                    sp: stack_top,
                    ..old(self).trapframe_of(id as int)
                })
                &&& final(self).name_of(id as int) == old(self).name_of(id as int)
                &&& forall|p: int|
                    0 <= p < NPROC && p != id ==> final(self).status_of(p) == old(self).status_of(p)
                        && final(self).name_of(p) == old(self).name_of(p) && final(self).trapframe_of(p)
                        == old(self).trapframe_of(p)
                &&& forall|p: int|
                    0 <= p < NPROC ==> final(self).trapframe_addr_of(p) == old(self).trapframe_addr_of(p)
                        && final(self).page_table_addr_of(p) == old(self).page_table_addr_of(p)
                &&& forall|h: int| 0 <= h < NCPU ==> final(self).running_on(h) == old(self).running_on(h)
            },
    {
        let i = id as usize;
        let found = self.procs[i].status.load();
        if found != ProcStatus::Inactive {
            return Err(ActivateError::NotInactive(found));
        }
        let ghost pre = *self;
        let _ = self.procs[i].status.compare_exchange(ProcStatus::Inactive, ProcStatus::Runnable);
        self.procs[i].trapframe.epc = entry;
        self.procs[i].trapframe.sp = stack_top;
        proof {
            assert forall|p: int| 0 <= p < NPROC implies (#[trigger] self.procs@[p]).wf()
                && self.procs@[p].id == p by {
                assert(pre.procs@[p].wf());
            }
            assert forall|q: int|
                0 <= q < NPROC && self.status_of(q) == ProcStatus::Running implies exists|h: int|
                    0 <= h < NCPU && (#[trigger] self.cpus@[h]).current_proc == Some(q as ProcId) by {
                assert(pre.status_of(q) == ProcStatus::Running);
            }
        }
        Ok(())
    }

    /// Activates the `Inactive` slot `id` with the executable `exe`, loaded at
    /// `file_base`: builds its address space in `pool`, the slot's own page
    /// tables (see `map_user_space`), with its stack and heap in `frames`, its
    /// own trapframe and the trampoline code at `trampoline`. Only once that
    /// succeeds does the slot become `Runnable`, starting at the entry point
    /// with its stack pointer at the top of the stack. On any failure the
    /// slot is left as it was.
    pub fn activate(
        &mut self,
        id: ProcId,
        exe: &ParsedExecutable,
        pool: &mut PageTablePool,
        file_base: u64,
        frames: &Vec<u64>,
        trampoline: u64,
    ) -> (r: Result<(), ActivateError>)
        requires
            old(self).wf(),
            id < NPROC,
            old(pool).wf(),
            old(pool).spec_base() == old(self).page_table_addr_of(id as int),
            unmapped_from(*old(pool), 0),
            frames@.len() == STACK_PAGES + HEAP_PAGES,
        ensures
            final(self).wf(),
            final(pool).wf(),
            old(self).status_of(id as int) != ProcStatus::Inactive ==> r == Err::<(), ActivateError>(
                ActivateError::NotInactive(old(self).status_of(id as int)),
            ) && *final(self) == *old(self) && *final(pool) == *old(pool),
            r is Err ==> *final(self) == *old(self),
            r == Err::<(), ActivateError>(ActivateError::AddressSpace(ActivationError::BadSegment)) ==> (exists|q: int|
                0 <= q < exe.segs@.len() && !segment_ok(#[trigger] exe.segs@[q], file_base)) || data_end_of(
                exe.segs@,
            ) + 2 * STACK_SIZE + PAGE_SIZE > user_top(),
            r == Err::<(), ActivateError>(ActivateError::AddressSpace(ActivationError::Collision)) ==> segments_overlap(
                exe.segs@,
            ) || stack_meets_heap(data_end_of(exe.segs@)) || heap_meets_segment(exe.segs@),
            r == Err::<(), ActivateError>(ActivateError::AddressSpace(ActivationError::OutOfTables)) ==> final(pool).len()
                + 2 > final(pool).spec_capacity(),
            r is Ok ==> {
                let top = (data_end_of(exe.segs@) + 2 * STACK_SIZE + PAGE_SIZE) as u64;
                &&& old(self).status_of(id as int) == ProcStatus::Inactive
                &&& final(self).status_of(id as int) == ProcStatus::Runnable
                &&& final(self).trapframe_of(id as int) == (Trapframe {
                    epc: exe.entry_point,
                    sp: top,
                    ..old(self).trapframe_of(id as int)
                })
                &&& user_space_mapped(
                    *final(pool),
                    exe.segs@,
                    file_base,
                    frames@,
                    old(self).trapframe_addr_of(id as int),
                    trampoline,
                    top,
                )
                &&& final(self).name_of(id as int) == old(self).name_of(id as int)
                &&& forall|p: int|
                    0 <= p < NPROC && p != id ==> final(self).status_of(p) == old(self).status_of(p)
                        && final(self).name_of(p) == old(self).name_of(p) && final(self).trapframe_of(p)
                        == old(self).trapframe_of(p)
                &&& forall|h: int| 0 <= h < NCPU ==> final(self).running_on(h) == old(self).running_on(h)
            },
    {
        let i = id as usize;
        let found = self.procs[i].status.load();
        if found != ProcStatus::Inactive {
            return Err(ActivateError::NotInactive(found));
        }
        let trapframe = self.procs[i].trapframe_addr;
        let top = match map_user_space(pool, exe, file_base, frames, trapframe, trampoline) {
            Ok(t) => t,
            Err(e) => return Err(ActivateError::AddressSpace(e)),
        };
        match self.make_runnable(id, exe.entry_point, top) {
            Ok(()) => Ok(()),
            Err(e) => Err(e),
        }
    }

    /// One pass of the scheduler on the idle hart `hart`: the first
    /// `Runnable` slot becomes `Running` on it. None when no slot is runnable.
    pub fn schedule(&mut self, hart: usize) -> (r: Option<ProcId>)
        requires
            old(self).wf(),
            hart < NCPU,
            old(self).running_on(hart as int).is_none(),
        ensures
            final(self).wf(),
            r.is_none() <==> forall|p: int| 0 <= p < NPROC ==> old(self).status_of(p) != ProcStatus::Runnable,
            r.is_none() ==> *final(self) == *old(self),
            r.is_some() ==> ({
                let id = r.unwrap() as int;
                &&& id < NPROC
                &&& old(self).status_of(id) == ProcStatus::Runnable
                &&& forall|p: int| 0 <= p < id ==> old(self).status_of(p) != ProcStatus::Runnable
                &&& final(self).status_of(id) == ProcStatus::Running
                &&& final(self).running_on(hart as int) == Some(id as ProcId)
                &&& forall|p: int|
                    0 <= p < NPROC && p != id ==> final(self).status_of(p) == old(self).status_of(p)
                &&& forall|p: int|
                    0 <= p < NPROC ==> final(self).name_of(p) == old(self).name_of(p)
                        && final(self).trapframe_of(p) == old(self).trapframe_of(p)
                &&& forall|h: int|
                    0 <= h < NCPU && h != hart ==> final(self).running_on(h) == old(self).running_on(h)
            }),
    {
        let mut i: usize = 0;
        while i < NPROC
            invariant
                i <= NPROC,
                hart < NCPU,
                self.wf(),
                *self == *old(self),
                old(self).running_on(hart as int).is_none(),
                forall|p: int| 0 <= p < i ==> old(self).status_of(p) != ProcStatus::Runnable,
            decreases NPROC - i,
        {
            if self.procs[i].status.load() == ProcStatus::Runnable {
                let ghost pre = *self;
                let _ = self.procs[i].status.compare_exchange(ProcStatus::Runnable, ProcStatus::Running);
                self.cpus.set(hart, CPU { current_proc: Some(i as ProcId) });
                proof {
                    assert forall|p: int| 0 <= p < NPROC implies (#[trigger] self.procs@[p]).wf()
                        && self.procs@[p].id == p by {
                        assert(pre.procs@[p].wf());
                    }
                    assert forall|h: int|
                        0 <= h < NCPU && (#[trigger] self.cpus@[h]).current_proc.is_some() implies {
                            let p = self.cpus@[h].current_proc.unwrap() as int;
                            p < NPROC && self.status_of(p) == ProcStatus::Running
                        } by {
                        if h != hart {
                            assert(pre.cpus@[h] == self.cpus@[h]);
                        }
                    }
                    assert forall|h1: int, h2: int|
                        0 <= h1 < NCPU && 0 <= h2 < NCPU && h1 != h2
                            && (#[trigger] self.cpus@[h1]).current_proc.is_some() implies (
                        #[trigger] self.cpus@[h2]).current_proc != self.cpus@[h1].current_proc by {
                        if h1 == hart {
                            assert(pre.cpus@[h2] == self.cpus@[h2]);
                            if pre.cpus@[h2].current_proc.is_some() {
                                assert(pre.status_of(pre.cpus@[h2].current_proc.unwrap() as int)
                                    == ProcStatus::Running);
                            }
                        } else if h2 == hart {
                            assert(pre.cpus@[h1] == self.cpus@[h1]);
                            assert(pre.status_of(pre.cpus@[h1].current_proc.unwrap() as int)
                                == ProcStatus::Running);
                        } else {
                            assert(pre.cpus@[h1] == self.cpus@[h1]);
                            assert(pre.cpus@[h2] == self.cpus@[h2]);
                        }
                    }
                    assert forall|q: int|
                        0 <= q < NPROC && self.status_of(q) == ProcStatus::Running implies exists|h: int|
                            0 <= h < NCPU && (#[trigger] self.cpus@[h]).current_proc == Some(q as ProcId) by {
                        if q == i {
                            assert(self.cpus@[hart as int].current_proc == Some(q as ProcId));
                        } else {
                            assert(pre.status_of(q) == ProcStatus::Running);
                            let h = choose|h: int|
                                0 <= h < NCPU && (#[trigger] pre.cpus@[h]).current_proc == Some(q as ProcId);
                            assert(h != hart);
                            assert(self.cpus@[h] == pre.cpus@[h]);
                        }
                    }
                }
                return Some(i as ProcId);
            }
            i = i + 1;
        }
        None
    }

    /// Takes the process off hart `hart`, leaving it in state `to`: `Runnable`
    /// when it yields at a timer tick, `Unused` when it exits.
    fn release(&mut self, hart: usize, to: ProcStatus) -> (id: ProcId)
        requires
            old(self).wf(),
            hart < NCPU,
            old(self).running_on(hart as int).is_some(),
            to != ProcStatus::Running,
        ensures
            final(self).wf(),
            id == old(self).running_on(hart as int).unwrap(),
            id < NPROC,
            old(self).status_of(id as int) == ProcStatus::Running,
            final(self).status_of(id as int) == to,
            final(self).running_on(hart as int).is_none(),
            final(self).name_of(id as int) == old(self).name_of(id as int),
            final(self).trapframe_of(id as int) == old(self).trapframe_of(id as int),
            forall|p: int|
                0 <= p < NPROC && p != id ==> final(self).status_of(p) == old(self).status_of(p)
                    && final(self).name_of(p) == old(self).name_of(p) && final(self).trapframe_of(p)
                    == old(self).trapframe_of(p),
            forall|h: int|
                0 <= h < NCPU && h != hart ==> final(self).running_on(h) == old(self).running_on(h),
    {
        let ghost pre = *self;
        let id = match self.cpus[hart].current_proc {
            Some(p) => p,
            None => 0,
        };
        proof {
            assert(pre.cpus@[hart as int].current_proc.is_some());
        }
        self.procs[id as usize].status.store(to);
        self.cpus.set(hart, CPU { current_proc: None });
        proof {
            assert forall|p: int| 0 <= p < NPROC implies (#[trigger] self.procs@[p]).wf()
                && self.procs@[p].id == p by {
                assert(pre.procs@[p].wf());
            }
            assert forall|h: int|
                0 <= h < NCPU && (#[trigger] self.cpus@[h]).current_proc.is_some() implies {
                    let p = self.cpus@[h].current_proc.unwrap() as int;
                    p < NPROC && self.status_of(p) == ProcStatus::Running
                } by {
                assert(pre.cpus@[h] == self.cpus@[h]);
                assert(pre.cpus@[h].current_proc != pre.cpus@[hart as int].current_proc);
            }
            assert forall|h1: int, h2: int|
                0 <= h1 < NCPU && 0 <= h2 < NCPU && h1 != h2
                    && (#[trigger] self.cpus@[h1]).current_proc.is_some() implies (
                #[trigger] self.cpus@[h2]).current_proc != self.cpus@[h1].current_proc by {
                assert(pre.cpus@[h1] == self.cpus@[h1]);
                if h2 != hart {
                    assert(pre.cpus@[h2] == self.cpus@[h2]);
                }
            }
            assert forall|q: int|
                0 <= q < NPROC && self.status_of(q) == ProcStatus::Running implies exists|h: int|
                    0 <= h < NCPU && (#[trigger] self.cpus@[h]).current_proc == Some(q as ProcId) by {
                assert(q != id);
                assert(pre.status_of(q) == ProcStatus::Running);
                let h = choose|h: int|
                    0 <= h < NCPU && (#[trigger] pre.cpus@[h]).current_proc == Some(q as ProcId);
                assert(h != hart);
                assert(self.cpus@[h] == pre.cpus@[h]);
            }
        }
        id
    }

    /// The process on hart `hart` gives up the hart at a timer tick: it
    /// becomes `Runnable` again and the hart idle.
    pub fn yield_current(&mut self, hart: usize) -> (id: ProcId)
        requires
            old(self).wf(),
            hart < NCPU,
            old(self).running_on(hart as int).is_some(),
        ensures
            final(self).wf(),
            id == old(self).running_on(hart as int).unwrap(),
            final(self).status_of(id as int) == ProcStatus::Runnable,
            final(self).running_on(hart as int).is_none(),
            final(self).trapframe_of(id as int) == old(self).trapframe_of(id as int),
            forall|p: int|
                0 <= p < NPROC && p != id ==> final(self).status_of(p) == old(self).status_of(p),
            forall|h: int|
                0 <= h < NCPU && h != hart ==> final(self).running_on(h) == old(self).running_on(h),
    {
        self.release(hart, ProcStatus::Runnable)
    }

    /// The `exit` syscall of the process on hart `hart`: its slot becomes
    /// `Unused` and the hart idle. The exit code is not kept.
    pub fn exit_syscall(&mut self, hart: usize, exit_code: u64) -> (id: ProcId)
        requires
            old(self).wf(),
            hart < NCPU,
            old(self).running_on(hart as int).is_some(),
        ensures
            final(self).wf(),
            id == old(self).running_on(hart as int).unwrap(),
            final(self).status_of(id as int) == ProcStatus::Unused,
            final(self).running_on(hart as int).is_none(),
            forall|p: int|
                0 <= p < NPROC && p != id ==> final(self).status_of(p) == old(self).status_of(p),
            forall|h: int|
                0 <= h < NCPU && h != hart ==> final(self).running_on(h) == old(self).running_on(h),
    {
        self.release(hart, ProcStatus::Unused)
    }
}

/// The slot `id`.
pub fn proc(table: &ProcTable, id: ProcId) -> (r: &Process)
    requires
        id < NPROC,
        table.wf(),
    ensures
        r.spec_id() == id,
        r.spec_status() == table.status_of(id as int),
        r.spec_name() == table.name_of(id as int),
        r.wf(),
{
    &table.procs[id as usize]
}

/// The process that hart `hart` runs, if any.
pub fn cproc(table: &ProcTable, hart: usize) -> (r: Option<ProcId>)
    requires
        hart < NCPU,
        table.wf(),
    ensures
        r == table.running_on(hart as int),
{
    table.cpus[hart].current_proc
}

/// What a running hart sees in the table: the process it runs is the one
/// `Running` slot that it holds, and no other hart holds it.
pub proof fn lemma_running_process_unique(t: &ProcTable, hart: int)
    requires
        t.wf(),
        0 <= hart < NCPU,
        t.running_on(hart).is_some(),
    ensures
        ({
            let p = t.running_on(hart).unwrap() as int;
            &&& p < NPROC
            &&& t.status_of(p) == ProcStatus::Running
            &&& forall|h: int| 0 <= h < NCPU && h != hart ==> t.running_on(h) != Some(p as ProcId)
        }),
{
    assert(t.cpus@[hart].current_proc.is_some());
    assert forall|h: int| 0 <= h < NCPU && h != hart implies t.running_on(h) != t.running_on(hart) by {
        assert(t.cpus@[hart].current_proc.is_some());
        assert(t.cpus@[h].current_proc != t.cpus@[hart].current_proc);
    }
}

/// Every `Running` slot is the process of some hart.
pub proof fn lemma_running_has_hart(t: &ProcTable, p: int)
    requires
        t.wf(),
        0 <= p < NPROC,
        t.status_of(p) == ProcStatus::Running,
    ensures
        exists|h: int| 0 <= h < NCPU && t.running_on(h) == Some(p as ProcId),
{
    let h = choose|h: int| 0 <= h < NCPU && (#[trigger] t.cpus@[h]).current_proc == Some(p as ProcId);
    assert(t.running_on(h) == Some(p as ProcId));
}

} // verus!
