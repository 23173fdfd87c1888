//! Sv39 page tables, kept in a pool of table frames: mapping a page
//! (`strong_map`), translating an address (`translate`), mapping ranges and
//! identity regions, and the kernel's address space.
use vstd::prelude::*;
use crate::addr::{
    bit_set, frame_of, lemma_fields, lemma_or_offset, lemma_pte_bits, offset_of,
    pte_bits, pte_frame, vpn_of, PTEFlags, PageTableEntry, PhysAddr, VirtAddr, R_FLAG, U_FLAG,
    V_FLAG, W_FLAG, X_FLAG,
};

verus! {

/// A 4096-byte block of physical memory.
#[derive(Clone, Copy)]
pub struct Frame(pub [u8; 4096]);

/// A 4096-byte page of virtual memory.
#[derive(Clone, Copy, Debug)]
pub struct Page(pub [u8; 4096]);

/// A frame with every byte zero.
pub fn zerod_frame() -> (r: Frame)
    ensures
        forall|i: int| 0 <= i < 4096 ==> r.0[i] == 0u8,
{
    Frame([0u8; 4096])
}

/// The three levels of an Sv39 walk, root first.
#[derive(Clone, Copy, PartialEq, Eq, Debug)]
pub enum PageTableLevel {
    L2,
    L1,
    L0,
}

impl PageTableLevel {
    pub open spec fn spec_num(self) -> nat {
        match self {
            PageTableLevel::L2 => 2,
            PageTableLevel::L1 => 1,
            PageTableLevel::L0 => 0,
        }
    }

    /// The level below this one; none below L0.
    pub fn one_level_down(&self) -> (r: Option<Self>)
        ensures
            self.spec_num() == 0 ==> r.is_none(),
            self.spec_num() > 0 ==> r.is_some() && r.unwrap().spec_num() == self.spec_num() - 1,
    {
        match self {
            PageTableLevel::L2 => Some(PageTableLevel::L1),
            PageTableLevel::L1 => Some(PageTableLevel::L0),
            PageTableLevel::L0 => None,
        }
    }
}

/// The `satp` value that turns on Sv39 with the root table at `pt_addr`.
pub open spec fn satp_of(pt_addr: u64) -> u64 {
    (0x8000_0000_0000_0000 + pt_addr / 4096) as u64
}

/// The `satp` value for Sv39 (mode 8) with the root table at `pt_addr`.
pub fn make_satp(pt_addr: u64) -> (r: u64)
    ensures
        r == satp_of(pt_addr),
{
    let sv39_mode: u64 = 8u64 << 60u64;
    let pt_ppn = pt_addr >> 12u64;
    assert((8u64 << 60u64) | (pt_addr >> 12u64) == 0x8000_0000_0000_0000 + pt_addr / 4096)
        by (bit_vector);
    sv39_mode | pt_ppn
}

/// Entries in a page table.
pub const PAGE_TABLE_ENTRIES: usize = 512;

/// One table of the tree: 512 entries.
pub struct PageTable {
    entries: Vec<PageTableEntry>,
}

impl View for PageTable {
    type V = Seq<u64>;

    closed spec fn view(&self) -> Seq<u64> {
        self.entries@.map_values(|e: PageTableEntry| e@)
    }
}

impl PageTable {
    /// A table with every entry invalid.
    pub fn zeroed() -> (r: Self)
        ensures
            r@ == Seq::new(PAGE_TABLE_ENTRIES as nat, |j: int| 0u64),
    {
        let mut entries: Vec<PageTableEntry> = Vec::new();
        let mut i: usize = 0;
        while i < PAGE_TABLE_ENTRIES
            invariant
                i <= PAGE_TABLE_ENTRIES,
                entries@.len() == i,
                forall|j: int| 0 <= j < i ==> (#[trigger] entries@[j])@ == 0,
            decreases PAGE_TABLE_ENTRIES - i,
        {
            entries.push(PageTableEntry::new_invalid());
            i = i + 1;
        }
        let r = PageTable { entries };
        assert(r@ =~= Seq::new(PAGE_TABLE_ENTRIES as nat, |j: int| 0u64));
        r
    }

    /// Entry `j`.
    pub fn get(&self, j: usize) -> (r: PageTableEntry)
        requires
            j < self@.len(),
        ensures
            r@ == self@[j as int],
    {
        self.entries[j]
    }

    /// Replaces entry `j`.
    pub fn set(&mut self, j: usize, e: PageTableEntry)
        requires
            j < old(self)@.len(),
        ensures
            final(self)@ == old(self)@.update(j as int, e@),
    {
        self.entries.set(j, e);
        assert(self@ =~= old(self)@.update(j as int, e@));
    }
}

/// Why a mapping could not be made.
#[derive(Clone, Copy, PartialEq, Eq, Debug, Structural)]
pub enum MapError {
    /// The pool has no frame left for a table the walk needs.
    OutOfTables,
}

/// Whether an entry with these bits grants what `mask` asks: each of R, W, X
/// and U set in `mask` is set in the entry.
pub open spec fn grants(e: u64, mask: u64) -> bool {
    &&& bit_set(mask, R_FLAG) ==> bit_set(e, R_FLAG)
    &&& bit_set(mask, W_FLAG) ==> bit_set(e, W_FLAG)
    &&& bit_set(mask, X_FLAG) ==> bit_set(e, X_FLAG)
    &&& bit_set(mask, U_FLAG) ==> bit_set(e, U_FLAG)
}

/// An entry that maps a page: valid with at least one of R, W, X.
pub open spec fn is_leaf(e: u64) -> bool {
    bit_set(e, V_FLAG) && (bit_set(e, R_FLAG) || bit_set(e, W_FLAG) || bit_set(e, X_FLAG))
}

/// The page tables of one address space, kept in a pool of table frames:
/// table `t` lives at physical address `base + 4096 * t`, and table 0 is the
/// root. Each table is reached by one path of indices from the root.
pub struct PageTablePool {
    base: u64,
    capacity: usize,
    tables: Vec<PageTable>,
    paths: Ghost<Seq<Seq<int>>>,
    parents: Ghost<Seq<int>>,
}

/// The largest physical address a pool may reach: entries hold 44-bit frame
/// numbers.
pub open spec fn pool_limit() -> int {
    0x100_0000_0000_0000
}

impl PageTablePool {
    /// The bits of entry `j` of table `t`.
    pub closed spec fn entry(&self, t: int, j: int) -> u64 {
        self.tables@[t]@[j]
    }

    pub closed spec fn len(&self) -> nat {
        self.tables@.len()
    }

    pub closed spec fn spec_capacity(&self) -> nat {
        self.capacity as nat
    }

    pub closed spec fn spec_base(&self) -> u64 {
        self.base
    }

    pub closed spec fn path(&self, t: int) -> Seq<int> {
        self.paths@[t]
    }

    /// The physical address of table `t`.
    pub open spec fn table_addr(&self, t: int) -> int {
        self.spec_base() + 4096 * t
    }

    /// The table an interior entry points to.
    pub open spec fn child(&self, e: u64) -> int {
        (pte_frame(e) - self.spec_base()) / 4096
    }

    /// The leaf entry that maps the page with indices `i2`, `i1`, `i0`.
    pub open spec fn lookup(&self, i2: int, i1: int, i0: int) -> Option<u64> {
        let e2 = self.entry(0, i2);
        if !bit_set(e2, V_FLAG) {
            None
        } else {
            let e1 = self.entry(self.child(e2), i1);
            if !bit_set(e1, V_FLAG) {
                None
            } else {
                let e0 = self.entry(self.child(e1), i0);
                if !bit_set(e0, V_FLAG) {
                    None
                } else {
                    Some(e0)
                }
            }
        }
    }

    /// The leaf entry for the page of virtual address `va`.
    pub open spec fn lookup_va(&self, va: u64) -> Option<u64> {
        self.lookup(vpn_of(va, 2) as int, vpn_of(va, 1) as int, vpn_of(va, 0) as int)
    }

    /// What translating `va` for an access `mask` gives: the frame of its
    /// leaf plus the offset, if the leaf grants the access.
    pub open spec fn translate_spec(&self, va: u64, mask: u64) -> Option<u64> {
        match self.lookup_va(va) {
            None => None,
            Some(e) => if grants(e, mask) && !(bit_set(e, W_FLAG) && !bit_set(e, R_FLAG)) {
                Some((pte_frame(e) + offset_of(va)) as u64)
            } else {
                None
            },
        }
    }

    /// How many new tables mapping the page with indices `i2`, `i1` takes.
    pub open spec fn tables_needed(&self, i2: int, i1: int) -> nat {
        let e2 = self.entry(0, i2);
        if !bit_set(e2, V_FLAG) {
            2
        } else if !bit_set(self.entry(self.child(e2), i1), V_FLAG) {
            1
        } else {
            0
        }
    }

    /// The shape of the tree. An invalid entry is all zero. A valid entry of
    /// a table above level 0 points, with no permission bit, at the table
    /// whose path extends the parent's by the entry's index; a valid entry at
    /// level 0 maps a page. Paths tell tables apart.
    pub closed spec fn wf(&self) -> bool {
        &&& self.base % 4096 == 0
        &&& self.base + 4096 * self.capacity <= pool_limit()
        &&& 1 <= self.tables@.len() <= self.capacity
        &&& self.paths@.len() == self.tables@.len()
        &&& self.parents@.len() == self.tables@.len()
        &&& forall|k: int|
            1 <= k < self.tables@.len() ==> 0 <= #[trigger] self.parents@[k] < self.tables@.len()
                && self.paths@[k].len() >= 1 && self.paths@[k] == self.paths@[self.parents@[k]].push(
                self.paths@[k].last(),
            )
        &&& self.paths@[0] == Seq::<int>::empty()
        &&& forall|t: int| 0 <= t < self.tables@.len() ==> (#[trigger] self.tables@[t])@.len() == PAGE_TABLE_ENTRIES
        &&& forall|t: int| 0 <= t < self.tables@.len() ==> (#[trigger] self.paths@[t]).len() <= 2
        &&& forall|t1: int, t2: int|
            0 <= t1 < self.tables@.len() && 0 <= t2 < self.tables@.len() && t1 != t2 ==> #[trigger] self.paths@[t1] != #[trigger] self.paths@[t2]
        &&& forall|t: int, j: int|
            0 <= t < self.tables@.len() && 0 <= j < PAGE_TABLE_ENTRIES ==> self.entry_ok(t, j, #[trigger] self.entry(t, j))
        &&& forall|t: int, j: int, k: int|
            0 <= t < self.tables@.len() && 0 <= k < self.tables@.len() && 0 <= j < PAGE_TABLE_ENTRIES
                && self.paths@[t].len() < 2 && #[trigger] self.paths@[k] == #[trigger] self.paths@[t].push(j)
                ==> bit_set(self.entry(t, j), V_FLAG)
    }

    /// What the tree's shape asks of entry `j` of table `t`, whose bits are `e`.
    pub open spec fn entry_ok(&self, t: int, j: int, e: u64) -> bool {
        &&& !bit_set(e, V_FLAG) ==> e == 0
        &&& bit_set(e, V_FLAG) && self.path(t).len() < 2 ==> {
            let c = self.child(e);
            &&& 1 <= c < self.len()
            &&& e == pte_bits(self.table_addr(c) as u64, V_FLAG)
            &&& self.path(c) == self.path(t).push(j)
        }
        &&& bit_set(e, V_FLAG) && self.path(t).len() == 2 ==> is_leaf(e)
    }

    /// A pool of `capacity` table frames from `base` on, holding an empty root.
    pub fn new(base: u64, capacity: usize) -> (r: Self)
        requires
            base % 4096 == 0,
            1 <= capacity,
            base + 4096 * capacity <= pool_limit(),
        ensures
            r.wf(),
            r.len() == 1,
            r.spec_capacity() == capacity,
            r.spec_base() == base,
            forall|a: int, b: int, c: int|
                0 <= a < 512 && 0 <= b < 512 && 0 <= c < 512 ==> #[trigger] r.lookup(a, b, c).is_none(),
    {
        let mut tables: Vec<PageTable> = Vec::new();
        tables.push(PageTable::zeroed());
        let ghost paths = seq![Seq::<int>::empty()];
        let ghost parents = seq![0int];
        let r = PageTablePool { base, capacity, tables, paths: Ghost(paths), parents: Ghost(parents) };
        proof {
            assert forall|t: int, j: int|
                0 <= t < r.tables@.len() && 0 <= j < PAGE_TABLE_ENTRIES implies r.entry_ok(
                t,
                j,
                #[trigger] r.entry(t, j),
            ) by {
                assert(r.entry(t, j) == 0);
                assert(!bit_set(0u64, V_FLAG)) by (bit_vector);
            }
            assert forall|a: int, b: int, c: int|
                0 <= a < 512 && 0 <= b < 512 && 0 <= c < 512 implies #[trigger] r.lookup(a, b, c).is_none() by {
                assert(r.entry(0, a) == 0);
                assert(!bit_set(0u64, V_FLAG)) by (bit_vector);
            }
        }
        r
    }

    fn entry_at(&self, t: usize, j: usize) -> (r: PageTableEntry)
        requires
            self.wf(),
            t < self.len(),
            j < PAGE_TABLE_ENTRIES,
        ensures
            r@ == self.entry(t as int, j as int),
    {
        self.tables[t].get(j)
    }

    /// Facts about the interior entry `j` of table `t`.
    proof fn lemma_interior(&self, t: int, j: int)
        requires
            self.wf(),
            0 <= t < self.len(),
            0 <= j < PAGE_TABLE_ENTRIES,
            self.path(t).len() < 2,
            bit_set(self.entry(t, j), V_FLAG),
        ensures
            1 <= self.child(self.entry(t, j)) < self.len(),
            self.path(self.child(self.entry(t, j))) == self.path(t).push(j),
            pte_frame(self.entry(t, j)) == self.table_addr(self.child(self.entry(t, j))),
            pte_frame(self.entry(t, j)) >= self.spec_base(),
            !bit_set(self.entry(t, j), R_FLAG) && !bit_set(self.entry(t, j), W_FLAG) && !bit_set(
                self.entry(t, j),
                X_FLAG,
            ),
    {
        let e = self.entry(t, j);
        assert(self.entry_ok(t, j, e));
        let c = self.child(e);
        let addr = self.table_addr(c);
        assert(4096 * c <= 4096 * self.capacity) by (nonlinear_arith)
            requires
                c < self.len(),
                self.len() <= self.capacity,
        ;
        assert(addr % 4096 == 0) by (nonlinear_arith)
            requires
                addr == self.base + 4096 * c,
                self.base % 4096 == 0,
        ;
        lemma_pte_bits(addr as u64, V_FLAG);
        assert(1u64 & 2 == 0 && 1u64 & 4 == 0 && 1u64 & 8 == 0) by (bit_vector);
    }

    fn child_index(&self, t: usize, j: usize, e: PageTableEntry) -> (c: usize)
        requires
            self.wf(),
            t < self.len(),
            j < PAGE_TABLE_ENTRIES,
            self.path(t as int).len() < 2,
            e@ == self.entry(t as int, j as int),
            bit_set(e@, V_FLAG),
        ensures
            c == self.child(e@),
            1 <= c < self.len(),
            self.path(c as int) == self.path(t as int).push(j as int),
    {
        proof {
            self.lemma_interior(t as int, j as int);
            let k = self.child(e@);
            assert((pte_frame(e@) - self.base) / 4096 == k);
        }
        ((e.frame_addr() - self.base) / 4096) as usize
    }

    /// The leaf entry that maps the page of `va`, walking from the root
    /// through levels 2, 1 and 0; none when an entry on the way is invalid.
    pub fn walk(&self, va: VirtAddr) -> (r: Option<PageTableEntry>)
        requires
            self.wf(),
        ensures
            match r {
                None => self.lookup_va(va@).is_none(),
                Some(e) => self.lookup_va(va@) == Some(e@),
            },
    {
        let i2 = va.vpn2() as usize;
        let i1 = va.vpn1() as usize;
        let i0 = va.vpn0() as usize;
        let e2 = self.entry_at(0, i2);
        if !e2.is_valid() {
            return None;
        }
        let t1 = self.child_index(0, i2, e2);
        let e1 = self.entry_at(t1, i1);
        if !e1.is_valid() {
            return None;
        }
        proof {
            assert(self.path(t1 as int).len() == 1);
        }
        let t0 = self.child_index(t1, i1, e1);
        let e0 = self.entry_at(t0, i0);
        if !e0.is_valid() {
            return None;
        }
        Some(e0)
    }

    /// The physical address that `va` maps to for an access asking `flags`
    /// (R, W, X and U are checked); none when the page is not mapped, its leaf
    /// holds the reserved W-without-R encoding, or its leaf does not grant
    /// the access.
    pub fn try_translate(&self, va: VirtAddr, flags: PTEFlags) -> (r: Option<PhysAddr>)
        requires
            self.wf(),
        ensures
            match r {
                None => self.translate_spec(va@, flags@).is_none(),
                Some(pa) => self.translate_spec(va@, flags@) == Some(pa@),
            },
    {
        let e0 = match self.walk(va) {
            Some(e) => e,
            None => return None,
        };
        if e0.is_writable() && !e0.is_readable() {
            return None;
        }
        if flags.is_readable() && !e0.is_readable() {
            return None;
        }
        if flags.is_writable() && !e0.is_writable() {
            return None;
        }
        if flags.is_executable() && !e0.is_executable() {
            return None;
        }
        if flags.is_userable() && !e0.is_userable() {
            return None;
        }
        proof {
            lemma_or_offset(e0@, offset_of(va@));
            lemma_fields(va@);
        }
        Some(PhysAddr::from_raw(e0.frame_addr() | va.offset()))
    }

    /// The physical address that `va` maps to for an access asking `flags`.
    /// The walk must succeed: every entry on the way valid, a leaf that is not
    /// W-without-R and grants the access; an access that would not is a fault
    /// for the caller to raise, not for this function.
    pub fn translate(&self, va: VirtAddr, flags: PTEFlags) -> (r: PhysAddr)
        requires
            self.wf(),
            self.translate_spec(va@, flags@).is_some(),
        ensures
            Some(r@) == self.translate_spec(va@, flags@),
    {
        match self.try_translate(va, flags) {
            Some(pa) => pa,
            None => PhysAddr::from_raw(0),
        }
    }

    /// The table that entry `j` of table `t` points to, linking a new zeroed
    /// table there first if the entry is invalid. No page's mapping changes.
    fn ensure_child(&mut self, t: usize, j: usize) -> (c: usize)
        requires
            old(self).wf(),
            t < old(self).len(),
            j < PAGE_TABLE_ENTRIES,
            old(self).path(t as int).len() < 2,
            bit_set(old(self).entry(t as int, j as int), V_FLAG) || old(self).len() < old(self).spec_capacity(),
        ensures
            final(self).wf(),
            final(self).spec_base() == old(self).spec_base(),
            final(self).spec_capacity() == old(self).spec_capacity(),
            final(self).len() == old(self).len() + if bit_set(old(self).entry(t as int, j as int), V_FLAG) {
                0int
            } else {
                1int
            },
            bit_set(final(self).entry(t as int, j as int), V_FLAG),
            c == final(self).child(final(self).entry(t as int, j as int)),
            1 <= c < final(self).len(),
            final(self).path(c as int) == old(self).path(t as int).push(j as int),
            forall|k: int| 0 <= k < old(self).len() ==> final(self).path(k) == old(self).path(k),
            bit_set(old(self).entry(t as int, j as int), V_FLAG) ==> *final(self) == *old(self),
            !bit_set(old(self).entry(t as int, j as int), V_FLAG) ==> c == old(self).len() && forall|i: int|
                0 <= i < PAGE_TABLE_ENTRIES ==> final(self).entry(c as int, i) == 0,
            forall|k: int, i: int|
                0 <= k < old(self).len() && 0 <= i < PAGE_TABLE_ENTRIES && !(k == t && i == j)
                    ==> final(self).entry(k, i) == old(self).entry(k, i),
            forall|a: int, b: int, d: int|
                0 <= a < 512 && 0 <= b < 512 && 0 <= d < 512 ==> #[trigger] final(self).lookup(a, b, d)
                    == old(self).lookup(a, b, d),
    {
        let e = self.entry_at(t, j);
        if e.is_valid() {
            return self.child_index(t, j, e);
        }
        let ghost pre = *self;
        let n = self.tables.len();
        proof {
            assert(4096 * n < 4096 * self.capacity) by (nonlinear_arith)
                requires
                    n < self.capacity,
            ;
            assert((self.base + 4096 * n) % 4096 == 0) by (nonlinear_arith)
                requires
                    self.base % 4096 == 0,
            ;
            assert((4096 * n) / 4096 == n) by (nonlinear_arith);
            lemma_pte_bits((self.base + 4096 * n) as u64, V_FLAG);
            assert(1u64 & 1 != 0 && 1u64 & 2 == 0 && 1u64 & 4 == 0 && 1u64 & 8 == 0 && 0u64 & 1 == 0)
                by (bit_vector);
        }
        let addr = self.base + 4096 * n as u64;
        self.tables.push(PageTable::zeroed());
        let mut link = PageTableEntry::new_invalid();
        link.set(addr, PTEFlags::redirect());
        self.tables[t].set(j, link);
        proof {
            let np = pre.paths@[t as int].push(j as int);
            self.paths@ = self.paths@.push(np);
            self.parents@ = self.parents@.push(t as int);
            assert(np.drop_last() =~= pre.paths@[t as int]);
            assert forall|k: int| 1 <= k < self.tables@.len() implies 0 <= #[trigger] self.parents@[k]
                < self.tables@.len() && self.paths@[k].len() >= 1 && self.paths@[k]
                == self.paths@[self.parents@[k]].push(self.paths@[k].last()) by {
                if k == n as int {
                    assert(np =~= pre.paths@[t as int].push(np.last()));
                }
            }
            assert(self.child(link@) == n);
            assert(self.entry(t as int, j as int) == link@);
            assert forall|k: int, i: int|
                0 <= k < n && 0 <= i < PAGE_TABLE_ENTRIES && !(k == t && i == j) implies self.entry(k, i)
                == pre.entry(k, i) by {}
            assert forall|i: int| 0 <= i < PAGE_TABLE_ENTRIES implies self.entry(n as int, i) == 0 by {}
            assert forall|k: int| 0 <= k < n implies self.path(k) == pre.path(k) by {}
            assert forall|k: int| 0 <= k < n implies #[trigger] self.paths@[k] != np by {
                if self.paths@[k] == np {
                    assert(pre.paths@[k] == pre.paths@[t as int].push(j as int));
                }
            }
            assert forall|k: int, i: int|
                0 <= k < self.tables@.len() && 0 <= i < PAGE_TABLE_ENTRIES implies self.entry_ok(
                k,
                i,
                #[trigger] self.entry(k, i),
            ) by {
                if k == n as int {
                } else if k == t && i == j {
                } else {
                    assert(pre.entry_ok(k, i, pre.entry(k, i)));
                    if bit_set(pre.entry(k, i), V_FLAG) && pre.path(k).len() < 2 {
                        pre.lemma_interior(k, i);
                    }
                }
            }
            assert forall|k1: int, i: int, k2: int|
                0 <= k1 < self.tables@.len() && 0 <= k2 < self.tables@.len() && 0 <= i
                    < PAGE_TABLE_ENTRIES && self.paths@[k1].len() < 2 && #[trigger] self.paths@[k2]
                    == #[trigger] self.paths@[k1].push(i) implies bit_set(self.entry(k1, i), V_FLAG) by {
                if k1 == n as int {
                    if k2 < n {
                        let q = pre.parents@[k2];
                        if k2 == 0 {
                            assert(pre.paths@[0].len() == 0);
                        } else {
                            assert(pre.paths@[k2] == pre.paths@[q].push(pre.paths@[k2].last()));
                            assert(pre.paths@[q] =~= pre.paths@[k2].drop_last());
                            assert(np =~= np.push(i).drop_last());
                            assert(self.paths@[q] == np);
                        }
                    } else {
                        assert(np.push(i).len() != np.len());
                    }
                } else if k2 == n as int {
                    let q = self.paths@[k1];
                    assert(q.push(i) == np);
                    assert(q.push(i).drop_last() =~= q);
                    assert(q =~= pre.paths@[t as int]);
                    assert(q.push(i)[q.len() as int] == i);
                    assert(np[q.len() as int] == j);
                    if k1 != t {
                        assert(pre.paths@[k1] == pre.paths@[t as int]);
                    }
                } else if !(k1 == t && i == j) {
                    assert(pre.paths@[k2] == pre.paths@[k1].push(i));
                }
            }
            assert forall|a: int, b: int, d: int|
                0 <= a < 512 && 0 <= b < 512 && 0 <= d < 512 implies #[trigger] self.lookup(a, b, d)
                == pre.lookup(a, b, d) by {
                if t == 0 && j == a {
                    assert(self.entry(n as int, b) == 0);
                } else {
                    assert(self.entry(0, a) == pre.entry(0, a));
                    if bit_set(pre.entry(0, a), V_FLAG) {
                        pre.lemma_interior(0, a);
                        let t1 = pre.child(pre.entry(0, a));
                        if t1 == t && b == j {
                            assert(self.entry(n as int, d) == 0);
                        } else {
                            assert(self.entry(t1, b) == pre.entry(t1, b));
                            if bit_set(pre.entry(t1, b), V_FLAG) {
                                assert(pre.path(t1).len() == 1);
                                pre.lemma_interior(t1, b);
                                let t0 = pre.child(pre.entry(t1, b));
                                assert(pre.path(t0).len() == 2);
                                assert(t0 != t);
                                assert(self.entry(t0, d) == pre.entry(t0, d));
                            }
                        }
                    }
                }
            }
        }
        n
    }

    /// Maps the page of `va` to the frame of `pa` with `flags`, linking new
    /// tables from the pool where the walk needs them. Returns the leaf entry
    /// the page had, if any, so that a caller can detect a collision. Fails,
    /// changing nothing, when the pool lacks frames for the needed tables.
    pub fn strong_map(&mut self, va: VirtAddr, pa: PhysAddr, flags: PTEFlags) -> (r: Result<
        Option<PageTableEntry>,
        MapError,
    >)
        requires
            old(self).wf(),
            is_leaf(flags@),
            flags@ < 1024,
        ensures
            final(self).wf(),
            final(self).spec_base() == old(self).spec_base(),
            final(self).spec_capacity() == old(self).spec_capacity(),
            ({
                let i2 = vpn_of(va@, 2) as int;
                let i1 = vpn_of(va@, 1) as int;
                let i0 = vpn_of(va@, 0) as int;
                &&& r is Err <==> old(self).tables_needed(i2, i1) + old(self).len() > old(self).spec_capacity()
                &&& r is Err ==> r == Err::<Option<PageTableEntry>, MapError>(MapError::OutOfTables)
                    && *final(self) == *old(self)
                &&& r is Ok ==> {
                    &&& final(self).lookup(i2, i1, i0) == Some(pte_bits(frame_of(pa@), flags@))
                    &&& forall|a: int, b: int, c: int|
                        0 <= a < 512 && 0 <= b < 512 && 0 <= c < 512 && !(a == i2 && b == i1 && c == i0)
                            ==> #[trigger] final(self).lookup(a, b, c) == old(self).lookup(a, b, c)
                    &&& match r.unwrap() {
                        None => old(self).lookup(i2, i1, i0).is_none(),
                        Some(e) => old(self).lookup(i2, i1, i0) == Some(e@),
                    }
                    &&& final(self).len() == old(self).len() + old(self).tables_needed(i2, i1)
                }
            }),
    {
        let mut page = va;
        let mut frame = pa;
        page.round_down();
        frame.round_down();
        let i2 = page.vpn2() as usize;
        let i1 = page.vpn1() as usize;
        let i0 = page.vpn0() as usize;
        proof {
            lemma_page_vpn(va@);
            lemma_page_frame(pa@);
        }
        let e2 = self.entry_at(0, i2);
        let needed: usize = if !e2.is_valid() {
            2
        } else {
            let t1 = self.child_index(0, i2, e2);
            let e1 = self.entry_at(t1, i1);
            if !e1.is_valid() {
                1
            } else {
                0
            }
        };
        if self.capacity - self.tables.len() < needed {
            return Err(MapError::OutOfTables);
        }
        let ghost pre = *self;
        let t1 = self.ensure_child(0, i2);
        let ghost mid1 = *self;
        proof {
            assert(self.path(t1 as int).len() == 1);
            if bit_set(pre.entry(0, i2 as int), V_FLAG) {
                assert(mid1.entry(t1 as int, i1 as int) == pre.entry(t1 as int, i1 as int));
            } else {
                assert(mid1.entry(t1 as int, i1 as int) == 0);
                assert(!bit_set(0u64, V_FLAG)) by (bit_vector);
            }
        }
        let t0 = self.ensure_child(t1, i1);
        let ghost mid = *self;
        proof {
            assert(mid.entry(0, i2 as int) == mid1.entry(0, i2 as int));
            assert(mid.lookup(i2 as int, i1 as int, i0 as int) == pre.lookup(i2 as int, i1 as int, i0 as int));
        }
        let prev = self.entry_at(t0, i0);
        proof {
            assert(mid.lookup(i2 as int, i1 as int, i0 as int) == if bit_set(prev@, V_FLAG) {
                Some(prev@)
            } else {
                None::<u64>
            });
        }
        let mut leaf = PageTableEntry::new_invalid();
        leaf.set(frame.frame_adrr(), flags);
        proof {
            lemma_fields(pa@);
            lemma_fields(frame@);
            lemma_pte_bits(frame_of(pa@), flags@);
        }
        self.set_leaf(t1, t0, i2, i1, i0, leaf);
        if prev.is_valid() {
            Ok(Some(prev))
        } else {
            Ok(None)
        }
    }

    /// Writes the leaf entry `i0` of the level-0 table `t0`, reached from the
    /// root through entry `i2` and table `t1`'s entry `i1`.
    fn set_leaf(&mut self, t1: usize, t0: usize, i2: usize, i1: usize, i0: usize, leaf: PageTableEntry)
        requires
            old(self).wf(),
            i2 < 512 && i1 < 512 && i0 < 512,
            t1 < old(self).len() && t0 < old(self).len(),
            bit_set(old(self).entry(0, i2 as int), V_FLAG),
            old(self).child(old(self).entry(0, i2 as int)) == t1,
            old(self).path(t1 as int).len() == 1,
            bit_set(old(self).entry(t1 as int, i1 as int), V_FLAG),
            old(self).child(old(self).entry(t1 as int, i1 as int)) == t0,
            is_leaf(leaf@),
        ensures
            final(self).wf(),
            final(self).spec_base() == old(self).spec_base(),
            final(self).spec_capacity() == old(self).spec_capacity(),
            final(self).len() == old(self).len(),
            final(self).lookup(i2 as int, i1 as int, i0 as int) == Some(leaf@),
            forall|a: int, b: int, c: int|
                0 <= a < 512 && 0 <= b < 512 && 0 <= c < 512 && !(a == i2 && b == i1 && c == i0)
                    ==> #[trigger] final(self).lookup(a, b, c) == old(self).lookup(a, b, c),
    {
        let ghost mid = *self;
        proof {
            mid.lemma_interior(0, i2 as int);
            mid.lemma_interior(t1 as int, i1 as int);
            assert(mid.path(t0 as int).len() == 2);
        }
        self.tables[t0].set(i0, leaf);
        proof {
            assert(self.entry(t0 as int, i0 as int) == leaf@);
            assert forall|k: int, i: int|
                0 <= k < self.tables@.len() && 0 <= i < PAGE_TABLE_ENTRIES && !(k == t0 && i == i0)
                    implies self.entry(k, i) == mid.entry(k, i) by {}
            assert forall|k: int, i: int|
                0 <= k < self.tables@.len() && 0 <= i < PAGE_TABLE_ENTRIES implies self.entry_ok(
                k,
                i,
                #[trigger] self.entry(k, i),
            ) by {
                if !(k == t0 && i == i0) {
                    assert(mid.entry_ok(k, i, mid.entry(k, i)));
                }
            }
            assert forall|k1: int, i: int, k2: int|
                0 <= k1 < self.tables@.len() && 0 <= k2 < self.tables@.len() && 0 <= i
                    < PAGE_TABLE_ENTRIES && self.paths@[k1].len() < 2 && #[trigger] self.paths@[k2]
                    == #[trigger] self.paths@[k1].push(i) implies bit_set(self.entry(k1, i), V_FLAG) by {
                assert(k1 != t0);
                assert(mid.paths@[k2] == mid.paths@[k1].push(i));
            }
            assert(self.entry(0, i2 as int) == mid.entry(0, i2 as int));
            assert(self.entry(t1 as int, i1 as int) == mid.entry(t1 as int, i1 as int));
            assert forall|a: int, b: int, c: int|
                0 <= a < 512 && 0 <= b < 512 && 0 <= c < 512 && !(a == i2 && b == i1 && c == i0)
                    implies #[trigger] self.lookup(a, b, c) == mid.lookup(a, b, c) by {
                assert(self.entry(0, a) == mid.entry(0, a));
                if bit_set(mid.entry(0, a), V_FLAG) {
                    mid.lemma_interior(0, a);
                    let u1 = mid.child(mid.entry(0, a));
                    assert(mid.path(u1).len() == 1);
                    assert(self.entry(u1, b) == mid.entry(u1, b));
                    if bit_set(mid.entry(u1, b), V_FLAG) {
                        mid.lemma_interior(u1, b);
                        let u0 = mid.child(mid.entry(u1, b));
                        if u0 == t0 {
                            assert(mid.path(u0) == seq![a].push(b));
                            assert(mid.path(t0 as int) == seq![i2 as int].push(i1 as int));
                            assert(mid.path(u0)[0] == a && mid.path(u0)[1] == b);
                        }
                        assert(self.entry(u0, c) == mid.entry(u0, c));
                    }
                }
            }
        }
    }
}

/// Clearing the offset keeps the table indices.
pub proof fn lemma_page_vpn(x: u64)
    ensures
        vpn_of((x - x % 4096) as u64, 2) == vpn_of(x, 2),
        vpn_of((x - x % 4096) as u64, 1) == vpn_of(x, 1),
        vpn_of((x - x % 4096) as u64, 0) == vpn_of(x, 0),
{
    let y = (x - x % 4096) as u64;
    assert(y / 0x1000 == x / 0x1000);
    assert(y / 0x20_0000 == x / 0x20_0000);
    assert(y / 0x4000_0000 == x / 0x4000_0000);
}

/// Clearing the offset keeps the frame.
proof fn lemma_page_frame(x: u64)
    ensures
        frame_of((x - x % 4096) as u64) == frame_of(x),
{
    let y = (x - x % 4096) as u64;
    assert(frame_of(y) == frame_of(x)) by (bit_vector)
        requires
            y == (x - x % 4096) as u64,
    ;
}

/// Every valid entry of an address space is either a leaf at level 0 that
/// grants at least one of R, W, X, or an interior entry above level 0 with
/// none of them, pointing at a table of the same pool.
pub proof fn lemma_pte_shape(pool: &PageTablePool, t: int, j: int)
    requires
        pool.wf(),
        0 <= t < pool.len(),
        0 <= j < PAGE_TABLE_ENTRIES,
        bit_set(pool.entry(t, j), V_FLAG),
    ensures
        pool.path(t).len() == 2 ==> is_leaf(pool.entry(t, j)),
        pool.path(t).len() < 2 ==> !bit_set(pool.entry(t, j), R_FLAG) && !bit_set(
            pool.entry(t, j),
            W_FLAG,
        ) && !bit_set(pool.entry(t, j), X_FLAG) && 1 <= pool.child(pool.entry(t, j)) < pool.len()
            && pool.path(pool.child(pool.entry(t, j))) == pool.path(t).push(j),
        pool.path(t).len() <= 2,
{
    if pool.path(t).len() < 2 {
        pool.lemma_interior(t, j);
    }
}

/// A page mapped to itself translates every address on it to itself, for
/// any access its flags grant.
pub proof fn lemma_identity_translate(pool: &PageTablePool, pa: u64, flags: u64, mask: u64)
    requires
        pool.wf(),
        pa < 0x100_0000_0000_0000,
        flags < 1024,
        grants(flags, mask),
        !(bit_set(flags, W_FLAG) && !bit_set(flags, R_FLAG)),
        pool.lookup_va(pa) == Some(pte_bits(frame_of(pa), flags)),
    ensures
        pool.translate_spec(pa, mask) == Some(pa),
{
    lemma_fields(pa);
    lemma_pte_bits(frame_of(pa), flags);
}

/// The address of page `i` of a range that starts at `va`.
pub open spec fn page_at(va: u64, i: int) -> u64 {
    (va + 4096 * i) as u64
}

/// Below 2^39 the three table indices of an address tell its page apart.
pub proof fn lemma_vpn_injective(x: u64, y: u64)
    requires
        x < 0x80_0000_0000,
        y < 0x80_0000_0000,
        vpn_of(x, 2) == vpn_of(y, 2),
        vpn_of(x, 1) == vpn_of(y, 1),
        vpn_of(x, 0) == vpn_of(y, 0),
    ensures
        x / 4096 == y / 4096,
{
    assert(x / 4096 == y / 4096) by (bit_vector)
        requires
            x < 0x80_0000_0000,
            y < 0x80_0000_0000,
            (x / 0x4000_0000) % 512 == (y / 0x4000_0000) % 512,
            (x / 0x20_0000) % 512 == (y / 0x20_0000) % 512,
            (x / 0x1000) % 512 == (y / 0x1000) % 512,
    ;
}

proof fn lemma_pages_distinct(va: u64, i: int, k: int)
    requires
        va % 4096 == 0,
        0 <= i < k,
        va + 4096 * k < 0x80_0000_0000,
    ensures
        !(vpn_of(page_at(va, i), 2) == vpn_of(page_at(va, k), 2) && vpn_of(page_at(va, i), 1)
            == vpn_of(page_at(va, k), 1) && vpn_of(page_at(va, i), 0) == vpn_of(page_at(va, k), 0)),
{
    assert(4096 * i < 4096 * k) by (nonlinear_arith)
        requires
            i < k,
    ;
    let x = page_at(va, i);
    let y = page_at(va, k);
    assert(x / 4096 != y / 4096) by (nonlinear_arith)
        requires
            x == va + 4096 * i,
            y == va + 4096 * k,
            va % 4096 == 0,
            i < k,
    ;
    if vpn_of(x, 2) == vpn_of(y, 2) && vpn_of(x, 1) == vpn_of(y, 1) && vpn_of(x, 0) == vpn_of(y, 0) {
        lemma_vpn_injective(x, y);
    }
}

impl PageTablePool {
    /// Maps `npages` consecutive pages from `va` to consecutive frames from
    /// `pa`, one `strong_map` each. On success page `i` maps to frame `i` and
    /// no other page's mapping changed. Fails only when the pool runs out
    /// of table frames, with the pages before that point mapped.
    pub fn map_range(&mut self, va: u64, pa: u64, npages: u64, flags: PTEFlags) -> (r: Result<
        (),
        MapError,
    >)
        requires
            old(self).wf(),
            is_leaf(flags@),
            flags@ < 1024,
            va % 4096 == 0,
            va + 4096 * npages < 0x80_0000_0000,
            pa + 4096 * npages <= u64::MAX,
        ensures
            final(self).wf(),
            final(self).spec_base() == old(self).spec_base(),
            final(self).spec_capacity() == old(self).spec_capacity(),
            r is Err ==> final(self).len() + 2 > final(self).spec_capacity(),
            r is Ok ==> forall|i: int|
                0 <= i < npages ==> #[trigger] final(self).lookup_va(page_at(va, i)) == Some(
                    pte_bits(frame_of(page_at(pa, i)), flags@),
                ),
            r is Ok ==> forall|a: int, b: int, c: int|
                0 <= a < 512 && 0 <= b < 512 && 0 <= c < 512 && (forall|i: int|
                    0 <= i < npages ==> !(vpn_of(page_at(va, i), 2) == a && vpn_of(page_at(va, i), 1)
                        == b && vpn_of(page_at(va, i), 0) == c)) ==> #[trigger] final(self).lookup(
                    a,
                    b,
                    c,
                ) == old(self).lookup(a, b, c),
    {
        let mut k: u64 = 0;
        while k < npages
            invariant
                k <= npages,
                self.wf(),
                self.spec_base() == old(self).spec_base(),
                self.spec_capacity() == old(self).spec_capacity(),
                is_leaf(flags@),
                flags@ < 1024,
                va % 4096 == 0,
                va + 4096 * npages < 0x80_0000_0000,
                pa + 4096 * npages <= u64::MAX,
                forall|i: int|
                    0 <= i < k ==> #[trigger] self.lookup_va(page_at(va, i)) == Some(
                        pte_bits(frame_of(page_at(pa, i)), flags@),
                    ),
                forall|a: int, b: int, c: int|
                    0 <= a < 512 && 0 <= b < 512 && 0 <= c < 512 && (forall|i: int|
                        0 <= i < k ==> !(vpn_of(page_at(va, i), 2) == a && vpn_of(page_at(va, i), 1)
                            == b && vpn_of(page_at(va, i), 0) == c)) ==> #[trigger] self.lookup(
                        a,
                        b,
                        c,
                    ) == old(self).lookup(a, b, c),
            decreases npages - k,
        {
            let ghost pre = *self;
            let v = va + 4096 * k;
            let p = pa + 4096 * k;
            proof {
                lemma_fields(v);
            }
            match self.strong_map(VirtAddr::from_raw(v), PhysAddr::from_raw(p), flags) {
                Ok(_) => {},
                Err(e) => {
                    return Err(e);
                },
            }
            proof {
                let x = page_at(va, k as int);
                assert(x == v);
                assert forall|i: int| 0 <= i < k + 1 implies #[trigger] self.lookup_va(page_at(va, i))
                    == Some(pte_bits(frame_of(page_at(pa, i)), flags@)) by {
                    if i < k {
                        lemma_pages_distinct(va, i, k as int);
                        lemma_fields(page_at(va, i));
                        assert(pre.lookup_va(page_at(va, i)) == Some(
                            pte_bits(frame_of(page_at(pa, i)), flags@),
                        ));
                    }
                }
                assert forall|a: int, b: int, c: int|
                    0 <= a < 512 && 0 <= b < 512 && 0 <= c < 512 && (forall|i: int|
                        0 <= i < k + 1 ==> !(vpn_of(page_at(va, i), 2) == a && vpn_of(page_at(va, i), 1)
                            == b && vpn_of(page_at(va, i), 0) == c)) implies #[trigger] self.lookup(
                    a,
                    b,
                    c,
                ) == old(self).lookup(a, b, c) by {
                    assert(!(vpn_of(page_at(va, k as int), 2) == a && vpn_of(page_at(va, k as int), 1)
                        == b && vpn_of(page_at(va, k as int), 0) == c));
                    assert(pre.lookup(a, b, c) == old(self).lookup(a, b, c));
                }
            }
            k = k + 1;
        }
        Ok(())
    }
}

/// A run of pages mapped to themselves with one set of flags.
#[derive(Clone, Copy, Debug)]
pub struct MemRegion {
    pub start: u64,
    pub npages: u64,
    pub flags: PTEFlags,
}

/// The regions can be mapped: page-aligned, below 2^39, with leaf flags,
/// pairwise disjoint.
pub open spec fn regions_ok(rs: Seq<MemRegion>) -> bool {
    &&& forall|r: int|
        0 <= r < rs.len() ==> {
            let g = #[trigger] rs[r];
            &&& g.start % 4096 == 0
            &&& g.start + 4096 * g.npages < 0x80_0000_0000
            &&& is_leaf(g.flags@)
            &&& g.flags@ < 1024
        }
    &&& forall|r1: int, r2: int|
        0 <= r1 < r2 < rs.len() ==> #[trigger] rs[r1].start + 4096 * rs[r1].npages <= #[trigger] rs[r2].start
            || rs[r2].start + 4096 * rs[r2].npages <= rs[r1].start
}

/// Every page of every region maps to itself with the region's flags.
pub open spec fn identity_mapped(pool: PageTablePool, rs: Seq<MemRegion>) -> bool {
    forall|r: int, i: int|
        0 <= r < rs.len() && 0 <= i < rs[r].npages ==> #[trigger] pool.lookup_va(page_at(rs[r].start, i))
            == Some(pte_bits(page_at(rs[r].start, i), rs[r].flags@))
}

/// Pages below 2^39 with the same table indices are the same page.
pub proof fn lemma_same_triple_same_page(x: u64, y: u64)
    requires
        x < 0x80_0000_0000,
        y < 0x80_0000_0000,
        x % 4096 == 0,
        y % 4096 == 0,
        vpn_of(x, 2) == vpn_of(y, 2),
        vpn_of(x, 1) == vpn_of(y, 1),
        vpn_of(x, 0) == vpn_of(y, 0),
    ensures
        x == y,
{
    lemma_vpn_injective(x, y);
}

pub proof fn lemma_page_in_range(start: u64, i: int, n: u64)
    requires
        start % 4096 == 0,
        0 <= i < n,
        start + 4096 * n < 0x80_0000_0000,
    ensures
        page_at(start, i) % 4096 == 0,
        start <= page_at(start, i) < start + 4096 * n,
        page_at(start, i) < 0x80_0000_0000,
        frame_of(page_at(start, i)) == page_at(start, i),
{
    assert(4096 * i < 4096 * n) by (nonlinear_arith)
        requires
            i < n,
    ;
    assert((start + 4096 * i) % 4096 == 0) by (nonlinear_arith)
        requires
            start % 4096 == 0,
    ;
    lemma_fields(page_at(start, i));
}

impl PageTablePool {
    /// Maps each region to itself, in order.
    pub fn map_identity_regions(&mut self, regions: &Vec<MemRegion>) -> (r: Result<(), MapError>)
        requires
            old(self).wf(),
            regions_ok(regions@),
        ensures
            final(self).wf(),
            final(self).spec_base() == old(self).spec_base(),
            final(self).spec_capacity() == old(self).spec_capacity(),
            r is Err ==> final(self).len() + 2 > final(self).spec_capacity(),
            r is Ok ==> identity_mapped(*final(self), regions@),
            r is Ok ==> forall|a: int, b: int, c: int|
                0 <= a < 512 && 0 <= b < 512 && 0 <= c < 512 && (forall|q: int, i: int|
                    0 <= q < regions@.len() && 0 <= i < regions@[q].npages ==> !(vpn_of(
                        page_at(regions@[q].start, i),
                        2,
                    ) == a && vpn_of(page_at(regions@[q].start, i), 1) == b && vpn_of(
                        page_at(regions@[q].start, i),
                        0,
                    ) == c)) ==> #[trigger] final(self).lookup(a, b, c) == old(self).lookup(a, b, c),
    {
        let mut k: usize = 0;
        while k < regions.len()
            invariant
                k <= regions@.len(),
                self.wf(),
                self.spec_base() == old(self).spec_base(),
                self.spec_capacity() == old(self).spec_capacity(),
                regions_ok(regions@),
                identity_mapped(*self, regions@.subrange(0, k as int)),
                forall|a: int, b: int, c: int|
                    0 <= a < 512 && 0 <= b < 512 && 0 <= c < 512 && (forall|q: int, i: int|
                        0 <= q < k && 0 <= i < regions@[q].npages ==> !(vpn_of(
                            page_at(regions@[q].start, i),
                            2,
                        ) == a && vpn_of(page_at(regions@[q].start, i), 1) == b && vpn_of(
                            page_at(regions@[q].start, i),
                            0,
                        ) == c)) ==> #[trigger] self.lookup(a, b, c) == old(self).lookup(a, b, c),
            decreases regions@.len() - k,
        {
            let g = regions[k];
            let ghost pre = *self;
            proof {
                assert(regions@[k as int] == g);
            }
            match self.map_range(g.start, g.start, g.npages, g.flags) {
                Ok(()) => {},
                Err(e) => {
                    return Err(e);
                },
            }
            proof {
                let done = regions@.subrange(0, k as int + 1);
                assert forall|r: int, i: int|
                    0 <= r < done.len() && 0 <= i < done[r].npages implies #[trigger] self.lookup_va(
                    page_at(done[r].start, i),
                ) == Some(pte_bits(page_at(done[r].start, i), done[r].flags@)) by {
                    let h = done[r];
                    lemma_page_in_range(h.start, i, h.npages);
                    if r < k {
                        assert(regions@.subrange(0, k as int)[r] == h);
                        let x = page_at(h.start, i);
                        assert(pre.lookup_va(x) == Some(pte_bits(x, h.flags@)));
                        assert forall|i2: int| 0 <= i2 < g.npages implies !(vpn_of(page_at(g.start, i2), 2)
                            == vpn_of(x, 2) && vpn_of(page_at(g.start, i2), 1) == vpn_of(x, 1) && vpn_of(
                            page_at(g.start, i2),
                            0,
                        ) == vpn_of(x, 0)) by {
                            lemma_page_in_range(g.start, i2, g.npages);
                            assert(regions@[r] == h);
                            if vpn_of(page_at(g.start, i2), 2) == vpn_of(x, 2) && vpn_of(page_at(g.start, i2), 1)
                                == vpn_of(x, 1) && vpn_of(page_at(g.start, i2), 0) == vpn_of(x, 0) {
                                lemma_same_triple_same_page(page_at(g.start, i2), x);
                            }
                        }
                        lemma_fields(x);
                    } else {
                        assert(h == g);
                    }
                }
                assert forall|a: int, b: int, c: int|
                    0 <= a < 512 && 0 <= b < 512 && 0 <= c < 512 && (forall|q: int, i: int|
                        0 <= q < k + 1 && 0 <= i < regions@[q].npages ==> !(vpn_of(
                            page_at(regions@[q].start, i),
                            2,
                        ) == a && vpn_of(page_at(regions@[q].start, i), 1) == b && vpn_of(
                            page_at(regions@[q].start, i),
                            0,
                        ) == c)) implies #[trigger] self.lookup(a, b, c) == old(self).lookup(a, b, c) by {
                    assert forall|i: int| 0 <= i < g.npages implies !(vpn_of(page_at(g.start, i), 2) == a
                        && vpn_of(page_at(g.start, i), 1) == b && vpn_of(page_at(g.start, i), 0) == c) by {
                        assert(regions@[k as int] == g);
                    }
                    assert(pre.lookup(a, b, c) == old(self).lookup(a, b, c));
                }
            }
            k = k + 1;
        }
        proof {
            assert(regions@.subrange(0, regions@.len() as int) =~= regions@);
        }
        Ok(())
    }
}

/// Any address inside an identity-mapped region translates to itself, for
/// any access the region's flags grant.
pub proof fn lemma_region_identity(pool: &PageTablePool, regions: Seq<MemRegion>, r: int, pa: u64, mask: u64)
    requires
        pool.wf(),
        regions_ok(regions),
        identity_mapped(*pool, regions),
        0 <= r < regions.len(),
        regions[r].start <= pa < regions[r].start + 4096 * regions[r].npages,
        grants(regions[r].flags@, mask),
        !(bit_set(regions[r].flags@, W_FLAG) && !bit_set(regions[r].flags@, R_FLAG)),
    ensures
        pool.translate_spec(pa, mask) == Some(pa),
{
    let g = regions[r];
    assert(g.start % 4096 == 0 && g.start + 4096 * g.npages < 0x80_0000_0000 && g.flags@ < 1024);
    let i = (pa - g.start) / 4096;
    assert(0 <= i < g.npages && g.start + 4096 * i == pa - pa % 4096) by (nonlinear_arith)
        requires
            g.start % 4096 == 0,
            g.start <= pa < g.start + 4096 * g.npages,
            i == (pa - g.start) / 4096,
    ;
    let x = page_at(g.start, i);
    lemma_page_vpn(pa);
    lemma_fields(pa);
    assert(pool.lookup_va(x) == Some(pte_bits(x, g.flags@)));
    assert(frame_of(pa) == x);
    lemma_identity_translate(pool, pa, g.flags@, mask);
}

pub open spec fn rw_flags() -> u64 {
    7
}

pub open spec fn rx_flags() -> u64 {
    11
}

pub open spec fn rwx_flags() -> u64 {
    15
}

/// The first page not mapped as RAM: the top 20 pages of RAM are left out.
pub open spec fn ram_map_end() -> u64 {
    0x8c7e_c000
}

/// A region with this start, page count and flag bits.
pub open spec fn region_is(g: MemRegion, start: u64, npages: u64, bits: u64) -> bool {
    g.start == start && g.npages == npages && g.flags@ == bits
}

/// The identity regions of the kernel's address space, for a kernel whose
/// text ends at `eot` and whose data ends at `eod`: UART, virtio and PLIC
/// registers, the CLINT pages, the boot ROM, the text (without its last
/// page), the data, and the rest of RAM.
pub open spec fn is_kernel_regions(rs: Seq<MemRegion>, eot: u64, eod: u64) -> bool {
    &&& rs.len() == 11
    &&& region_is(rs[0], 0x1000_0000, 1, rw_flags())
    &&& region_is(rs[1], 0x1000_1000, 1, rw_flags())
    &&& region_is(rs[2], 0x0C00_0000, 1024, rw_flags())
    &&& region_is(rs[3], 0x8000_0000, ((eot - 4096 - 0x8000_0000) / 4096) as u64, rx_flags())
    &&& region_is(rs[4], eot, ((eod - eot) / 4096) as u64, rw_flags())
    &&& region_is(rs[5], 0x0200_0000, 1, rw_flags())
    &&& region_is(rs[6], 0x0200_4000, 1, rw_flags())
    &&& region_is(rs[7], 0x0200_b000, 1, rw_flags())
    &&& region_is(rs[8], 0x0200_c000, 1, rw_flags())
    &&& region_is(rs[9], 0x1000, 1, rx_flags())
    &&& region_is(rs[10], eod, ((ram_map_end() - eod) / 4096) as u64, rwx_flags())
}

/// Where a kernel image may end its text (`eot`) and data (`eod`).
pub open spec fn kernel_layout_ok(eot: u64, eod: u64) -> bool {
    &&& eot % 4096 == 0
    &&& eod % 4096 == 0
    &&& 0x8000_1000 <= eot <= eod <= ram_map_end()
}

proof fn lemma_flag_values()
    by (bit_vector)
    ensures
        (1u64 | 2u64) | 4u64 == 7u64,
        (1u64 | 2u64) | 8u64 == 11u64,
        ((1u64 | 2u64) | 4u64) | 8u64 == 15u64,
        7u64 & 1 != 0 && 7u64 & 2 != 0,
        11u64 & 1 != 0 && 11u64 & 2 != 0 && 11u64 & 8 != 0,
        15u64 & 1 != 0 && 15u64 & 2 != 0,
{
}

/// The kernel's identity regions.
pub fn kernel_regions(eot: u64, eod: u64) -> (r: Vec<MemRegion>)
    requires
        kernel_layout_ok(eot, eod),
    ensures
        is_kernel_regions(r@, eot, eod),
        regions_ok(r@),
{
    proof {
        lemma_flag_values();
    }
    let rw = PTEFlags::valid().readable().writable();
    let rx = PTEFlags::valid().readable().executable();
    let rwx = PTEFlags::valid().readable().writable().executable();
    let mut v: Vec<MemRegion> = Vec::new();
    v.push(MemRegion { start: 0x1000_0000, npages: 1, flags: rw });
    v.push(MemRegion { start: 0x1000_1000, npages: 1, flags: rw });
    v.push(MemRegion { start: 0x0C00_0000, npages: 1024, flags: rw });
    v.push(MemRegion { start: 0x8000_0000, npages: (eot - 4096 - 0x8000_0000) / 4096, flags: rx });
    v.push(MemRegion { start: eot, npages: (eod - eot) / 4096, flags: rw });
    v.push(MemRegion { start: 0x0200_0000, npages: 1, flags: rw });
    v.push(MemRegion { start: 0x0200_4000, npages: 1, flags: rw });
    v.push(MemRegion { start: 0x0200_b000, npages: 1, flags: rw });
    v.push(MemRegion { start: 0x0200_c000, npages: 1, flags: rw });
    v.push(MemRegion { start: 0x1000, npages: 1, flags: rx });
    v.push(MemRegion { start: eod, npages: (0x8c7e_c000 - eod) / 4096, flags: rwx });
    proof {
        assert(4096 * ((eot - 4096 - 0x8000_0000) / 4096) == eot - 4096 - 0x8000_0000) by (nonlinear_arith)
            requires
                eot % 4096 == 0,
                eot >= 0x8000_1000,
        ;
        assert(4096 * ((eod - eot) / 4096) == eod - eot) by (nonlinear_arith)
            requires
                eot % 4096 == 0,
                eod % 4096 == 0,
                eot <= eod,
        ;
        assert(4096 * ((0x8c7e_c000 - eod) / 4096) == 0x8c7e_c000 - eod) by (nonlinear_arith)
            requires
                eod % 4096 == 0,
                eod <= 0x8c7e_c000,
        ;
    }
    v
}

/// Page `x` lies in one of the kernel's identity regions (see
/// `is_kernel_regions`).
pub open spec fn in_kernel_regions(x: int, eot: u64, eod: u64) -> bool {
    ||| 0x1000_0000 <= x < 0x1000_2000
    ||| 0x0C00_0000 <= x < 0x0C40_0000
    ||| 0x8000_0000 <= x < eot - 4096
    ||| eot <= x < eod
    ||| 0x0200_0000 <= x < 0x0200_1000
    ||| 0x0200_4000 <= x < 0x0200_5000
    ||| 0x0200_b000 <= x < 0x0200_d000
    ||| 0x1000 <= x < 0x2000
    ||| eod <= x < ram_map_end()
}

proof fn lemma_outside_regions_kept(
    before: PageTablePool,
    mid: PageTablePool,
    post: PageTablePool,
    rs: Seq<MemRegion>,
    eot: u64,
    eod: u64,
)
    requires
        kernel_layout_ok(eot, eod),
        is_kernel_regions(rs, eot, eod),
        regions_ok(rs),
        forall|a: int, b: int, c: int|
            0 <= a < 512 && 0 <= b < 512 && 0 <= c < 512 && (forall|q: int, i: int|
                0 <= q < rs.len() && 0 <= i < rs[q].npages ==> !(vpn_of(page_at(rs[q].start, i), 2) == a
                    && vpn_of(page_at(rs[q].start, i), 1) == b && vpn_of(page_at(rs[q].start, i), 0) == c))
                ==> #[trigger] mid.lookup(a, b, c) == before.lookup(a, b, c),
        forall|a: int, b: int, c: int|
            0 <= a < 512 && 0 <= b < 512 && 0 <= c < 512 && !(a == vpn_of(crate::param::TRAMPOLINE_VADDR as u64, 2)
                && b == vpn_of(crate::param::TRAMPOLINE_VADDR as u64, 1) && c == vpn_of(
                crate::param::TRAMPOLINE_VADDR as u64,
                0,
            )) ==> #[trigger] post.lookup(a, b, c) == mid.lookup(a, b, c),
    ensures
        forall|x: u64|
            x % 4096 == 0 && x < 0x80_0000_0000 && !in_kernel_regions(x as int, eot, eod) && x
                != crate::param::TRAMPOLINE_VADDR ==> #[trigger] post.lookup_va(x) == before.lookup_va(x),
{
    assert(4096 * ((eot - 4096 - 0x8000_0000) / 4096) == eot - 4096 - 0x8000_0000) by (nonlinear_arith)
        requires
            eot % 4096 == 0,
            eot >= 0x8000_1000,
    ;
    assert(4096 * ((eod - eot) / 4096) == eod - eot) by (nonlinear_arith)
        requires
            eot % 4096 == 0,
            eod % 4096 == 0,
            eot <= eod,
    ;
    assert(4096 * ((0x8c7e_c000 - eod) / 4096) == 0x8c7e_c000 - eod) by (nonlinear_arith)
        requires
            eod % 4096 == 0,
            eod <= 0x8c7e_c000,
    ;
    let t = crate::param::TRAMPOLINE_VADDR as u64;
    lemma_fields(t);
    assert forall|x: u64|
        x % 4096 == 0 && x < 0x80_0000_0000 && !in_kernel_regions(x as int, eot, eod) && x != t implies #[trigger] post.lookup_va(
        x,
    ) == before.lookup_va(x) by {
        lemma_fields(x);
        assert forall|q: int, i: int| 0 <= q < rs.len() && 0 <= i < rs[q].npages implies !(vpn_of(
            page_at(rs[q].start, i),
            2,
        ) == vpn_of(x, 2) && vpn_of(page_at(rs[q].start, i), 1) == vpn_of(x, 1) && vpn_of(
            page_at(rs[q].start, i),
            0,
        ) == vpn_of(x, 0)) by {
            let g = rs[q];
            lemma_page_in_range(g.start, i, g.npages);
            if vpn_of(page_at(g.start, i), 2) == vpn_of(x, 2) && vpn_of(page_at(g.start, i), 1) == vpn_of(x, 1)
                && vpn_of(page_at(g.start, i), 0) == vpn_of(x, 0) {
                lemma_same_triple_same_page(page_at(g.start, i), x);
            }
        }
        assert(mid.lookup_va(x) == before.lookup_va(x));
        if vpn_of(x, 2) == vpn_of(t, 2) && vpn_of(x, 1) == vpn_of(t, 1) && vpn_of(x, 0) == vpn_of(t, 0) {
            lemma_same_triple_same_page(x, t);
        }
    }
}

/// Builds the kernel's address space: its identity regions, then the
/// trampoline page at `TRAMPOLINE_VADDR` mapped to the trampoline code at
/// `trampoline`, readable and executable.
pub fn init_kernel_page_table(pool: &mut PageTablePool, eot: u64, eod: u64, trampoline: u64) -> (r:
    Result<(), MapError>)
    requires
        old(pool).wf(),
        kernel_layout_ok(eot, eod),
    ensures
        final(pool).wf(),
        r is Err ==> final(pool).len() + 2 > final(pool).spec_capacity(),
        r is Ok ==> exists|rs: Seq<MemRegion>|
            is_kernel_regions(rs, eot, eod) && regions_ok(rs) && identity_mapped(*final(pool), rs),
        r is Ok ==> final(pool).lookup_va(crate::param::TRAMPOLINE_VADDR as u64) == Some(
            pte_bits(frame_of(trampoline), rx_flags()),
        ),
        r is Ok ==> forall|x: u64|
            x % 4096 == 0 && x < 0x80_0000_0000 && !in_kernel_regions(x as int, eot, eod) && x
                != crate::param::TRAMPOLINE_VADDR ==> #[trigger] final(pool).lookup_va(x) == old(pool).lookup_va(x),
{
    let ghost before = *pool;
    let regions = kernel_regions(eot, eod);
    match pool.map_identity_regions(&regions) {
        Ok(()) => {},
        Err(e) => return Err(e),
    }
    let ghost mid = *pool;
    proof {
        lemma_flag_values();
    }
    let rx = PTEFlags::valid().readable().executable();
    match pool.strong_map(
        VirtAddr::from_raw(crate::param::TRAMPOLINE_VADDR as u64),
        PhysAddr::from_raw(trampoline),
        rx,
    ) {
        Ok(_) => {},
        Err(e) => return Err(e),
    }
    proof {
        let t = crate::param::TRAMPOLINE_VADDR as u64;
        lemma_fields(t);
        lemma_outside_regions_kept(before, mid, *pool, regions@, eot, eod);
        assert forall|q: int, i: int|
            0 <= q < regions@.len() && 0 <= i < regions@[q].npages implies #[trigger] pool.lookup_va(
            page_at(regions@[q].start, i),
        ) == Some(pte_bits(page_at(regions@[q].start, i), regions@[q].flags@)) by {
            let g = regions@[q];
            lemma_page_in_range(g.start, i, g.npages);
            let x = page_at(g.start, i);
            assert(mid.lookup_va(x) == Some(pte_bits(x, g.flags@)));
            assert(x < ram_map_end() || g.start == 0x1000 || g.start < 0x8000_0000);
            if vpn_of(x, 2) == vpn_of(t, 2) && vpn_of(x, 1) == vpn_of(t, 1) && vpn_of(x, 0) == vpn_of(t, 0) {
                lemma_same_triple_same_page(x, t);
            }
            lemma_fields(x);
        }
    }
    Ok(())
}

impl PageTablePool {
    /// Whether the page of `va` is mapped.
    pub fn is_mapped(&self, va: u64) -> (r: bool)
        requires
            self.wf(),
        ensures
            r == self.lookup_va(va).is_some(),
    {
        self.walk(VirtAddr::from_raw(va)).is_some()
    }
}

} // verus!
