//! The virtio-mmio block driver's bookkeeping: device checks and feature
//! negotiation at init, the split virtqueue's descriptor table and available
//! ring, and the descriptor chains of pending sector reads.
use vstd::prelude::*;

verus! {

/// The number of descriptors in the virtqueue.
pub const VIRTQ_CAP: usize = 8;

pub const ACK_STATUS_BIT: u32 = 1;
pub const DRIVER_STATUS_BIT: u32 = 2;
pub const DRIVER_OK_STATUS_BIT: u32 = 4;
pub const FEATURES_OK_STATUS_BIT: u32 = 8;

pub const VIRTIO_BLK_F_RO: u32 = 0x20;
pub const VIRTIO_BLK_F_CONFIG_WCE: u32 = 0x800;
pub const VIRTIO_BLK_F_RING_INDIRECT_DESC: u32 = 0x1000_0000;
pub const VIRTIO_BLK_F_RING_EVENT_IDX: u32 = 0x2000_0000;

/// Read from the disk into the buffer.
pub const VIRTIO_BLK_T_IN: u32 = 0;

pub const VIRTQ_DESC_F_NEXT: u16 = 1;
pub const VIRTQ_DESC_F_WRITE: u16 = 2;

/// Bytes moved by one request: a pair of sectors.
pub const REQUEST_BYTES: u32 = 1024;

/// Whether the four identification registers show the legacy-modern virtio
/// block device of QEMU: magic `virt`, version 2, device 2, vendor `QEMU`.
pub fn device_is_supported(magic: u32, version: u32, device_id: u32, vendor: u32) -> (r: bool)
    ensures
        r == (magic == 0x74726976 && version == 2 && device_id == 2 && vendor == 0x554d4551),
{
    magic == 0x74726976 && version == 2 && device_id == 2 && vendor == 0x554d4551
}

/// The features the driver accepts: those offered, without read-only,
/// writeback toggling, indirect descriptors and event indices.
pub fn negotiate_features(offered: u32) -> (r: u32)
    ensures
        r == offered & !0x3000_0820u32,
        r & VIRTIO_BLK_F_RO == 0,
        r & VIRTIO_BLK_F_CONFIG_WCE == 0,
        r & VIRTIO_BLK_F_RING_INDIRECT_DESC == 0,
        r & VIRTIO_BLK_F_RING_EVENT_IDX == 0,
{
    let mut features = offered;
    features = features & !VIRTIO_BLK_F_RO;
    features = features & !VIRTIO_BLK_F_CONFIG_WCE;
    features = features & !VIRTIO_BLK_F_RING_EVENT_IDX;
    features = features & !VIRTIO_BLK_F_RING_INDIRECT_DESC;
    assert(offered & !0x20u32 & !0x800u32 & !0x2000_0000u32 & !0x1000_0000u32 == offered
        & !0x3000_0820u32 && (offered & !0x3000_0820u32) & 0x20 == 0 && (offered
        & !0x3000_0820u32) & 0x800 == 0 && (offered & !0x3000_0820u32) & 0x1000_0000 == 0 && (
    offered & !0x3000_0820u32) & 0x2000_0000 == 0) by (bit_vector);
    features
}

/// The device status values written during init, in order: reset, then
/// ACK, DRIVER, FEATURES_OK and DRIVER_OK or-ed in one after the other.
pub fn init_status_sequence() -> (r: Vec<u32>)
    ensures
        r@ == seq![0u32, 1, 3, 11, 15],
{
    let mut v: Vec<u32> = Vec::new();
    let mut status: u32 = 0;
    v.push(status);
    status = status | ACK_STATUS_BIT;
    v.push(status);
    status = status | DRIVER_STATUS_BIT;
    v.push(status);
    status = status | FEATURES_OK_STATUS_BIT;
    v.push(status);
    status = status | DRIVER_OK_STATUS_BIT;
    v.push(status);
    assert(0u32 | 1u32 == 1 && 1u32 | 2u32 == 3 && 3u32 | 8u32 == 11 && 11u32 | 4u32 == 15)
        by (bit_vector);
    assert(v@ =~= seq![0u32, 1, 3, 11, 15]);
    v
}

/// Whether the device accepted the negotiated features: FEATURES_OK is
/// still set when the status is read back.
pub fn features_accepted(status: u32) -> (r: bool)
    ensures
        r == (status & FEATURES_OK_STATUS_BIT != 0),
{
    status & FEATURES_OK_STATUS_BIT != 0
}

/// Whether queue 0 can be set up: it is not in use and holds at least
/// `VIRTQ_CAP` descriptors.
pub fn queue_is_usable(queue_ready: u32, queue_num_max: u32) -> (r: bool)
    ensures
        r == (queue_ready == 0 && queue_num_max >= VIRTQ_CAP),
{
    queue_ready == 0 && queue_num_max >= VIRTQ_CAP as u32
}

/// The low and high words of an address, as the queue address registers
/// take it.
pub fn split_address(addr: u64) -> (r: (u32, u32))
    ensures
        r.0 == addr % 0x1_0000_0000,
        r.1 == addr / 0x1_0000_0000,
{
    ((addr % 0x1_0000_0000) as u32, (addr / 0x1_0000_0000) as u32)
}

/// The bits of the interrupt status register that the handler acknowledges.
pub fn interrupt_ack(interrupt_status: u32) -> (r: u32)
    ensures
        r == interrupt_status & 3,
        r <= 3,
{
    assert(interrupt_status & 3 <= 3) by (bit_vector);
    interrupt_status & 3
}

/// A descriptor of the virtqueue's descriptor table.
#[derive(Clone, Copy, Debug)]
pub struct VirtqDesc {
    pub addr: u64,
    pub len: u32,
    pub flags: u16,
    pub next: u16,
}

/// The driver's available ring.
#[derive(Clone, Copy, Debug)]
pub struct VirtqAvail {
    pub flags: u16,
    pub idx: u16,
    pub ring: [u16; 8],
    pub used_event: u16,
}

/// An entry of the device's used ring.
#[derive(Clone, Copy, Debug)]
pub struct VirtqUsedElem {
    /// The head of the used descriptor chain.
    pub desc_id: u32,
    pub len: u32,
}

/// The device's used ring.
#[derive(Clone, Copy, Debug)]
pub struct VirtqUsed {
    pub flags: u16,
    pub idx: u16,
    pub ring: [VirtqUsedElem; 8],
    pub avail_event: u16,
}

/// The header of a block request.
#[derive(Clone, Copy, Debug)]
pub struct VirtioBlkReq {
    pub ty: u32,
    pub reserved: u32,
    /// The sector on the disk.
    pub sector: u64,
}

/// Why a read could not be issued.
#[derive(Clone, Copy, Debug, PartialEq, Eq, Structural)]
pub enum VirtioError {
    /// Fewer than three descriptors are free.
    NoDescriptors,
}

pub open spec fn zero_desc(d: VirtqDesc) -> bool {
    d.addr == 0 && d.len == 0 && d.flags == 0 && d.next == 0
}

pub open spec fn has_next(d: VirtqDesc) -> bool {
    d.flags & VIRTQ_DESC_F_NEXT != 0
}

/// The driver side of the disk's virtqueue.
pub struct VirtioDisk {
    desc_table: Vec<VirtqDesc>,
    avail_ring: VirtqAvail,
    /// Indexed by descriptor: is it free?
    free_desc: Vec<bool>,
    req_placeholder: Vec<VirtioBlkReq>,
    used_idxs: u16,
    /// Heads of the requests issued and not yet completed.
    pending: Ghost<Set<u16>>,
}

impl VirtioDisk {
    pub closed spec fn desc(&self, i: int) -> VirtqDesc {
        self.desc_table@[i]
    }

    pub closed spec fn is_free(&self, i: int) -> bool {
        self.free_desc@[i]
    }

    pub closed spec fn pending_heads(&self) -> Set<u16> {
        self.pending@
    }

    pub closed spec fn avail_idx(&self) -> u16 {
        self.avail_ring.idx
    }

    pub closed spec fn avail_slot(&self, i: int) -> u16 {
        self.avail_ring.ring@[i]
    }

    pub closed spec fn request(&self, i: int) -> VirtioBlkReq {
        self.req_placeholder@[i]
    }

    pub closed spec fn last_used(&self) -> u16 {
        self.used_idxs
    }

    /// The three descriptors of the chain that starts at `h`.
    pub open spec fn chain(&self, h: u16) -> Seq<int> {
        let d2 = self.desc(h as int).next;
        let d3 = self.desc(d2 as int).next;
        seq![h as int, d2 as int, d3 as int]
    }

    pub open spec fn chain_ok(&self, h: u16) -> bool {
        let c = self.chain(h);
        &&& h < VIRTQ_CAP
        &&& c[1] < VIRTQ_CAP && c[2] < VIRTQ_CAP
        &&& c[0] != c[1] && c[1] != c[2] && c[0] != c[2]
        &&& has_next(self.desc(c[0])) && has_next(self.desc(c[1])) && !has_next(self.desc(c[2]))
        &&& !self.is_free(c[0]) && !self.is_free(c[1]) && !self.is_free(c[2])
    }

    /// The number of busy descriptors.
    pub open spec fn busy_count(&self) -> nat {
        Set::new(|i: int| 0 <= i < VIRTQ_CAP && !self.is_free(i)).len()
    }

    /// The table's invariant: a free descriptor is zeroed; every busy one
    /// belongs to the chain of exactly one pending request, and each pending
    /// request owns a well-formed chain of three.
    pub closed spec fn wf(&self) -> bool {
        &&& self.desc_table@.len() == VIRTQ_CAP
        &&& self.free_desc@.len() == VIRTQ_CAP
        &&& self.req_placeholder@.len() == VIRTQ_CAP
        &&& forall|i: int| 0 <= i < VIRTQ_CAP && self.is_free(i) ==> zero_desc(self.desc(i))
        &&& forall|h: u16| self.pending@.contains(h) ==> self.chain_ok(h)
        &&& forall|h1: u16, h2: u16, a: int, b: int|
            self.pending@.contains(h1) && self.pending@.contains(h2) && h1 != h2 && 0 <= a < 3
                && 0 <= b < 3 ==> self.chain(h1)[a] != self.chain(h2)[b]
        &&& forall|i: int|
            0 <= i < VIRTQ_CAP && !self.is_free(i) ==> exists|h: u16, a: int|
                self.pending@.contains(h) && 0 <= a < 3 && self.chain(h)[a] == i
    }

    /// A disk with every descriptor free and nothing pending.
    pub fn new() -> (r: Self)
        ensures
            r.wf(),
            r.pending_heads().is_empty(),
            forall|i: int| 0 <= i < VIRTQ_CAP ==> r.is_free(i),
            r.avail_idx() == 0,
            r.last_used() == 0,
    {
        let mut desc_table: Vec<VirtqDesc> = Vec::new();
        let mut free_desc: Vec<bool> = Vec::new();
        let mut req_placeholder: Vec<VirtioBlkReq> = Vec::new();
        let mut i: usize = 0;
        while i < VIRTQ_CAP
            invariant
                i <= VIRTQ_CAP,
                desc_table@.len() == i,
                free_desc@.len() == i,
                req_placeholder@.len() == i,
                forall|j: int| 0 <= j < i ==> zero_desc(#[trigger] desc_table@[j]),
                forall|j: int| 0 <= j < i ==> #[trigger] free_desc@[j],
            decreases VIRTQ_CAP - i,
        {
            desc_table.push(VirtqDesc { addr: 0, len: 0, flags: 0, next: 0 });
            free_desc.push(true);
            req_placeholder.push(VirtioBlkReq { ty: 0, reserved: 0, sector: 0 });
            i = i + 1;
        }
        VirtioDisk {
            desc_table,
            avail_ring: VirtqAvail { flags: 0, idx: 0, ring: [0u16; 8], used_event: 0 },
            free_desc,
            req_placeholder,
            used_idxs: 0,
            pending: Ghost(Set::empty()),
        }
    }

    /// Takes the lowest free descriptor, if any.
    fn alloc_desc(&mut self) -> (r: Option<u16>)
        requires
            old(self).free_desc@.len() == VIRTQ_CAP,
        ensures
            final(self).desc_table == old(self).desc_table,
            final(self).avail_ring == old(self).avail_ring,
            final(self).req_placeholder == old(self).req_placeholder,
            final(self).used_idxs == old(self).used_idxs,
            final(self).pending == old(self).pending,
            final(self).free_desc@.len() == VIRTQ_CAP,
            match r {
                None => final(self).free_desc@ == old(self).free_desc@ && forall|i: int|
                    0 <= i < VIRTQ_CAP ==> !old(self).free_desc@[i],
                Some(d) => d < VIRTQ_CAP && old(self).free_desc@[d as int] && (forall|i: int|
                    0 <= i < d ==> !old(self).free_desc@[i]) && final(self).free_desc@ == old(
                    self).free_desc@.update(d as int, false),
            },
    {
        let mut desc_id: usize = 0;
        while desc_id < VIRTQ_CAP
            invariant
                desc_id <= VIRTQ_CAP,
                self.free_desc@.len() == VIRTQ_CAP,
                self == old(self),
                forall|i: int| 0 <= i < desc_id ==> !self.free_desc@[i],
            decreases VIRTQ_CAP - desc_id,
        {
            if self.free_desc[desc_id] {
                self.free_desc.set(desc_id, false);
                return Some(desc_id as u16);
            }
            desc_id = desc_id + 1;
        }
        None
    }

    /// The lowest free descriptor from `from` on.
    fn next_free(&self, from: usize) -> (r: Option<usize>)
        requires
            self.free_desc@.len() == VIRTQ_CAP,
            from <= VIRTQ_CAP,
        ensures
            match r {
                None => forall|j: int| from <= j < VIRTQ_CAP ==> !self.free_desc@[j],
                Some(i) => from <= i < VIRTQ_CAP && self.free_desc@[i as int] && forall|j: int|
                    from <= j < i ==> !self.free_desc@[j],
            },
    {
        let mut i: usize = from;
        while i < VIRTQ_CAP
            invariant
                from <= i <= VIRTQ_CAP,
                self.free_desc@.len() == VIRTQ_CAP,
                forall|j: int| from <= j < i ==> !self.free_desc@[j],
            decreases VIRTQ_CAP - i,
        {
            if self.free_desc[i] {
                return Some(i);
            }
            i = i + 1;
        }
        None
    }

    /// Whether descriptors `a`, `b` and `c` are distinct and free.
    pub open spec fn three_free(&self, a: int, b: int, c: int) -> bool {
        0 <= a < VIRTQ_CAP && 0 <= b < VIRTQ_CAP && 0 <= c < VIRTQ_CAP && a != b && b != c && a
            != c && self.is_free(a) && self.is_free(b) && self.is_free(c)
    }

    /// Issues a read of the 1024 bytes at `sector` into the buffer at
    /// `buf_addr`, with the device's status byte at `status_addr`. The request
    /// header lives at `req_base + 16 * head`. Takes the three lowest free
    /// descriptors as header, data and status, links them, and publishes the
    /// head in the available ring. Fails, changing nothing, when fewer than
    /// three descriptors are free.
    pub fn submit_read(&mut self, sector: u64, buf_addr: u64, status_addr: u64, req_base: u64) -> (r:
        Result<u16, VirtioError>)
        requires
            old(self).wf(),
            req_base <= u64::MAX - 16 * VIRTQ_CAP,
        ensures
            final(self).wf(),
            r.is_err() <==> !exists|a: int, b: int, c: int| old(self).three_free(a, b, c),
            r.is_err() ==> r == Err::<u16, VirtioError>(VirtioError::NoDescriptors) && *final(self)
                == *old(self),
            r.is_ok() ==> ({
                let h = r.unwrap();
                let c = final(self).chain(h);
                &&& !old(self).pending_heads().contains(h)
                &&& final(self).pending_heads() == old(self).pending_heads().insert(h)
                &&& old(self).three_free(c[0], c[1], c[2])
                &&& final(self).desc(c[0]) == VirtqDesc {
                    addr: (req_base + 16 * h) as u64,
                    len: 16,
                    flags: VIRTQ_DESC_F_NEXT,
                    next: c[1] as u16,
                }
                &&& final(self).desc(c[1]) == VirtqDesc {
                    addr: buf_addr,
                    len: REQUEST_BYTES,
                    flags: 3,
                    next: c[2] as u16,
                }
                &&& final(self).desc(c[2]) == VirtqDesc {
                    addr: status_addr,
                    len: 1,
                    flags: VIRTQ_DESC_F_WRITE,
                    next: 0,
                }
                &&& final(self).request(h as int) == VirtioBlkReq {
                    ty: VIRTIO_BLK_T_IN,
                    reserved: 0,
                    sector,
                }
                &&& forall|i: int| 0 <= i < VIRTQ_CAP && i != h ==> final(self).request(i) == old(self).request(i)
                &&& final(self).avail_slot(old(self).avail_idx() as int % 8) == h
                &&& final(self).avail_idx() == (old(self).avail_idx() + 1) % 0x1_0000
                &&& forall|i: int|
                    0 <= i < VIRTQ_CAP && i != c[0] && i != c[1] && i != c[2] ==> final(self).desc(i)
                        == old(self).desc(i) && final(self).is_free(i) == old(self).is_free(i)
                &&& !final(self).is_free(c[0]) && !final(self).is_free(c[1]) && !final(self).is_free(c[2])
            }),
    {
        let ghost pre = *self;
        let f1 = match self.next_free(0) {
            Some(d) => d,
            None => return Err(VirtioError::NoDescriptors),
        };
        let f2 = match self.next_free(f1 + 1) {
            Some(d) => d,
            None => return Err(VirtioError::NoDescriptors),
        };
        match self.next_free(f2 + 1) {
            Some(_) => {},
            None => {
                assert forall|a: int, b: int, c: int| !pre.three_free(a, b, c) by {
                    if pre.three_free(a, b, c) {
                        assert(a >= f1 && b >= f1 && c >= f1);
                    }
                }
                return Err(VirtioError::NoDescriptors);
            },
        }
        let ghost f3 = choose|i: int| f2 < i < VIRTQ_CAP && pre.free_desc@[i];
        let d1 = match self.alloc_desc() {
            Some(d) => d,
            None => {
                assert(pre.free_desc@[f1 as int]);
                return Err(VirtioError::NoDescriptors);
            },
        };
        assert(d1 as int == f1);
        assert(self.free_desc@[f2 as int]);
        let d2 = match self.alloc_desc() {
            Some(d) => d,
            None => {
                assert(self.free_desc@[f2 as int]);
                return Err(VirtioError::NoDescriptors);
            },
        };
        assert(d2 as int <= f2);
        assert(pre.free_desc@[d2 as int]);
        assert(d2 as int == f2);
        let d3 = match self.alloc_desc() {
            Some(d) => d,
            None => {
                assert(self.free_desc@[f3]);
                return Err(VirtioError::NoDescriptors);
            },
        };
        proof {
            lemma_flag_bits();
        }
        self.req_placeholder.set(d1 as usize, VirtioBlkReq { ty: VIRTIO_BLK_T_IN, reserved: 0, sector });
        self.desc_table.set(
            d1 as usize,
            VirtqDesc {
                addr: req_base + 16 * d1 as u64,
                len: 16,
                flags: VIRTQ_DESC_F_NEXT,
                next: d2,
            },
        );
        self.desc_table.set(
            d2 as usize,
            VirtqDesc {
                addr: buf_addr,
                len: REQUEST_BYTES,
                flags: VIRTQ_DESC_F_NEXT | VIRTQ_DESC_F_WRITE,
                next: d3,
            },
        );
        self.desc_table.set(
            d3 as usize,
            VirtqDesc { addr: status_addr, len: 1, flags: VIRTQ_DESC_F_WRITE, next: 0 },
        );
        let slot = (self.avail_ring.idx % 8) as usize;
        self.avail_ring.ring[slot] = d1;
        self.avail_ring.idx = if self.avail_ring.idx == u16::MAX {
            0
        } else {
            self.avail_ring.idx + 1
        };
        proof {
            self.pending@ = self.pending@.insert(d1);
            assert(self.chain(d1) =~= seq![d1 as int, d2 as int, d3 as int]);
            assert forall|h: u16| #[trigger] pre.pending@.contains(h) implies self.chain(h) == pre.chain(
                h) by {
                assert(pre.chain_ok(h));
                assert(pre.chain(h) =~= self.chain(h));
            }
            assert forall|h: u16| pre.pending@.contains(h) implies #[trigger] self.chain_ok(h) by {
                assert(pre.chain_ok(h));
            }
            assert forall|i: int|
                0 <= i < VIRTQ_CAP && !self.is_free(i) implies exists|h: u16, a: int|
                self.pending@.contains(h) && 0 <= a < 3 && self.chain(h)[a] == i by {
                if i == d1 as int {
                    assert(self.chain(d1)[0] == i);
                } else if i == d2 as int {
                    assert(self.chain(d1)[1] == i);
                } else if i == d3 as int {
                    assert(self.chain(d1)[2] == i);
                } else {
                    assert(!pre.is_free(i));
                    let (h, a) = choose|h: u16, a: int|
                        pre.pending@.contains(h) && 0 <= a < 3 && pre.chain(h)[a] == i;
                    assert(pre.pending@.contains(h));
                    assert(self.chain(h) == pre.chain(h));
                }
            }
            assert(pre.three_free(d1 as int, d2 as int, d3 as int));
            assert(self.chain_ok(d1));
            assert forall|h: u16| self.pending@.contains(h) implies #[trigger] self.chain_ok(h) by {
                if h != d1 {
                    assert(pre.pending@.contains(h));
                }
            }
            assert forall|h1: u16, h2: u16, a: int, b: int|
                self.pending@.contains(h1) && self.pending@.contains(h2) && h1 != h2 && 0 <= a < 3
                    && 0 <= b < 3 implies self.chain(h1)[a] != self.chain(h2)[b] by {
                if h1 == d1 {
                    assert(pre.pending@.contains(h2));
                    assert(pre.chain_ok(h2));
                    assert(!pre.is_free(pre.chain(h2)[b]));
                } else if h2 == d1 {
                    assert(pre.pending@.contains(h1));
                    assert(pre.chain_ok(h1));
                    assert(!pre.is_free(pre.chain(h1)[a]));
                } else {
                    assert(pre.pending@.contains(h1) && pre.pending@.contains(h2));
                }
            }
            assert forall|i: int| 0 <= i < VIRTQ_CAP && self.is_free(i) implies zero_desc(
                self.desc(i)) by {
                assert(pre.is_free(i));
            }
            let c = self.chain(d1);
            assert(self.desc(c[0]) == VirtqDesc {
                addr: (req_base + 16 * d1) as u64,
                len: 16,
                flags: VIRTQ_DESC_F_NEXT,
                next: c[1] as u16,
            });
            assert(self.desc(c[1]) == VirtqDesc {
                addr: buf_addr,
                len: REQUEST_BYTES,
                flags: 3,
                next: c[2] as u16,
            });
            assert(self.avail_slot(pre.avail_idx() as int % 8) == d1);
            assert(self.avail_idx() == (pre.avail_idx() + 1) % 0x1_0000);
            assert(forall|i: int|
                0 <= i < VIRTQ_CAP && i != c[0] && i != c[1] && i != c[2] ==> self.desc(i)
                    == pre.desc(i) && self.is_free(i) == pre.is_free(i));
        }
        Ok(d1)
    }

    /// Frees the descriptor chain of the pending request `desc`, zeroing its
    /// descriptors.
    pub fn free_desc_chain(&mut self, desc: u16)
        requires
            old(self).wf(),
            old(self).pending_heads().contains(desc),
        ensures
            final(self).wf(),
            final(self).pending_heads() == old(self).pending_heads().remove(desc),
            forall|i: int|
                0 <= i < VIRTQ_CAP ==> final(self).is_free(i) == (old(self).is_free(i) || old(self).chain(desc).contains(i)),
            forall|i: int|
                0 <= i < VIRTQ_CAP && !old(self).chain(desc).contains(i) ==> final(self).desc(i)
                    == old(self).desc(i),
            final(self).avail_idx() == old(self).avail_idx(),
            final(self).last_used() == old(self).last_used(),
    {
        let ghost pre = *self;
        proof {
            assert(pre.chain_ok(desc));
        }
        let zero = VirtqDesc { addr: 0, len: 0, flags: 0, next: 0 };
        let d1 = desc as usize;
        let d2 = self.desc_table[d1].next as usize;
        let d3 = self.desc_table[d2].next as usize;
        self.free_desc.set(d1, true);
        self.desc_table.set(d1, zero);
        self.free_desc.set(d2, true);
        self.desc_table.set(d2, zero);
        self.free_desc.set(d3, true);
        self.desc_table.set(d3, zero);
        proof {
            self.pending@ = self.pending@.remove(desc);
            assert forall|h: u16| #[trigger] self.pending@.contains(h) implies self.chain(h) == pre.chain(
                h) by {
                assert(pre.chain_ok(h));
                assert(pre.chain(h)[0] != pre.chain(desc)[0] && pre.chain(h)[0] != pre.chain(
                    desc,
                )[1] && pre.chain(h)[0] != pre.chain(desc)[2]);
                assert(pre.chain(h)[1] != pre.chain(desc)[0] && pre.chain(h)[1] != pre.chain(
                    desc,
                )[1] && pre.chain(h)[1] != pre.chain(desc)[2]);
                assert(pre.chain(h)[2] != pre.chain(desc)[0] && pre.chain(h)[2] != pre.chain(
                    desc,
                )[1] && pre.chain(h)[2] != pre.chain(desc)[2]);
                assert(pre.chain(h) =~= self.chain(h));
            }
            assert forall|h: u16| self.pending@.contains(h) implies #[trigger] self.chain_ok(h) by {
                assert(pre.chain_ok(h));
            }
            assert forall|i: int|
                0 <= i < VIRTQ_CAP && !self.is_free(i) implies exists|h: u16, a: int|
                self.pending@.contains(h) && 0 <= a < 3 && self.chain(h)[a] == i by {
                assert(!pre.is_free(i));
                assert(!pre.chain(desc).contains(i));
                let (h, a) = choose|h: u16, a: int|
                    pre.pending@.contains(h) && 0 <= a < 3 && pre.chain(h)[a] == i;
                if h == desc {
                    assert(pre.chain(desc)[a] == i);
                } else {
                    assert(self.pending@.contains(h));
                    assert(self.chain(h) == pre.chain(h));
                }
            }
            assert forall|i: int| 0 <= i < VIRTQ_CAP && self.is_free(i) implies zero_desc(
                self.desc(i)) by {
                if i != d1 as int && i != d2 as int && i != d3 as int {
                    assert(pre.is_free(i));
                }
            }
            assert forall|h1: u16, h2: u16, a: int, b: int|
                self.pending@.contains(h1) && self.pending@.contains(h2) && h1 != h2 && 0 <= a < 3
                    && 0 <= b < 3 implies self.chain(h1)[a] != self.chain(h2)[b] by {
                assert(self.pending@.contains(h1) && self.pending@.contains(h2));
            }
            assert forall|i: int| 0 <= i < VIRTQ_CAP implies self.is_free(i) == (pre.is_free(i)
                || pre.chain(desc).contains(i)) by {
                if i == d1 as int {
                    assert(pre.chain(desc)[0] == i);
                } else if i == d2 as int {
                    assert(pre.chain(desc)[1] == i);
                } else if i == d3 as int {
                    assert(pre.chain(desc)[2] == i);
                }
            }
        }
    }

    /// Finishes the pending request `head` once the device has written its
    /// status byte: frees the chain, then reports the status, 0 being success.
    pub fn complete(&mut self, head: u16, status: u8) -> (r: Result<(), u8>)
        requires
            old(self).wf(),
            old(self).pending_heads().contains(head),
        ensures
            final(self).wf(),
            final(self).pending_heads() == old(self).pending_heads().remove(head),
            forall|i: int|
                0 <= i < VIRTQ_CAP ==> final(self).is_free(i) == (old(self).is_free(i) || old(self).chain(head).contains(i)),
            status == 0 ==> r == Ok::<(), u8>(()),
            status != 0 ==> r == Err::<(), u8>(status),
    {
        self.free_desc_chain(head);
        if status != 0 {
            Err(status)
        } else {
            Ok(())
        }
    }

}

/// The bookkeeping of the disk interrupt: the driver has now seen every used
/// entry up to the device's `used_idx`. Requests need nothing more here: the
/// device writes each status byte in place.
pub fn virtio_intr(disk: &mut VirtioDisk, used_idx: u16)
    requires
        old(disk).wf(),
    ensures
        final(disk).wf(),
        final(disk).last_used() == used_idx,
        final(disk).pending_heads() == old(disk).pending_heads(),
        forall|i: int|
            0 <= i < VIRTQ_CAP ==> final(disk).is_free(i) == old(disk).is_free(i) && final(disk).desc(i)
                == old(disk).desc(i),
{
    let ghost pre = *disk;
    disk.used_idxs = used_idx;
    proof {
        lemma_wf_frame(&pre, disk);
    }
}

proof fn lemma_wf_frame(pre: &VirtioDisk, post: &VirtioDisk)
    requires
        pre.wf(),
        post.desc_table@ == pre.desc_table@,
        post.free_desc@ == pre.free_desc@,
        post.req_placeholder@.len() == VIRTQ_CAP,
        post.pending@ == pre.pending@,
    ensures
        post.wf(),
{
    assert forall|h: u16| #![auto] post.chain(h) == pre.chain(h) by {
        assert(post.chain(h) =~= pre.chain(h));
    }
    assert forall|h: u16| post.pending@.contains(h) implies post.chain_ok(h) by {
        assert(pre.chain_ok(h));
        assert(post.chain(h) == pre.chain(h));
    }
    assert forall|i: int| 0 <= i < VIRTQ_CAP && post.is_free(i) implies zero_desc(post.desc(i)) by {
        assert(pre.is_free(i));
    }
    assert forall|i: int|
        0 <= i < VIRTQ_CAP && !post.is_free(i) implies exists|h: u16, a: int|
        post.pending@.contains(h) && 0 <= a < 3 && post.chain(h)[a] == i by {
        assert(!pre.is_free(i));
        let (h, a) = choose|h: u16, a: int|
            pre.pending@.contains(h) && 0 <= a < 3 && pre.chain(h)[a] == i;
        assert(post.chain(h) == pre.chain(h));
    }
    assert forall|h1: u16, h2: u16, a: int, b: int|
        post.pending@.contains(h1) && post.pending@.contains(h2) && h1 != h2 && 0 <= a < 3 && 0
            <= b < 3 implies post.chain(h1)[a] != post.chain(h2)[b] by {
        assert(post.chain(h1) == pre.chain(h1));
        assert(post.chain(h2) == pre.chain(h2));
    }
}

proof fn lemma_flag_bits()
    by (bit_vector)
    ensures
        1u16 & 1u16 != 0,
        (1u16 | 2u16) & 1u16 != 0,
        1u16 | 2u16 == 3u16,
        2u16 & 1u16 == 0,
        0u16 & 1u16 == 0,
{
}

/// The descriptor table's invariant in words: at most `VIRTQ_CAP`
/// descriptors are busy, every busy descriptor lies on the chain of a
/// pending request, and no free descriptor links to another.
pub proof fn lemma_descriptor_ownership(disk: &VirtioDisk)
    requires
        disk.wf(),
    ensures
        disk.busy_count() <= VIRTQ_CAP,
        forall|i: int|
            0 <= i < VIRTQ_CAP && !disk.is_free(i) ==> exists|h: u16, a: int|
                disk.pending_heads().contains(h) && 0 <= a < 3 && disk.chain(h)[a] == i,
        forall|i: int| 0 <= i < VIRTQ_CAP && disk.is_free(i) ==> !has_next(#[trigger] disk.desc(i)),
{
    lemma_flag_bits();
    let busy = Set::new(|i: int| 0 <= i < VIRTQ_CAP && !disk.is_free(i));
    let all = Set::new(|i: int| 0 <= i < VIRTQ_CAP);
    assert(all =~= vstd::set_lib::set_int_range(0, VIRTQ_CAP as int));
    vstd::set_lib::lemma_int_range(0, VIRTQ_CAP as int);
    vstd::set_lib::lemma_len_subset(busy, all);
}

} // verus!
