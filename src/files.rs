//! The flat on-disk file layout: a table of 32-byte file records followed by
//! 1024-byte nodes, each file a chain of nodes. All numbers are little-endian.
use vstd::prelude::*;
use vstd::string::StringSliceAdditionalSpecFns;

verus! {

pub const SECTOR_SIZE: usize = 512;
pub const NODE_MAGIC_NUMBER: u32 = 102030069;
pub const FILE_MAGIC_NUMBER: u32 = 900000111;
pub const NODE_SIZE: usize = 1024;
pub const MAX_FILES: usize = 1024;
/// Size of one file record.
pub const FILE_META_SIZE: usize = 32;
/// Where the nodes start: after `MAX_FILES` file records.
pub const NODES_OFFSET: usize = 32768;
pub const FILE_NAME_LEN: usize = 18;
/// Data bytes in a node: the node minus its 16-byte header.
pub const FILE_DATA_SIZE: usize = 1008;
/// The file records held in memory: those of the first node-sized block.
pub const TABLE_ENTRIES: usize = 32;

pub type NodeId = u32;

pub type FileId = u16;

/// The little-endian `u16` at `i`.
pub open spec fn le_u16(s: Seq<u8>, i: int) -> u16 {
    (s[i] as int + s[i + 1] as int * 256) as u16
}

/// The little-endian `u32` at `i`.
pub open spec fn le_u32(s: Seq<u8>, i: int) -> u32 {
    (s[i] as int + s[i + 1] as int * 256 + s[i + 2] as int * 65536 + s[i + 3] as int
        * 16777216) as u32
}

fn read_u16(s: &[u8], i: usize) -> (r: u16)
    requires
        i + 2 <= s@.len(),
    ensures
        r == le_u16(s@, i as int),
{
    s[i] as u16 + s[i + 1] as u16 * 256
}

fn read_u32(s: &[u8], i: usize) -> (r: u32)
    requires
        i + 4 <= s@.len(),
    ensures
        r == le_u32(s@, i as int),
{
    s[i] as u32 + s[i + 1] as u32 * 256 + s[i + 2] as u32 * 65536 + s[i + 3] as u32 * 16777216
}

/// The byte offset of a node on the disk.
pub open spec fn node_offset(node_id: NodeId) -> int {
    NODES_OFFSET + NODE_SIZE * node_id
}

/// The byte offset of node `node_id` on the disk.
pub fn node_address(node_id: NodeId) -> (r: u64)
    ensures
        r == node_offset(node_id),
{
    assert(node_id as u64 * 1024 <= 0xffff_ffff * 1024) by (nonlinear_arith)
        requires
            node_id <= 0xffff_ffff,
    ;
    32768 + node_id as u64 * 1024
}

/// The sector where node `node_id` starts.
pub fn node_sector(node_id: NodeId) -> (r: u64)
    ensures
        r == node_offset(node_id) / SECTOR_SIZE as int,
        r * SECTOR_SIZE == node_offset(node_id),
{
    node_address(node_id) / SECTOR_SIZE as u64
}

/// A 32-byte file record.
#[derive(Clone, Copy, Debug)]
pub struct FileMeta {
    /// Always `FILE_MAGIC_NUMBER` in a used record.
    pub magic_number: u32,
    /// The first node of the file.
    pub node_list_start: NodeId,
    pub file_id: FileId,
    /// ASCII, padded with NUL bytes.
    pub name: [u8; 18],
    /// Size in bytes.
    pub size: u32,
}

/// `m` is the record at byte `i` of `s`, name included.
pub open spec fn is_meta_at(m: FileMeta, s: Seq<u8>, i: int) -> bool {
    &&& m.magic_number == le_u32(s, i)
    &&& m.node_list_start == le_u32(s, i + 4)
    &&& m.file_id == le_u16(s, i + 8)
    &&& m.name@ == s.subrange(i + 10, i + 28)
    &&& m.size == le_u32(s, i + 28)
}

impl FileMeta {
    /// Reads the record at byte `i` of `s`.
    pub fn parse(s: &[u8], i: usize) -> (r: FileMeta)
        requires
            i + FILE_META_SIZE <= s.len(),
        ensures
            is_meta_at(r, s@, i as int),
    {
        let mut name = [0u8; 18];
        let mut k: usize = 0;
        while k < FILE_NAME_LEN
            invariant
                k <= FILE_NAME_LEN,
                i + FILE_META_SIZE <= s.len(),
                forall|j: int| 0 <= j < k ==> name@[j] == s@[i + 10 + j],
            decreases FILE_NAME_LEN - k,
        {
            name[k] = s[i + 10 + k];
            k = k + 1;
        }
        assert(name@ =~= s@.subrange(i + 10, i + 28));
        FileMeta {
            magic_number: read_u32(s, i),
            node_list_start: read_u32(s, i + 4),
            file_id: read_u16(s, i + 8),
            name,
            size: read_u32(s, i + 28),
        }
    }
}

/// A 1024-byte node: a 16-byte header and 1008 bytes of data.
#[derive(Clone, Debug)]
pub struct Node {
    /// Always `NODE_MAGIC_NUMBER`.
    pub magic_number: u32,
    pub file_id: FileId,
    pub flags: u16,
    pub next_node: NodeId,
    pub prev_node: NodeId,
    pub data: Vec<u8>,
}

/// `n` is the node at byte `i` of `s`.
pub open spec fn is_node_at(n: Node, s: Seq<u8>, i: int) -> bool {
    &&& n.magic_number == le_u32(s, i)
    &&& n.file_id == le_u16(s, i + 4)
    &&& n.flags == le_u16(s, i + 6)
    &&& n.next_node == le_u32(s, i + 8)
    &&& n.prev_node == le_u32(s, i + 12)
    &&& n.data@ == s.subrange(i + 16, i + 1024)
}

impl Node {
    /// Reads the node at byte `i` of `s`.
    pub fn parse(s: &[u8], i: usize) -> (r: Node)
        requires
            i + NODE_SIZE <= s.len(),
        ensures
            is_node_at(r, s@, i as int),
    {
        let mut data: Vec<u8> = Vec::new();
        let mut k: usize = 16;
        while k < NODE_SIZE
            invariant
                16 <= k <= NODE_SIZE,
                i + NODE_SIZE <= s.len(),
                data@ == s@.subrange(i + 16, i + k),
            decreases NODE_SIZE - k,
        {
            data.push(s[i + k]);
            k = k + 1;
            assert(data@ =~= s@.subrange(i + 16, i + k));
        }
        Node {
            magic_number: read_u32(s, i),
            file_id: read_u16(s, i + 4),
            flags: read_u16(s, i + 6),
            next_node: read_u32(s, i + 8),
            prev_node: read_u32(s, i + 12),
            data,
        }
    }
}

/// A name equals a NUL-padded record name: no longer, and byte for byte the
/// same, with NUL past its end.
pub open spec fn name_matches(s: Seq<u8>, name: Seq<u8>) -> bool {
    &&& s.len() <= name.len()
    &&& forall|i: int| 0 <= i < name.len() ==> name[i] == (if i < s.len() { s[i] } else { 0u8 })
}

/// A name may name a file only if it is ASCII.
pub open spec fn is_ascii_bytes(s: Seq<u8>) -> bool {
    forall|i: int| 0 <= i < s.len() ==> s[i] < 128
}

/// Compares an ASCII name with a NUL-padded record name.
pub fn strcmp_ascii(s: &[u8], name: &[u8; 18]) -> (r: bool)
    ensures
        r == name_matches(s@, name@),
{
    if FILE_NAME_LEN < s.len() {
        return false;
    }
    let mut i: usize = 0;
    while i < FILE_NAME_LEN
        invariant
            i <= FILE_NAME_LEN,
            s@.len() <= FILE_NAME_LEN,
            forall|j: int| 0 <= j < i ==> name@[j] == (if j < s@.len() { s@[j] } else { 0u8 }),
        decreases FILE_NAME_LEN - i,
    {
        let c = if i < s.len() {
            s[i]
        } else {
            0u8
        };
        if c != name[i] {
            return false;
        }
        i = i + 1;
    }
    true
}

/// A record in use, named `s`.
pub open spec fn meta_matches(m: FileMeta, s: Seq<u8>) -> bool {
    m.magic_number == FILE_MAGIC_NUMBER && name_matches(s, m.name@)
}

/// The data of the `n` nodes of the chain that starts at `id`, if each of
/// them lies inside the disk and carries the node magic number.
pub open spec fn chain_data(disk: Seq<u8>, id: NodeId, n: nat) -> Option<Seq<u8>>
    decreases n,
{
    if n == 0 {
        Some(Seq::empty())
    } else {
        let at = node_offset(id);
        if at + NODE_SIZE > disk.len() || le_u32(disk, at) != NODE_MAGIC_NUMBER {
            None
        } else {
            match chain_data(disk, le_u32(disk, at + 8), (n - 1) as nat) {
                Some(rest) => Some(disk.subrange(at + 16, at + NODE_SIZE) + rest),
                None => None,
            }
        }
    }
}

/// How many nodes a file of `size` bytes spans.
pub open spec fn nodes_for(size: u32) -> nat {
    ((size as int + FILE_DATA_SIZE - 1) / FILE_DATA_SIZE as int) as nat
}

/// The contents of the file that record `m` describes, read from `disk`.
pub open spec fn file_contents(disk: Seq<u8>, m: FileMeta) -> Option<Seq<u8>> {
    match chain_data(disk, m.node_list_start, nodes_for(m.size)) {
        Some(d) => Some(d.subrange(0, m.size as int)),
        None => None,
    }
}

proof fn lemma_chain_len(disk: Seq<u8>, id: NodeId, n: nat)
    ensures
        chain_data(disk, id, n).is_some() ==> chain_data(disk, id, n).unwrap().len() == n
            * FILE_DATA_SIZE,
    decreases n,
{
    if n > 0 {
        let at = node_offset(id);
        lemma_chain_len(disk, le_u32(disk, at + 8), (n - 1) as nat);
        assert(n * FILE_DATA_SIZE == (n - 1) * FILE_DATA_SIZE + FILE_DATA_SIZE) by (nonlinear_arith);
    }
}

/// The disk with the data of node `n` replaced by `pattern`.
pub open spec fn write_node_data(disk: Seq<u8>, n: NodeId, pattern: Seq<u8>) -> Seq<u8> {
    Seq::new(
        disk.len(),
        |i: int|
            if node_offset(n) + 16 <= i < node_offset(n) + NODE_SIZE {
                pattern[i - node_offset(n) - 16]
            } else {
                disk[i]
            },
    )
}

/// The ids of the first `k` nodes of the chain that starts at `id`.
pub open spec fn chain_ids(disk: Seq<u8>, id: NodeId, k: nat) -> Seq<NodeId>
    decreases k,
{
    if k == 0 {
        Seq::empty()
    } else {
        seq![id] + chain_ids(disk, le_u32(disk, node_offset(id) + 8), (k - 1) as nat)
    }
}

proof fn lemma_headers_kept(disk: Seq<u8>, n: NodeId, pattern: Seq<u8>, m: NodeId)
    requires
        pattern.len() == FILE_DATA_SIZE,
        node_offset(m) + NODE_SIZE <= disk.len(),
    ensures
        le_u32(write_node_data(disk, n, pattern), node_offset(m)) == le_u32(disk, node_offset(m)),
        le_u32(write_node_data(disk, n, pattern), node_offset(m) + 8) == le_u32(disk, node_offset(m) + 8),
        m != n ==> write_node_data(disk, n, pattern).subrange(node_offset(m) + 16, node_offset(m) + NODE_SIZE)
            == disk.subrange(node_offset(m) + 16, node_offset(m) + NODE_SIZE),
        write_node_data(disk, n, pattern).subrange(node_offset(n) + 16, node_offset(n) + NODE_SIZE) =~= pattern
            || node_offset(n) + NODE_SIZE > disk.len(),
{
    let d2 = write_node_data(disk, n, pattern);
    if m != n {
        assert(d2.subrange(node_offset(m) + 16, node_offset(m) + NODE_SIZE) =~= disk.subrange(
            node_offset(m) + 16,
            node_offset(m) + NODE_SIZE,
        ));
    }
}

proof fn lemma_rewrite_chain(disk: Seq<u8>, n: NodeId, pattern: Seq<u8>, id: NodeId, k: nat)
    requires
        pattern.len() == FILE_DATA_SIZE,
        node_offset(n) + NODE_SIZE <= disk.len(),
        chain_data(disk, id, k).is_some(),
    ensures
        chain_data(write_node_data(disk, n, pattern), id, k).is_some(),
        chain_ids(disk, id, k).len() == k,
        chain_data(disk, id, k).unwrap().len() == k * FILE_DATA_SIZE,
        chain_data(write_node_data(disk, n, pattern), id, k).unwrap().len() == k * FILE_DATA_SIZE,
        forall|i: int|
            0 <= i < k * FILE_DATA_SIZE ==> #[trigger] chain_data(write_node_data(disk, n, pattern), id, k).unwrap()[i]
                == if chain_ids(disk, id, k)[i / FILE_DATA_SIZE as int] == n {
                pattern[i % FILE_DATA_SIZE as int]
            } else {
                chain_data(disk, id, k).unwrap()[i]
            },
    decreases k,
{
    let d2 = write_node_data(disk, n, pattern);
    if k > 0 {
        let at = node_offset(id);
        let next = le_u32(disk, at + 8);
        lemma_headers_kept(disk, n, pattern, id);
        lemma_rewrite_chain(disk, n, pattern, next, (k - 1) as nat);
        lemma_chain_len(disk, next, (k - 1) as nat);
        let x = chain_data(disk, id, k).unwrap();
        let y = chain_data(d2, id, k).unwrap();
        let xr = chain_data(disk, next, (k - 1) as nat).unwrap();
        let yr = chain_data(d2, next, (k - 1) as nat).unwrap();
        let head2 = d2.subrange(at + 16, at + NODE_SIZE);
        assert(y == head2 + yr);
        assert(x == disk.subrange(at + 16, at + NODE_SIZE) + xr);
        assert(k * FILE_DATA_SIZE == (k - 1) * FILE_DATA_SIZE + FILE_DATA_SIZE) by (nonlinear_arith);
        assert forall|i: int| 0 <= i < k * FILE_DATA_SIZE implies #[trigger] y[i] == if chain_ids(
            disk,
            id,
            k,
        )[i / FILE_DATA_SIZE as int] == n {
            pattern[i % FILE_DATA_SIZE as int]
        } else {
            x[i]
        } by {
            if i < FILE_DATA_SIZE {
                assert(i / FILE_DATA_SIZE as int == 0);
                assert(i % FILE_DATA_SIZE as int == i);
                assert(chain_ids(disk, id, k)[0] == id);
            } else {
                let j = i - FILE_DATA_SIZE;
                assert(j / FILE_DATA_SIZE as int == i / FILE_DATA_SIZE as int - 1);
                assert(j % FILE_DATA_SIZE as int == i % FILE_DATA_SIZE as int);
                assert(y[i] == yr[j]);
                assert(x[i] == xr[j]);
                assert(chain_ids(disk, id, k)[i / FILE_DATA_SIZE as int] == chain_ids(disk, next, (k - 1) as nat)[j
                    / FILE_DATA_SIZE as int]);
            }
        }
    }
}

/// Writing a byte pattern into the data of a node and reading a file back
/// gives, byte for byte, the pattern wherever the file's chain passes
/// through that node and the old contents elsewhere, cut to the file's size.
pub proof fn lemma_node_rewrite_read_back(disk: Seq<u8>, m: FileMeta, n: NodeId, pattern: Seq<u8>)
    requires
        pattern.len() == FILE_DATA_SIZE,
        node_offset(n) + NODE_SIZE <= disk.len(),
        file_contents(disk, m).is_some(),
    ensures
        ({
            let d2 = write_node_data(disk, n, pattern);
            let ids = chain_ids(disk, m.node_list_start, nodes_for(m.size));
            &&& file_contents(d2, m).is_some()
            &&& file_contents(d2, m).unwrap().len() == m.size
            &&& forall|i: int|
                0 <= i < m.size ==> #[trigger] file_contents(d2, m).unwrap()[i] == if ids[i / FILE_DATA_SIZE as int]
                    == n {
                    pattern[i % FILE_DATA_SIZE as int]
                } else {
                    file_contents(disk, m).unwrap()[i]
                }
        }),
{
    let k = nodes_for(m.size);
    lemma_rewrite_chain(disk, n, pattern, m.node_list_start, k);
    assert(k * FILE_DATA_SIZE >= m.size) by (nonlinear_arith)
        requires
            k == (m.size as int + FILE_DATA_SIZE - 1) / FILE_DATA_SIZE as int,
    ;
    let d2 = write_node_data(disk, n, pattern);
    assert forall|i: int| 0 <= i < m.size implies #[trigger] file_contents(d2, m).unwrap()[i] == chain_data(
        d2,
        m.node_list_start,
        k,
    ).unwrap()[i] && file_contents(disk, m).unwrap()[i] == chain_data(disk, m.node_list_start, k).unwrap()[i] by {}
}

/// A file being read node by node: the reader names the sector of the next
/// node, the caller reads that node from the disk and feeds it back.
pub struct FileRead {
    size: u32,
    data: Vec<u8>,
    next: NodeId,
    left: u64,
}

impl FileRead {
    /// The bytes gathered so far.
    pub closed spec fn gathered(&self) -> Seq<u8> {
        self.data@
    }

    /// The node to read next.
    pub closed spec fn next_node(&self) -> NodeId {
        self.next
    }

    /// How many nodes are still to be read.
    pub closed spec fn nodes_left(&self) -> nat {
        self.left as nat
    }

    pub closed spec fn file_size(&self) -> u32 {
        self.size
    }

    pub closed spec fn wf(&self) -> bool {
        &&& self.left <= nodes_for(self.size)
        &&& self.data@.len() == (nodes_for(self.size) - self.left) * FILE_DATA_SIZE
    }

    /// Starts reading the file that record `m` describes.
    pub fn start(m: &FileMeta) -> (r: FileRead)
        ensures
            r.wf(),
            r.gathered() == Seq::<u8>::empty(),
            r.next_node() == m.node_list_start,
            r.nodes_left() == nodes_for(m.size),
            r.file_size() == m.size,
    {
        let left: u64 = (m.size as u64 + FILE_DATA_SIZE as u64 - 1) / FILE_DATA_SIZE as u64;
        FileRead { size: m.size, data: Vec::new(), next: m.node_list_start, left }
    }

    /// The sector where the next node starts; none once every node is read.
    pub fn next_sector(&self) -> (r: Option<u64>)
        ensures
            self.nodes_left() == 0 ==> r.is_none(),
            self.nodes_left() > 0 ==> r == Some((node_offset(self.next_node()) / SECTOR_SIZE as int) as u64),
    {
        if self.left == 0 {
            None
        } else {
            Some(node_sector(self.next))
        }
    }

    /// Takes the 1024 bytes of the next node: its data is appended and its
    /// `next` link followed. Fails, changing nothing, when the bytes lack the
    /// node magic number.
    pub fn feed(&mut self, node: &[u8]) -> (r: Result<(), ()>)
        requires
            old(self).wf(),
            old(self).nodes_left() > 0,
            node@.len() == NODE_SIZE,
        ensures
            final(self).wf(),
            final(self).file_size() == old(self).file_size(),
            le_u32(node@, 0) != NODE_MAGIC_NUMBER ==> r.is_err() && *final(self) == *old(self),
            le_u32(node@, 0) == NODE_MAGIC_NUMBER ==> {
                &&& r.is_ok()
                &&& final(self).gathered() == old(self).gathered() + node@.subrange(16, NODE_SIZE as int)
                &&& final(self).next_node() == le_u32(node@, 8)
                &&& final(self).nodes_left() == old(self).nodes_left() - 1
            },
    {
        if read_u32(node, 0) != NODE_MAGIC_NUMBER {
            return Err(());
        }
        let ghost before = self.data@;
        let mut k: usize = 16;
        while k < NODE_SIZE
            invariant
                16 <= k <= NODE_SIZE,
                node@.len() == NODE_SIZE,
                self.data@ == before + node@.subrange(16, k as int),
                self.size == old(self).size,
                self.left == old(self).left,
                self.next == old(self).next,
            decreases NODE_SIZE - k,
        {
            self.data.push(node[k]);
            k = k + 1;
            assert(self.data@ =~= before + node@.subrange(16, k as int));
        }
        self.next = read_u32(node, 8);
        self.left = self.left - 1;
        proof {
            let n = nodes_for(self.size);
            let was = old(self).left;
            assert((n - self.left) * FILE_DATA_SIZE == (n - was) * FILE_DATA_SIZE + FILE_DATA_SIZE)
                by (nonlinear_arith)
                requires
                    self.left + 1 == was,
            ;
        }
        Ok(())
    }

    /// The file's contents, once every node is read: the gathered data cut
    /// to the file's size.
    pub fn finish(self) -> (r: Vec<u8>)
        requires
            self.wf(),
            self.nodes_left() == 0,
        ensures
            r@ == self.gathered().subrange(0, self.file_size() as int),
    {
        proof {
            assert(nodes_for(self.size) * FILE_DATA_SIZE >= self.size) by (nonlinear_arith)
                requires
                    nodes_for(self.size) == (self.size as int + FILE_DATA_SIZE - 1) / FILE_DATA_SIZE as int,
            ;
        }
        let size = self.size as usize;
        let mut out: Vec<u8> = Vec::new();
        let mut k: usize = 0;
        while k < size
            invariant
                k <= size,
                size == self.size,
                size <= self.data@.len(),
                out@ == self.data@.subrange(0, k as int),
            decreases size - k,
        {
            out.push(self.data[k]);
            k = k + 1;
            assert(out@ =~= self.data@.subrange(0, k as int));
        }
        out
    }
}

/// The decimal digits of `n`, in ASCII.
pub open spec fn decimal(n: nat) -> Seq<u8>
    decreases n,
{
    if n < 10 {
        seq![(48 + n) as u8]
    } else {
        decimal(n / 10).push((48 + n % 10) as u8)
    }
}

/// Appends the decimal digits of `n`.
pub fn push_decimal(out: &mut Vec<u8>, n: u32)
    ensures
        final(out)@ == old(out)@ + decimal(n as nat),
    decreases n,
{
    if n >= 10 {
        push_decimal(out, n / 10);
    }
    let ghost mid = out@;
    out.push(48 + (n % 10) as u8);
    proof {
        if n >= 10 {
            assert(out@ =~= old(out)@ + decimal(n as nat));
        } else {
            assert(out@ =~= old(out)@ + decimal(n as nat));
        }
    }
}

/// Appends `bytes`.
fn push_all(out: &mut Vec<u8>, bytes: &[u8])
    ensures
        final(out)@ == old(out)@ + bytes@,
{
    let mut i: usize = 0;
    while i < bytes.len()
        invariant
            i <= bytes@.len(),
            out@ == old(out)@ + bytes@.subrange(0, i as int),
        decreases bytes@.len() - i,
    {
        out.push(bytes[i]);
        i = i + 1;
        assert(out@ =~= old(out)@ + bytes@.subrange(0, i as int));
    }
    assert(bytes@.subrange(0, bytes@.len() as int) =~= bytes@);
}

/// The header line of `ls`: `FILE ID`, two tabs, `NAME`, three tabs,
/// `SIZE`, newline.
pub open spec fn ls_header() -> Seq<u8> {
    seq![70u8, 73, 76, 69, 32, 73, 68, 9, 9, 78, 65, 77, 69, 9, 9, 9, 83, 73, 90, 69, 10]
}

/// The `ls` line of a record: its id, two tabs, its name with NUL bytes as
/// spaces, a tab, its size, newline.
pub open spec fn ls_line(m: FileMeta) -> Seq<u8> {
    decimal(m.file_id as nat) + seq![9u8, 9] + shown_name(m.name@) + seq![9u8] + decimal(m.size as nat) + seq![
        10u8,
    ]
}

/// The `ls` lines of the records in use among `ms`, in order.
pub open spec fn ls_lines(ms: Seq<FileMeta>) -> Seq<u8>
    decreases ms.len(),
{
    if ms.len() == 0 {
        Seq::empty()
    } else {
        ls_lines(ms.drop_last()) + if ms.last().magic_number == FILE_MAGIC_NUMBER {
            ls_line(ms.last())
        } else {
            Seq::empty()
        }
    }
}

/// The in-memory copy of the file records.
pub struct FileTable {
    files: Vec<FileMeta>,
}

impl View for FileTable {
    type V = Seq<FileMeta>;

    closed spec fn view(&self) -> Seq<FileMeta> {
        self.files@
    }
}

/// A listing line of `ls`: id, name with NUL bytes shown as spaces, size.
#[derive(Clone, Debug)]
pub struct FileListing {
    pub file_id: FileId,
    pub name: Vec<u8>,
    pub size: u32,
}

/// A record's name as `ls` shows it.
pub open spec fn shown_name(name: Seq<u8>) -> Seq<u8> {
    name.map_values(|c: u8| if c == 0 { 0x20u8 } else { c })
}

impl FileTable {
    /// Reads the records of the first node-sized block of the disk.
    pub fn from_first_block(block: &[u8]) -> (r: FileTable)
        requires
            block@.len() >= NODE_SIZE,
        ensures
            r@.len() == TABLE_ENTRIES,
            forall|k: int|
                0 <= k < TABLE_ENTRIES ==> is_meta_at(#[trigger] r@[k], block@, k * 32),
    {
        let mut files: Vec<FileMeta> = Vec::new();
        let mut k: usize = 0;
        while k < TABLE_ENTRIES
            invariant
                k <= TABLE_ENTRIES,
                block@.len() >= NODE_SIZE,
                files@.len() == k,
                forall|j: int| 0 <= j < k ==> is_meta_at(#[trigger] files@[j], block@, j * 32),
            decreases TABLE_ENTRIES - k,
        {
            let m = FileMeta::parse(block, k * FILE_META_SIZE);
            files.push(m);
            k = k + 1;
        }
        FileTable { files }
    }

    /// The records in use: their ids, names and sizes.
    pub fn ls(&self) -> (r: Vec<FileListing>)
        ensures
            r@.len() == self@.filter(|m: FileMeta| m.magic_number == FILE_MAGIC_NUMBER).len(),
            forall|k: int|
                0 <= k < r@.len() ==> {
                    let m = self@.filter(|m: FileMeta| m.magic_number == FILE_MAGIC_NUMBER)[k];
                    &&& (#[trigger] r@[k]).file_id == m.file_id
                    &&& r@[k].name@ == shown_name(m.name@)
                    &&& r@[k].size == m.size
                },
    {
        let mut out: Vec<FileListing> = Vec::new();
        let mut i: usize = 0;
        while i < self.files.len()
            invariant
                i <= self@.len(),
                out@.len() == self@.subrange(0, i as int).filter(
                    |m: FileMeta| m.magic_number == FILE_MAGIC_NUMBER,
                ).len(),
                forall|k: int|
                    0 <= k < out@.len() ==> {
                        let m = self@.subrange(0, i as int).filter(
                            |m: FileMeta| m.magic_number == FILE_MAGIC_NUMBER,
                        )[k];
                        &&& (#[trigger] out@[k]).file_id == m.file_id
                        &&& out@[k].name@ == shown_name(m.name@)
                        &&& out@[k].size == m.size
                    },
            decreases self@.len() - i,
        {
            let m = self.files[i];
            proof {
                let f = |m: FileMeta| m.magic_number == FILE_MAGIC_NUMBER;
                assert(self@.subrange(0, i + 1) =~= self@.subrange(0, i as int).push(m));
                self@.subrange(0, i as int).lemma_filter_push(m, f);
            }
            if m.magic_number == FILE_MAGIC_NUMBER {
                let mut name: Vec<u8> = Vec::new();
                let mut j: usize = 0;
                while j < FILE_NAME_LEN
                    invariant
                        j <= FILE_NAME_LEN,
                        name@ == shown_name(m.name@.subrange(0, j as int)),
                    decreases FILE_NAME_LEN - j,
                {
                    let c = m.name[j];
                    name.push(
                        if c == 0 {
                            0x20u8
                        } else {
                            c
                        },
                    );
                    j = j + 1;
                    assert(name@ =~= shown_name(m.name@.subrange(0, j as int)));
                }
                assert(m.name@.subrange(0, 18) =~= m.name@);
                out.push(FileListing { file_id: m.file_id, name, size: m.size });
            }
            i = i + 1;
        }
        assert(self@.subrange(0, self@.len() as int) =~= self@);
        out
    }

    /// The text `ls` prints: the header line, then one line for each record
    /// in use, in table order.
    pub fn ls_text(&self) -> (r: Vec<u8>)
        ensures
            r@ == ls_header() + ls_lines(self@),
    {
        let mut out: Vec<u8> = Vec::new();
        let header: [u8; 21] = [70, 73, 76, 69, 32, 73, 68, 9, 9, 78, 65, 77, 69, 9, 9, 9, 83, 73, 90, 69, 10];
        push_all(&mut out, &header);
        assert(out@ =~= ls_header());
        let mut i: usize = 0;
        while i < self.files.len()
            invariant
                i <= self@.len(),
                out@ == ls_header() + ls_lines(self@.subrange(0, i as int)),
            decreases self@.len() - i,
        {
            let m = self.files[i];
            let ghost before = out@;
            proof {
                assert(self@.subrange(0, i + 1).drop_last() =~= self@.subrange(0, i as int));
                assert(self@.subrange(0, i + 1).last() == m);
            }
            if m.magic_number == FILE_MAGIC_NUMBER {
                push_decimal(&mut out, m.file_id as u32);
                push_all(&mut out, &[9u8, 9]);
                let mut j: usize = 0;
                let ghost at = out@;
                while j < FILE_NAME_LEN
                    invariant
                        j <= FILE_NAME_LEN,
                        out@ == at + shown_name(m.name@.subrange(0, j as int)),
                    decreases FILE_NAME_LEN - j,
                {
                    let c = m.name[j];
                    out.push(
                        if c == 0 {
                            32u8
                        } else {
                            c
                        },
                    );
                    j = j + 1;
                    assert(out@ =~= at + shown_name(m.name@.subrange(0, j as int)));
                }
                assert(m.name@.subrange(0, 18) =~= m.name@);
                push_all(&mut out, &[9u8]);
                push_decimal(&mut out, m.size);
                push_all(&mut out, &[10u8]);
                assert(out@ =~= before + ls_line(m));
            } else {
                assert(out@ =~= before + Seq::<u8>::empty());
            }
            i = i + 1;
            assert(out@ =~= ls_header() + ls_lines(self@.subrange(0, i as int)));
        }
        assert(self@.subrange(0, self@.len() as int) =~= self@);
        out
    }

    /// The first record in use named `file_name`; none for a name that is
    /// not ASCII.
    pub fn get_file_meta(&self, file_name: &str) -> (r: Option<FileMeta>)
        ensures
            !is_ascii_bytes(file_name.spec_bytes()) ==> r.is_none(),
            is_ascii_bytes(file_name.spec_bytes()) ==> match r {
                None => forall|k: int|
                    0 <= k < self@.len() ==> !meta_matches(#[trigger] self@[k], file_name.spec_bytes()),
                Some(m) => exists|k: int|
                    0 <= k < self@.len() && self@[k] == m && meta_matches(m, file_name.spec_bytes())
                        && forall|j: int|
                        0 <= j < k ==> !meta_matches(#[trigger] self@[j], file_name.spec_bytes()),
            },
    {
        let s = file_name.as_bytes();
        let mut a: usize = 0;
        while a < s.len()
            invariant
                a <= s@.len(),
                s@ == file_name.spec_bytes(),
                forall|j: int| 0 <= j < a ==> s@[j] < 128,
            decreases s@.len() - a,
        {
            if s[a] >= 128 {
                assert(!is_ascii_bytes(s@));
                return None;
            }
            a = a + 1;
        }
        let mut i: usize = 0;
        while i < self.files.len()
            invariant
                i <= self@.len(),
                s@ == file_name.spec_bytes(),
                is_ascii_bytes(s@),
                forall|j: int| 0 <= j < i ==> !meta_matches(#[trigger] self@[j], s@),
            decreases self@.len() - i,
        {
            let m = &self.files[i];
            if m.magic_number == FILE_MAGIC_NUMBER && strcmp_ascii(s, &m.name) {
                return Some(*m);
            }
            i = i + 1;
        }
        None
    }

    /// Reads the file named `file_name` from the disk image: the data of the
    /// nodes of its chain, cut to its size. None when there is no such file,
    /// or a node of the chain lies outside the disk or lacks the node magic.
    pub fn copy_to_ram(&self, disk: &[u8], file_name: &str) -> (r: Option<Vec<u8>>)
        ensures
            match self.get_file_meta_spec(file_name.spec_bytes()) {
                None => r.is_none(),
                Some(m) => match file_contents(disk@, m) {
                    None => r.is_none(),
                    Some(c) => r.is_some() && r.unwrap()@ == c,
                },
            },
    {
        let m = match self.get_file_meta(file_name) {
            Some(m) => m,
            None => {
                proof {
                    self.lemma_meta_spec(file_name.spec_bytes(), None);
                }
                return None;
            },
        };
        proof {
            self.lemma_meta_spec(file_name.spec_bytes(), Some(m));
        }
        let mut reader = FileRead::start(&m);
        while reader.left > 0
            invariant
                reader.wf(),
                reader.file_size() == m.size,
                self.get_file_meta_spec(file_name.spec_bytes()) == Some(m),
                chain_data(disk@, m.node_list_start, nodes_for(m.size)) == match chain_data(
                    disk@,
                    reader.next_node(),
                    reader.nodes_left(),
                ) {
                    Some(rest) => Some(reader.gathered() + rest),
                    None => None::<Seq<u8>>,
                },
            decreases reader.left,
        {
            let at = node_address(reader.next);
            if at > disk.len() as u64 || disk.len() as u64 - at < NODE_SIZE as u64 {
                assert(chain_data(disk@, reader.next_node(), reader.nodes_left()).is_none());
                return None;
            }
            let at = at as usize;
            let node = &disk[at..at + NODE_SIZE];
            proof {
                assert(node@ == disk@.subrange(at as int, at + NODE_SIZE));
                assert(le_u32(node@, 0) == le_u32(disk@, at as int));
                assert(le_u32(node@, 8) == le_u32(disk@, at + 8));
                assert(node@.subrange(16, NODE_SIZE as int) =~= disk@.subrange(at + 16, at + NODE_SIZE));
            }
            let ghost before = reader.gathered();
            let ghost id = reader.next_node();
            let ghost k = reader.nodes_left();
            match reader.feed(node) {
                Ok(()) => {},
                Err(()) => {
                    assert(chain_data(disk@, id, k).is_none());
                    return None;
                },
            }
            proof {
                let rest = chain_data(disk@, le_u32(disk@, at + 8), (k - 1) as nat);
                if let Some(t) = rest {
                    assert(before + (disk@.subrange(at + 16, at + NODE_SIZE) + t) =~= reader.gathered() + t);
                }
            }
        }
        proof {
            assert(reader.gathered() + Seq::<u8>::empty() =~= reader.gathered());
        }
        Some(reader.finish())
    }

    /// The record `get_file_meta` returns for a name.
    pub open spec fn get_file_meta_spec(&self, s: Seq<u8>) -> Option<FileMeta> {
        if !is_ascii_bytes(s) {
            None
        } else if exists|k: int| 0 <= k < self@.len() && meta_matches(self@[k], s) {
            let k = choose|k: int|
                0 <= k < self@.len() && meta_matches(self@[k], s) && forall|j: int|
                    0 <= j < k ==> !meta_matches(#[trigger] self@[j], s);
            Some(self@[k])
        } else {
            None
        }
    }

    proof fn lemma_meta_spec(&self, s: Seq<u8>, r: Option<FileMeta>)
        requires
            !is_ascii_bytes(s) ==> r.is_none(),
            is_ascii_bytes(s) ==> match r {
                None => forall|k: int| 0 <= k < self@.len() ==> !meta_matches(#[trigger] self@[k], s),
                Some(m) => exists|k: int|
                    0 <= k < self@.len() && self@[k] == m && meta_matches(m, s) && forall|j: int|
                        0 <= j < k ==> !meta_matches(#[trigger] self@[j], s),
            },
        ensures
            self.get_file_meta_spec(s) == r,
    {
        if is_ascii_bytes(s) {
            if let Some(m) = r {
                let k0 = choose|k: int|
                    0 <= k < self@.len() && self@[k] == m && meta_matches(m, s) && forall|j: int|
                        0 <= j < k ==> !meta_matches(#[trigger] self@[j], s);
                let k = choose|k: int|
                    0 <= k < self@.len() && meta_matches(self@[k], s) && forall|j: int|
                        0 <= j < k ==> !meta_matches(#[trigger] self@[j], s);
                if k < k0 {
                } else if k0 < k {
                }
                assert(k == k0);
            }
        }
    }

    /// What `cat` shows of a file: each ASCII byte as itself, any other as `?`.
    pub fn cat(&self, disk: &[u8], file_name: &str) -> (r: Option<Vec<u8>>)
        ensures
            match self.get_file_meta_spec(file_name.spec_bytes()) {
                None => r.is_none(),
                Some(m) => match file_contents(disk@, m) {
                    None => r.is_none(),
                    Some(c) => r.is_some() && r.unwrap()@ == c.map_values(
                        |b: u8| if b < 128 { b } else { 0x3fu8 },
                    ),
                },
            },
    {
        let data = match self.copy_to_ram(disk, file_name) {
            Some(d) => d,
            None => return None,
        };
        let mut out: Vec<u8> = Vec::new();
        let mut k: usize = 0;
        while k < data.len()
            invariant
                k <= data@.len(),
                out@ == data@.subrange(0, k as int).map_values(
                    |b: u8| if b < 128 { b } else { 0x3fu8 },
                ),
            decreases data@.len() - k,
        {
            let b = data[k];
            out.push(
                if b < 128 {
                    b
                } else {
                    0x3fu8
                },
            );
            k = k + 1;
            assert(out@ =~= data@.subrange(0, k as int).map_values(
                |b: u8| if b < 128 { b } else { 0x3fu8 },
            ));
        }
        assert(data@.subrange(0, data@.len() as int) =~= data@);
        Some(out)
    }
}

} // verus!
