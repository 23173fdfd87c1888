//! Building the address space of a process from a loaded executable: its
//! loadable segments, a stack behind an unmapped guard page, a heap at a
//! fixed address, and the trapframe and trampoline pages.
use vstd::prelude::*;
use crate::addr::{
    bit_set, frame_of, lemma_fields, lemma_pte_bits, offset_of, pte_bits, pte_frame, vpn_of, PTEFlags,
    PhysAddr, VirtAddr,
};
use crate::paging::{
    grants, is_leaf, lemma_page_in_range, lemma_page_vpn, lemma_same_triple_same_page, page_at,
    PageTablePool,
};
use crate::param::{HEAP_START, PAGE_SIZE, STACK_SIZE, TRAMPOLINE_VADDR, TRAPFRAME_VADDR};

verus! {

/// The ELF type of a loadable segment.
pub const PT_LOAD: u32 = 1;
/// Pages in a process's stack.
pub const STACK_PAGES: usize = 40;
/// Pages in a process's heap.
pub const HEAP_PAGES: usize = 1000;

/// What activation reads of an ELF program header.
#[derive(Clone, Copy, Debug)]
pub struct Segment {
    pub p_type: u32,
    /// ELF permission bits: 4 read, 2 write, 1 execute.
    pub p_flags: u32,
    pub p_offset: u64,
    pub p_vaddr: u64,
    pub p_memsz: u64,
}

/// What activation reads of a parsed executable.
pub struct ParsedExecutable {
    pub entry_point: u64,
    pub segs: Vec<Segment>,
}

/// Why an address space could not be built.
#[derive(Clone, Copy, PartialEq, Eq, Debug, Structural)]
pub enum ActivationError {
    /// A loadable segment is not page-aligned, has no permission, or reaches
    /// past the user range; or the stack would.
    BadSegment,
    /// A stack or heap page was already mapped, or the stack and the heap meet.
    Collision,
    /// The page-table pool ran out of frames.
    OutOfTables,
}

/// The top of the user range: the trapframe page starts there.
pub open spec fn user_top() -> u64 {
    0x8c7f_e000
}

/// Flags of user stack and heap pages: valid, readable, writable, user.
pub open spec fn user_rw() -> u64 {
    23
}

/// The flags a loadable segment is mapped with: valid and user, with R, W
/// and X as its ELF flags say.
pub open spec fn segment_flags_spec(p_flags: u32) -> u64 {
    17u64 | (if p_flags & 4 != 0 { 2u64 } else { 0u64 }) | (if p_flags & 2 != 0 { 4u64 } else { 0u64 }) | (
    if p_flags & 1 != 0 { 8u64 } else { 0u64 })
}

proof fn lemma_segment_bits(r: u64, w: u64, x: u64)
    by (bit_vector)
    requires
        r == 0 || r == 2,
        w == 0 || w == 4,
        x == 0 || x == 8,
    ensures
        (17u64 | r | w | x) & 1 != 0,
        ((17u64 | r | w | x) & 2 != 0) == (r == 2),
        ((17u64 | r | w | x) & 4 != 0) == (w == 4),
        ((17u64 | r | w | x) & 8 != 0) == (x == 8),
        (17u64 | r | w | x) < 1024,
{
}

proof fn lemma_fixed_flags()
    by (bit_vector)
    ensures
        23u64 & 1 != 0 && 23u64 & 2 != 0 && 23u64 < 1024,
        7u64 & 1 != 0 && 7u64 & 2 != 0 && 7u64 < 1024,
        11u64 & 1 != 0 && 11u64 & 2 != 0 && 11u64 < 1024,
        ((1u64 | 2u64) | 4u64) | 16u64 == 23u64,
        (1u64 | 2u64) | 4u64 == 7u64,
        (1u64 | 2u64) | 8u64 == 11u64,
{
}

/// The flags for a segment's pages.
pub fn segment_flags(p_flags: u32) -> (r: PTEFlags)
    ensures
        r@ == segment_flags_spec(p_flags),
{
    let r: u64 = if p_flags & 4 != 0 {
        2u64
    } else {
        0u64
    };
    let w: u64 = if p_flags & 2 != 0 {
        4u64
    } else {
        0u64
    };
    let x: u64 = if p_flags & 1 != 0 {
        8u64
    } else {
        0u64
    };
    PTEFlags::from_bits(17u64 | r | w | x)
}

/// The first page of segment `g`: the page of its virtual address.
pub open spec fn seg_start(g: Segment) -> u64 {
    (g.p_vaddr - g.p_vaddr % 4096) as u64
}

/// How many pages segment `g` spans from its first page to its last byte.
pub open spec fn seg_pages(g: Segment) -> nat {
    ((g.p_vaddr % 4096 + g.p_memsz + 4095) / 4096) as nat
}

/// Where the pages of segment `g` end.
pub open spec fn seg_end(g: Segment) -> int {
    seg_start(g) + 4096 * seg_pages(g)
}

/// What a loadable segment must meet: some permission, its pages end at or
/// below the user top, and its file pages fit in the address range.
pub open spec fn segment_ok(g: Segment, file_base: u64) -> bool {
    g.p_type != PT_LOAD || (g.p_flags & 7 != 0 && seg_end(g) <= user_top() && file_base + g.p_offset + 4096
        * seg_pages(g) <= u64::MAX)
}

/// Page `i` of segment `g` maps to page `i` of the file from `p_offset` on,
/// for every page of the segment, with the segment's flags.
pub open spec fn segment_mapped(pool: PageTablePool, g: Segment, file_base: u64) -> bool {
    forall|i: int|
        0 <= i < seg_pages(g) ==> #[trigger] pool.lookup_va(page_at(seg_start(g), i)) == Some(
            pte_bits(frame_of(page_at((file_base + g.p_offset) as u64, i)), segment_flags_spec(g.p_flags)),
        )
}

/// Page `x` is a page of one of the first `n` loadable segments.
pub open spec fn is_segment_page(segs: Seq<Segment>, n: int, x: u64) -> bool {
    exists|q: int, i: int|
        0 <= q < n && segs[q].p_type == PT_LOAD && 0 <= i < seg_pages(segs[q]) && x == page_at(
            seg_start(segs[q]),
            i,
        )
}

/// Two loadable segments share a page.
pub open spec fn segments_overlap(segs: Seq<Segment>) -> bool {
    exists|q1: int, q2: int, i1: int, i2: int|
        0 <= q1 < q2 < segs.len() && segs[q1].p_type == PT_LOAD && segs[q2].p_type == PT_LOAD && 0 <= i1
            < seg_pages(segs[q1]) && 0 <= i2 < seg_pages(segs[q2]) && page_at(seg_start(segs[q1]), i1)
            == page_at(seg_start(segs[q2]), i2)
}

/// The data end: the highest end of the pages of a loadable segment; 0
/// when there is none.
pub open spec fn data_end_of(segs: Seq<Segment>) -> int
    decreases segs.len(),
{
    if segs.len() == 0 {
        0
    } else {
        let rest = data_end_of(segs.drop_last());
        let g = segs.last();
        if g.p_type == PT_LOAD && seg_end(g) > rest {
            seg_end(g)
        } else {
            rest
        }
    }
}

/// Nothing is mapped at or above `from` in the Sv39 range below 2^39.
pub open spec fn unmapped_from(pool: PageTablePool, from: u64) -> bool {
    forall|x: u64|
        x % 4096 == 0 && from <= x < 0x80_0000_0000 ==> (#[trigger] pool.lookup_va(x)).is_none()
}

/// Maps `n` pages from `va` to the frames `frames[first..first + n]` with
/// `flags`. Fails on a page that was already mapped, or when the pool runs
/// out of table frames.
#[verifier::rlimit(40)]
fn map_frames(
    pool: &mut PageTablePool,
    va: u64,
    frames: &Vec<u64>,
    first: usize,
    n: usize,
    flags: PTEFlags,
) -> (r: Result<(), ActivationError>)
    requires
        old(pool).wf(),
        is_leaf(flags@),
        flags@ < 1024,
        va % 4096 == 0,
        va + 4096 * n < 0x80_0000_0000,
        first + n <= frames.len(),
    ensures
        final(pool).wf(),
        r is Ok ==> forall|i: int|
            0 <= i < n ==> #[trigger] final(pool).lookup_va(page_at(va, i)) == Some(
                pte_bits(frame_of(frames@[first + i]), flags@),
            ),
        r is Ok ==> forall|x: u64|
            x % 4096 == 0 && x < 0x80_0000_0000 && !(va <= x < va + 4096 * n) ==> #[trigger] final(
                pool).lookup_va(x) == old(pool).lookup_va(x),
        r is Ok ==> forall|i: int| 0 <= i < n ==> (#[trigger] old(pool).lookup_va(page_at(va, i))).is_none(),
        r is Err ==> r == Err::<(), ActivationError>(ActivationError::Collision) || r == Err::<
            (),
            ActivationError,
        >(ActivationError::OutOfTables),
        r == Err::<(), ActivationError>(ActivationError::Collision) ==> exists|i: int|
            0 <= i < n && (#[trigger] old(pool).lookup_va(page_at(va, i))).is_some(),
        r == Err::<(), ActivationError>(ActivationError::OutOfTables) ==> final(pool).len() + 2 > final(
            pool).spec_capacity(),
{
    let mut k: usize = 0;
    while k < n
        invariant
            k <= n,
            pool.wf(),
            is_leaf(flags@),
            flags@ < 1024,
            va % 4096 == 0,
            va + 4096 * n < 0x80_0000_0000,
            first + n <= frames.len(),
            forall|i: int|
                0 <= i < k ==> #[trigger] pool.lookup_va(page_at(va, i)) == Some(
                    pte_bits(frame_of(frames@[first + i]), flags@),
                ),
            forall|x: u64|
                x % 4096 == 0 && x < 0x80_0000_0000 && !(va <= x < va + 4096 * k) ==> #[trigger] pool.lookup_va(
                    x,
                ) == old(pool).lookup_va(x),
            forall|i: int| 0 <= i < k ==> (#[trigger] old(pool).lookup_va(page_at(va, i))).is_none(),
        decreases n - k,
    {
        let ghost pre = *pool;
        let v = va + 4096 * k as u64;
        proof {
            lemma_page_in_range(va, k as int, n as u64);
            lemma_fields(v);
        }
        match pool.strong_map(VirtAddr::from_raw(v), PhysAddr::from_raw(frames[first + k]), flags) {
            Ok(None) => {},
            Ok(Some(_)) => {
                proof {
                    assert(page_at(va, k as int) == v);
                    assert(pre.lookup_va(v) == old(pool).lookup_va(v));
                }
                return Err(ActivationError::Collision);
            },
            Err(_) => {
                return Err(ActivationError::OutOfTables);
            },
        }
        proof {
            assert forall|i: int| 0 <= i < k + 1 implies #[trigger] pool.lookup_va(page_at(va, i))
                == Some(pte_bits(frame_of(frames@[first + i]), flags@)) by {
                if i < k {
                    lemma_page_in_range(va, i, n as u64);
                    let x = page_at(va, i);
                    lemma_fields(x);
                    if vpn_of(x, 2) == vpn_of(v, 2) && vpn_of(x, 1) == vpn_of(v, 1) && vpn_of(x, 0)
                        == vpn_of(v, 0) {
                        lemma_same_triple_same_page(x, v);
                    }
                    assert(pre.lookup_va(x) == Some(pte_bits(frame_of(frames@[first + i]), flags@)));
                } else {
                    assert(page_at(va, i) == v);
                }
            }
            assert(pre.lookup_va(v).is_none());
            assert(pre.lookup_va(v) == old(pool).lookup_va(v));
            assert(page_at(va, k as int) == v);
            assert forall|x: u64|
                x % 4096 == 0 && x < 0x80_0000_0000 && !(va <= x < va + 4096 * (k + 1)) implies #[trigger] pool.lookup_va(
                x,
            ) == old(pool).lookup_va(x) by {
                lemma_fields(x);
                if vpn_of(x, 2) == vpn_of(v, 2) && vpn_of(x, 1) == vpn_of(v, 1) && vpn_of(x, 0) == vpn_of(
                    v,
                    0,
                ) {
                    lemma_same_triple_same_page(x, v);
                }
                assert(pre.lookup_va(x) == old(pool).lookup_va(x));
            }
        }
        k = k + 1;
    }
    Ok(())
}

/// Pages below 2^39 in `[lo, hi)` hold none of the pages of `x`'s triple
/// unless `x` is one of them.
proof fn lemma_other_page(x: u64, y: u64)
    requires
        x % 4096 == 0,
        y % 4096 == 0,
        x < 0x80_0000_0000,
        y < 0x80_0000_0000,
        x != y,
    ensures
        !(vpn_of(x, 2) == vpn_of(y, 2) && vpn_of(x, 1) == vpn_of(y, 1) && vpn_of(x, 0) == vpn_of(y, 0)),
{
    if vpn_of(x, 2) == vpn_of(y, 2) && vpn_of(x, 1) == vpn_of(y, 1) && vpn_of(x, 0) == vpn_of(y, 0) {
        lemma_same_triple_same_page(x, y);
    }
}

/// The first of the `n` pages from `start` that is mapped, if any.
fn first_mapped(pool: &PageTablePool, start: u64, n: u64) -> (r: Option<u64>)
    requires
        pool.wf(),
        start % 4096 == 0,
        start + 4096 * n < 0x80_0000_0000,
    ensures
        match r {
            None => forall|i: int| 0 <= i < n ==> (#[trigger] pool.lookup_va(page_at(start, i))).is_none(),
            Some(c) => c < n && pool.lookup_va(page_at(start, c as int)).is_some(),
        },
{
    let mut c: u64 = 0;
    while c < n
        invariant
            c <= n,
            pool.wf(),
            start % 4096 == 0,
            start + 4096 * n < 0x80_0000_0000,
            forall|i: int| 0 <= i < c ==> (#[trigger] pool.lookup_va(page_at(start, i))).is_none(),
        decreases n - c,
    {
        proof {
            lemma_page_in_range(start, c as int, n);
        }
        if pool.is_mapped(start + 4096 * c) {
            return Some(c);
        }
        c = c + 1;
    }
    None
}

/// Every page outside the `n` pages from `start` keeps its lookup, stated
/// over table indices as `map_range` states it.
#[verifier::opaque]
pub open spec fn kept_outside(pre: PageTablePool, post: PageTablePool, start: u64, n: u64) -> bool {
    forall|a: int, b: int, c: int|
        0 <= a < 512 && 0 <= b < 512 && 0 <= c < 512 && (forall|i: int|
            0 <= i < n ==> !(vpn_of(page_at(start, i), 2) == a && vpn_of(page_at(start, i), 1) == b && vpn_of(
                page_at(start, i),
                0,
            ) == c)) ==> #[trigger] post.lookup(a, b, c) == pre.lookup(a, b, c)
}

proof fn lemma_kept_page(pre: PageTablePool, post: PageTablePool, start: u64, n: u64, x: u64)
    requires
        kept_outside(pre, post, start, n),
        start % 4096 == 0,
        start + 4096 * n < 0x80_0000_0000,
        x % 4096 == 0,
        x < 0x80_0000_0000,
        forall|i: int| 0 <= i < n ==> page_at(start, i) != x,
    ensures
        post.lookup_va(x) == pre.lookup_va(x),
{
    reveal(kept_outside);
    assert forall|i: int| 0 <= i < n implies !(vpn_of(page_at(start, i), 2) == vpn_of(x, 2) && vpn_of(
        page_at(start, i),
        1,
    ) == vpn_of(x, 1) && vpn_of(page_at(start, i), 0) == vpn_of(x, 0)) by {
        lemma_page_in_range(start, i, n);
        lemma_other_page(page_at(start, i), x);
    }
    assert(post.lookup(vpn_of(x, 2) as int, vpn_of(x, 1) as int, vpn_of(x, 0) as int) == pre.lookup(
        vpn_of(x, 2) as int,
        vpn_of(x, 1) as int,
        vpn_of(x, 0) as int,
    ));
}

/// What holds after the first `s` segments are mapped, with data end `e`.
#[verifier::opaque]
pub open spec fn segments_done(pool: PageTablePool, segs: Seq<Segment>, file_base: u64, s: int, e: u64) -> bool {
    &&& e == data_end_of(segs.subrange(0, s))
    &&& e % 4096 == 0
    &&& e <= user_top()
    &&& unmapped_from(pool, e)
    &&& forall|q: int|
        0 <= q < s && (#[trigger] segs[q]).p_type == PT_LOAD ==> segment_mapped(pool, segs[q], file_base)
            && seg_end(segs[q]) <= e
    &&& forall|x: u64|
        x % 4096 == 0 && x < 0x80_0000_0000 && (#[trigger] pool.lookup_va(x)).is_some() ==> is_segment_page(
            segs,
            s,
            x,
        )
}

/// One segment's step of `map_segments`: after `map_range` maps its pages,
/// the first `s + 1` segments are done.
proof fn lemma_step_unmapped(pre: PageTablePool, post: PageTablePool, start: u64, npages: u64, data_end: u64, new_end: u64)
    requires
        kept_outside(pre, post, start, npages),
        start % 4096 == 0,
        start + 4096 * npages <= new_end,
        new_end <= user_top(),
        data_end <= new_end,
        unmapped_from(pre, data_end),
    ensures
        unmapped_from(post, new_end),
{
    assert forall|x: u64| x % 4096 == 0 && new_end <= x < 0x80_0000_0000 implies (#[trigger] post.lookup_va(
        x,
    )).is_none() by {
        assert forall|i: int| 0 <= i < npages implies page_at(start, i) != x by {
            lemma_page_in_range(start, i, npages);
        }
        lemma_kept_page(pre, post, start, npages, x);
        assert(pre.lookup_va(x).is_none());
    }
}

proof fn lemma_step_pages(
    pre: PageTablePool,
    post: PageTablePool,
    segs: Seq<Segment>,
    s: int,
    start: u64,
    npages: u64,
)
    requires
        0 <= s < segs.len(),
        segs[s].p_type == PT_LOAD,
        start == seg_start(segs[s]),
        npages == seg_pages(segs[s]),
        start % 4096 == 0,
        start + 4096 * npages < 0x80_0000_0000,
        kept_outside(pre, post, start, npages),
        forall|x: u64|
            x % 4096 == 0 && x < 0x80_0000_0000 && (#[trigger] pre.lookup_va(x)).is_some() ==> is_segment_page(
                segs,
                s,
                x,
            ),
    ensures
        forall|x: u64|
            x % 4096 == 0 && x < 0x80_0000_0000 && (#[trigger] post.lookup_va(x)).is_some() ==> is_segment_page(
                segs,
                s + 1,
                x,
            ),
{
    assert forall|x: u64|
        x % 4096 == 0 && x < 0x80_0000_0000 && (#[trigger] post.lookup_va(x)).is_some() implies is_segment_page(
        segs,
        s + 1,
        x,
    ) by {
        if exists|i: int| 0 <= i < npages && page_at(start, i) == x {
            let i = choose|i: int| 0 <= i < npages && page_at(start, i) == x;
            assert(segs[s].p_type == PT_LOAD && 0 <= i < seg_pages(segs[s]) && x == page_at(seg_start(segs[s]), i));
        } else {
            lemma_kept_page(pre, post, start, npages, x);
            assert(pre.lookup_va(x).is_some());
            assert(is_segment_page(segs, s, x));
            let (q, i) = choose|q: int, i: int|
                0 <= q < s && segs[q].p_type == PT_LOAD && 0 <= i < seg_pages(segs[q]) && x == page_at(
                    seg_start(segs[q]),
                    i,
                );
            assert(0 <= q < s + 1);
        }
    }
}

proof fn lemma_step_segments(
    pre: PageTablePool,
    post: PageTablePool,
    segs: Seq<Segment>,
    s: int,
    file_base: u64,
    data_end: u64,
    new_end: u64,
)
    requires
        0 <= s < segs.len(),
        segs[s].p_type == PT_LOAD,
        seg_start(segs[s]) % 4096 == 0,
        seg_end(segs[s]) <= new_end,
        new_end <= user_top(),
        data_end <= new_end,
        kept_outside(pre, post, seg_start(segs[s]), seg_pages(segs[s]) as u64),
        forall|i: int| 0 <= i < seg_pages(segs[s]) ==> (#[trigger] pre.lookup_va(page_at(seg_start(segs[s]), i))).is_none(),
        forall|i: int|
            0 <= i < seg_pages(segs[s]) ==> #[trigger] post.lookup_va(page_at(seg_start(segs[s]), i)) == Some(
                pte_bits(frame_of(page_at((file_base + segs[s].p_offset) as u64, i)), segment_flags_spec(segs[s].p_flags)),
            ),
        forall|q: int|
            0 <= q < s && (#[trigger] segs[q]).p_type == PT_LOAD ==> segment_mapped(pre, segs[q], file_base)
                && seg_end(segs[q]) <= data_end,
    ensures
        forall|q: int|
            0 <= q < s + 1 && (#[trigger] segs[q]).p_type == PT_LOAD ==> segment_mapped(post, segs[q], file_base)
                && seg_end(segs[q]) <= new_end,
{
    let start = seg_start(segs[s]);
    let npages = seg_pages(segs[s]) as u64;
    assert forall|q: int| 0 <= q < s + 1 && (#[trigger] segs[q]).p_type == PT_LOAD implies segment_mapped(
        post,
        segs[q],
        file_base,
    ) && seg_end(segs[q]) <= new_end by {
        let g = segs[q];
        if q < s {
            assert(segment_mapped(pre, g, file_base) && seg_end(g) <= data_end);
            assert forall|i: int| 0 <= i < seg_pages(g) implies #[trigger] post.lookup_va(page_at(seg_start(g), i))
                == pre.lookup_va(page_at(seg_start(g), i)) by {
                let x = page_at(seg_start(g), i);
                assert(seg_start(g) % 4096 == 0);
                lemma_page_in_range(seg_start(g), i, seg_pages(g) as u64);
                assert(pre.lookup_va(x).is_some());
                assert forall|i2: int| 0 <= i2 < npages implies page_at(start, i2) != x by {
                    lemma_page_in_range(start, i2, npages);
                    assert(pre.lookup_va(page_at(start, i2)).is_none());
                }
                lemma_kept_page(pre, post, start, npages, x);
            }
        }
    }
}

/// One segment's step of `map_segments`: after `map_range` maps its pages,
/// the first `s + 1` segments are done.
proof fn lemma_segment_step(
    pre: PageTablePool,
    post: PageTablePool,
    segs: Seq<Segment>,
    s: int,
    file_base: u64,
    data_end: u64,
    new_end: u64,
)
    requires
        0 <= s < segs.len(),
        segments_done(pre, segs, file_base, s, data_end),
        segs[s].p_type == PT_LOAD,
        seg_start(segs[s]) % 4096 == 0,
        seg_end(segs[s]) <= user_top(),
        seg_end(segs[s]) % 4096 == 0,
        new_end == if seg_end(segs[s]) > data_end { seg_end(segs[s]) } else { data_end as int },
        forall|i: int| 0 <= i < seg_pages(segs[s]) ==> (#[trigger] pre.lookup_va(page_at(seg_start(segs[s]), i))).is_none(),
        kept_outside(pre, post, seg_start(segs[s]), seg_pages(segs[s]) as u64),
        forall|i: int|
            0 <= i < seg_pages(segs[s]) ==> #[trigger] post.lookup_va(page_at(seg_start(segs[s]), i)) == Some(
                pte_bits(frame_of(page_at((file_base + segs[s].p_offset) as u64, i)), segment_flags_spec(segs[s].p_flags)),
            ),
    ensures
        segments_done(post, segs, file_base, s + 1, new_end),
{
    reveal(segments_done);
    let seg = segs[s];
    assert(segs.subrange(0, s + 1).drop_last() =~= segs.subrange(0, s));
    assert(segs.subrange(0, s + 1).last() == seg);
    lemma_step_unmapped(pre, post, seg_start(seg), seg_pages(seg) as u64, data_end, new_end);
    lemma_step_pages(pre, post, segs, s, seg_start(seg), seg_pages(seg) as u64);
    lemma_step_segments(pre, post, segs, s, file_base, data_end, new_end);
}

/// Maps segment `s` of `exe`, when it is loadable, after the ones before it.
#[verifier::rlimit(40)]
fn map_one_segment(pool: &mut PageTablePool, exe: &ParsedExecutable, s: usize, file_base: u64, data_end: u64) -> (r:
    Result<u64, ActivationError>)
    requires
        old(pool).wf(),
        s < exe.segs@.len(),
        segments_done(*old(pool), exe.segs@, file_base, s as int, data_end),
    ensures
        final(pool).wf(),
        r == Err::<u64, ActivationError>(ActivationError::BadSegment) ==> !segment_ok(exe.segs@[s as int], file_base),
        r == Err::<u64, ActivationError>(ActivationError::Collision) ==> segments_overlap(exe.segs@),
        r == Err::<u64, ActivationError>(ActivationError::OutOfTables) ==> final(pool).len() + 2 > final(
            pool).spec_capacity(),
        r is Ok ==> segments_done(*final(pool), exe.segs@, file_base, s + 1, r.unwrap()),
{
    let seg = exe.segs[s];
    let ghost segs = exe.segs@;
    proof {
        reveal(segments_done);
        assert(segs.subrange(0, s + 1).drop_last() =~= segs.subrange(0, s as int));
        assert(segs.subrange(0, s + 1).last() == seg);
    }
    if seg.p_type != PT_LOAD {
        proof {
            assert forall|x: u64|
                x % 4096 == 0 && x < 0x80_0000_0000 && (#[trigger] pool.lookup_va(x)).is_some() implies is_segment_page(
                segs,
                s + 1,
                x,
            ) by {
                assert(is_segment_page(segs, s as int, x));
                let (q, i) = choose|q: int, i: int|
                    0 <= q < s && segs[q].p_type == PT_LOAD && 0 <= i < seg_pages(segs[q]) && x == page_at(
                        seg_start(segs[q]),
                        i,
                    );
                assert(0 <= q < s + 1);
            }
        }
        return Ok(data_end);
    }
    if seg.p_vaddr > 0x8c7f_e000 || seg.p_memsz > 0x8c7f_e000 {
        proof {
            lemma_seg_end_covers(seg);
        }
        return Err(ActivationError::BadSegment);
    }
    let start = seg.p_vaddr - seg.p_vaddr % 4096;
    let npages = (seg.p_vaddr % 4096 + seg.p_memsz + 4095) / 4096;
    if npages > (0x8c7f_e000 - start) / 4096 {
        proof {
            assert(start + 4096 * npages > 0x8c7f_e000) by (nonlinear_arith)
                requires
                    npages > (0x8c7f_e000 - start) / 4096,
                    start <= 0x8c7f_e000,
            ;
        }
        return Err(ActivationError::BadSegment);
    }
    let end = start + npages * 4096;
    if seg.p_flags & 7 == 0 {
        return Err(ActivationError::BadSegment);
    }
    if file_base > u64::MAX - seg.p_offset || file_base + seg.p_offset > u64::MAX - npages * 4096 {
        return Err(ActivationError::BadSegment);
    }
    let flags = segment_flags(seg.p_flags);
    proof {
        let rr: u64 = if seg.p_flags & 4 != 0 { 2 } else { 0 };
        let ww: u64 = if seg.p_flags & 2 != 0 { 4 } else { 0 };
        let xx: u64 = if seg.p_flags & 1 != 0 { 8 } else { 0 };
        lemma_segment_bits(rr, ww, xx);
        let pf = seg.p_flags;
        assert(pf & 7 != 0 ==> pf & 4 != 0 || pf & 2 != 0 || pf & 1 != 0) by (bit_vector);
        assert(npages * 4096 <= 0x8c7f_e000 - start) by (nonlinear_arith)
            requires
                npages <= (0x8c7f_e000 - start) / 4096,
        ;
        assert(start % 4096 == 0);
        assert((start + npages * 4096) % 4096 == 0) by (nonlinear_arith)
            requires
                start % 4096 == 0,
        ;
        assert(npages == seg_pages(seg));
        assert(start == seg_start(seg));
        assert(end == seg_end(seg));
    }
    match first_mapped(pool, start, npages) {
        Some(c) => {
            proof {
                let x = page_at(start, c as int);
                lemma_page_in_range(start, c as int, npages);
                assert(is_segment_page(segs, s as int, x));
                let (q, i) = choose|q: int, i: int|
                    0 <= q < s && segs[q].p_type == PT_LOAD && 0 <= i < seg_pages(segs[q]) && x == page_at(
                        seg_start(segs[q]),
                        i,
                    );
                assert(segs[s as int].p_type == PT_LOAD && 0 <= c < seg_pages(segs[s as int]) && page_at(
                    seg_start(segs[q]),
                    i,
                ) == page_at(seg_start(segs[s as int]), c as int));
            }
            return Err(ActivationError::Collision);
        },
        None => {},
    }
    let ghost pre = *pool;
    match pool.map_range(start, file_base + seg.p_offset, npages, flags) {
        Ok(()) => {},
        Err(_) => return Err(ActivationError::OutOfTables),
    }
    let new_end = if end > data_end {
        end
    } else {
        data_end
    };
    proof {
        reveal(kept_outside);
        assert(kept_outside(pre, *pool, start, npages));
        lemma_segment_step(pre, *pool, segs, s as int, file_base, data_end, new_end);
    }
    Ok(new_end)
}

/// Maps the loadable segments of `exe`, page by page from the page of each
/// one's virtual address, to the file loaded at `file_base` from the
/// segment's offset on, each with its ELF permissions and the user bit.
/// Returns the data end. Fails with `BadSegment` only for a segment that is
/// not `segment_ok`, with `Collision` only when two segments share a page,
/// and with `OutOfTables` only when the pool is nearly full.
pub fn map_segments(pool: &mut PageTablePool, exe: &ParsedExecutable, file_base: u64) -> (r: Result<
    u64,
    ActivationError,
>)
    requires
        old(pool).wf(),
        unmapped_from(*old(pool), 0),
    ensures
        final(pool).wf(),
        r == Err::<u64, ActivationError>(ActivationError::BadSegment) ==> exists|q: int|
            0 <= q < exe.segs@.len() && !segment_ok(#[trigger] exe.segs@[q], file_base),
        r == Err::<u64, ActivationError>(ActivationError::Collision) ==> segments_overlap(exe.segs@),
        r == Err::<u64, ActivationError>(ActivationError::OutOfTables) ==> final(pool).len() + 2 > final(
            pool).spec_capacity(),
        r is Ok ==> segments_done(*final(pool), exe.segs@, file_base, exe.segs@.len() as int, r.unwrap()),
        r is Ok ==> r.unwrap() == data_end_of(exe.segs@) && r.unwrap() % 4096 == 0 && r.unwrap() <= user_top()
            && unmapped_from(*final(pool), r.unwrap()),
{
    let mut data_end: u64 = 0;
    let mut s: usize = 0;
    proof {
        reveal(segments_done);
        assert(exe.segs@.subrange(0, 0) =~= Seq::<Segment>::empty());
    }
    while s < exe.segs.len()
        invariant
            s <= exe.segs@.len(),
            pool.wf(),
            segments_done(*pool, exe.segs@, file_base, s as int, data_end),
        decreases exe.segs@.len() - s,
    {
        match map_one_segment(pool, exe, s, file_base, data_end) {
            Ok(e) => {
                data_end = e;
            },
            Err(e) => {
                proof {
                    if e == ActivationError::BadSegment {
                        assert(!segment_ok(exe.segs@[s as int], file_base));
                    }
                }
                return Err(e);
            },
        }
        s = s + 1;
    }
    proof {
        reveal(segments_done);
        assert(exe.segs@.subrange(0, exe.segs@.len() as int) =~= exe.segs@);
    }
    Ok(data_end)
}

/// A segment's pages reach at least to its last byte.
proof fn lemma_seg_end_covers(g: Segment)
    ensures
        seg_end(g) >= g.p_vaddr + g.p_memsz,
        seg_end(g) >= g.p_vaddr,
{
    let o = g.p_vaddr % 4096;
    let n = seg_pages(g);
    assert(4096 * n >= o + g.p_memsz) by (nonlinear_arith)
        requires
            n == (o + g.p_memsz + 4095) / 4096,
            o >= 0,
    ;
}

/// The stack of a process whose data ends at `data_end`, with its guard
/// page, meets the heap.
pub open spec fn stack_meets_heap(data_end: int) -> bool {
    let top = data_end + 2 * STACK_SIZE + PAGE_SIZE;
    let guard = data_end + STACK_SIZE;
    !(top <= HEAP_START || HEAP_START + 4096 * HEAP_PAGES <= guard)
}

/// Page `x` is a page of the heap.
pub open spec fn in_heap(x: int) -> bool {
    HEAP_START <= x < HEAP_START + 4096 * HEAP_PAGES
}

/// Maps the stack and the heap above the data end `data_end`: 40 stack pages
/// backed by `frames[0..40]` from one stack size and one guard page above
/// the data end, and 1000 heap pages at `HEAP_START` backed by
/// `frames[40..1040]`, all user read-write. Returns the top of the stack.
/// Pages below the data end that were mapped keep their mappings.
#[verifier::rlimit(40)]
fn map_stack_heap(pool: &mut PageTablePool, data_end: u64, frames: &Vec<u64>) -> (r: Result<
    u64,
    ActivationError,
>)
    requires
        old(pool).wf(),
        data_end % 4096 == 0,
        data_end <= user_top(),
        unmapped_from(*old(pool), data_end),
        frames@.len() == STACK_PAGES + HEAP_PAGES,
    ensures
        final(pool).wf(),
        r == Err::<u64, ActivationError>(ActivationError::BadSegment) ==> data_end + 2 * STACK_SIZE
            + PAGE_SIZE > user_top(),
        r == Err::<u64, ActivationError>(ActivationError::Collision) ==> stack_meets_heap(data_end as int)
            || exists|i: int|
            0 <= i < HEAP_PAGES && (#[trigger] old(pool).lookup_va(page_at(HEAP_START, i))).is_some(),
        r == Err::<u64, ActivationError>(ActivationError::OutOfTables) ==> final(pool).len() + 2 > final(
            pool).spec_capacity(),
        r is Ok ==> ({
            let top = r.unwrap();
            let base = (top - STACK_SIZE) as u64;
            &&& top == data_end + 2 * STACK_SIZE + PAGE_SIZE
            &&& top <= user_top()
            &&& final(pool).lookup_va((base - 4096) as u64).is_none()
            &&& forall|i: int|
                0 <= i < STACK_PAGES ==> #[trigger] final(pool).lookup_va(page_at(base, i)) == Some(
                    pte_bits(frame_of(frames@[i]), user_rw()),
                )
            &&& forall|i: int|
                0 <= i < HEAP_PAGES ==> #[trigger] final(pool).lookup_va(page_at(HEAP_START, i))
                    == Some(pte_bits(frame_of(frames@[STACK_PAGES + i]), user_rw()))
            &&& forall|x: u64|
                x % 4096 == 0 && x < data_end && old(pool).lookup_va(x).is_some() ==> #[trigger] final(
                    pool).lookup_va(x) == old(pool).lookup_va(x)
            &&& forall|x: u64|
                x % 4096 == 0 && x < 0x80_0000_0000 && (#[trigger] final(pool).lookup_va(x)).is_some()
                    ==> old(pool).lookup_va(x).is_some() || (base <= x < top) || in_heap(x as int)
        }),
{
    if data_end > 0x8c7f_e000 - (2 * STACK_SIZE as u64 + PAGE_SIZE as u64) {
        return Err(ActivationError::BadSegment);
    }
    let stack_base = data_end + STACK_SIZE as u64 + PAGE_SIZE as u64;
    let stack_top = stack_base + STACK_SIZE as u64;
    let guard = stack_base - PAGE_SIZE as u64;
    let heap_end = HEAP_START + HEAP_PAGES as u64 * 4096;
    if !(stack_top <= HEAP_START || heap_end <= guard) {
        return Err(ActivationError::Collision);
    }
    proof {
        lemma_fixed_flags();
    }
    let rwu = PTEFlags::valid().readable().writable().userable();
    let ghost start = *pool;
    match map_frames(pool, stack_base, frames, 0, STACK_PAGES, rwu) {
        Ok(()) => {},
        Err(e) => {
            proof {
                if e == ActivationError::Collision {
                    let i = choose|i: int|
                        0 <= i < STACK_PAGES && (#[trigger] start.lookup_va(page_at(stack_base, i))).is_some();
                    lemma_page_in_range(stack_base, i, STACK_PAGES as u64);
                }
            }
            return Err(e);
        },
    }
    let ghost mid = *pool;
    proof {
        assert(start.lookup_va(guard).is_none());
    }
    match map_frames(pool, HEAP_START, frames, STACK_PAGES, HEAP_PAGES, rwu) {
        Ok(()) => {},
        Err(e) => {
            proof {
                if e == ActivationError::Collision {
                    let i = choose|i: int|
                        0 <= i < HEAP_PAGES && (#[trigger] mid.lookup_va(page_at(HEAP_START, i))).is_some();
                    lemma_page_in_range(HEAP_START, i, HEAP_PAGES as u64);
                    assert(mid.lookup_va(page_at(HEAP_START, i)) == start.lookup_va(page_at(HEAP_START, i)));
                }
            }
            return Err(e);
        },
    }
    proof {
        assert(mid.lookup_va(guard).is_none());
        assert forall|i: int| 0 <= i < STACK_PAGES implies #[trigger] pool.lookup_va(page_at(stack_base, i))
            == Some(pte_bits(frame_of(frames@[i]), user_rw())) by {
            lemma_page_in_range(stack_base, i, STACK_PAGES as u64);
            assert(mid.lookup_va(page_at(stack_base, i)) == Some(
                pte_bits(frame_of(frames@[0 + i]), user_rw()),
            ));
        }
        assert forall|x: u64|
            x % 4096 == 0 && x < data_end && start.lookup_va(x).is_some() implies #[trigger] pool.lookup_va(x)
            == start.lookup_va(x) by {
            assert(mid.lookup_va(x) == start.lookup_va(x));
            if HEAP_START <= x < heap_end {
                let k = (x - HEAP_START) / 4096;
                assert(0 <= k < HEAP_PAGES && HEAP_START + 4096 * k == x) by (nonlinear_arith)
                    requires
                        HEAP_START % 4096 == 0,
                        x % 4096 == 0,
                        HEAP_START <= x < HEAP_START + 4096 * HEAP_PAGES,
                        k == (x - HEAP_START) / 4096,
                ;
                assert(page_at(HEAP_START, k) == x);
                assert(mid.lookup_va(page_at(HEAP_START, k)).is_none());
            }
        }
        assert forall|x: u64|
            x % 4096 == 0 && x < 0x80_0000_0000 && (#[trigger] pool.lookup_va(x)).is_some() implies start.lookup_va(
            x,
        ).is_some() || (stack_base <= x < stack_top) || in_heap(x as int) by {
            if !(stack_base <= x < stack_top) && !in_heap(x as int) {
                assert(pool.lookup_va(x) == mid.lookup_va(x));
                assert(mid.lookup_va(x) == start.lookup_va(x));
            }
        }
    }
    Ok(stack_top)
}

/// Maps the trapframe page at `TRAPFRAME_VADDR` to `trapframe` (R+W) and the
/// trampoline page at `TRAMPOLINE_VADDR` to `trampoline` (R+X), kernel-only.
/// Nothing below the user top changes.
fn map_trap_pages(pool: &mut PageTablePool, trapframe: u64, trampoline: u64) -> (r: Result<
    (),
    ActivationError,
>)
    requires
        old(pool).wf(),
    ensures
        final(pool).wf(),
        r is Err ==> r == Err::<(), ActivationError>(ActivationError::OutOfTables) && final(pool).len() + 2
            > final(pool).spec_capacity(),
        r is Ok ==> final(pool).lookup_va(TRAPFRAME_VADDR as u64) == Some(pte_bits(frame_of(trapframe), 7)),
        r is Ok ==> final(pool).lookup_va(TRAMPOLINE_VADDR as u64) == Some(pte_bits(frame_of(trampoline), 11)),
        r is Ok ==> forall|x: u64|
            x % 4096 == 0 && x < user_top() ==> #[trigger] final(pool).lookup_va(x) == old(pool).lookup_va(x),
{
    proof {
        lemma_fixed_flags();
    }
    let ghost start = *pool;
    let rw = PTEFlags::valid().readable().writable();
    match pool.strong_map(VirtAddr::from_raw(TRAPFRAME_VADDR as u64), PhysAddr::from_raw(trapframe), rw) {
        Ok(_) => {},
        Err(_) => return Err(ActivationError::OutOfTables),
    }
    let ghost mid = *pool;
    let rx = PTEFlags::valid().readable().executable();
    match pool.strong_map(VirtAddr::from_raw(TRAMPOLINE_VADDR as u64), PhysAddr::from_raw(trampoline), rx) {
        Ok(_) => {},
        Err(_) => return Err(ActivationError::OutOfTables),
    }
    proof {
        let tf = TRAPFRAME_VADDR as u64;
        let tr = TRAMPOLINE_VADDR as u64;
        lemma_fields(tf);
        lemma_fields(tr);
        lemma_other_page(tf, tr);
        assert forall|x: u64| x % 4096 == 0 && x < user_top() implies #[trigger] pool.lookup_va(x)
            == start.lookup_va(x) by {
            lemma_fields(x);
            lemma_other_page(x, tf);
            lemma_other_page(x, tr);
            assert(mid.lookup_va(x) == start.lookup_va(x));
        }
    }
    Ok(())
}

/// A heap page is a page of a loadable segment.
pub open spec fn heap_meets_segment(segs: Seq<Segment>) -> bool {
    exists|x: u64| x % 4096 == 0 && in_heap(x as int) && #[trigger] is_segment_page(segs, segs.len() as int, x)
}

/// The address space that activation builds, with the stack top at `top`:
/// the stack sits one stack size and a guard page above the data end, the
/// guard page is unmapped, stack and heap pages map to their frames, the
/// trapframe and trampoline pages map kernel-only, every loadable segment is
/// mapped, and below the user top nothing else is mapped.
#[verifier::opaque]
pub open spec fn user_space_mapped(
    pool: PageTablePool,
    segs: Seq<Segment>,
    file_base: u64,
    frames: Seq<u64>,
    trapframe: u64,
    trampoline: u64,
    top: u64,
) -> bool {
    let base = (top - STACK_SIZE) as u64;
    &&& top == data_end_of(segs) + 2 * STACK_SIZE + PAGE_SIZE
    &&& base % 4096 == 0
    &&& base >= 4096
    &&& top <= user_top()
    &&& pool.lookup_va((base - 4096) as u64).is_none()
    &&& forall|i: int|
        0 <= i < STACK_PAGES ==> #[trigger] pool.lookup_va(page_at(base, i)) == Some(
            pte_bits(frame_of(frames[i]), user_rw()),
        )
    &&& forall|i: int|
        0 <= i < HEAP_PAGES ==> #[trigger] pool.lookup_va(page_at(HEAP_START, i)) == Some(
            pte_bits(frame_of(frames[STACK_PAGES + i]), user_rw()),
        )
    &&& pool.lookup_va(TRAPFRAME_VADDR as u64) == Some(pte_bits(frame_of(trapframe), 7))
    &&& pool.lookup_va(TRAMPOLINE_VADDR as u64) == Some(pte_bits(frame_of(trampoline), 11))
    &&& forall|q: int|
        0 <= q < segs.len() && (#[trigger] segs[q]).p_type == PT_LOAD ==> segment_mapped(
            pool,
            segs[q],
            file_base,
        )
    &&& forall|x: u64|
        x % 4096 == 0 && x < user_top() && (#[trigger] pool.lookup_va(x)).is_some() ==> is_segment_page(
            segs,
            segs.len() as int,
            x,
        ) || (base <= x < top) || in_heap(x as int)
}

proof fn lemma_stack_heap_kept(mid: PageTablePool, post: PageTablePool, frames: Seq<u64>, top: u64)
    requires
        top <= user_top(),
        top >= 2 * STACK_SIZE + PAGE_SIZE,
        top % 4096 == 0,
        mid.lookup_va(((top - STACK_SIZE) as u64 - 4096) as u64).is_none(),
        forall|i: int|
            0 <= i < STACK_PAGES ==> #[trigger] mid.lookup_va(page_at((top - STACK_SIZE) as u64, i)) == Some(
                pte_bits(frame_of(frames[i]), user_rw()),
            ),
        forall|i: int|
            0 <= i < HEAP_PAGES ==> #[trigger] mid.lookup_va(page_at(HEAP_START, i)) == Some(
                pte_bits(frame_of(frames[STACK_PAGES + i]), user_rw()),
            ),
        forall|x: u64| x % 4096 == 0 && x < user_top() ==> #[trigger] post.lookup_va(x) == mid.lookup_va(x),
    ensures
        post.lookup_va(((top - STACK_SIZE) as u64 - 4096) as u64).is_none(),
        forall|i: int|
            0 <= i < STACK_PAGES ==> #[trigger] post.lookup_va(page_at((top - STACK_SIZE) as u64, i)) == Some(
                pte_bits(frame_of(frames[i]), user_rw()),
            ),
        forall|i: int|
            0 <= i < HEAP_PAGES ==> #[trigger] post.lookup_va(page_at(HEAP_START, i)) == Some(
                pte_bits(frame_of(frames[STACK_PAGES + i]), user_rw()),
            ),
{
    let base = (top - STACK_SIZE) as u64;
    assert(post.lookup_va((base - 4096) as u64) == mid.lookup_va((base - 4096) as u64));
    assert forall|i: int| 0 <= i < STACK_PAGES implies #[trigger] post.lookup_va(page_at(base, i)) == Some(
        pte_bits(frame_of(frames[i]), user_rw()),
    ) by {
        lemma_page_in_range(base, i, STACK_PAGES as u64);
        assert(post.lookup_va(page_at(base, i)) == mid.lookup_va(page_at(base, i)));
    }
    assert forall|i: int| 0 <= i < HEAP_PAGES implies #[trigger] post.lookup_va(page_at(HEAP_START, i))
        == Some(pte_bits(frame_of(frames[STACK_PAGES + i]), user_rw())) by {
        lemma_page_in_range(HEAP_START, i, HEAP_PAGES as u64);
        assert(post.lookup_va(page_at(HEAP_START, i)) == mid.lookup_va(page_at(HEAP_START, i)));
    }
}

proof fn lemma_segments_kept(
    start: PageTablePool,
    mid: PageTablePool,
    post: PageTablePool,
    segs: Seq<Segment>,
    file_base: u64,
    data_end: u64,
)
    requires
        data_end <= user_top(),
        forall|q: int|
            0 <= q < segs.len() && (#[trigger] segs[q]).p_type == PT_LOAD ==> segment_mapped(start, segs[q], file_base)
                && seg_end(segs[q]) <= data_end,
        forall|x: u64|
            x % 4096 == 0 && x < data_end && start.lookup_va(x).is_some() ==> #[trigger] mid.lookup_va(x)
                == start.lookup_va(x),
        forall|x: u64| x % 4096 == 0 && x < user_top() ==> #[trigger] post.lookup_va(x) == mid.lookup_va(x),
    ensures
        forall|q: int|
            0 <= q < segs.len() && (#[trigger] segs[q]).p_type == PT_LOAD ==> segment_mapped(post, segs[q], file_base),
{
    assert forall|q: int| 0 <= q < segs.len() && (#[trigger] segs[q]).p_type == PT_LOAD implies segment_mapped(
        post,
        segs[q],
        file_base,
    ) by {
        let g = segs[q];
        assert(segment_mapped(start, g, file_base) && seg_end(g) <= data_end);
        assert forall|i: int| 0 <= i < seg_pages(g) implies #[trigger] post.lookup_va(page_at(seg_start(g), i))
            == start.lookup_va(page_at(seg_start(g), i)) by {
            let x = page_at(seg_start(g), i);
            lemma_page_in_range(seg_start(g), i, seg_pages(g) as u64);
            assert(start.lookup_va(x).is_some());
            assert(mid.lookup_va(x) == start.lookup_va(x));
        }
    }
}

proof fn lemma_nothing_else(
    start: PageTablePool,
    mid: PageTablePool,
    post: PageTablePool,
    segs: Seq<Segment>,
    base: u64,
    top: u64,
)
    requires
        forall|x: u64|
            x % 4096 == 0 && x < 0x80_0000_0000 && (#[trigger] start.lookup_va(x)).is_some() ==> is_segment_page(
                segs,
                segs.len() as int,
                x,
            ),
        forall|x: u64|
            x % 4096 == 0 && x < 0x80_0000_0000 && (#[trigger] mid.lookup_va(x)).is_some()
                ==> start.lookup_va(x).is_some() || (base <= x < top) || in_heap(x as int),
        forall|x: u64| x % 4096 == 0 && x < user_top() ==> #[trigger] post.lookup_va(x) == mid.lookup_va(x),
    ensures
        forall|x: u64|
            x % 4096 == 0 && x < user_top() && (#[trigger] post.lookup_va(x)).is_some() ==> is_segment_page(
                segs,
                segs.len() as int,
                x,
            ) || (base <= x < top) || in_heap(x as int),
{
    assert forall|x: u64|
        x % 4096 == 0 && x < user_top() && (#[trigger] post.lookup_va(x)).is_some() implies is_segment_page(
        segs,
        segs.len() as int,
        x,
    ) || (base <= x < top) || in_heap(x as int) by {
        assert(post.lookup_va(x) == mid.lookup_va(x));
        if !(base <= x < top) && !in_heap(x as int) {
            assert(start.lookup_va(x).is_some());
        }
    }
}

proof fn lemma_done_parts(start: PageTablePool, segs: Seq<Segment>, file_base: u64, data_end: u64)
    requires
        segments_done(start, segs, file_base, segs.len() as int, data_end),
    ensures
        forall|q: int|
            0 <= q < segs.len() && (#[trigger] segs[q]).p_type == PT_LOAD ==> segment_mapped(start, segs[q], file_base)
                && seg_end(segs[q]) <= data_end,
        forall|x: u64|
            x % 4096 == 0 && x < 0x80_0000_0000 && (#[trigger] start.lookup_va(x)).is_some() ==> is_segment_page(
                segs,
                segs.len() as int,
                x,
            ),
{
    reveal(segments_done);
}

proof fn lemma_heap_hit(start: PageTablePool, segs: Seq<Segment>, file_base: u64, data_end: u64, i: int)
    requires
        segments_done(start, segs, file_base, segs.len() as int, data_end),
        0 <= i < HEAP_PAGES,
        start.lookup_va(page_at(HEAP_START, i)).is_some(),
    ensures
        heap_meets_segment(segs),
{
    reveal(segments_done);
    lemma_page_in_range(HEAP_START, i, HEAP_PAGES as u64);
    let x = page_at(HEAP_START, i);
    assert(is_segment_page(segs, segs.len() as int, x));
    assert(in_heap(x as int));
}

#[verifier::rlimit(60)]
proof fn lemma_user_space(
    start: PageTablePool,
    mid: PageTablePool,
    post: PageTablePool,
    segs: Seq<Segment>,
    file_base: u64,
    frames: Seq<u64>,
    trapframe: u64,
    trampoline: u64,
    data_end: u64,
    top: u64,
)
    requires
        segments_done(start, segs, file_base, segs.len() as int, data_end),
        data_end == data_end_of(segs),
        data_end % 4096 == 0,
        ({
            let base = (top - STACK_SIZE) as u64;
            &&& top == data_end + 2 * STACK_SIZE + PAGE_SIZE
            &&& top <= user_top()
            &&& mid.lookup_va((base - 4096) as u64).is_none()
            &&& forall|i: int|
                0 <= i < STACK_PAGES ==> #[trigger] mid.lookup_va(page_at(base, i)) == Some(
                    pte_bits(frame_of(frames[i]), user_rw()),
                )
            &&& forall|i: int|
                0 <= i < HEAP_PAGES ==> #[trigger] mid.lookup_va(page_at(HEAP_START, i)) == Some(
                    pte_bits(frame_of(frames[STACK_PAGES + i]), user_rw()),
                )
            &&& forall|x: u64|
                x % 4096 == 0 && x < data_end && start.lookup_va(x).is_some() ==> #[trigger] mid.lookup_va(x)
                    == start.lookup_va(x)
            &&& forall|x: u64|
                x % 4096 == 0 && x < 0x80_0000_0000 && (#[trigger] mid.lookup_va(x)).is_some()
                    ==> start.lookup_va(x).is_some() || (base <= x < top) || in_heap(x as int)
        }),
        post.lookup_va(TRAPFRAME_VADDR as u64) == Some(pte_bits(frame_of(trapframe), 7)),
        post.lookup_va(TRAMPOLINE_VADDR as u64) == Some(pte_bits(frame_of(trampoline), 11)),
        forall|x: u64| x % 4096 == 0 && x < user_top() ==> #[trigger] post.lookup_va(x) == mid.lookup_va(x),
    ensures
        user_space_mapped(post, segs, file_base, frames, trapframe, trampoline, top),
{
    lemma_done_parts(start, segs, file_base, data_end);
    reveal(user_space_mapped);
    let base = (top - STACK_SIZE) as u64;
    assert(top % 4096 == 0) by (nonlinear_arith)
        requires
            data_end % 4096 == 0,
            top == data_end + 2 * STACK_SIZE + PAGE_SIZE,
    ;
    lemma_stack_heap_kept(mid, post, frames, top);
    lemma_segments_kept(start, mid, post, segs, file_base, data_end);
    lemma_nothing_else(start, mid, post, segs, base, top);
    assert(top == data_end_of(segs) + 2 * STACK_SIZE + PAGE_SIZE);
    assert(base % 4096 == 0 && base >= 4096 && top <= user_top());
    assert(post.lookup_va((base - 4096) as u64).is_none());
}

/// Builds the address space of a process in an empty pool: the loadable
/// segments (see `map_segments`), the stack and the heap (see
/// `map_stack_heap`), then the trapframe and trampoline pages. Returns the
/// top of the stack. `BadSegment` comes only from a segment that is not
/// `segment_ok` or a stack that does not fit below the user top;
/// `Collision` only from segments sharing a page, a stack that meets the
/// heap, or a heap page that is a segment page; `OutOfTables` only when the
/// pool is nearly full.
#[verifier::rlimit(40)]
pub fn map_user_space(
    pool: &mut PageTablePool,
    exe: &ParsedExecutable,
    file_base: u64,
    frames: &Vec<u64>,
    trapframe: u64,
    trampoline: u64,
) -> (r: Result<u64, ActivationError>)
    requires
        old(pool).wf(),
        unmapped_from(*old(pool), 0),
        frames@.len() == STACK_PAGES + HEAP_PAGES,
    ensures
        final(pool).wf(),
        r == Err::<u64, ActivationError>(ActivationError::BadSegment) ==> (exists|q: int|
            0 <= q < exe.segs@.len() && !segment_ok(#[trigger] exe.segs@[q], file_base)) || data_end_of(
            exe.segs@,
        ) + 2 * STACK_SIZE + PAGE_SIZE > user_top(),
        r == Err::<u64, ActivationError>(ActivationError::Collision) ==> segments_overlap(exe.segs@)
            || stack_meets_heap(data_end_of(exe.segs@)) || heap_meets_segment(exe.segs@),
        r == Err::<u64, ActivationError>(ActivationError::OutOfTables) ==> final(pool).len() + 2 > final(
            pool).spec_capacity(),
        r is Ok ==> user_space_mapped(*final(pool), exe.segs@, file_base, frames@, trapframe, trampoline, r.unwrap()),
        r is Ok ==> r.unwrap() == data_end_of(exe.segs@) + 2 * STACK_SIZE + PAGE_SIZE,
{
    let data_end = match map_segments(pool, exe, file_base) {
        Ok(e) => e,
        Err(e) => return Err(e),
    };
    let ghost start = *pool;
    let stack_top = match map_stack_heap(pool, data_end, frames) {
        Ok(t) => t,
        Err(e) => {
            proof {
                if e == ActivationError::Collision && !stack_meets_heap(data_end as int) {
                    let i = choose|i: int|
                        0 <= i < HEAP_PAGES && (#[trigger] start.lookup_va(page_at(HEAP_START, i))).is_some();
                    lemma_heap_hit(start, exe.segs@, file_base, data_end, i);
                }
            }
            return Err(e);
        },
    };
    let ghost mid = *pool;
    match map_trap_pages(pool, trapframe, trampoline) {
        Ok(()) => {},
        Err(e) => return Err(e),
    }
    proof {
        lemma_user_space(start, mid, *pool, exe.segs@, file_base, frames@, trapframe, trampoline, data_end, stack_top);
    }
    Ok(stack_top)
}

/// The pages of an activated address space that are named one by one: the
/// guard page, the trapframe page and the trampoline page.
pub proof fn lemma_space_fixed_pages(
    pool: PageTablePool,
    segs: Seq<Segment>,
    file_base: u64,
    frames: Seq<u64>,
    trapframe: u64,
    trampoline: u64,
    top: u64,
)
    requires
        user_space_mapped(pool, segs, file_base, frames, trapframe, trampoline, top),
    ensures
        top <= user_top(),
        (top - STACK_SIZE) as u64 % 4096 == 0,
        (top - STACK_SIZE) as u64 >= 4096,
        pool.lookup_va(((top - STACK_SIZE) as u64 - 4096) as u64).is_none(),
        pool.lookup_va(TRAPFRAME_VADDR as u64) == Some(pte_bits(frame_of(trapframe), 7)),
        pool.lookup_va(TRAMPOLINE_VADDR as u64) == Some(pte_bits(frame_of(trampoline), 11)),
{
    reveal(user_space_mapped);
}

/// Below the user top, an activated address space maps only segment, stack
/// and heap pages.
pub proof fn lemma_space_only(
    pool: PageTablePool,
    segs: Seq<Segment>,
    file_base: u64,
    frames: Seq<u64>,
    trapframe: u64,
    trampoline: u64,
    top: u64,
    x: u64,
)
    requires
        user_space_mapped(pool, segs, file_base, frames, trapframe, trampoline, top),
        x % 4096 == 0,
        x < user_top(),
        pool.lookup_va(x).is_some(),
    ensures
        is_segment_page(segs, segs.len() as int, x) || (top - STACK_SIZE <= x < top) || in_heap(x as int),
{
    reveal(user_space_mapped);
}

/// The trampoline page translates alike in the kernel's address space and
/// in an activated process's, when both map the same trampoline code, as
/// `init_kernel_page_table` and `ProcTable::activate` do; and it is not
/// reachable from user mode.
pub proof fn lemma_trampoline_shared(
    kernel: &PageTablePool,
    user: &PageTablePool,
    segs: Seq<Segment>,
    file_base: u64,
    frames: Seq<u64>,
    trapframe: u64,
    trampoline: u64,
    top: u64,
    va: u64,
    mask: u64,
)
    requires
        kernel.lookup_va(TRAMPOLINE_VADDR as u64) == Some(pte_bits(frame_of(trampoline), 11)),
        user_space_mapped(*user, segs, file_base, frames, trapframe, trampoline, top),
        TRAMPOLINE_VADDR <= va < TRAMPOLINE_VADDR + 4096,
    ensures
        kernel.translate_spec(va, mask) == user.translate_spec(va, mask),
        user.lookup_va(va) == Some(pte_bits(frame_of(trampoline), 11)),
        11u64 & 16 == 0,
{
    lemma_space_fixed_pages(*user, segs, file_base, frames, trapframe, trampoline, top);
    lemma_page_vpn(va);
    assert(va - va % 4096 == TRAMPOLINE_VADDR) by (nonlinear_arith)
        requires
            TRAMPOLINE_VADDR % 4096 == 0,
            TRAMPOLINE_VADDR <= va < TRAMPOLINE_VADDR + 4096,
    ;
    assert(kernel.lookup_va(va) == kernel.lookup_va(TRAMPOLINE_VADDR as u64));
    assert(user.lookup_va(va) == user.lookup_va(TRAMPOLINE_VADDR as u64));
    assert(11u64 & 16 == 0) by (bit_vector);
}

/// An activated process's trapframe page translates to the process's own
/// trapframe for reads and writes, and not for user mode.
pub proof fn lemma_trapframe_alias(
    user: &PageTablePool,
    segs: Seq<Segment>,
    file_base: u64,
    frames: Seq<u64>,
    trapframe: u64,
    trampoline: u64,
    top: u64,
    mask: u64,
)
    requires
        user_space_mapped(*user, segs, file_base, frames, trapframe, trampoline, top),
        trapframe % 4096 == 0,
        trapframe < 0x100_0000_0000_0000,
    ensures
        grants(7, mask) ==> user.translate_spec(TRAPFRAME_VADDR as u64, mask) == Some(trapframe),
        bit_set(mask, 16) ==> user.translate_spec(TRAPFRAME_VADDR as u64, mask).is_none(),
{
    lemma_space_fixed_pages(*user, segs, file_base, frames, trapframe, trampoline, top);
    lemma_fields(trapframe);
    lemma_fields(TRAPFRAME_VADDR as u64);
    lemma_pte_bits(trapframe, 7);
    assert(7u64 & 16 == 0 && 7u64 & 2 != 0 && 7u64 & 4 != 0) by (bit_vector);
}

/// In an activated process, the guard page below the stack is unmapped: any
/// access there faults.
pub proof fn lemma_stack_guard(
    user: &PageTablePool,
    segs: Seq<Segment>,
    file_base: u64,
    frames: Seq<u64>,
    trapframe: u64,
    trampoline: u64,
    top: u64,
    va: u64,
    mask: u64,
)
    requires
        user_space_mapped(*user, segs, file_base, frames, trapframe, trampoline, top),
        top - STACK_SIZE - 4096 <= va < top - STACK_SIZE,
    ensures
        user.translate_spec(va, mask).is_none(),
{
    lemma_space_fixed_pages(*user, segs, file_base, frames, trapframe, trampoline, top);
    lemma_unmapped_page_faults(user, ((top - STACK_SIZE) as u64 - 4096) as u64, va, mask);
}

/// In an activated process, an address on no segment, stack or heap page
/// below the user top is unmapped: an empty executable faults at its entry.
pub proof fn lemma_unmapped_outside(
    user: &PageTablePool,
    segs: Seq<Segment>,
    file_base: u64,
    frames: Seq<u64>,
    trapframe: u64,
    trampoline: u64,
    top: u64,
    va: u64,
    mask: u64,
)
    requires
        user_space_mapped(*user, segs, file_base, frames, trapframe, trampoline, top),
        va < user_top(),
        !is_segment_page(segs, segs.len() as int, (va - va % 4096) as u64),
        !(top - STACK_SIZE <= va - va % 4096 < top),
        !in_heap(va - va % 4096),
    ensures
        user.translate_spec(va, mask).is_none(),
{
    let page = (va - va % 4096) as u64;
    if user.lookup_va(page).is_some() {
        lemma_space_only(*user, segs, file_base, frames, trapframe, trampoline, top, page);
    }
    lemma_unmapped_page_faults(user, page, va, mask);
}

/// No address on an unmapped page translates, whatever the access: a touch
/// of the stack's guard page faults.
pub proof fn lemma_unmapped_page_faults(pool: &PageTablePool, page: u64, va: u64, mask: u64)
    requires
        page % 4096 == 0,
        page <= va < page + 4096,
        pool.lookup_va(page).is_none(),
    ensures
        pool.translate_spec(va, mask).is_none(),
{
    lemma_page_vpn(va);
    assert(va - va % 4096 == page) by (nonlinear_arith)
        requires
            page % 4096 == 0,
            page <= va < page + 4096,
    ;
    assert(pool.lookup_va(va) == pool.lookup_va(page));
}

} // verus!
