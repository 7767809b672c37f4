use crate::pad::{feml_pad, is_pow2, round_up};
use crate::span::{
    bytes_in, covers, disjoint, first_fit, inside_some, is_first_fit, is_free, key_less, lemma_bytes_in_insert,
    lemma_bytes_in_none, lemma_bytes_in_push, lemma_bytes_in_remove, lemma_bytes_in_update,
    lemma_common_byte, lemma_first_fit_is, lemma_first_fit_none, lemma_insert_ordered,
    lemma_separated_disjoint, lemma_separated_remove, ordered, separated, share, span_end, span_within, Span,
};
use vstd::prelude::*;

verus! {

/// The split threshold of a segment of `len` bytes: `len * ratio / 256`, where the
/// product saturates at `usize::MAX`.
pub open spec fn threshold(len: nat, ratio: nat) -> nat {
    if len * ratio > usize::MAX {
        (usize::MAX / 256) as nat
    } else {
        len * ratio / 256
    }
}

/// A segment of `len` bytes is handed out whole for a request of `needed` bytes.
pub open spec fn takes_whole(len: nat, needed: nat, ratio: nat) -> bool {
    len == needed || threshold(len, ratio) <= needed
}

/// The block cut from segment `s` for a request of `needed` bytes.
pub open spec fn carved_block(s: Span, needed: nat, ratio: nat) -> Span {
    if takes_whole(s.len, needed, ratio) {
        s
    } else {
        Span { region: s.region, start: s.start, len: needed }
    }
}

/// The free list after the block for `needed` bytes is cut from its segment `i`.
pub open spec fn carved_free(f: Seq<Span>, i: int, needed: nat, ratio: nat) -> Seq<Span> {
    if takes_whole(f[i].len, needed, ratio) {
        f.remove(i)
    } else {
        f.update(i, Span { region: f[i].region, start: f[i].start + needed, len: (f[i].len - needed) as nat })
    }
}

/// One zero-initialised byte buffer of the pool; its size is fixed when it is made.
struct Region {
    data: Vec<u8>,
}

/// A reusable byte range of one region.
#[derive(Clone, Copy, Debug)]
pub struct FreeSegment {
    /// The index of the region that holds the range.
    pub region_id: usize,
    /// The offset of the range's first byte.
    pub start: usize,
    /// The number of bytes in the range.
    pub len: usize,
}

impl FreeSegment {
    pub open spec fn view(&self) -> Span {
        Span { region: self.region_id as nat, start: self.start as nat, len: self.len as nat }
    }

    /// The first offset past the segment.
    pub fn end(&self) -> (r: usize)
        requires
            self.start + self.len <= usize::MAX,
        ensures
            r == span_end(self@),
    {
        self.start + self.len
    }
}

/// A range handed out by the pool. It is given back by passing it to
/// [`MemoryManager::release`], which consumes it.
#[derive(Debug)]
pub struct MemoryBlock {
    /// The index of the region that holds the block.
    pub region_id: usize,
    /// The offset of the block's first byte.
    pub start: usize,
    /// The number of bytes in the block.
    pub len: usize,
}

impl MemoryBlock {
    pub open spec fn view(&self) -> Span {
        Span { region: self.region_id as nat, start: self.start as nat, len: self.len as nat }
    }

    /// Copies `data` to the start of the block, in the pool that handed it out.
    pub fn write(&self, mgr: &mut MemoryManager, data: &[u8])
        requires
            old(mgr).wf(),
            old(mgr).live().contains(self@),
            data@.len() <= self.len,
        ensures
            final(mgr).wf(),
            final(mgr).bytes() == written(old(mgr).bytes(), self@, data@),
            final(mgr).free() == old(mgr).free(),
            final(mgr).live() == old(mgr).live(),
            final(mgr).page_size() == old(mgr).page_size(),
            final(mgr).ratio() == old(mgr).ratio(),
    {
        proof { mgr.lemma_live_in_bounds(self@); }
        mgr.write_memory(self.region_id, self.start, data);
    }

    /// The block's bytes, read from the pool that handed it out.
    pub fn read(&self, mgr: &MemoryManager) -> (r: Vec<u8>)
        requires
            mgr.wf(),
            mgr.live().contains(self@),
        ensures
            r@ == block_bytes(mgr.bytes(), self@),
    {
        proof { mgr.lemma_live_in_bounds(self@); }
        mgr.read_memory(self.region_id, self.start, self.len)
    }
}

/// The bytes of range `s`.
pub open spec fn block_bytes(regions: Seq<Seq<u8>>, s: Span) -> Seq<u8> {
    regions[s.region as int].subrange(s.start as int, (s.start + s.len) as int)
}

/// The regions after `data` is copied to the start of range `s`.
pub open spec fn written(regions: Seq<Seq<u8>>, s: Span, data: Seq<u8>) -> Seq<Seq<u8>> {
    let old_data = regions[s.region as int];
    regions.update(
        s.region as int,
        old_data.subrange(0, s.start as int) + data + old_data.subrange(
            (s.start + data.len()) as int,
            old_data.len() as int,
        ),
    )
}

/// A pool of regions served first-fit from one free list. It grows by one region
/// whenever no free segment is large enough.
pub struct MemoryManager {
    regions: Vec<Region>,
    free_list: Vec<FreeSegment>,
    default_page_size: usize,
    size_compare_ratios: usize,
    live: Ghost<Seq<Span>>,
}

/// The spans of a list of free segments.
pub open spec fn segs(v: Seq<FreeSegment>) -> Seq<Span> {
    v.map_values(|s: FreeSegment| s@)
}

/// `s` lies inside a region of the given contents.
pub open spec fn in_bounds(s: Span, regions: Seq<Seq<u8>>) -> bool {
    s.region < regions.len() && s.start + s.len <= regions[s.region as int].len()
}

/// The size of the region that growth adds for a request of `needed` bytes.
pub open spec fn grown_size(page_size: nat, needed: nat) -> nat {
    if page_size >= needed {
        page_size
    } else {
        needed
    }
}

/// `post` is `pre` after a request of `needed` bytes was served with block `b`: from the
/// first free segment that fits, or else from one new zeroed region of
/// `grown_size(page_size, needed)` bytes.
pub open spec fn served(pre: MemoryManager, post: MemoryManager, needed: nat, b: Span) -> bool {
    let f = pre.free();
    let i = first_fit(f, needed);
    let ratio = pre.ratio();
    &&& post.live() == pre.live().push(b)
    &&& post.page_size() == pre.page_size()
    &&& post.ratio() == ratio
    &&& if i < f.len() {
        &&& post.bytes() == pre.bytes()
        &&& b == carved_block(f[i], needed, ratio)
        &&& post.free() == carved_free(f, i, needed, ratio)
    } else {
        let g = grown_size(pre.page_size(), needed);
        let seg = Span { region: pre.bytes().len(), start: 0, len: g };
        &&& post.bytes() == pre.bytes().push(Seq::new(g, |k: int| 0u8))
        &&& b == carved_block(seg, needed, ratio)
        &&& post.free() == carved_free(f.push(seg), f.len() as int, needed, ratio)
    }
}

/// `post` is `pre` after block `b` was given back: `b` has left the blocks, the free
/// list covers exactly the bytes it covered before and those of `b`, and every segment
/// of the old list lies inside one of the new.
pub open spec fn released(pre: MemoryManager, post: MemoryManager, b: Span) -> bool {
    &&& post.bytes() == pre.bytes()
    &&& post.page_size() == pre.page_size()
    &&& post.ratio() == pre.ratio()
    &&& exists|i: int|
        0 <= i < pre.live().len() && pre.live()[i] == b && post.live() == pre.live().remove(i)
    &&& b.len > 0 ==> !post.live().contains(b)
    &&& b.len > 0 ==> inside_some(b, post.free())
    &&& b.len == 0 ==> post.free() == pre.free()
    &&& forall|k: int|
        0 <= k < pre.free().len() ==> inside_some(#[trigger] pre.free()[k], post.free())
    &&& forall|r: nat, i: nat| #[trigger]
        is_free(post.free(), r, i) ==> is_free(pre.free(), r, i) || covers(b, r, i)
}

impl MemoryManager {
    /// The contents of each region, by region id.
    pub closed spec fn bytes(&self) -> Seq<Seq<u8>> {
        self.regions@.map_values(|r: Region| r.data@)
    }

    /// The free list, in its order.
    pub closed spec fn free(&self) -> Seq<Span> {
        segs(self.free_list@)
    }

    /// The blocks handed out and not yet released, oldest first.
    pub closed spec fn live(&self) -> Seq<Span> {
        self.live@
    }

    /// The smallest size of a region made by growth.
    pub closed spec fn page_size(&self) -> nat {
        self.default_page_size as nat
    }

    /// The split ratio, in 256ths.
    pub closed spec fn ratio(&self) -> nat {
        self.size_compare_ratios as nat
    }

    /// The pool's invariant: every byte of every region is either in exactly one free
    /// segment or in exactly one live block, and the free list is sorted and coalesced.
    pub closed spec fn wf(&self) -> bool {
        let b = self.bytes();
        let f = self.free();
        let l = self.live();
        &&& forall|r: int| 0 <= r < b.len() ==> #[trigger] b[r].len() <= usize::MAX
        &&& forall|k: int| 0 <= k < f.len() ==> in_bounds(#[trigger] f[k], b)
        &&& forall|k: int| 0 <= k < l.len() ==> in_bounds(#[trigger] l[k], b)
        &&& forall|k: int|
            0 <= k < f.len() ==> #[trigger] f[k].len > 0 || b[f[k].region as int].len() == 0
        &&& separated(f)
        &&& forall|a: int, c: int|
            0 <= a < l.len() && 0 <= c < f.len() ==> disjoint(#[trigger] l[a], #[trigger] f[c])
        &&& forall|a: int, c: int|
            0 <= a < l.len() && 0 <= c < l.len() && a != c ==> disjoint(
                #[trigger] l[a],
                #[trigger] l[c],
            )
        &&& forall|r: nat| r < b.len() ==> #[trigger] bytes_in(f, r) + bytes_in(l, r) == b[r as int].len()
    }

    /// A live block lies inside its region.
    pub proof fn lemma_live_in_bounds(&self, s: Span)
        requires
            self.wf(),
            self.live().contains(s),
        ensures
            in_bounds(s, self.bytes()),
    {
        let k = choose|k: int| 0 <= k < self.live().len() && self.live()[k] == s;
        assert(in_bounds(self.live()[k], self.bytes()));
    }

    /// Makes a pool with one zeroed region of `initial_size` bytes, which is also the
    /// smallest size of a region added later. A segment of `len` bytes is split for a
    /// smaller request only when `len * size_compare_ratio / 256` exceeds the request.
    pub fn new(initial_size: usize, size_compare_ratio: usize) -> (r: Self)
        ensures
            r.wf(),
            r.bytes() == seq![Seq::new(initial_size as nat, |k: int| 0u8)],
            r.free() == seq![Span { region: 0, start: 0, len: initial_size as nat }],
            r.live() == Seq::<Span>::empty(),
            r.page_size() == initial_size,
            r.ratio() == size_compare_ratio,
    {
        let mut mgr = MemoryManager {
            regions: Vec::new(),
            free_list: Vec::new(),
            default_page_size: initial_size,
            size_compare_ratios: size_compare_ratio,
            live: Ghost(Seq::empty()),
        };
        proof {
            assert forall|r: nat| r < mgr.bytes().len() implies #[trigger] bytes_in(mgr.free(), r)
                + bytes_in(mgr.live(), r) == mgr.bytes()[r as int].len() by {}
        }
        mgr.expand_heap_internal(initial_size);
        assert(mgr.bytes() =~= seq![Seq::new(initial_size as nat, |k: int| 0u8)]);
        assert(mgr.free() =~= seq![Span { region: 0, start: 0, len: initial_size as nat }]);
        mgr
    }

    /// Hands out a block for `size` bytes rounded up to a multiple of `padding` (a power
    /// of two, or zero for no rounding). The first free segment that is large enough
    /// serves it; when there is none, the pool first grows by one region of
    /// `max(default_page_size, needed)` bytes, which then serves it.
    pub fn allocate(&mut self, size: usize, padding: usize) -> (r: Option<MemoryBlock>)
        requires
            old(self).wf(),
            padding == 0 || is_pow2(padding),
            size + padding <= usize::MAX + 1,
        ensures
            final(self).wf(),
            r is Some,
            served(*old(self), *final(self), round_up(size as int, padding as int) as nat, r->Some_0@),
            separated(final(self).free()),
            forall|k: int|
                0 <= k < final(self).free().len() ==> disjoint(r->Some_0@, #[trigger] final(self).free()[k]),
            forall|k: int|
                0 <= k < old(self).live().len() ==> disjoint(r->Some_0@, #[trigger] old(self).live()[k]),
            (forall|k: int| 0 <= k < old(self).free().len() ==> #[trigger] old(self).free()[k].len
                < round_up(size as int, padding as int)) ==> {
                &&& final(self).bytes().len() == old(self).bytes().len() + 1
                &&& final(self).bytes().last().len() == grown_size(old(self).page_size(), round_up(size as int, padding as int) as nat)
                &&& r->Some_0.region_id == old(self).bytes().len()
            },
    {
        let needed = feml_pad(size, padding);
        let ghost pre = *self;
        match self.find_fit(needed) {
            Some(i) => {
                proof { lemma_first_fit_is(pre.free(), needed as nat, i as int); }
                let b = self.take_from(i, needed);
                proof { lemma_new_block_apart(*self, pre.live(), b@); }
                Some(b)
            },
            None => {
                proof { lemma_first_fit_none(pre.free(), needed as nat); }
                self.expand_heap_internal(needed);
                let ghost f = pre.free();
                let ghost g = grown_size(pre.page_size(), needed as nat);
                let ghost seg = Span { region: pre.bytes().len(), start: 0, len: g };
                assert(self.free() == f.push(seg));
                match self.find_fit(needed) {
                    Some(i) => {
                        assert(i == f.len()) by {
                            if i < f.len() {
                                assert(f[i as int] == self.free()[i as int]);
                            }
                        }
                        let b = self.take_from(i, needed);
                        proof { lemma_new_block_apart(*self, pre.live(), b@); }
                        Some(b)
                    },
                    None => {
                        assert(self.free()[f.len() as int] == seg);
                        None
                    },
                }
            },
        }
    }

    /// Gives a block back to the pool. Its range joins the free list at its place in
    /// (region, start) order, and one pass then merges every segment that ends where
    /// the next begins. An empty block returns no bytes and leaves the list as it is.
    pub fn release(&mut self, block: MemoryBlock)
        requires
            old(self).wf(),
            old(self).live().contains(block@),
        ensures
            final(self).wf(),
            released(*old(self), *final(self), block@),
            separated(final(self).free()),
    {
        let ghost f = self.free();
        let ghost l = self.live();
        let ghost bs = self.bytes();
        let ghost idx = choose|i: int| 0 <= i < l.len() && l[i] == block@;
        let ghost nl = l.remove(idx);
        proof {
            assert forall|a: int, c: int|
                0 <= a < nl.len() && 0 <= c < nl.len() && a != c implies disjoint(#[trigger] nl[a], #[trigger] nl[c]) by {
                let a0 = if a < idx { a } else { a + 1 };
                let c0 = if c < idx { c } else { c + 1 };
                assert(nl[a] == l[a0] && nl[c] == l[c0]);
            }
            assert forall|k: int| 0 <= k < nl.len() implies in_bounds(#[trigger] nl[k], bs) by {
                let k0 = if k < idx { k } else { k + 1 };
                assert(nl[k] == l[k0]);
            }
        }
        if block.len == 0 {
            self.live = Ghost(nl);
            proof {
                assert forall|a: int, c: int|
                    0 <= a < nl.len() && 0 <= c < f.len() implies disjoint(#[trigger] nl[a], #[trigger] f[c]) by {
                    let a0 = if a < idx { a } else { a + 1 };
                    assert(nl[a] == l[a0]);
                }
                assert forall|r: nat| r < bs.len() implies #[trigger] bytes_in(f, r) + bytes_in(nl, r) == bs[r as int].len() by {
                    lemma_bytes_in_remove(l, idx, r);
                }
                assert forall|k: int| 0 <= k < f.len() implies inside_some(#[trigger] f[k], f) by {
                    assert(span_within(f[k], f[k]));
                }
            }
            return;
        }
        let p = insert_position(&self.free_list, &block);
        let seg = FreeSegment { region_id: block.region_id, start: block.start, len: block.len };
        assert(seg@ == block@);
        let ghost list = f.insert(p as int, block@);
        proof {
            assert(in_bounds(l[idx], bs));
            assert forall|k: int| 0 <= k < f.len() implies disjoint(block@, #[trigger] f[k]) by {
                assert(disjoint(l[idx], f[k]));
            }
            assert forall|k: int| 0 <= k < f.len() && (#[trigger] f[k]).region == block@.region implies f[k].len > 0 by {
                assert(f[k].len > 0 || bs[f[k].region as int].len() == 0);
            }
            lemma_insert_ordered(f, p as int, block@);
        }
        self.free_list.insert(p, seg);
        assert(segs(self.free_list@) =~= list);
        proof {
            assert forall|k: int| 0 <= k < list.len() implies in_bounds(#[trigger] list[k], bs) && (list[k].len > 0
                || bs[list[k].region as int].len() == 0) by {
                if k != p {
                    let k0 = if k < p { k } else { k - 1 };
                    assert(list[k] == f[k0]);
                }
            }
        }
        let merged = coalesce(&self.free_list, Ghost(bs));
        self.free_list = merged;
        self.live = Ghost(nl);
        proof {
            let nf = self.free();
            assert(nf == segs(merged@));
            assert(list[p as int] == block@);
            assert forall|k: int| 0 <= k < f.len() implies inside_some(#[trigger] f[k], nf) by {
                let k1 = if k < p { k } else { k + 1 };
                assert(list[k1] == f[k]);
            }
            assert forall|r: nat, i: nat| #[trigger] is_free(nf, r, i) implies is_free(f, r, i) || covers(block@, r, i) by {
                assert(is_free(list, r, i));
                let w = choose|w: int| 0 <= w < list.len() && covers(#[trigger] list[w], r, i);
                if w != p {
                    let w0 = if w < p { w } else { w - 1 };
                    assert(list[w] == f[w0]);
                }
            }
            assert forall|a: int, c: int|
                0 <= a < nl.len() && 0 <= c < nf.len() implies disjoint(#[trigger] nl[a], #[trigger] nf[c]) by {
                let a0 = if a < idx { a } else { a + 1 };
                assert(nl[a] == l[a0]);
                if !disjoint(nl[a], nf[c]) {
                    lemma_common_byte(nl[a], nf[c]);
                    let x = if nl[a].start >= nf[c].start { nl[a].start } else { nf[c].start };
                    let r = nl[a].region;
                    assert(covers(nf[c], r, x));
                    assert(is_free(nf, r, x));
                    if covers(block@, r, x) {
                        assert(!disjoint(l[a0], l[idx]));
                    } else {
                        let w = choose|w: int| 0 <= w < f.len() && covers(#[trigger] f[w], r, x);
                        assert(!disjoint(l[a0], f[w]));
                    }
                }
            }
            assert forall|r: nat| r < bs.len() implies #[trigger] bytes_in(nf, r) + bytes_in(nl, r) == bs[r as int].len() by {
                lemma_bytes_in_remove(l, idx, r);
                lemma_bytes_in_insert(f, p as int, block@, r);
            }
            if nl.contains(block@) {
                let a = choose|a: int| 0 <= a < nl.len() && nl[a] == block@;
                let a0 = if a < idx { a } else { a + 1 };
                assert(nl[a] == l[a0]);
                assert(!disjoint(l[a0], l[idx]));
            }
        }
    }

    /// The free list, in its order.
    pub fn free_segments(&self) -> (r: Vec<FreeSegment>)
        ensures
            segs(r@) == self.free(),
    {
        let mut out: Vec<FreeSegment> = Vec::new();
        let mut k: usize = 0;
        while k < self.free_list.len()
            invariant
                k <= self.free_list@.len(),
                out@ == self.free_list@.take(k as int),
            decreases self.free_list@.len() - k,
        {
            out.push(self.free_list[k]);
            k = k + 1;
            assert(out@ =~= self.free_list@.take(k as int));
        }
        assert(out@ =~= self.free_list@);
        out
    }

    /// The number of regions.
    pub fn region_count(&self) -> (r: usize)
        ensures
            r == self.bytes().len(),
    {
        self.regions.len()
    }

    /// The size of region `region_id`.
    pub fn region_size(&self, region_id: usize) -> (r: usize)
        requires
            region_id < self.bytes().len(),
        ensures
            r == self.bytes()[region_id as int].len(),
    {
        self.regions[region_id].data.len()
    }

    /// Copies `len` bytes of region `region_id` from offset `start`.
    pub fn read_memory(&self, region_id: usize, start: usize, len: usize) -> (r: Vec<u8>)
        requires
            self.wf(),
            region_id < self.bytes().len(),
            start + len <= self.bytes()[region_id as int].len(),
        ensures
            r@ == self.bytes()[region_id as int].subrange(start as int, start + len),
    {
        let data = &self.regions[region_id].data;
        assert(data@ == self.bytes()[region_id as int]);
        let mut out: Vec<u8> = Vec::new();
        let mut k: usize = 0;
        while k < len
            invariant
                k <= len,
                start + len <= data.len(),
                out@ == data@.subrange(start as int, start + k),
            decreases len - k,
        {
            out.push(data[start + k]);
            k = k + 1;
            assert(out@ =~= data@.subrange(start as int, start + k));
        }
        out
    }

    /// Copies `data` into region `region_id` from offset `start`. No other byte of any
    /// region changes, and neither do the free list or the blocks.
    pub fn write_memory(&mut self, region_id: usize, start: usize, data: &[u8])
        requires
            old(self).wf(),
            region_id < old(self).bytes().len(),
            start + data@.len() <= old(self).bytes()[region_id as int].len(),
        ensures
            final(self).wf(),
            final(self).bytes() == old(self).bytes().update(
                region_id as int,
                old(self).bytes()[region_id as int].subrange(0, start as int) + data@
                    + old(self).bytes()[region_id as int].subrange(
                    start + data@.len(),
                    old(self).bytes()[region_id as int].len() as int,
                ),
            ),
            final(self).free() == old(self).free(),
            final(self).live() == old(self).live(),
            final(self).page_size() == old(self).page_size(),
            final(self).ratio() == old(self).ratio(),
    {
        let ghost pre = self.bytes();
        let ghost old_data = pre[region_id as int];
        let ghost pl = self.live();
        assert(forall|k: int| 0 <= k < pl.len() ==> in_bounds(#[trigger] pl[k], pre));
        assert(old_data.len() <= usize::MAX);
        let mut k: usize = 0;
        while k < data.len()
            invariant
                k <= data@.len(),
                region_id < self.regions@.len(),
                self.regions@.len() == pre.len(),
                start + data@.len() <= old_data.len(),
                old_data.len() <= usize::MAX,
                forall|r: int| 0 <= r < pre.len() && r != region_id ==> #[trigger] self.regions@[r].data@ == pre[r],
                self.regions@[region_id as int].data@ == old_data.subrange(0, start as int) + data@.subrange(0, k as int)
                    + old_data.subrange(start + k, old_data.len() as int),
                self.free_list == old(self).free_list,
                self.live == old(self).live,
                self.default_page_size == old(self).default_page_size,
                self.size_compare_ratios == old(self).size_compare_ratios,
            decreases data@.len() - k,
        {
            let ghost before = self.regions@[region_id as int].data@;
            self.regions[region_id].data.set(start + k, data[k]);
            k = k + 1;
            assert(self.regions@[region_id as int].data@ =~= old_data.subrange(0, start as int) + data@.subrange(0, k as int)
                + old_data.subrange(start + k, old_data.len() as int));
        }
        assert(data@.subrange(0, k as int) =~= data@);
        assert(self.bytes() =~= pre.update(
            region_id as int,
            old_data.subrange(0, start as int) + data@ + old_data.subrange(start + data@.len(), old_data.len() as int),
        ));
        proof {
            let b = self.bytes();
            assert forall|r: int| 0 <= r < b.len() implies #[trigger] b[r].len() <= usize::MAX by {
                assert(pre[r].len() <= usize::MAX);
            }
            assert forall|k: int| 0 <= k < self.free().len() implies in_bounds(#[trigger] self.free()[k], b) by {
                assert(in_bounds(self.free()[k], pre));
            }
            assert(self.live() == pl);
            assert forall|k: int| 0 <= k < self.live().len() implies in_bounds(#[trigger] self.live()[k], b) by {
                assert(in_bounds(pl[k], pre));
            }
            assert forall|k: int| 0 <= k < self.free().len() implies #[trigger] self.free()[k].len > 0 || b[self.free()[k].region as int].len() == 0 by {
                assert(self.free()[k].len > 0 || pre[self.free()[k].region as int].len() == 0);
            }
            assert forall|r: nat| r < b.len() implies #[trigger] bytes_in(self.free(), r) + bytes_in(self.live(), r) == b[r as int].len() by {
                assert(bytes_in(self.free(), r) + bytes_in(self.live(), r) == pre[r as int].len());
            }
        }
    }

    /// Adds one zeroed region of `max(default_page_size, min_size)` bytes, with one free
    /// segment spanning it.
    fn expand_heap_internal(&mut self, min_size: usize)
        requires
            old(self).wf(),
        ensures
            final(self).wf(),
            final(self).bytes() == old(self).bytes().push(
                Seq::new(
                    if old(self).page_size() >= min_size {
                        old(self).page_size()
                    } else {
                        min_size as nat
                    },
                    |i: int| 0u8,
                ),
            ),
            final(self).free() == old(self).free().push(
                Span {
                    region: old(self).bytes().len(),
                    start: 0,
                    len: if old(self).page_size() >= min_size {
                        old(self).page_size()
                    } else {
                        min_size as nat
                    },
                },
            ),
            final(self).live() == old(self).live(),
            final(self).page_size() == old(self).page_size(),
            final(self).ratio() == old(self).ratio(),
    {
        let alloc_size = if self.default_page_size >= min_size {
            self.default_page_size
        } else {
            min_size
        };
        let region_id = self.regions.len();
        let data = zeroed(alloc_size);
        let ghost old_bytes = self.bytes();
        let ghost old_free = self.free();
        let ghost old_live = self.live();
        assert(forall|k: int| 0 <= k < old_live.len() ==> in_bounds(#[trigger] old_live[k], old_bytes));
        self.regions.push(Region { data });
        self.free_list.push(FreeSegment { region_id, start: 0, len: alloc_size });
        let ghost seg = Span { region: region_id as nat, start: 0, len: alloc_size as nat };
        assert(self.bytes() =~= old_bytes.push(Seq::new(alloc_size as nat, |k: int| 0u8)));
        assert(self.free() =~= old_free.push(seg));
        proof {
            let l = self.live();
            assert(l == old_live);
            let f = self.free();
            let b = self.bytes();
            assert forall|k: int| 0 <= k < l.len() implies (#[trigger] l[k]).region < region_id by {
                assert(in_bounds(l[k], old_bytes));
            }
            assert forall|k: int| 0 <= k < old_free.len() implies (#[trigger] old_free[k]).region
                < region_id by {
                assert(in_bounds(old_free[k], old_bytes));
            }
            assert forall|k: int| 0 <= k < f.len() implies in_bounds(#[trigger] f[k], b) by {
                if k < old_free.len() {
                    assert(in_bounds(old_free[k], old_bytes));
                }
            }
            assert forall|k: int| 0 <= k < l.len() implies in_bounds(#[trigger] l[k], b) by {
                assert(in_bounds(l[k], old_bytes));
            }
            assert forall|k: int| 0 <= k < f.len() implies #[trigger] f[k].len > 0 || b[f[k].region as int].len() == 0 by {
                if k < old_free.len() {
                    assert(in_bounds(old_free[k], old_bytes));
                    assert(old_free[k].len > 0 || old_bytes[old_free[k].region as int].len() == 0);
                }
            }
            assert forall|i: int, j: int|
                0 <= i < j < f.len() implies #[trigger] f[i].region < #[trigger] f[j].region || (f[i].region
                    == f[j].region && f[i].start + f[i].len < f[j].start) by {
                if j < old_free.len() {
                    assert(old_free[i] == f[i] && old_free[j] == f[j]);
                }
            }
            assert forall|a: int, c: int|
                0 <= a < l.len() && 0 <= c < f.len() implies disjoint(#[trigger] l[a], #[trigger] f[c]) by {
                if c < old_free.len() {
                    assert(old_free[c] == f[c]);
                }
            }
            assert forall|r: nat| r < self.bytes().len() implies #[trigger] bytes_in(self.free(), r)
                + bytes_in(l, r) == self.bytes()[r as int].len() by {
                lemma_bytes_in_push(old_free, seg, r);
                if r == region_id {
                    lemma_bytes_in_none(old_free, r);
                    lemma_bytes_in_none(l, r);
                }
            }
        }
    }

    /// The index of the first free segment of at least `needed` bytes, in list order.
    fn find_fit(&self, needed: usize) -> (r: Option<usize>)
        requires
            self.wf(),
        ensures
            r matches Some(i) ==> is_first_fit(self.free(), needed as nat, i as int),
            r is None ==> forall|k: int|
                0 <= k < self.free().len() ==> #[trigger] self.free()[k].len < needed,
    {
        let mut i: usize = 0;
        while i < self.free_list.len()
            invariant
                i <= self.free_list.len(),
                self.free().len() == self.free_list.len(),
                forall|k: int| 0 <= k < i ==> #[trigger] self.free()[k].len < needed,
            decreases self.free_list.len() - i,
        {
            if self.free_list[i].len >= needed {
                return Some(i);
            }
            i = i + 1;
        }
        None
    }

    /// Cuts the block for `needed` bytes from free segment `i`: the whole segment when
    /// it is an exact fit or the split threshold does not exceed `needed`, else its
    /// first `needed` bytes.
    fn take_from(&mut self, i: usize, needed: usize) -> (b: MemoryBlock)
        requires
            old(self).wf(),
            i < old(self).free().len(),
            old(self).free()[i as int].len >= needed,
        ensures
            final(self).wf(),
            final(self).bytes() == old(self).bytes(),
            final(self).page_size() == old(self).page_size(),
            final(self).ratio() == old(self).ratio(),
            b@ == carved_block(old(self).free()[i as int], needed as nat, old(self).ratio()),
            final(self).free() == carved_free(old(self).free(), i as int, needed as nat, old(self).ratio()),
            final(self).live() == old(self).live().push(b@),
    {
        let ghost f = self.free();
        let ghost l = self.live();
        let ghost bs = self.bytes();
        let seg = self.free_list[i];
        assert(seg@ == f[i as int]);
        assert(in_bounds(f[i as int], bs));
        let current_len = seg.len;
        let region_size = self.regions[seg.region_id].data.len();
        assert(region_size == bs[seg.region_id as int].len());
        let limit = match current_len.checked_mul(self.size_compare_ratios) {
            Some(p) => p >> 8,
            None => usize::MAX >> 8,
        };
        proof {
            let p = (current_len * self.size_compare_ratios) as nat;
            if p <= usize::MAX {
                let q = p as usize;
                assert(q >> 8 == q / 256) by (bit_vector);
            }
            let m = usize::MAX;
            assert(m >> 8 == m / 256) by (bit_vector);
        }
        assert(limit == threshold(seg.len as nat, self.size_compare_ratios as nat));
        if current_len == needed || limit <= needed {
            self.free_list.remove(i);
            let b = MemoryBlock { region_id: seg.region_id, start: seg.start, len: current_len };
            self.live = Ghost(l.push(b@));
            assert(self.free() =~= f.remove(i as int));
            proof {
                lemma_separated_remove(f, i as int);
                let nf = self.free();
                let nl = self.live();
                assert forall|a: int, c: int|
                    0 <= a < nl.len() && 0 <= c < nf.len() implies disjoint(#[trigger] nl[a], #[trigger] nf[c]) by {
                    let c0 = if c < i { c } else { c + 1 };
                    assert(nf[c] == f[c0]);
                    if a == l.len() {
                        lemma_separated_disjoint(f, i as int, c0);
                    }
                }
                assert forall|a: int, c: int|
                    0 <= a < nl.len() && 0 <= c < nl.len() && a != c implies disjoint(#[trigger] nl[a], #[trigger] nl[c]) by {
                    if a == l.len() {
                        assert(disjoint(l[c], f[i as int]));
                    } else if c == l.len() {
                        assert(disjoint(l[a], f[i as int]));
                    }
                }
                assert forall|k: int| 0 <= k < nf.len() implies in_bounds(#[trigger] nf[k], bs)
                    && (nf[k].len > 0 || bs[nf[k].region as int].len() == 0) by {
                    let k0 = if k < i { k } else { k + 1 };
                    assert(nf[k] == f[k0]);
                }
                assert forall|r: nat| r < bs.len() implies #[trigger] bytes_in(nf, r) + bytes_in(nl, r) == bs[r as int].len() by {
                    lemma_bytes_in_remove(f, i as int, r);
                    lemma_bytes_in_push(l, b@, r);
                }
            }
            b
        } else {
            let rest = FreeSegment {
                region_id: seg.region_id,
                start: seg.start + needed,
                len: current_len - needed,
            };
            self.free_list.set(i, rest);
            let b = MemoryBlock { region_id: seg.region_id, start: seg.start, len: needed };
            self.live = Ghost(l.push(b@));
            assert(self.free() =~= f.update(i as int, rest@));
            proof {
                let nf = self.free();
                let nl = self.live();
                assert forall|x: int, y: int|
                    0 <= x < y < nf.len() implies #[trigger] nf[x].region < #[trigger] nf[y].region || (nf[x].region
                        == nf[y].region && nf[x].start + nf[x].len < nf[y].start) by {
                    assert(f[x].region < f[y].region || (f[x].region == f[y].region && f[x].start + f[x].len < f[y].start));
                }
                assert forall|a: int, c: int|
                    0 <= a < nl.len() && 0 <= c < nf.len() implies disjoint(#[trigger] nl[a], #[trigger] nf[c]) by {
                    if a == l.len() {
                        if c != i {
                            lemma_separated_disjoint(f, i as int, c);
                        }
                    } else {
                        assert(disjoint(l[a], f[c]));
                    }
                }
                assert forall|a: int, c: int|
                    0 <= a < nl.len() && 0 <= c < nl.len() && a != c implies disjoint(#[trigger] nl[a], #[trigger] nl[c]) by {
                    if a == l.len() {
                        assert(disjoint(l[c], f[i as int]));
                    } else if c == l.len() {
                        assert(disjoint(l[a], f[i as int]));
                    }
                }
                assert forall|k: int| 0 <= k < nf.len() implies in_bounds(#[trigger] nf[k], bs)
                    && (nf[k].len > 0 || bs[nf[k].region as int].len() == 0) by {
                    if k != i {
                        assert(nf[k] == f[k]);
                    }
                }
                assert forall|r: nat| r < bs.len() implies #[trigger] bytes_in(nf, r) + bytes_in(nl, r) == bs[r as int].len() by {
                    lemma_bytes_in_update(f, i as int, rest@, r);
                    lemma_bytes_in_push(l, b@, r);
                }
            }
            b
        }
    }
}

/// A buffer of `n` zero bytes.
fn zeroed(n: usize) -> (r: Vec<u8>)
    ensures
        r@ == Seq::new(n as nat, |k: int| 0u8),
{
    let mut data: Vec<u8> = Vec::new();
    let mut i: usize = 0;
    while i < n
        invariant
            i <= n,
            data@ == Seq::new(i as nat, |k: int| 0u8),
        decreases n - i,
    {
        data.push(0u8);
        i = i + 1;
        assert(data@ =~= Seq::new(i as nat, |k: int| 0u8));
    }
    data
}

/// Conservation: in every region, the bytes of the free segments and those of the live
/// blocks add up to the region's size. Every operation of the pool keeps this.
pub proof fn lemma_conservation(m: MemoryManager)
    requires
        m.wf(),
    ensures
        forall|r: nat|
            r < m.bytes().len() ==> #[trigger] bytes_in(m.free(), r) + bytes_in(m.live(), r)
                == m.bytes()[r as int].len(),
{
}

/// The layout that the pool's invariant holds: the free list is sorted by (region,
/// start) and coalesced, every free segment and live block lies inside its region, no
/// byte is both free and in a live block, and no byte is in two live blocks.
pub proof fn lemma_pool_layout(m: MemoryManager)
    requires
        m.wf(),
    ensures
        separated(m.free()),
        forall|k: int| 0 <= k < m.free().len() ==> in_bounds(#[trigger] m.free()[k], m.bytes()),
        forall|k: int| 0 <= k < m.live().len() ==> in_bounds(#[trigger] m.live()[k], m.bytes()),
        forall|a: int, c: int|
            0 <= a < m.live().len() && 0 <= c < m.free().len() ==> disjoint(
                #[trigger] m.live()[a],
                #[trigger] m.free()[c],
            ),
        forall|a: int, c: int|
            0 <= a < m.live().len() && 0 <= c < m.live().len() && a != c ==> disjoint(
                #[trigger] m.live()[a],
                #[trigger] m.live()[c],
            ),
{
}

/// The block last handed out overlaps no free segment and no block handed out before it.
proof fn lemma_new_block_apart(m: MemoryManager, before: Seq<Span>, b: Span)
    requires
        m.wf(),
        m.live() == before.push(b),
    ensures
        forall|k: int| 0 <= k < m.free().len() ==> disjoint(b, #[trigger] m.free()[k]),
        forall|k: int| 0 <= k < before.len() ==> disjoint(b, #[trigger] before[k]),
{
    let l = m.live();
    let n = before.len() as int;
    assert(l[n] == b);
    assert forall|k: int| 0 <= k < m.free().len() implies disjoint(b, #[trigger] m.free()[k]) by {
        assert(disjoint(l[n], m.free()[k]));
    }
    assert forall|k: int| 0 <= k < before.len() implies disjoint(b, #[trigger] before[k]) by {
        assert(l[k] == before[k]);
        assert(disjoint(l[n], l[k]));
    }
}

/// A block is given back once: after its release it is no longer among the live blocks,
/// so a second release of the same range is refused by `release`'s precondition.
pub proof fn lemma_release_once(pre: MemoryManager, post: MemoryManager, b: Span)
    requires
        pre.wf(),
        post.wf(),
        b.len > 0,
        released(pre, post, b),
    ensures
        !post.live().contains(b),
{
}

/// Coalescing: after two blocks that touch in one region are released, one free segment
/// spans both of them.
pub proof fn lemma_adjacent_release_merges(
    m0: MemoryManager,
    m1: MemoryManager,
    m2: MemoryManager,
    a: Span,
    b: Span,
)
    requires
        m0.wf(),
        m1.wf(),
        m2.wf(),
        a.region == b.region,
        a.start + a.len == b.start,
        a.len > 0,
        b.len > 0,
        released(m0, m1, a),
        released(m1, m2, b),
    ensures
        exists|k: int|
            0 <= k < m2.free().len() && (#[trigger] m2.free()[k]).region == a.region
                && m2.free()[k].start <= a.start && a.start + a.len + b.len <= span_end(
                m2.free()[k],
            ),
        forall|k: int|
            0 <= k < m2.free().len() && (#[trigger] m2.free()[k]).region == a.region ==> m2.free()[k].start
                != b.start,
        separated(m2.free()),
{
    let f1 = m1.free();
    let f2 = m2.free();
    let ka = choose|k: int| 0 <= k < f1.len() && span_within(a, #[trigger] f1[k]);
    let x = choose|k: int| 0 <= k < f2.len() && span_within(f1[ka], #[trigger] f2[k]);
    let y = choose|k: int| 0 <= k < f2.len() && span_within(b, #[trigger] f2[k]);
    if x < y {
        assert(f2[x].region < f2[y].region || (f2[x].region == f2[y].region && f2[x].start + f2[x].len < f2[y].start));
    } else if y < x {
        assert(f2[y].region < f2[x].region || (f2[y].region == f2[x].region && f2[y].start + f2[y].len < f2[x].start));
    }
    assert(x == y);
    assert(f2[x].region == a.region);
    assert forall|k: int|
        0 <= k < f2.len() && (#[trigger] f2[k]).region == a.region implies f2[k].start != b.start by {
        if k < x {
            assert(f2[k].region < f2[x].region || (f2[k].region == f2[x].region && f2[k].start + f2[k].len < f2[x].start));
        } else if x < k {
            assert(f2[x].region < f2[k].region || (f2[x].region == f2[k].region && f2[x].start + f2[x].len < f2[k].start));
        }
    }
}

/// Isolation: a write through one live block leaves the bytes of every other live block
/// as they were, in its own region or any other.
pub proof fn lemma_isolation(m: MemoryManager, a: int, c: int, data: Seq<u8>)
    requires
        m.wf(),
        0 <= a < m.live().len(),
        0 <= c < m.live().len(),
        a != c,
        data.len() <= m.live()[a].len,
    ensures
        block_bytes(written(m.bytes(), m.live()[a], data), m.live()[c]) == block_bytes(
            m.bytes(),
            m.live()[c],
        ),
{
    let l = m.live();
    let bs = m.bytes();
    let (sa, sc) = (l[a], l[c]);
    assert(disjoint(sa, sc));
    assert(in_bounds(sa, bs) && in_bounds(sc, bs));
    let nb = written(bs, sa, data);
    if sa.region == sc.region {
        let od = bs[sa.region as int];
        let nd = nb[sa.region as int];
        assert(nd =~= od.subrange(0, sa.start as int) + data + od.subrange(
            (sa.start + data.len()) as int,
            od.len() as int,
        ));
        assert forall|j: int| 0 <= j < sc.len implies #[trigger] nd[sc.start + j] == od[sc.start + j] by {
            let x = sc.start + j;
            if x >= sa.start + data.len() {
                assert(nd[x] == od[x]);
            }
        }
        assert(block_bytes(nb, sc) =~= block_bytes(bs, sc));
    }
}

/// The index at which `b` joins the sorted list: past every segment that comes
/// before it in (region, start) order.
fn insert_position(list: &Vec<FreeSegment>, b: &MemoryBlock) -> (p: usize)
    ensures
        p <= list.len(),
        forall|k: int| 0 <= k < p ==> key_less(#[trigger] segs(list@)[k], b@),
        p < list.len() ==> !key_less(segs(list@)[p as int], b@),
{
    let mut p: usize = 0;
    while p < list.len()
        invariant
            p <= list.len(),
            forall|k: int| 0 <= k < p ==> key_less(#[trigger] segs(list@)[k], b@),
        decreases list.len() - p,
    {
        let s = list[p];
        if !(s.region_id < b.region_id || (s.region_id == b.region_id && s.start < b.start)) {
            return p;
        }
        p = p + 1;
    }
    p
}

/// Merges each run of segments in which one ends where the next begins, in one pass
/// over a sorted list.
fn coalesce(list: &Vec<FreeSegment>, Ghost(regions): Ghost<Seq<Seq<u8>>>) -> (out: Vec<FreeSegment>)
    requires
        list.len() > 0,
        ordered(segs(list@)),
        forall|r: int| 0 <= r < regions.len() ==> #[trigger] regions[r].len() <= usize::MAX,
        forall|k: int|
            0 <= k < list.len() ==> in_bounds(#[trigger] segs(list@)[k], regions) && (segs(list@)[k].len > 0
                || regions[segs(list@)[k].region as int].len() == 0),
    ensures
        separated(segs(out@)),
        forall|k: int|
            0 <= k < out.len() ==> in_bounds(#[trigger] segs(out@)[k], regions) && (segs(out@)[k].len > 0
                || regions[segs(out@)[k].region as int].len() == 0),
        forall|r: nat| #[trigger] bytes_in(segs(out@), r) == bytes_in(segs(list@), r),
        forall|k: int| 0 <= k < list.len() ==> inside_some(#[trigger] segs(list@)[k], segs(out@)),
        forall|r: nat, i: nat| #[trigger] is_free(segs(out@), r, i) ==> is_free(segs(list@), r, i),
{
    let ghost l = segs(list@);
    let mut out: Vec<FreeSegment> = Vec::new();
    let mut current = list[0];
    let mut k: usize = 1;
    assert(l.take(1) =~= seq![current@]);
    assert(segs(out@).push(current@) =~= seq![current@]);
    proof {
        assert forall|r: nat| bytes_in(seq![current@], r) == share(current@, r) by {
            lemma_bytes_in_push(Seq::<Span>::empty(), current@, r);
            assert(Seq::<Span>::empty().push(current@) =~= seq![current@]);
        }
        assert(span_within(l[0], seq![current@][0]));
    }
    while k < list.len()
        invariant
            1 <= k <= list.len(),
            l == segs(list@),
            ordered(l),
            forall|r: int| 0 <= r < regions.len() ==> #[trigger] regions[r].len() <= usize::MAX,
            forall|j: int|
                0 <= j < l.len() ==> in_bounds(#[trigger] l[j], regions) && (l[j].len > 0
                    || regions[l[j].region as int].len() == 0),
            separated(segs(out@).push(current@)),
            forall|j: int|
                0 <= j < segs(out@).push(current@).len() ==> in_bounds(#[trigger] segs(out@).push(current@)[j], regions)
                    && (segs(out@).push(current@)[j].len > 0 || regions[segs(out@).push(current@)[j].region as int].len() == 0),
            forall|j: int|
                k <= j < l.len() ==> current@.region < (#[trigger] l[j]).region || (current@.region
                    == l[j].region && current@.start + current@.len <= l[j].start),
            forall|r: nat| #[trigger] bytes_in(segs(out@).push(current@), r) == bytes_in(l.take(k as int), r),
            forall|j: int| 0 <= j < k ==> inside_some(#[trigger] l[j], segs(out@).push(current@)),
            forall|r: nat, i: nat| #[trigger] is_free(segs(out@).push(current@), r, i) ==> is_free(l.take(k as int), r, i),
        decreases list.len() - k,
    {
        let next = list[k];
        let ghost acc = segs(out@).push(current@);
        let ghost tk = l.take(k as int);
        let ghost tk1 = l.take(k as int + 1);
        assert(tk1 =~= tk.push(next@));
        assert(next@ == l[k as int]);
        assert(in_bounds(l[k as int], regions));
        assert(acc[acc.len() - 1] == current@);
        assert(in_bounds(acc[acc.len() - 1], regions));
        if current.region_id == next.region_id && current.end() == next.start {
            let merged = FreeSegment { region_id: current.region_id, start: current.start, len: current.len + next.len };
            let ghost acc2 = segs(out@).push(merged@);
            proof {
                assert(acc2 =~= acc.update(acc.len() - 1, merged@));
                assert(acc[acc.len() - 1] == current@);
                assert(in_bounds(acc[acc.len() - 1], regions));
                assert(acc[acc.len() - 1].len > 0 || regions[acc[acc.len() - 1].region as int].len() == 0);
                assert forall|j: int| 0 <= j < acc2.len() implies in_bounds(#[trigger] acc2[j], regions)
                    && (acc2[j].len > 0 || regions[acc2[j].region as int].len() == 0) by {
                    if j < acc2.len() - 1 {
                        assert(acc2[j] == acc[j]);
                    }
                }
                assert forall|j: int|
                    k + 1 <= j < l.len() implies merged@.region < (#[trigger] l[j]).region || (merged@.region
                        == l[j].region && merged@.start + merged@.len <= l[j].start) by {
                    assert(l[k as int].region < l[j].region || (l[k as int].region == l[j].region && l[k as int].start + l[k as int].len <= l[j].start));
                }
                assert forall|r: nat| #[trigger] bytes_in(acc2, r) == bytes_in(tk1, r) by {
                    lemma_bytes_in_push(segs(out@), merged@, r);
                    lemma_bytes_in_push(segs(out@), current@, r);
                    lemma_bytes_in_push(tk, next@, r);
                }
                assert forall|j: int| 0 <= j < k + 1 implies inside_some(#[trigger] l[j], acc2) by {
                    if j == k {
                        assert(span_within(l[j], acc2[acc2.len() - 1]));
                    } else {
                        let m = choose|m: int| 0 <= m < acc.len() && span_within(l[j], #[trigger] acc[m]);
                        assert(span_within(l[j], acc2[m]));
                    }
                }
                assert forall|r: nat, i: nat| #[trigger] is_free(acc2, r, i) implies is_free(tk1, r, i) by {
                    let m = choose|m: int| 0 <= m < acc2.len() && covers(#[trigger] acc2[m], r, i);
                    if m == acc2.len() - 1 {
                        if covers(current@, r, i) {
                            assert(covers(acc[m], r, i));
                            assert(is_free(acc, r, i));
                            assert(is_free(tk, r, i));
                            let w = choose|w: int| 0 <= w < tk.len() && covers(#[trigger] tk[w], r, i);
                            assert(covers(tk1[w], r, i));
                        } else {
                            assert(covers(tk1[k as int], r, i));
                        }
                    } else {
                        assert(covers(acc[m], r, i));
                        assert(is_free(acc, r, i));
                        let w = choose|w: int| 0 <= w < tk.len() && covers(#[trigger] tk[w], r, i);
                        assert(covers(tk1[w], r, i));
                    }
                }
                assert forall|x: int, y: int|
                    0 <= x < y < acc2.len() implies #[trigger] acc2[x].region < #[trigger] acc2[y].region || (acc2[x].region
                        == acc2[y].region && acc2[x].start + acc2[x].len < acc2[y].start) by {
                    assert(acc[x].region < acc[y].region || (acc[x].region == acc[y].region && acc[x].start + acc[x].len < acc[y].start));
                }
            }
            current = merged;
        } else {
            let ghost acc2 = acc.push(next@);
            proof {
                assert forall|j: int| 0 <= j < acc2.len() implies in_bounds(#[trigger] acc2[j], regions)
                    && (acc2[j].len > 0 || regions[acc2[j].region as int].len() == 0) by {
                    if j < acc2.len() - 1 {
                        assert(acc2[j] == acc[j]);
                    }
                }
                assert forall|r: nat| #[trigger] bytes_in(acc2, r) == bytes_in(tk1, r) by {
                    lemma_bytes_in_push(acc, next@, r);
                    lemma_bytes_in_push(tk, next@, r);
                }
                assert forall|j: int| 0 <= j < k + 1 implies inside_some(#[trigger] l[j], acc2) by {
                    if j == k {
                        assert(span_within(l[j], acc2[acc2.len() - 1]));
                    } else {
                        let m = choose|m: int| 0 <= m < acc.len() && span_within(l[j], #[trigger] acc[m]);
                        assert(span_within(l[j], acc2[m]));
                    }
                }
                assert forall|r: nat, i: nat| #[trigger] is_free(acc2, r, i) implies is_free(tk1, r, i) by {
                    let m = choose|m: int| 0 <= m < acc2.len() && covers(#[trigger] acc2[m], r, i);
                    if m == acc2.len() - 1 {
                        assert(covers(tk1[k as int], r, i));
                    } else {
                        assert(covers(acc[m], r, i));
                        assert(is_free(acc, r, i));
                        let w = choose|w: int| 0 <= w < tk.len() && covers(#[trigger] tk[w], r, i);
                        assert(covers(tk1[w], r, i));
                    }
                }
                assert forall|x: int, y: int|
                    0 <= x < y < acc2.len() implies #[trigger] acc2[x].region < #[trigger] acc2[y].region || (acc2[x].region
                        == acc2[y].region && acc2[x].start + acc2[x].len < acc2[y].start) by {
                    if y == acc2.len() - 1 {
                        let c = acc.len() - 1;
                        assert(acc[c] == current@);
                        if x < c {
                            assert(acc[x].region < acc[c].region || (acc[x].region == acc[c].region && acc[x].start + acc[x].len < acc[c].start));
                        }
                    } else {
                        assert(acc[x].region < acc[y].region || (acc[x].region == acc[y].region && acc[x].start + acc[x].len < acc[y].start));
                    }
                }
                assert forall|j: int|
                    k + 1 <= j < l.len() implies next@.region < (#[trigger] l[j]).region || (next@.region
                        == l[j].region && next@.start + next@.len <= l[j].start) by {
                    assert(l[k as int].region < l[j].region || (l[k as int].region == l[j].region && l[k as int].start + l[k as int].len <= l[j].start));
                }
            }
            out.push(current);
            assert(segs(out@) =~= acc);
            current = next;
            assert(segs(out@).push(current@) =~= acc2);
        }
        k = k + 1;
    }
    assert(l.take(k as int) =~= l);
    let ghost fin = segs(out@).push(current@);
    out.push(current);
    assert(segs(out@) =~= fin);
    out
}

} // verus!
