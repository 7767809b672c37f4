use vstd::prelude::*;

verus! {

/// A byte range of one region, as the contracts see free segments and blocks.
pub struct Span {
    pub region: nat,
    pub start: nat,
    pub len: nat,
}

/// The first offset past the range.
pub open spec fn span_end(s: Span) -> nat {
    s.start + s.len
}

/// Byte `i` of region `r` lies in `s`.
pub open spec fn covers(s: Span, r: nat, i: nat) -> bool {
    s.region == r && s.start <= i < s.start + s.len
}

/// Every byte of `a` lies in `b`.
pub open spec fn span_within(a: Span, b: Span) -> bool {
    a.region == b.region && b.start <= a.start && a.start + a.len <= b.start + b.len
}

/// `a` and `b` share no byte.
pub open spec fn disjoint(a: Span, b: Span) -> bool {
    a.len == 0 || b.len == 0 || a.region != b.region || a.start + a.len <= b.start || b.start
        + b.len <= a.start
}

/// The number of bytes that `s` holds in region `r`.
pub open spec fn share(s: Span, r: nat) -> nat {
    if s.region == r {
        s.len
    } else {
        0
    }
}

/// The number of bytes that the spans hold in region `r`, summed over all of them.
pub open spec fn bytes_in(spans: Seq<Span>, r: nat) -> nat
    decreases spans.len(),
{
    if spans.len() == 0 {
        0
    } else {
        bytes_in(spans.drop_last(), r) + share(spans.last(), r)
    }
}

/// Sorted by (region, start), with a gap of at least one byte between two spans of
/// one region: no overlap and nothing left to coalesce.
pub open spec fn separated(f: Seq<Span>) -> bool {
    forall|i: int, j: int|
        0 <= i < j < f.len() ==> #[trigger] f[i].region < #[trigger] f[j].region || (f[i].region
            == f[j].region && f[i].start + f[i].len < f[j].start)
}

/// Sorted by (region, start) without overlap; two spans of one region may touch.
pub open spec fn ordered(f: Seq<Span>) -> bool {
    forall|i: int, j: int|
        0 <= i < j < f.len() ==> #[trigger] f[i].region < #[trigger] f[j].region || (f[i].region
            == f[j].region && f[i].start + f[i].len <= f[j].start)
}

/// Byte `i` of region `r` lies in one of the spans.
pub open spec fn is_free(f: Seq<Span>, r: nat, i: nat) -> bool {
    exists|k: int| 0 <= k < f.len() && covers(#[trigger] f[k], r, i)
}

/// `s` lies inside one of the spans.
pub open spec fn inside_some(s: Span, f: Seq<Span>) -> bool {
    exists|k: int| 0 <= k < f.len() && span_within(s, #[trigger] f[k])
}

/// `i` is the first index whose span holds at least `needed` bytes.
pub open spec fn is_first_fit(f: Seq<Span>, needed: nat, i: int) -> bool {
    0 <= i < f.len() && f[i].len >= needed && forall|k: int| 0 <= k < i ==> #[trigger] f[k].len
        < needed
}

/// Index of the first span of at least `needed` bytes, or `f.len()` when none has them.
pub open spec fn first_fit(f: Seq<Span>, needed: nat) -> int {
    if exists|i: int| is_first_fit(f, needed, i) {
        choose|i: int| is_first_fit(f, needed, i)
    } else {
        f.len() as int
    }
}

/// Appending a span adds its bytes.
pub proof fn lemma_bytes_in_push(f: Seq<Span>, x: Span, r: nat)
    ensures
        bytes_in(f.push(x), r) == bytes_in(f, r) + share(x, r),
{
    assert(f.push(x).drop_last() =~= f);
}

/// Removing a span takes its bytes away.
pub proof fn lemma_bytes_in_remove(f: Seq<Span>, i: int, r: nat)
    requires
        0 <= i < f.len(),
    ensures
        bytes_in(f.remove(i), r) + share(f[i], r) == bytes_in(f, r),
    decreases f.len(),
{
    if i == f.len() - 1 {
        assert(f.remove(i) =~= f.drop_last());
    } else {
        lemma_bytes_in_remove(f.drop_last(), i, r);
        assert(f.remove(i).drop_last() =~= f.drop_last().remove(i));
    }
}

/// Replacing a span swaps its bytes for those of the new one.
pub proof fn lemma_bytes_in_update(f: Seq<Span>, i: int, x: Span, r: nat)
    requires
        0 <= i < f.len(),
    ensures
        bytes_in(f.update(i, x), r) + share(f[i], r) == bytes_in(f, r) + share(x, r),
    decreases f.len(),
{
    if i == f.len() - 1 {
        assert(f.update(i, x).drop_last() =~= f.drop_last());
    } else {
        lemma_bytes_in_update(f.drop_last(), i, x, r);
        assert(f.update(i, x).drop_last() =~= f.drop_last().update(i, x));
    }
}

/// Inserting a span adds its bytes.
pub proof fn lemma_bytes_in_insert(f: Seq<Span>, i: int, x: Span, r: nat)
    requires
        0 <= i <= f.len(),
    ensures
        bytes_in(f.insert(i, x), r) == bytes_in(f, r) + share(x, r),
    decreases f.len(),
{
    if i == f.len() {
        assert(f.insert(i, x) =~= f.push(x));
        lemma_bytes_in_push(f, x, r);
    } else {
        lemma_bytes_in_insert(f.drop_last(), i, x, r);
        assert(f.insert(i, x).drop_last() =~= f.drop_last().insert(i, x));
    }
}

/// The first fit is the index that has the first-fit property.
pub proof fn lemma_first_fit_is(f: Seq<Span>, needed: nat, i: int)
    requires
        is_first_fit(f, needed, i),
    ensures
        first_fit(f, needed) == i,
{
    let j = first_fit(f, needed);
    assert(is_first_fit(f, needed, j));
    if j < i {
        assert(f[j].len < needed);
    } else if i < j {
        assert(f[i].len < needed);
    }
}

/// With no span large enough, the first fit is past the end.
pub proof fn lemma_first_fit_none(f: Seq<Span>, needed: nat)
    requires
        forall|k: int| 0 <= k < f.len() ==> #[trigger] f[k].len < needed,
    ensures
        first_fit(f, needed) == f.len(),
{
    assert(!exists|i: int| is_first_fit(f, needed, i));
}

/// Two different spans of a separated list share no byte.
pub proof fn lemma_separated_disjoint(f: Seq<Span>, i: int, j: int)
    requires
        separated(f),
        0 <= i < f.len(),
        0 <= j < f.len(),
        i != j,
    ensures
        disjoint(f[i], f[j]),
{
    if i < j {
        assert(f[i].region < f[j].region || (f[i].region == f[j].region && f[i].start + f[i].len < f[j].start));
    } else {
        assert(f[j].region < f[i].region || (f[j].region == f[i].region && f[j].start + f[j].len < f[i].start));
    }
}

/// Removing a span keeps a list separated.
pub proof fn lemma_separated_remove(f: Seq<Span>, i: int)
    requires
        separated(f),
        0 <= i < f.len(),
    ensures
        separated(f.remove(i)),
{
    let g = f.remove(i);
    assert forall|x: int, y: int|
        0 <= x < y < g.len() implies #[trigger] g[x].region < #[trigger] g[y].region || (g[x].region
            == g[y].region && g[x].start + g[x].len < g[y].start) by {
        let x0 = if x < i { x } else { x + 1 };
        let y0 = if y < i { y } else { y + 1 };
        assert(g[x] == f[x0] && g[y] == f[y0]);
        assert(f[x0].region < f[y0].region || (f[x0].region == f[y0].region && f[x0].start + f[x0].len < f[y0].start));
    }
}

/// `a` comes before `b` in (region, start) order.
pub open spec fn key_less(a: Span, b: Span) -> bool {
    a.region < b.region || (a.region == b.region && a.start < b.start)
}

/// A span that overlaps none of a separated list, inserted at its place in (region,
/// start) order, leaves the list ordered.
pub proof fn lemma_insert_ordered(f: Seq<Span>, p: int, b: Span)
    requires
        separated(f),
        0 <= p <= f.len(),
        forall|k: int| 0 <= k < p ==> key_less(#[trigger] f[k], b),
        p < f.len() ==> !key_less(f[p], b),
        b.len > 0,
        forall|k: int| 0 <= k < f.len() ==> disjoint(b, #[trigger] f[k]),
        forall|k: int| 0 <= k < f.len() && (#[trigger] f[k]).region == b.region ==> f[k].len > 0,
    ensures
        ordered(f.insert(p, b)),
{
    let g = f.insert(p, b);
    assert forall|x: int, y: int|
        0 <= x < y < g.len() implies #[trigger] g[x].region < #[trigger] g[y].region || (g[x].region
            == g[y].region && g[x].start + g[x].len <= g[y].start) by {
        if x == p {
            let y0 = y - 1;
            assert(g[y] == f[y0]);
            assert(disjoint(b, f[y0]));
            if y0 > p {
                assert(f[p].region < f[y0].region || (f[p].region == f[y0].region && f[p].start + f[p].len < f[y0].start));
            }
            if f[y0].region == b.region {
                assert(f[y0].len > 0);
            }
        } else if y == p {
            assert(g[x] == f[x]);
            assert(key_less(f[x], b));
            assert(disjoint(b, f[x]));
            if f[x].region == b.region {
                assert(f[x].len > 0);
            }
        } else {
            let x0 = if x < p { x } else { x - 1 };
            let y0 = if y < p { y } else { y - 1 };
            assert(g[x] == f[x0] && g[y] == f[y0]);
            assert(f[x0].region < f[y0].region || (f[x0].region == f[y0].region && f[x0].start + f[x0].len < f[y0].start));
        }
    }
}

/// Two spans that are not disjoint share their larger start.
pub proof fn lemma_common_byte(a: Span, b: Span)
    requires
        !disjoint(a, b),
    ensures
        a.region == b.region,
        covers(a, a.region, if a.start >= b.start { a.start } else { b.start }),
        covers(b, a.region, if a.start >= b.start { a.start } else { b.start }),
{
}

/// No span of `f` lies in region `r` when all lie in regions below it.
pub proof fn lemma_bytes_in_none(f: Seq<Span>, r: nat)
    requires
        forall|k: int| 0 <= k < f.len() ==> (#[trigger] f[k]).region < r,
    ensures
        bytes_in(f, r) == 0,
    decreases f.len(),
{
    if f.len() > 0 {
        lemma_bytes_in_none(f.drop_last(), r);
    }
}

} // verus!
