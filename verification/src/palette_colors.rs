//! The colors of a palette: those that the neighbours have, and those that are coded.
use crate::bits::{lemma_pow2i_mono, lemma_pow2i_values, pow2i};
use crate::entropy::{at_least_0, literal_next, literal_value, SymState, SymbolDecoder};
use crate::intra_pred::clip1;
use crate::math::clampi;
use crate::palette::{ceil_log2, ceil_log2_of};
use vstd::prelude::*;

verus! {

/// At most eight colors, each a sample.
pub open spec fn palette_ok(s: Seq<i32>) -> bool {
    &&& s.len() <= 8
    &&& forall|i: int| 0 <= i < s.len() ==> 0 <= #[trigger] s[i] <= 255
}

// ---------------------------------------------------------------------------
// The colors of the neighbours
// ---------------------------------------------------------------------------

/// A list with one more color, unless it is the last one already.
pub open spec fn with_color(acc: Seq<i32>, v: i32) -> Seq<i32> {
    if acc.len() > 0 && acc[acc.len() - 1] == v {
        acc
    } else {
        acc.push(v)
    }
}

/// The colors of `a` from `i` on and of `l` from `j` on, merged behind `acc`.
pub open spec fn merged_from(a: Seq<i32>, l: Seq<i32>, i: int, j: int, acc: Seq<i32>) -> Seq<i32>
    decreases at_least_0(a.len() - i) + at_least_0(l.len() - j),
{
    if 0 <= i < a.len() && 0 <= j < l.len() {
        if l[j] < a[i] {
            merged_from(a, l, i, j + 1, with_color(acc, l[j]))
        } else if l[j] == a[i] {
            merged_from(a, l, i + 1, j + 1, with_color(acc, a[i]))
        } else {
            merged_from(a, l, i + 1, j, with_color(acc, a[i]))
        }
    } else if 0 <= i < a.len() {
        merged_from(a, l, i + 1, j, with_color(acc, a[i]))
    } else if 0 <= j < l.len() {
        merged_from(a, l, i, j + 1, with_color(acc, l[j]))
    } else {
        acc
    }
}

/// The colors of two neighbours, merged.
pub open spec fn merged_colors(a: Seq<i32>, l: Seq<i32>) -> Seq<i32> {
    merged_from(a, l, 0, 0, Seq::empty())
}

/// The colors do not decrease.
pub open spec fn ascending(s: Seq<i32>) -> bool {
    forall|i: int, j: int| 0 <= i <= j < s.len() ==> s[i] <= s[j]
}

/// The colors increase.
pub open spec fn increasing(s: Seq<i32>) -> bool {
    forall|i: int, j: int| 0 <= i < j < s.len() ==> s[i] < s[j]
}

/// The merged list holds just the colors of `acc`, of `a` from `i` on and of `l` from
/// `j` on.
spec fn holds_all(s: Seq<i32>, a: Seq<i32>, l: Seq<i32>, i: int, j: int, acc: Seq<i32>) -> bool {
    &&& forall|k: int| 0 <= k < acc.len() ==> s.contains(#[trigger] acc[k])
    &&& forall|k: int| i <= k < a.len() ==> s.contains(#[trigger] a[k])
    &&& forall|k: int| j <= k < l.len() ==> s.contains(#[trigger] l[k])
    &&& forall|k: int|
        0 <= k < s.len() ==> {
            ||| acc.contains(#[trigger] s[k])
            ||| a.contains(s[k])
            ||| l.contains(s[k])
        }
}

proof fn lemma_merged_from(a: Seq<i32>, l: Seq<i32>, i: int, j: int, acc: Seq<i32>)
    requires
        ascending(a),
        ascending(l),
        0 <= i <= a.len(),
        0 <= j <= l.len(),
        increasing(acc),
        acc.len() > 0 && i < a.len() ==> acc[acc.len() - 1] <= a[i],
        acc.len() > 0 && j < l.len() ==> acc[acc.len() - 1] <= l[j],
    ensures
        increasing(merged_from(a, l, i, j, acc)),
        holds_all(merged_from(a, l, i, j, acc), a, l, i, j, acc),
    decreases (a.len() - i) + (l.len() - j), 0int,
{
    let s = merged_from(a, l, i, j, acc);
    if i < a.len() && j < l.len() {
        if l[j] < a[i] {
            lemma_merged_step(a, l, i, j, i, j + 1, acc, l[j]);
        } else if l[j] == a[i] {
            lemma_merged_step(a, l, i, j, i + 1, j + 1, acc, a[i]);
        } else {
            lemma_merged_step(a, l, i, j, i + 1, j, acc, a[i]);
        }
    } else if i < a.len() {
        lemma_merged_step(a, l, i, j, i + 1, j, acc, a[i]);
    } else if j < l.len() {
        lemma_merged_step(a, l, i, j, i, j + 1, acc, l[j]);
    } else {
        assert forall|k: int| 0 <= k < s.len() implies acc.contains(#[trigger] s[k]) by {}
    }
}

proof fn lemma_merged_step(
    a: Seq<i32>,
    l: Seq<i32>,
    i: int,
    j: int,
    i2: int,
    j2: int,
    acc: Seq<i32>,
    v: i32,
)
    requires
        ascending(a),
        ascending(l),
        0 <= i <= i2 <= a.len(),
        0 <= j <= j2 <= l.len(),
        i2 <= i + 1,
        j2 <= j + 1,
        i + j < i2 + j2,
        i < i2 ==> v == a[i],
        j < j2 ==> v == l[j],
        i < a.len() ==> v <= a[i],
        j < l.len() ==> v <= l[j],
        increasing(acc),
        acc.len() > 0 ==> acc[acc.len() - 1] <= v,
    ensures
        increasing(merged_from(a, l, i2, j2, with_color(acc, v))),
        holds_all(merged_from(a, l, i2, j2, with_color(acc, v)), a, l, i, j, acc),
    decreases (a.len() - i2) + (l.len() - j2), 1int,
{
    let next = with_color(acc, v);
    assert(increasing(next));
    assert(next.contains(v)) by {
        assert(next[next.len() - 1] == v);
    }
    lemma_merged_from(a, l, i2, j2, next);
    let s = merged_from(a, l, i2, j2, next);
    assert(s.contains(v)) by {
        assert(next[next.len() - 1] == v);
    }
    assert forall|k: int| 0 <= k < acc.len() implies s.contains(#[trigger] acc[k]) by {
        assert(next[k] == acc[k]);
    }
    assert forall|k: int| i <= k < a.len() implies s.contains(#[trigger] a[k]) by {}
    assert forall|k: int| j <= k < l.len() implies s.contains(#[trigger] l[k]) by {}
    assert forall|k: int| 0 <= k < s.len() implies ({
        ||| acc.contains(#[trigger] s[k])
        ||| a.contains(s[k])
        ||| l.contains(s[k])
    }) by {
        if next.contains(s[k]) && !acc.contains(s[k]) {
            let q = choose|q: int| 0 <= q < next.len() && next[q] == s[k];
            if q < acc.len() {
                assert(acc[q] == s[k]);
            }
            assert(s[k] == v);
            if i < i2 {
                assert(a[i] == v);
            } else {
                assert(l[j] == v);
            }
        }
    }
}

/// Merging two ascending palettes gives their colors in increasing order, each once.
pub proof fn law_merged_colors(a: Seq<i32>, l: Seq<i32>)
    requires
        ascending(a),
        ascending(l),
    ensures
        increasing(merged_colors(a, l)),
        forall|v: i32|
            #[trigger] merged_colors(a, l).contains(v) <==> a.contains(v) || l.contains(v),
{
    lemma_merged_from(a, l, 0, 0, Seq::empty());
    let s = merged_colors(a, l);
    assert forall|v: i32| #[trigger] s.contains(v) <==> a.contains(v) || l.contains(v) by {
        if a.contains(v) {
            let k = choose|k: int| 0 <= k < a.len() && a[k] == v;
            assert(s.contains(a[k]));
        }
        if l.contains(v) {
            let k = choose|k: int| 0 <= k < l.len() && l[k] == v;
            assert(s.contains(l[k]));
        }
        if s.contains(v) {
            let k = choose|k: int| 0 <= k < s.len() && s[k] == v;
            assert(!Seq::<i32>::empty().contains(s[k]));
        }
    }
}

/// Every color is a sample.
pub open spec fn sample_colors(s: Seq<i32>) -> bool {
    forall|i: int| 0 <= i < s.len() ==> 0 <= #[trigger] s[i] <= 255
}

fn put_color(acc: &mut Vec<i32>, v: i32)
    requires
        sample_colors(old(acc)@),
        0 <= v <= 255,
    ensures
        final(acc)@ == with_color(old(acc)@, v),
        sample_colors(final(acc)@),
        final(acc)@.len() <= old(acc)@.len() + 1,
{
    if acc.len() > 0 && acc[acc.len() - 1] == v {
        return;
    }
    acc.push(v);
}

/// Merges the colors of two neighbours.
pub fn merge_colors(above: &Vec<i32>, left: &Vec<i32>) -> (r: Vec<i32>)
    requires
        palette_ok(above@),
        palette_ok(left@),
    ensures
        r@ == merged_colors(above@, left@),
        sample_colors(r@),
        r@.len() <= 16,
{
    let mut acc: Vec<i32> = Vec::new();
    let mut i: usize = 0;
    let mut j: usize = 0;
    assert(acc@ =~= Seq::empty());
    while i < above.len() || j < left.len()
        invariant
            i <= above@.len() <= 8,
            j <= left@.len() <= 8,
            palette_ok(above@),
            palette_ok(left@),
            sample_colors(acc@),
            acc@.len() <= i + j,
            merged_colors(above@, left@) == merged_from(
                above@,
                left@,
                i as int,
                j as int,
                acc@,
            ),
        decreases (above.len() - i) + (left.len() - j),
    {
        if i < above.len() && j < left.len() {
            let a: i32 = above[i];
            let l: i32 = left[j];
            if l < a {
                put_color(&mut acc, l);
                j = j + 1;
            } else {
                put_color(&mut acc, a);
                i = i + 1;
                if l == a {
                    j = j + 1;
                }
            }
        } else if i < above.len() {
            put_color(&mut acc, above[i]);
            i = i + 1;
        } else {
            put_color(&mut acc, left[j]);
            j = j + 1;
        }
    }
    acc
}

// ---------------------------------------------------------------------------
// Sorting
// ---------------------------------------------------------------------------

/// An ascending list with one more color in its place.
pub open spec fn inserted(s: Seq<i32>, v: i32) -> Seq<i32>
    decreases s.len(),
{
    if s.len() == 0 || s[s.len() - 1] <= v {
        s.push(v)
    } else {
        inserted(s.drop_last(), v).push(s[s.len() - 1])
    }
}

/// The first `n` colors of a list in ascending order.
pub open spec fn sorted_first(s: Seq<i32>, n: int) -> Seq<i32>
    decreases n,
{
    if n <= 0 {
        Seq::empty()
    } else {
        inserted(sorted_first(s, n - 1), s[n - 1])
    }
}

/// The colors of a list in ascending order.
pub open spec fn sorted_colors(s: Seq<i32>) -> Seq<i32> {
    sorted_first(s, s.len() as int)
}

proof fn lemma_inserted_at(s: Seq<i32>, v: i32, p: int)
    requires
        0 <= p <= s.len(),
        p == 0 || s[p - 1] <= v,
        forall|k: int| p <= k < s.len() ==> #[trigger] s[k] > v,
    ensures
        inserted(s, v) == s.insert(p, v),
    decreases s.len(),
{
    if s.len() == 0 || s[s.len() - 1] <= v {
        if s.len() > 0 && p < s.len() {
            assert(s[s.len() - 1] > v);
        }
        assert(s.push(v) =~= s.insert(p, v));
    } else {
        let d = s.drop_last();
        lemma_inserted_at(d, v, p);
        assert(d.insert(p, v).push(s[s.len() - 1]) =~= s.insert(p, v));
    }
}

proof fn lemma_inserted(s: Seq<i32>, v: i32)
    requires
        ascending(s),
    ensures
        ascending(inserted(s, v)),
        inserted(s, v).to_multiset() == s.to_multiset().insert(v),
        inserted(s, v).len() == s.len() + 1,
        forall|k: int|
            0 <= k < inserted(s, v).len() ==> #[trigger] inserted(s, v)[k] == v || s.contains(
                inserted(s, v)[k],
            ),
    decreases s.len(),
{
    if s.len() == 0 || s[s.len() - 1] <= v {
        s.to_multiset_ensures();
        assert forall|k: int| 0 <= k < s.push(v).len() implies #[trigger] s.push(v)[k] == v
            || s.contains(s.push(v)[k]) by {
            if k < s.len() {
                assert(s[k] == s.push(v)[k]);
            }
        }
    } else {
        let d = s.drop_last();
        let last = s[s.len() - 1];
        lemma_inserted(d, v);
        let m = inserted(d, v);
        m.to_multiset_ensures();
        d.to_multiset_ensures();
        assert(d.push(last) =~= s);
        assert(s.to_multiset() =~= d.to_multiset().insert(last));
        assert(m.push(last).to_multiset() =~= s.to_multiset().insert(v));
        assert forall|k: int| 0 <= k < m.push(last).len() implies #[trigger] m.push(last)[k] == v
            || s.contains(m.push(last)[k]) by {
            if k < m.len() {
                if m[k] != v {
                    let q = choose|q: int| 0 <= q < d.len() && d[q] == m[k];
                    assert(s[q] == m[k]);
                }
            } else {
                assert(s[s.len() - 1] == last);
            }
        }
        assert forall|x: int, y: int| 0 <= x <= y < m.push(last).len() implies m.push(last)[x]
            <= m.push(last)[y] by {
            if y == m.len() && x < m.len() {
                if m[x] != v {
                    let q = choose|q: int| 0 <= q < d.len() && d[q] == m[x];
                    assert(s[q] <= s[s.len() - 1]);
                }
            }
        }
    }
}

proof fn lemma_sorted_first(s: Seq<i32>, n: int)
    requires
        0 <= n <= s.len(),
    ensures
        ascending(sorted_first(s, n)),
        sorted_first(s, n).to_multiset() == s.subrange(0, n).to_multiset(),
        sorted_first(s, n).len() == n,
    decreases n,
{
    if n > 0 {
        lemma_sorted_first(s, n - 1);
        lemma_inserted(sorted_first(s, n - 1), s[n - 1]);
        let d = s.subrange(0, n - 1);
        d.to_multiset_ensures();
        assert(d.push(s[n - 1]) =~= s.subrange(0, n));
    } else {
        assert(s.subrange(0, 0) =~= Seq::empty());
    }
}

/// Sorting keeps the colors and puts them in ascending order.
pub proof fn law_sorted_colors(s: Seq<i32>)
    ensures
        ascending(sorted_colors(s)),
        sorted_colors(s).to_multiset() == s.to_multiset(),
        sorted_colors(s).len() == s.len(),
{
    lemma_sorted_first(s, s.len() as int);
    assert(s.subrange(0, s.len() as int) =~= s);
}

fn sort_colors(s: &Vec<i32>) -> (r: Vec<i32>)
    requires
        palette_ok(s@),
    ensures
        r@ == sorted_colors(s@),
        palette_ok(r@),
        r@.len() == s@.len(),
{
    let mut r: Vec<i32> = Vec::new();
    let mut n: usize = 0;
    assert(r@ =~= Seq::empty());
    while n < s.len()
        invariant
            n <= s@.len(),
            palette_ok(s@),
            palette_ok(r@),
            r@.len() == n,
            r@ == sorted_first(s@, n as int),
        decreases s.len() - n,
    {
        let v: i32 = s[n];
        let mut p: usize = r.len();
        let ghost before = r@;
        while p > 0 && r[p - 1] > v
            invariant
                p <= r@.len(),
                r@ == before,
                forall|k: int| p <= k < r@.len() ==> #[trigger] r@[k] > v,
            decreases p,
        {
            p = p - 1;
        }
        r.insert(p, v);
        proof {
            lemma_inserted_at(before, v, p as int);
            assert(forall|k: int|
                0 <= k < r@.len() ==> #[trigger] r@[k] == if k < p {
                    before[k]
                } else if k == p {
                    v
                } else {
                    before[k - 1]
                });
        }
        n = n + 1;
    }
    r
}

// ---------------------------------------------------------------------------
// Coded colors
// ---------------------------------------------------------------------------

/// The colors of the cache from `i` on that are used, behind `colors`, at most `size`
/// in all. Each is kept or dropped by one bit.
pub open spec fn cached_colors(
    st: SymState,
    cache: Seq<i32>,
    size: int,
    i: int,
    colors: Seq<i32>,
) -> (Seq<i32>, SymState)
    decreases cache.len() - i,
{
    if i < 0 || i >= cache.len() || colors.len() >= size {
        (colors, st)
    } else {
        cached_colors(
            literal_next(st, 1),
            cache,
            size,
            i + 1,
            if literal_value(st, 1) == 1 {
                colors.push(cache[i])
            } else {
                colors
            },
        )
    }
}

/// The colors up to `size` that are coded as steps upward. The steps take `bits` bits,
/// and no more than there is room for above the last color.
pub open spec fn stepped_colors(
    st: SymState,
    size: int,
    bits: int,
    is_u: bool,
    colors: Seq<i32>,
) -> (Seq<i32>, SymState)
    decreases size - colors.len(),
{
    if colors.len() >= size {
        (colors, st)
    } else {
        let v = clampi(colors[colors.len() - 1] + literal_value(st, bits) + 1, 0, 255);
        let room = 256 - v - (if is_u {
            0int
        } else {
            1
        });
        let cap = ceil_log2_of(room);
        stepped_colors(
            literal_next(st, bits),
            size,
            if cap < bits {
                cap
            } else {
                bits
            },
            is_u,
            colors.push(v as i32),
        )
    }
}

/// The colors of a luma or U palette and the decoder behind them: those of the cache
/// that are used, one color of eight bits, then steps upward; in ascending order.
#[verifier::opaque]
pub open spec fn palette_yu_of(st: SymState, size: int, cache: Seq<i32>, is_u: bool) -> (
    Seq<i32>,
    SymState,
) {
    let (c0, s0) = cached_colors(st, cache, size, 0, Seq::empty());
    let (c1, s1) = if c0.len() < size {
        (c0.push(literal_value(s0, 8) as i32), literal_next(s0, 8))
    } else {
        (c0, s0)
    };
    let (c2, s2) = if c1.len() < size {
        stepped_colors(literal_next(s1, 2), size, 5 + literal_value(s1, 2), is_u, c1)
    } else {
        (c1, s1)
    };
    (sorted_colors(c2), s2)
}

fn read_cached(
    dec: &mut SymbolDecoder<'_>,
    cache: &Vec<i32>,
    size: usize,
) -> (r: Vec<i32>)
    requires
        old(dec)@.wf(),
        sample_colors(cache@),
        size <= 8,
    ensures
        final(dec)@.wf(),
        (r@, final(dec)@) == cached_colors(old(dec)@, cache@, size as int, 0, Seq::empty()),
        palette_ok(r@),
        r@.len() <= size,
{
    let mut r: Vec<i32> = Vec::new();
    let mut i: usize = 0;
    assert(r@ =~= Seq::empty());
    while i < cache.len() && r.len() < size
        invariant
            i <= cache@.len(),
            size <= 8,
            dec@.wf(),
            sample_colors(cache@),
            palette_ok(r@),
            r@.len() <= size,
            cached_colors(old(dec)@, cache@, size as int, 0, Seq::empty()) == cached_colors(
                dec@,
                cache@,
                size as int,
                i as int,
                r@,
            ),
        decreases cache.len() - i,
    {
        let used: u32 = dec.read_literal(1);
        if used == 1 {
            r.push(cache[i]);
        }
        i = i + 1;
    }
    r
}

fn read_stepped(
    dec: &mut SymbolDecoder<'_>,
    size: usize,
    bits: u32,
    is_u: bool,
    colors: Vec<i32>,
) -> (r: Vec<i32>)
    requires
        old(dec)@.wf(),
        palette_ok(colors@),
        1 <= colors@.len() <= size <= 8,
        bits <= 8,
    ensures
        final(dec)@.wf(),
        (r@, final(dec)@) == stepped_colors(
            old(dec)@,
            size as int,
            bits as int,
            is_u,
            colors@,
        ),
        palette_ok(r@),
        r@.len() == size,
{
    let ghost c0 = colors@;
    let mut r: Vec<i32> = colors;
    let mut b: u32 = bits;
    while r.len() < size
        invariant
            1 <= r@.len() <= size <= 8,
            b <= 8,
            dec@.wf(),
            palette_ok(r@),
            stepped_colors(old(dec)@, size as int, bits as int, is_u, c0) == stepped_colors(
                dec@,
                size as int,
                b as int,
                is_u,
                r@,
            ),
        decreases size - r.len(),
    {
        let step: u32 = dec.read_literal(b);
        proof {
            lemma_pow2i_mono(b as int, 8);
            lemma_pow2i_values();
        }
        let last: i32 = r[r.len() - 1];
        let v: i32 = clip1(last + step as i32 + 1);
        let room: u32 = (256 - v - (if is_u {
            0
        } else {
            1
        })) as u32;
        let cap: u32 = ceil_log2(room);
        r.push(v);
        if cap < b {
            b = cap;
        }
    }
    r
}

/// Reads the colors of a luma or U palette.
pub fn read_palette_colors_yu(
    dec: &mut SymbolDecoder<'_>,
    size: usize,
    cache: &Vec<i32>,
    is_u: bool,
) -> (r: Vec<i32>)
    requires
        old(dec)@.wf(),
        sample_colors(cache@),
        size <= 8,
    ensures
        final(dec)@.wf(),
        (r@, final(dec)@) == palette_yu_of(old(dec)@, size as int, cache@, is_u),
        palette_ok(r@),
        r@.len() == size,
        ascending(r@),
{
    proof {
        reveal(palette_yu_of);
        lemma_pow2i_values();
    }
    let mut colors: Vec<i32> = read_cached(dec, cache, size);
    if colors.len() < size {
        let v: u32 = dec.read_literal(8);
        colors.push(v as i32);
    }
    if colors.len() < size {
        let extra: u32 = dec.read_literal(2);
        colors = read_stepped(dec, size, 5 + extra, is_u, colors);
    }
    proof {
        law_sorted_colors(colors@);
    }
    sort_colors(&colors)
}

/// A color moved by a signed step, wrapped around the sample range.
pub open spec fn wrapped_color(last: int, step: int) -> int {
    let v = last + step;
    if v < 0 {
        v + 256
    } else if v >= 256 {
        v - 256
    } else {
        v
    }
}

/// The colors up to `size` that are coded as signed steps of `bits` bits.
pub open spec fn turned_colors(st: SymState, size: int, bits: int, colors: Seq<i32>) -> (
    Seq<i32>,
    SymState,
)
    decreases size - colors.len(),
{
    if colors.len() >= size {
        (colors, st)
    } else {
        let step = literal_value(st, bits);
        let s1 = literal_next(st, bits);
        let signed = if step != 0 && literal_value(s1, 1) == 1 {
            -step
        } else {
            step
        };
        let s2 = if step != 0 {
            literal_next(s1, 1)
        } else {
            s1
        };
        let v = clampi(wrapped_color(colors[colors.len() - 1] as int, signed), 0, 255);
        turned_colors(s2, size, bits, colors.push(v as i32))
    }
}

/// The first `n` colors of eight bits each.
pub open spec fn plain_colors(st: SymState, n: int) -> (Seq<i32>, SymState)
    decreases n,
{
    if n <= 0 {
        (Seq::empty(), st)
    } else {
        let (c, s) = plain_colors(st, n - 1);
        (c.push(literal_value(s, 8) as i32), literal_next(s, 8))
    }
}

/// The colors of a V palette and the decoder behind them: one color and signed steps,
/// or all colors with eight bits.
#[verifier::opaque]
pub open spec fn palette_v_of(st: SymState, size: int) -> (Seq<i32>, SymState) {
    let s0 = literal_next(st, 1);
    if literal_value(st, 1) == 1 {
        let bits = 4 + literal_value(s0, 2);
        let s1 = literal_next(s0, 2);
        turned_colors(
            literal_next(s1, 8),
            size,
            bits,
            seq![literal_value(s1, 8) as i32],
        )
    } else {
        plain_colors(s0, size)
    }
}

fn read_turned(dec: &mut SymbolDecoder<'_>, size: usize, bits: u32, first: i32) -> (r: Vec<i32>)
    requires
        old(dec)@.wf(),
        0 <= first <= 255,
        1 <= size <= 8,
        bits <= 8,
    ensures
        final(dec)@.wf(),
        (r@, final(dec)@) == turned_colors(old(dec)@, size as int, bits as int, seq![first]),
        palette_ok(r@),
        r@.len() == size,
{
    let mut r: Vec<i32> = Vec::new();
    r.push(first);
    assert(r@ =~= seq![first]);
    while r.len() < size
        invariant
            1 <= r@.len() <= size <= 8,
            bits <= 8,
            dec@.wf(),
            palette_ok(r@),
            turned_colors(old(dec)@, size as int, bits as int, seq![first]) == turned_colors(
                dec@,
                size as int,
                bits as int,
                r@,
            ),
        decreases size - r.len(),
    {
        let step: u32 = dec.read_literal(bits);
        proof {
            lemma_pow2i_mono(bits as int, 8);
            lemma_pow2i_values();
        }
        let mut signed: i32 = step as i32;
        if step != 0 {
            let neg: u32 = dec.read_literal(1);
            if neg == 1 {
                signed = -signed;
            }
        }
        let mut v: i32 = r[r.len() - 1] + signed;
        if v < 0 {
            v = v + 256;
        } else if v >= 256 {
            v = v - 256;
        }
        r.push(clip1(v));
    }
    r
}

/// Reads the colors of a V palette.
pub fn read_palette_colors_v(dec: &mut SymbolDecoder<'_>, size: usize) -> (r: Vec<i32>)
    requires
        old(dec)@.wf(),
        1 <= size <= 8,
    ensures
        final(dec)@.wf(),
        (r@, final(dec)@) == palette_v_of(old(dec)@, size as int),
        palette_ok(r@),
        r@.len() == size,
{
    proof {
        reveal(palette_v_of);
        lemma_pow2i_values();
    }
    let delta: u32 = dec.read_literal(1);
    if delta == 1 {
        let extra: u32 = dec.read_literal(2);
        let first: u32 = dec.read_literal(8);
        return read_turned(dec, size, 4 + extra, first as i32);
    }
    let ghost st0 = dec@;
    let mut r: Vec<i32> = Vec::new();
    assert(r@ =~= Seq::empty());
    while r.len() < size
        invariant
            r@.len() <= size <= 8,
            dec@.wf(),
            palette_ok(r@),
            pow2i(8) == 256,
            (r@, dec@) == plain_colors(st0, r@.len() as int),
        decreases size - r.len(),
    {
        let v: u32 = dec.read_literal(8);
        r.push(v as i32);
    }
    r
}

} // verus!
