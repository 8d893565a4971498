//! Palettes: reading the colors of a block, the map of its samples to colors, and the
//! prediction from both.
use crate::bits::{floor_log2, lemma_floor_log2, lemma_pow2i_mono, lemma_pow2i_values, pow2i};
use crate::entropy::{floor_log2_of, literal_next, literal_value, SymState, SymbolDecoder};
use vstd::prelude::*;

verus! {

/// The context of a palette index by the hash of its neighbours.
pub const PALETTE_COLOR_CONTEXT: [i32; 9] = [-1, -1, 0, -1, -1, 4, 3, 2, 1];

// ---------------------------------------------------------------------------
// Numbers
// ---------------------------------------------------------------------------

/// The number below `n` that is coded next without a table, with one bit less for the
/// smaller numbers.
pub open spec fn ns_of(st: SymState, n: int) -> (int, SymState) {
    if n <= 1 {
        (0, st)
    } else {
        let w = floor_log2(n) + 1;
        let m = pow2i(w) - n;
        let v = literal_value(st, w - 1);
        let s1 = literal_next(st, w - 1);
        if v < m {
            (v, s1)
        } else {
            (2 * v - m + literal_value(s1, 1), literal_next(s1, 1))
        }
    }
}

/// Reads a number below `n`.
pub fn read_ns(dec: &mut SymbolDecoder<'_>, n: u32) -> (r: u32)
    requires
        old(dec)@.wf(),
        n < 0x4000_0000,
    ensures
        final(dec)@.wf(),
        (r as int, final(dec)@) == ns_of(old(dec)@, n as int),
        r < n || r == 0,
{
    if n <= 1 {
        return 0;
    }
    let log: u32 = floor_log2_of(n);
    proof {
        lemma_floor_log2(n as int);
        lemma_pow2i_values();
        lemma_pow2i_mono(1, log as int);
        if log >= 30 {
            lemma_pow2i_mono(30, log as int);
        }
        lemma_pow2i_mono(log + 1, 30);
        assert(pow2i(log + 1) == 2 * pow2i(log as int));
        crate::bits::lemma_shl_pow2((log + 1) as u32);
    }
    let m: u32 = (1u32 << (log + 1)) - n;
    let v: u32 = dec.read_literal(log);
    if v < m {
        return v;
    }
    let extra: u32 = dec.read_literal(1);
    2 * v - m + extra
}

/// The number of bits that tell `x` values apart.
pub open spec fn ceil_log2_of(x: int) -> int {
    if x < 2 {
        0
    } else {
        floor_log2(x - 1) + 1
    }
}

/// The number of bits that tell `x` values apart: the least whose power of two is not
/// below `x`.
pub fn ceil_log2(x: u32) -> (r: u32)
    requires
        x <= 0x8000_0000,
    ensures
        r == ceil_log2_of(x as int),
        r <= 31,
        x <= pow2i(r as int),
        r > 0 ==> pow2i(r - 1) < x,
{
    if x < 2 {
        return 0;
    }
    proof {
        lemma_floor_log2(x - 1);
    }
    floor_log2_of(x - 1) + 1
}

// ---------------------------------------------------------------------------
// The context of a palette index
// ---------------------------------------------------------------------------

/// What a neighbour of color `v` adds to the score of color `k`.
pub open spec fn hit(there: bool, v: u8, weight: int, k: int) -> int {
    if there && v == k {
        weight
    } else {
        0
    }
}

/// How often color `k` occurs among the neighbours of a sample: left and above count
/// double.
pub open spec fn color_score(map: Seq<u8>, stride: int, r: int, c: int, k: int) -> int {
    hit(c > 0, map[r * stride + c - 1], 2, k) + hit(
        r > 0 && c > 0,
        map[(r - 1) * stride + c - 1],
        1,
        k,
    ) + hit(r > 0, map[(r - 1) * stride + c], 2, k)
}

/// The scores of all colors.
pub open spec fn color_scores(map: Seq<u8>, stride: int, r: int, c: int) -> Seq<int> {
    Seq::new(8, |k: int| color_score(map, stride, r, c, k))
}

/// The first position of the largest of `s[i..n]`, and `i` where that is empty.
pub open spec fn first_max(s: Seq<int>, i: int, n: int) -> int
    decreases n - i,
{
    if n <= i + 1 {
        i
    } else {
        let m = first_max(s, i, n - 1);
        if s[n - 1] > s[m] {
            n - 1
        } else {
            m
        }
    }
}

/// `s` with the entry at `m` moved to the front of the entries from `i` on.
pub open spec fn lifted<T>(s: Seq<T>, i: int, m: int) -> Seq<T> {
    Seq::new(
        s.len(),
        |k: int|
            if k == i {
                s[m]
            } else if i < k <= m {
                s[k - 1]
            } else {
                s[k]
            },
    )
}

/// Scores and colors after the first `i` places are settled.
pub open spec fn ranked(s: Seq<int>, o: Seq<u8>, n: int, i: int) -> (Seq<int>, Seq<u8>)
    decreases i,
{
    if i <= 0 {
        (s, o)
    } else {
        let (s1, o1) = ranked(s, o, n, i - 1);
        let m = first_max(s1, i - 1, n);
        (lifted(s1, i - 1, m), lifted(o1, i - 1, m))
    }
}

/// The colors in order of their number.
pub open spec fn plain_order() -> Seq<u8> {
    Seq::new(8, |k: int| k as u8)
}

/// The hash of the three best scores.
pub open spec fn score_hash(s: Seq<int>) -> int {
    s[0] + 2 * s[1] + 2 * s[2]
}

/// The context of a sample and the colors in the order of their symbols.
#[verifier::opaque]
pub open spec fn color_context(map: Seq<u8>, stride: int, r: int, c: int, n: int) -> (
    int,
    Seq<u8>,
) {
    let (s, o) = ranked(color_scores(map, stride, r, c), plain_order(), n, 3);
    let v = PALETTE_COLOR_CONTEXT[score_hash(s)] as int;
    (
        if v < 0 {
            0
        } else {
            v
        },
        o,
    )
}

/// The sum of all scores.
pub open spec fn score_sum(s: Seq<int>) -> int {
    s[0] + s[1] + s[2] + s[3] + s[4] + s[5] + s[6] + s[7]
}

proof fn lemma_first_max(s: Seq<int>, i: int, n: int)
    requires
        0 <= i < 8,
        s.len() == 8,
        n <= 8,
    ensures
        i <= first_max(s, i, n) < 8,
        i < n ==> first_max(s, i, n) < n,
        n <= i ==> first_max(s, i, n) == i,
        forall|k: int| i <= k < n ==> #[trigger] s[k] <= s[first_max(s, i, n)],
    decreases n - i,
{
    if n > i + 1 {
        lemma_first_max(s, i, n - 1);
    }
}

/// What holds of the scores once the first `i` places are settled: they are not
/// negative, add up as before, and the settled ones are the largest, in order.
spec fn settled(s: Seq<int>, total: int, n: int, i: int) -> bool {
    &&& s.len() == 8
    &&& score_sum(s) == total
    &&& forall|k: int| 0 <= k < 8 ==> 0 <= #[trigger] s[k]
    &&& forall|k: int| n <= k < 8 ==> #[trigger] s[k] == 0
    &&& forall|j: int, k: int| 0 <= j < i && j < k < 8 ==> #[trigger] s[k] <= #[trigger] s[j]
}

proof fn lemma_lift_scores(s: Seq<int>, total: int, n: int, i: int)
    requires
        settled(s, total, n, i),
        0 <= i < 3,
        2 <= n <= 8,
    ensures
        settled(lifted(s, i, first_max(s, i, n)), total, n, i + 1),
{
    let m = first_max(s, i, n);
    lemma_first_max(s, i, n);
    let t = lifted(s, i, m);
    assert(score_sum(t) == total) by {
        if m == i {
        } else if m == 1 {
        } else if m == 2 {
        } else if m == 3 {
        } else if m == 4 {
        } else if m == 5 {
        } else if m == 6 {
        } else {
            assert(m == 7);
        }
    }
    assert forall|j: int, k: int| 0 <= j < i + 1 && j < k < 8 implies #[trigger] t[k]
        <= #[trigger] t[j] by {
        if j == i {
            if i < n {
                assert(s[m] >= 0);
                if k <= m {
                    assert(t[k] == s[k - 1]);
                    assert(s[k - 1] <= s[m]);
                } else if k < n {
                    assert(s[k] <= s[m]);
                }
            }
        } else {
            if i < k <= m {
                assert(s[k - 1] <= s[j]);
            } else if k == i {
                assert(s[m] <= s[j]);
            } else {
                assert(s[k] <= s[j]);
            }
        }
    }
}

/// What holds of the colors: the first `n` places hold colors below `n`.
pub open spec fn colors_below(o: Seq<u8>, n: int) -> bool {
    &&& o.len() == 8
    &&& forall|k: int| 0 <= k < n ==> #[trigger] o[k] < n
}

proof fn lemma_ranked(s: Seq<int>, o: Seq<u8>, total: int, n: int, i: int)
    requires
        settled(s, total, n, 0),
        colors_below(o, n),
        0 <= i <= 3,
        2 <= n <= 8,
    ensures
        settled(ranked(s, o, n, i).0, total, n, i),
        colors_below(ranked(s, o, n, i).1, n),
    decreases i,
{
    if i > 0 {
        lemma_ranked(s, o, total, n, i - 1);
        let (s1, o1) = ranked(s, o, n, i - 1);
        lemma_lift_scores(s1, total, n, i - 1);
        lemma_first_max(s1, i - 1, n);
    }
}

/// The samples around a position name colors below `n`.
pub open spec fn neighbours_below(map: Seq<u8>, stride: int, r: int, c: int, n: int) -> bool {
    &&& c > 0 ==> map[r * stride + c - 1] < n
    &&& r > 0 && c > 0 ==> map[(r - 1) * stride + c - 1] < n
    &&& r > 0 ==> map[(r - 1) * stride + c] < n
}

proof fn lemma_hits(there: bool, v: u8, w: int)
    requires
        there ==> v < 8,
    ensures
        hit(there, v, w, 0) + hit(there, v, w, 1) + hit(there, v, w, 2) + hit(there, v, w, 3) + hit(
            there,
            v,
            w,
            4,
        ) + hit(there, v, w, 5) + hit(there, v, w, 6) + hit(there, v, w, 7) == if there {
            w
        } else {
            0
        },
{
}

/// The number of points that the neighbours give in all.
spec fn all_points(r: int, c: int) -> int {
    (if c > 0 {
        2int
    } else {
        0
    }) + (if r > 0 && c > 0 {
        1int
    } else {
        0
    }) + (if r > 0 {
        2int
    } else {
        0
    })
}

proof fn lemma_scores(map: Seq<u8>, stride: int, r: int, c: int, n: int)
    requires
        0 <= r,
        0 <= c,
        2 <= n <= 8,
        neighbours_below(map, stride, r, c, n),
    ensures
        settled(color_scores(map, stride, r, c), all_points(r, c), n, 0),
{
    let s = color_scores(map, stride, r, c);
    let a = map[r * stride + c - 1];
    let b = map[(r - 1) * stride + c - 1];
    let d = map[(r - 1) * stride + c];
    lemma_hits(c > 0, a, 2);
    lemma_hits(r > 0 && c > 0, b, 1);
    lemma_hits(r > 0, d, 2);
    assert forall|k: int| 0 <= k < 8 implies #[trigger] s[k] == hit(c > 0, a, 2, k) + hit(
        r > 0 && c > 0,
        b,
        1,
        k,
    ) + hit(r > 0, d, 2, k) by {}
    assert(score_sum(s) == all_points(r, c));
}

/// The context of a sample is one of five, and its first `n` symbols name colors
/// below `n`.
pub proof fn lemma_color_context(map: Seq<u8>, stride: int, r: int, c: int, n: int)
    requires
        0 <= r,
        0 <= c,
        2 <= n <= 8,
        neighbours_below(map, stride, r, c, n),
    ensures
        0 <= color_context(map, stride, r, c, n).0 < 5,
        colors_below(color_context(map, stride, r, c, n).1, n),
        ({
            let s = ranked(color_scores(map, stride, r, c), plain_order(), n, 3).0;
            &&& s.len() == 8
            &&& 0 <= score_hash(s) <= 8
        }),
{
    reveal(color_context);
    lemma_scores(map, stride, r, c, n);
    let s0 = color_scores(map, stride, r, c);
    lemma_ranked(s0, plain_order(), score_sum(s0), n, 3);
    let s = ranked(s0, plain_order(), n, 3).0;
    assert(s[1] <= s[0] && s[2] <= s[1]);
    assert(s[0] + s[1] + s[2] <= 5);
    assert(0 <= s[0] && 0 <= s[1] && 0 <= s[2]);
}

/// The scores of all colors, as machine integers.
spec fn narrow_scores(s: Seq<i32>) -> Seq<int> {
    Seq::new(s.len(), |k: int| s[k] as int)
}

/// Moves the entry at `m` to position `i`.
fn lift(scores: &mut [i32; 8], order: &mut [u8; 8], i: usize, m: usize)
    requires
        i <= m < 8,
    ensures
        final(scores)@ == lifted(old(scores)@, i as int, m as int),
        final(order)@ == lifted(old(order)@, i as int, m as int),
{
    let ghost s0 = scores@;
    let ghost o0 = order@;
    let top: i32 = scores[m];
    let color: u8 = order[m];
    let mut k: usize = m;
    while k > i
        invariant
            i <= k <= m < 8,
            s0.len() == 8,
            o0.len() == 8,
            top == s0[m as int],
            color == o0[m as int],
            forall|j: int|
                0 <= j < 8 ==> #[trigger] scores@[j] == if k < j <= m {
                    s0[j - 1]
                } else {
                    s0[j]
                },
            forall|j: int|
                0 <= j < 8 ==> #[trigger] order@[j] == if k < j <= m {
                    o0[j - 1]
                } else {
                    o0[j]
                },
        decreases k,
    {
        scores[k] = scores[k - 1];
        order[k] = order[k - 1];
        k = k - 1;
    }
    scores[i] = top;
    order[i] = color;
    assert(scores@ =~= lifted(s0, i as int, m as int));
    assert(order@ =~= lifted(o0, i as int, m as int));
}

fn best_from(scores: &[i32; 8], i: usize, n: usize) -> (m: usize)
    requires
        i < 8,
        n <= 8,
    ensures
        m == first_max(narrow_scores(scores@), i as int, n as int),
        i <= m < 8,
{
    let ghost s = narrow_scores(scores@);
    let mut m: usize = i;
    let mut j: usize = i + 1;
    while j < n
        invariant
            i < j,
            i < 8,
            n <= 8,
            j <= n || j == i + 1,
            i <= m < 8,
            m < j,
            s == narrow_scores(scores@),
            m == first_max(s, i as int, j as int),
        decreases n - j,
    {
        if scores[j] > scores[m] {
            m = j;
        }
        j = j + 1;
    }
    m
}

/// The context of the sample in row `r` and column `c` of a map, by its neighbours, and
/// the colors in the order of their symbols.
pub fn get_palette_color_context(
    color_map: &[u8],
    stride: usize,
    r: usize,
    c: usize,
    n: usize,
) -> (res: (usize, [u8; 8]))
    requires
        2 <= n <= 8,
        c < stride,
        r * stride + c < color_map@.len(),
        neighbours_below(color_map@, stride as int, r as int, c as int, n as int),
    ensures
        (res.0 as int, res.1@) == color_context(
            color_map@,
            stride as int,
            r as int,
            c as int,
            n as int,
        ),
        res.0 < 5,
        colors_below(res.1@, n as int),
{
    let ghost map = color_map@;
    let ghost st = stride as int;
    proof {
        lemma_color_context(map, st, r as int, c as int, n as int);
        reveal(color_context);
        assert(0 <= r * stride) by (nonlinear_arith);
        assert(r > 0 ==> 0 <= (r - 1) * stride && (r - 1) * stride + stride == r * stride)
            by (nonlinear_arith);
        assert(color_map.len() <= usize::MAX);
    }
    let mut scores: [i32; 8] = [0; 8];
    let mut order: [u8; 8] = [0, 1, 2, 3, 4, 5, 6, 7];
    if c > 0 {
        let v: usize = color_map[r * stride + c - 1] as usize;
        scores[v] = scores[v] + 2;
    }
    if r > 0 && c > 0 {
        let v: usize = color_map[(r - 1) * stride + c - 1] as usize;
        scores[v] = scores[v] + 1;
    }
    if r > 0 {
        let v: usize = color_map[(r - 1) * stride + c] as usize;
        scores[v] = scores[v] + 2;
    }
    let ghost s0 = color_scores(map, st, r as int, c as int);
    proof {
        assert(narrow_scores(scores@) =~= s0);
        assert(order@ =~= plain_order());
    }
    let mut i: usize = 0;
    while i < 3
        invariant
            i <= 3,
            2 <= n <= 8,
            ranked(s0, plain_order(), n as int, i as int) == (narrow_scores(scores@), order@),
        decreases 3 - i,
    {
        let m: usize = best_from(&scores, i, n);
        let ghost before = scores@;
        if m != i {
            lift(&mut scores, &mut order, i, m);
        } else {
            assert(lifted(order@, i as int, m as int) =~= order@);
            assert(lifted(scores@, i as int, m as int) =~= scores@);
        }
        assert(narrow_scores(lifted(before, i as int, m as int)) =~= lifted(
            narrow_scores(before),
            i as int,
            m as int,
        ));
        i = i + 1;
    }
    proof {
        let s = narrow_scores(scores@);
        assert(s[0] == scores@[0] && s[1] == scores@[1] && s[2] == scores@[2]);
        lemma_scores(map, st, r as int, c as int, n as int);
        lemma_ranked(s0, plain_order(), score_sum(s0), n as int, 3);
        assert(s[1] <= s[0] && s[2] <= s[1] && 0 <= s[2]);
        assert(s[0] + s[1] + s[2] <= 5);
    }
    let hash: i32 = scores[0] + 2 * scores[1] + 2 * scores[2];
    let v: i32 = PALETTE_COLOR_CONTEXT[hash as usize];
    let ctx: usize = if v < 0 {
        0
    } else {
        v as usize
    };
    (ctx, order)
}

} // verus!
