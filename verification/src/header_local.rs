//! A frame header is coded in the bytes up to its end: what follows does not matter.
use crate::bits::{bit_at, bits_at, flag_at, lemma_bits_range, lemma_pow2i_mono, pow2i};
use crate::frame::{
    back_model, header_model, header_outcome, restoration_end, FrameHeader, FrameType,
};
use crate::header_parts::{
    aligned, cdef_model, counted, counted_end, delta_at, delta_len, delta_pos, deltas_model,
    feature_at, feature_bits, feature_pos, feature_used, feature_value, frame_size_model,
    gm_abs_bits, gm_arrays, gm_end, gm_model, gm_param, gm_param_end, gm_pos, grain_end,
    grain_points, grain_tail, hints_model, kind_model, lemma_back_ends, lemma_counted,
    lemma_delta_pos, lemma_feature_pos, lemma_frame_size, lemma_gm_end, lemma_gm_param_end,
    lemma_gm_pos, lemma_grain, lemma_header_ends, lemma_ns_range, lemma_removal_bits,
    lemma_sb_count, lemma_subexp, loop_model, lr_end, max_side_log2, min_cols_log2, min_tiles_log2,
    ns_len, ns_value, opt, padding_clear, quant_model, refs_model, sb_count, seg_arrays, seg_model,
    strength_at, subexp_bits, subexp_end, subexp_value, tile_model, type_is_intra, KindModel,
    RefsModel, SegModel,
};
use crate::obu::SequenceHeaderObu;
use vstd::prelude::*;

verus! {

/// Two byte strings have the same bits before bit `n`.
pub open spec fn agree(d: Seq<u8>, e: Seq<u8>, n: int) -> bool {
    &&& forall|p: int| p < n ==> #[trigger] bit_at(d, p) == bit_at(e, p)
    &&& forall|p: int| p < n ==> #[trigger] flag_at(d, p) == flag_at(e, p)
    &&& forall|p: int, k: int| p + k <= n ==> #[trigger] bits_at(d, p, k) == bits_at(e, p, k)
}

proof fn lemma_bits_agree(d: Seq<u8>, e: Seq<u8>, p: int, k: int, n: int)
    requires
        forall|q: int| q < n ==> #[trigger] bit_at(d, q) == bit_at(e, q),
        p + k <= n,
    ensures
        bits_at(d, p, k) == bits_at(e, p, k),
    decreases k,
{
    if k > 0 {
        lemma_bits_agree(d, e, p, k - 1, n);
        assert(bit_at(d, p + k - 1) == bit_at(e, p + k - 1));
    }
}

proof fn lemma_agree(d: Seq<u8>, e: Seq<u8>, n: int)
    requires
        forall|q: int| q < n ==> #[trigger] bit_at(d, q) == bit_at(e, q),
    ensures
        agree(d, e, n),
{
    assert forall|p: int| p < n implies #[trigger] flag_at(d, p) == flag_at(e, p) by {
        assert(bit_at(d, p) == bit_at(e, p));
    }
    assert forall|p: int, k: int| p + k <= n implies #[trigger] bits_at(d, p, k) == bits_at(
        e,
        p,
        k,
    ) by {
        lemma_bits_agree(d, e, p, k, n);
    }
}

// ---------------------------------------------------------------------------
// Numbers
// ---------------------------------------------------------------------------

proof fn lemma_ns_local(d: Seq<u8>, e: Seq<u8>, n: int, p: int, m: int)
    requires
        agree(d, e, n),
        p + ns_len(d, p, m) <= n,
    ensures
        ns_len(e, p, m) == ns_len(d, p, m),
        ns_value(e, p, m) == ns_value(d, p, m),
{
}

proof fn lemma_delta_local(d: Seq<u8>, e: Seq<u8>, n: int, p: int)
    requires
        agree(d, e, n),
        p + delta_len(d, p) <= n,
    ensures
        delta_len(e, p) == delta_len(d, p),
        delta_at(e, p) == delta_at(d, p),
{
}

proof fn lemma_counted_local(d: Seq<u8>, e: Seq<u8>, n: int, p: int, v: int, max: int)
    requires
        agree(d, e, n),
        counted_end(d, p, v, max) <= n,
    ensures
        counted_end(e, p, v, max) == counted_end(d, p, v, max),
        counted(e, p, v, max) == counted(d, p, v, max),
    decreases max - v,
{
    lemma_counted(d, p, v, max);
    if v < max {
        if flag_at(d, p) {
            lemma_counted(d, p + 1, v + 1, max);
            lemma_counted_local(d, e, n, p + 1, v + 1, max);
        }
    }
}

proof fn lemma_delta_pos_local(d: Seq<u8>, e: Seq<u8>, n: int, p: int, k: int, last: int)
    requires
        agree(d, e, n),
        0 <= k <= last,
        delta_pos(d, p, last) <= n,
    ensures
        delta_pos(e, p, k) == delta_pos(d, p, k),
        k < last ==> delta_at(e, delta_pos(e, p, k)) == delta_at(d, delta_pos(d, p, k)),
    decreases k,
{
    if k > 0 {
        lemma_delta_pos_local(d, e, n, p, k - 1, last);
        lemma_delta_pos(d, p, k, last);
        lemma_delta_local(d, e, n, delta_pos(d, p, k - 1));
    }
    if k < last {
        lemma_delta_pos(d, p, k + 1, last);
        lemma_delta_local(d, e, n, delta_pos(d, p, k));
    }
}

proof fn lemma_feature_local(d: Seq<u8>, e: Seq<u8>, n: int, p: int, k: int)
    requires
        agree(d, e, n),
        0 <= k <= 64,
        feature_pos(d, p, 64) <= n,
    ensures
        feature_pos(e, p, k) == feature_pos(d, p, k),
        k < 64 ==> flag_at(e, feature_pos(d, p, k)) == flag_at(d, feature_pos(d, p, k)),
        k < 64 && flag_at(d, feature_pos(d, p, k)) ==> feature_at(
            e,
            feature_pos(d, p, k) + 1,
            k % 8,
        ) == feature_at(d, feature_pos(d, p, k) + 1, k % 8),
    decreases k,
{
    if k > 0 {
        lemma_feature_local(d, e, n, p, k - 1);
        lemma_feature_pos(d, p, k, 64);
    }
    if k < 64 {
        lemma_feature_pos(d, p, k + 1, 64);
        let q = feature_pos(d, p, k);
        assert(feature_pos(d, p, k + 1) == q + 1 + opt(flag_at(d, q), feature_bits(k % 8)));
    }
}

proof fn lemma_subexp_local(
    d: Seq<u8>,
    e: Seq<u8>,
    z: int,
    p: int,
    n: int,
    i: int,
    mk: int,
)
    requires
        agree(d, e, z),
        0 <= mk < n,
        0 <= i,
        subexp_end(d, p, n, i, mk) <= z,
    ensures
        subexp_end(e, p, n, i, mk) == subexp_end(d, p, n, i, mk),
        subexp_value(e, p, n, i, mk) == subexp_value(d, p, n, i, mk),
    decreases n - mk,
{
    let a = pow2i(subexp_bits(i));
    lemma_pow2i_mono(0, subexp_bits(i));
    if n <= mk + 3 * a || a <= 0 {
        lemma_ns_local(d, e, z, p, n - mk);
    } else {
        lemma_subexp(d, p, n, i, mk);
        if flag_at(d, p) {
            lemma_subexp(d, p + 1, n, i + 1, mk + a);
            lemma_subexp_local(d, e, z, p + 1, n, i + 1, mk + a);
        }
    }
}

proof fn lemma_param_local(
    d: Seq<u8>,
    e: Seq<u8>,
    n: int,
    p: int,
    idx: int,
    kind: int,
    hp: bool,
)
    requires
        agree(d, e, n),
        gm_param_end(d, p, idx, kind, hp) <= n,
    ensures
        gm_param_end(e, p, idx, kind, hp) == gm_param_end(d, p, idx, kind, hp),
        gm_param(e, p, idx, kind, hp) == gm_param(d, p, idx, kind, hp),
        p <= gm_param_end(d, p, idx, kind, hp),
{
    let m = 2 * pow2i(gm_abs_bits(idx, kind, hp)) + 1;
    lemma_pow2i_mono(0, gm_abs_bits(idx, kind, hp));
    lemma_subexp_local(d, e, n, p, m, 0, 0);
    lemma_gm_param_end(d, p, idx, kind, hp);
}

// ---------------------------------------------------------------------------
// Parts
// ---------------------------------------------------------------------------

proof fn lemma_kind_local(d: Seq<u8>, e: Seq<u8>, n: int, seq: SequenceHeaderObu)
    requires
        agree(d, e, n),
        kind_model(d, seq).end <= n,
    ensures
        kind_model(e, seq) == kind_model(d, seq),
{
    reveal(kind_model);
}

proof fn lemma_hints_local(
    d: Seq<u8>,
    e: Seq<u8>,
    n: int,
    p: int,
    seq: SequenceHeaderObu,
    k: KindModel,
)
    requires
        agree(d, e, n),
        seq.wf(),
        hints_model(d, p, seq, k).end <= n,
    ensures
        hints_model(e, p, seq, k) == hints_model(d, p, seq, k),
{
    reveal(hints_model);
    let b = seq.spec_order_hint_bits();
    lemma_removal_bits(seq, 0, seq.operating_points_cnt_minus_1 + 1);
    assert forall|i: int| 0 <= i < 8 implies 0 <= #[trigger] (i * b) && i * b + b <= 8 * b by {
        assert(0 <= i * b && i * b + b <= 8 * b) by (nonlinear_arith)
            requires
                0 <= i < 8,
                0 <= b,
        ;
    }
    assert(hints_model(e, p, seq, k).ref_order_hint =~= hints_model(d, p, seq, k).ref_order_hint);
}

proof fn lemma_size_local(
    d: Seq<u8>,
    e: Seq<u8>,
    n: int,
    p: int,
    seq: SequenceHeaderObu,
    overridden: bool,
)
    requires
        agree(d, e, n),
        seq.wf(),
        frame_size_model(d, p, seq, overridden).end <= n,
    ensures
        frame_size_model(e, p, seq, overridden) == frame_size_model(d, p, seq, overridden),
{
    reveal(frame_size_model);
    let max_w = seq.max_frame_width_minus_1 + 1;
    let max_h = seq.max_frame_height_minus_1 + 1;
    let m = frame_size_model(d, p, seq, overridden);
    lemma_frame_size(d, p, seq, overridden);
    lemma_ns_range(d, p, max_w);
    let p1 = p + opt(overridden, ns_len(d, p, max_w));
    lemma_ns_range(d, p1, max_h);
    let p2 = p1 + opt(overridden, ns_len(d, p1, max_h));
    let full = !seq.reduced_still_picture_header;
    let render = full && flag_at(d, p2);
    let p3 = p2 + opt(full, 1);
    lemma_ns_range(d, p3, m.width);
    let p4 = p3 + opt(render, ns_len(d, p3, m.width));
    lemma_ns_range(d, p4, m.height);
    if overridden {
        lemma_ns_local(d, e, n, p, max_w);
        lemma_ns_local(d, e, n, p1, max_h);
    }
    if render {
        lemma_ns_local(d, e, n, p3, m.width);
        lemma_ns_local(d, e, n, p4, m.height);
    }
}

proof fn lemma_refs_local(
    d: Seq<u8>,
    e: Seq<u8>,
    n: int,
    p: int,
    seq: SequenceHeaderObu,
    k: KindModel,
)
    requires
        agree(d, e, n),
        seq.wf(),
        refs_model(d, p, seq, k).end <= n,
    ensures
        refs_model(e, p, seq, k) == refs_model(d, p, seq, k),
{
    reveal(refs_model);
    if type_is_intra(k.frame_type) {
        lemma_frame_size(d, p, seq, k.frame_size_override_flag);
        lemma_size_local(d, e, n, p, seq, k.frame_size_override_flag);
    } else {
        let short = seq.enable_order_hint && flag_at(d, p);
        let p2 = p + opt(seq.enable_order_hint, 1) + if short {
            6int
        } else {
            21
        };
        let o = k.frame_size_override_flag && !k.error_resilient_mode;
        lemma_frame_size(d, p2, seq, o);
        lemma_size_local(d, e, n, p2, seq, o);
        assert(refs_model(e, p, seq, k).ref_frame_idx =~= refs_model(d, p, seq, k).ref_frame_idx);
    }
}

proof fn lemma_tile_local(
    d: Seq<u8>,
    e: Seq<u8>,
    n: int,
    p: int,
    width: int,
    height: int,
    use_128: bool,
)
    requires
        agree(d, e, n),
        1 <= width <= 0x1_0000,
        1 <= height <= 0x1_0000,
        tile_model(d, p, width, height, use_128).end <= n,
    ensures
        tile_model(e, p, width, height, use_128) == tile_model(d, p, width, height, use_128),
{
    reveal(tile_model);
    let sb_cols = sb_count(width, use_128);
    let sb_rows = sb_count(height, use_128);
    lemma_sb_count(width, use_128);
    lemma_sb_count(height, use_128);
    let min_cols = min_cols_log2(sb_cols, use_128);
    let max_cols = max_side_log2(sb_cols);
    lemma_counted(d, p + 1, min_cols, max_cols);
    let p1 = counted_end(d, p + 1, min_cols, max_cols);
    let c = counted(d, p + 1, min_cols, max_cols);
    let min_tiles = min_tiles_log2(sb_cols, sb_rows, use_128);
    let min_rows = if min_tiles >= c {
        min_tiles - c
    } else {
        0
    };
    lemma_counted(d, p1, min_rows, max_side_log2(sb_rows));
    lemma_ns_range(d, p + 2, sb_cols);
    let q1 = p + 2 + ns_len(d, p + 2, sb_cols);
    lemma_ns_range(d, q1 + 1, sb_rows);
    if flag_at(d, p) {
        lemma_counted_local(d, e, n, p + 1, min_cols, max_cols);
        lemma_counted_local(d, e, n, p1, min_rows, max_side_log2(sb_rows));
    } else {
        lemma_ns_local(d, e, n, p + 2, sb_cols);
        lemma_ns_local(d, e, n, q1 + 1, sb_rows);
    }
}

proof fn lemma_quant_local(
    d: Seq<u8>,
    e: Seq<u8>,
    n: int,
    p: int,
    chroma: bool,
    separate_uv: bool,
)
    requires
        agree(d, e, n),
        quant_model(d, p, chroma, separate_uv).end <= n,
    ensures
        quant_model(e, p, chroma, separate_uv) == quant_model(d, p, chroma, separate_uv),
{
    reveal(quant_model);
    let p1 = p + 8;
    let p2 = p1 + delta_len(d, p1);
    lemma_delta_local(d, e, n, p1);
    let differs = chroma && separate_uv && flag_at(d, p2);
    let p3 = p2 + opt(chroma && separate_uv, 1);
    let p4 = p3 + opt(chroma, delta_len(d, p3));
    let p5 = p4 + opt(chroma, delta_len(d, p4));
    let p6 = p5 + opt(differs, delta_len(d, p5));
    if chroma {
        lemma_delta_local(d, e, n, p3);
        lemma_delta_local(d, e, n, p4);
    }
    if differs {
        lemma_delta_local(d, e, n, p5);
        lemma_delta_local(d, e, n, p6);
    }
}

proof fn lemma_seg_local(d: Seq<u8>, e: Seq<u8>, n: int, p: int, primary: int)
    requires
        agree(d, e, n),
        seg_model(d, p, primary).end <= n,
    ensures
        seg_model(e, p, primary) == seg_model(d, p, primary),
{
    reveal(seg_model);
    let m = seg_model(d, p, primary);
    lemma_feature_pos(d, m.grid, 0, 64);
    if m.update_data {
        lemma_feature_local(d, e, n, m.grid, 64);
    }
}

proof fn lemma_seg_arrays_local(
    d: Seq<u8>,
    e: Seq<u8>,
    n: int,
    m: SegModel,
    on: [bool; 8],
    data: [[i16; 8]; 8],
)
    requires
        agree(d, e, n),
        m.update_data ==> feature_pos(d, m.grid, 64) <= n,
    ensures
        seg_arrays(e, m, on, data) == seg_arrays(d, m, on, data),
{
    reveal(seg_arrays);
    if m.update_data {
        assert forall|i: int, j: int| 0 <= i < 8 && 0 <= j < 8 implies #[trigger] feature_value(
            e,
            m.grid,
            i,
            j,
        ) == feature_value(d, m.grid, i, j) by {
            lemma_feature_local(d, e, n, m.grid, 8 * i + j);
            assert((8 * i + j) % 8 == j);
        }
        assert forall|j: int| 0 <= j < 8 implies #[trigger] feature_used(e, m.grid, j, 8)
            == feature_used(d, m.grid, j, 8) by {
            lemma_used_local(d, e, n, m.grid, j);
        }
    }
}

proof fn lemma_used_local(d: Seq<u8>, e: Seq<u8>, n: int, p: int, j: int)
    requires
        agree(d, e, n),
        0 <= j < 8,
        feature_pos(d, p, 64) <= n,
    ensures
        feature_used(e, p, j, 8) == feature_used(d, p, j, 8),
{
    if feature_used(d, p, j, 8) {
        let i = choose|i: int| 0 <= i < 8 && flag_at(d, #[trigger] feature_pos(d, p, 8 * i + j));
        lemma_feature_local(d, e, n, p, 8 * i + j);
        assert(flag_at(e, feature_pos(e, p, 8 * i + j)));
    }
    if feature_used(e, p, j, 8) {
        let i = choose|i: int| 0 <= i < 8 && flag_at(e, #[trigger] feature_pos(e, p, 8 * i + j));
        lemma_feature_local(d, e, n, p, 8 * i + j);
        assert(flag_at(d, feature_pos(d, p, 8 * i + j)));
    }
}

proof fn lemma_deltas_local(
    d: Seq<u8>,
    e: Seq<u8>,
    n: int,
    p: int,
    q: int,
    allow_intrabc: bool,
)
    requires
        agree(d, e, n),
        deltas_model(d, p, q, allow_intrabc).end <= n,
    ensures
        deltas_model(e, p, q, allow_intrabc) == deltas_model(d, p, q, allow_intrabc),
{
    reveal(deltas_model);
}

proof fn lemma_loop_local(d: Seq<u8>, e: Seq<u8>, n: int, p: int, off: bool, chroma: bool)
    requires
        agree(d, e, n),
        loop_model(d, p, off, chroma).end <= n,
    ensures
        loop_model(e, p, off, chroma) == loop_model(d, p, off, chroma),
{
    reveal(loop_model);
    if !off {
        let l0 = bits_at(d, p, 6);
        let l1 = bits_at(d, p + 6, 6);
        let more = chroma && (l0 != 0 || l1 != 0);
        let p1 = p + 12 + opt(more, 12);
        let enabled = flag_at(d, p1 + 3);
        let p2 = p1 + 4 + opt(enabled, 1);
        let update = enabled && flag_at(d, p1 + 4);
        lemma_delta_pos(d, p2, 0, 10);
        if update {
            lemma_delta_pos_local(d, e, n, p2, 10, 10);
            assert forall|i: int| 0 <= i < 10 implies delta_at(e, #[trigger] delta_pos(e, p2, i))
                == delta_at(d, delta_pos(d, p2, i)) by {
                lemma_delta_pos_local(d, e, n, p2, i, 10);
            }
        }
        let a = loop_model(d, p, off, chroma);
        let b = loop_model(e, p, off, chroma);
        assert(a.level =~= b.level);
        assert(a.ref_deltas =~= b.ref_deltas);
        assert(a.mode_deltas =~= b.mode_deltas);
    }
}

proof fn lemma_cdef_local(d: Seq<u8>, e: Seq<u8>, n: int, p: int, off: bool, chroma: bool)
    requires
        agree(d, e, n),
        cdef_model(d, p, off, chroma).end <= n,
    ensures
        cdef_model(e, p, off, chroma) == cdef_model(d, p, off, chroma),
{
    reveal(cdef_model);
    if !off {
        let bits = bits_at(d, p + 2, 2);
        lemma_bits_range(d, p + 2, 2);
        lemma_pow2i_mono(0, bits);
        let k = pow2i(bits);
        let a = cdef_model(d, p, off, chroma);
        let b = cdef_model(e, p, off, chroma);
        assert forall|q: int| q + 6 <= n implies #[trigger] strength_at(e, q) == strength_at(d, q) by {}
        assert(a.y =~= b.y);
        assert(a.uv =~= b.uv);
    }
}

proof fn lemma_gm_local(d: Seq<u8>, e: Seq<u8>, n: int, p: int, hp: bool)
    requires
        agree(d, e, n),
        gm_model(d, p, hp).end <= n,
    ensures
        gm_model(e, p, hp) == gm_model(d, p, hp),
{
    reveal(gm_model);
    lemma_gm_end(d, p, hp);
    if flag_at(d, p) {
        let m = gm_model(d, p, hp);
        let kind = m.kind;
        let rotzoom = flag_at(d, p + 1);
        let affine = kind == crate::frame::GM_AFFINE;
        let matrix = rotzoom || affine;
        let q = p + 2 + opt(!rotzoom, 1);
        lemma_gm_param_end(d, q, 2, kind, hp);
        let q2 = if matrix {
            gm_param_end(d, q, 2, kind, hp)
        } else {
            q
        };
        lemma_gm_param_end(d, q2, 3, kind, hp);
        let q3 = if matrix {
            gm_param_end(d, q2, 3, kind, hp)
        } else {
            q2
        };
        lemma_gm_param_end(d, q3, 4, kind, hp);
        let q4 = if affine {
            gm_param_end(d, q3, 4, kind, hp)
        } else {
            q3
        };
        lemma_gm_param_end(d, q4, 5, kind, hp);
        let q5 = if affine {
            gm_param_end(d, q4, 5, kind, hp)
        } else {
            q4
        };
        lemma_gm_param_end(d, q5, 0, kind, hp);
        let q0 = gm_param_end(d, q5, 0, kind, hp);
        lemma_gm_param_end(d, q0, 1, kind, hp);
        if matrix {
            lemma_param_local(d, e, n, q, 2, kind, hp);
            lemma_param_local(d, e, n, q2, 3, kind, hp);
        }
        if affine {
            lemma_param_local(d, e, n, q3, 4, kind, hp);
            lemma_param_local(d, e, n, q4, 5, kind, hp);
        }
        lemma_param_local(d, e, n, q5, 0, kind, hp);
        lemma_param_local(d, e, n, q0, 1, kind, hp);
        assert(gm_model(e, p, hp).params =~= m.params);
    }
}

proof fn lemma_gm_pos_local(d: Seq<u8>, e: Seq<u8>, n: int, p: int, hp: bool, k: int)
    requires
        agree(d, e, n),
        1 <= k <= 8,
        gm_pos(d, p, hp, 8) <= n,
    ensures
        gm_pos(e, p, hp, k) == gm_pos(d, p, hp, k),
        k < 8 ==> gm_model(e, gm_pos(d, p, hp, k), hp) == gm_model(d, gm_pos(d, p, hp, k), hp),
    decreases k,
{
    if k > 1 {
        lemma_gm_pos_local(d, e, n, p, hp, k - 1);
    }
    if k < 8 {
        lemma_gm_pos(d, p, hp, k + 1, 8);
        lemma_gm_local(d, e, n, gm_pos(d, p, hp, k), hp);
    }
}

proof fn lemma_gm_arrays_local(
    d: Seq<u8>,
    e: Seq<u8>,
    n: int,
    p: int,
    intra: bool,
    hp: bool,
    kinds: [u8; 8],
    params: [[i32; 6]; 8],
)
    requires
        agree(d, e, n),
        gm_end(d, p, intra, hp) <= n,
    ensures
        gm_arrays(e, p, intra, hp, kinds, params) == gm_arrays(d, p, intra, hp, kinds, params),
{
    reveal(gm_arrays);
    if !intra {
        assert forall|k: int| 1 <= k < 8 implies gm_model(e, #[trigger] gm_pos(e, p, hp, k), hp)
            == gm_model(d, gm_pos(d, p, hp, k), hp) by {
            lemma_gm_pos_local(d, e, n, p, hp, k);
        }
    }
}

proof fn lemma_grain_local(
    d: Seq<u8>,
    e: Seq<u8>,
    n: int,
    p: int,
    off: bool,
    t: FrameType,
    mono: bool,
    subsampled: bool,
)
    requires
        agree(d, e, n),
        grain_end(d, p, off, t, mono, subsampled) <= n,
    ensures
        grain_end(e, p, off, t, mono, subsampled) == grain_end(d, p, off, t, mono, subsampled),
        p <= grain_end(d, p, off, t, mono, subsampled),
{
    reveal(grain_end);
    let q = p + 17 + opt(t == FrameType::InterFrame, 1);
    lemma_grain(d, q, mono, subsampled);
    if !off && flag_at(d, p) {
        let m = grain_points(d, q, mono, subsampled);
        lemma_tail_floor(d, m);
        lemma_points_local(d, e, n, q, mono, subsampled);
        reveal(grain_tail);
    }
}

proof fn lemma_tail_floor(d: Seq<u8>, m: crate::header_parts::PointsModel)
    ensures
        m.end + 10 <= grain_tail(d, m),
{
    reveal(grain_tail);
    let lag = bits_at(d, m.end + 2, 2);
    lemma_bits_range(d, m.end + 2, 2);
    assert(0 <= 2 * lag * (lag + 1)) by (nonlinear_arith)
        requires
            0 <= lag,
    ;
}

proof fn lemma_points_local(
    d: Seq<u8>,
    e: Seq<u8>,
    n: int,
    p: int,
    mono: bool,
    subsampled: bool,
)
    requires
        agree(d, e, n),
        grain_points(d, p, mono, subsampled).end <= n,
    ensures
        grain_points(e, p, mono, subsampled) == grain_points(d, p, mono, subsampled),
{
    reveal(grain_points);
    let luma = bits_at(d, p, 4);
    lemma_bits_range(d, p, 4);
    let p1 = p + 4 + 16 * luma;
    let p2 = p1 + opt(!mono, 1);
    lemma_bits_range(d, p2, 4);
    let from_luma = !mono && flag_at(d, p1);
    let chroma = !mono && !from_luma && !(subsampled && luma == 0);
    let cb = opt(chroma, bits_at(d, p2, 4));
    let p3 = p2 + opt(chroma, 4 + 16 * cb);
    lemma_bits_range(d, p3, 4);
}

proof fn lemma_back_local(
    d: Seq<u8>,
    e: Seq<u8>,
    n: int,
    p: int,
    seq: SequenceHeaderObu,
    kind: KindModel,
    refs: RefsModel,
    lossless: bool,
)
    requires
        agree(d, e, n),
        back_model(d, p, seq, kind, refs, lossless).end <= n,
    ensures
        back_model(e, p, seq, kind, refs, lossless) == back_model(d, p, seq, kind, refs, lossless),
{
    lemma_back_ends(d, p, seq, kind, refs, lossless);
    reveal(back_model);
    let m = back_model(d, p, seq, kind, refs, lossless);
    let intra = type_is_intra(kind.frame_type);
    let hp = refs.allow_high_precision_mv;
    assert(restoration_end(e, p, seq, refs, lossless) == restoration_end(
        d,
        p,
        seq,
        refs,
        lossless,
    )) by {
        reveal(lr_end);
    }
    if !intra {
        lemma_gm_pos_local(d, e, n, m.gm, hp, 8);
    }
    lemma_grain_local(
        d,
        e,
        n,
        gm_end(d, m.gm, intra, hp),
        !seq.film_grain_params_present || (!kind.show_frame && !kind.showable_frame),
        kind.frame_type,
        seq.color_config.mono_chrome,
        seq.color_config.subsampling_x && seq.color_config.subsampling_y,
    );
}

proof fn lemma_model_local(d: Seq<u8>, e: Seq<u8>, n: int, seq: SequenceHeaderObu)
    requires
        agree(d, e, n),
        seq.wf(),
        header_model(d, seq).end <= n,
    ensures
        header_model(e, seq) == header_model(d, seq),
{
    lemma_header_ends(d, seq);
    let m = header_model(d, seq);
    let chroma = !seq.color_config.mono_chrome;
    lemma_kind_local(d, e, n, seq);
    lemma_hints_local(d, e, n, m.kind.end, seq, m.kind);
    crate::header_parts::lemma_refs_end(d, m.hints.end, seq, m.kind);
    lemma_refs_local(d, e, n, m.hints.end, seq, m.kind);
    let t = m.refs.end + opt(!(seq.reduced_still_picture_header || m.kind.disable_cdf_update), 1);
    crate::header_parts::lemma_tile_end(
        d,
        t,
        m.refs.size.width,
        m.refs.size.height,
        seq.use_128x128_superblock,
    );
    lemma_tile_local(
        d,
        e,
        n,
        t,
        m.refs.size.width,
        m.refs.size.height,
        seq.use_128x128_superblock,
    );
    lemma_quant_local(d, e, n, m.tile.end, chroma, seq.color_config.separate_uv_delta_q);
    lemma_seg_local(d, e, n, m.quant.end, m.hints.primary_ref_frame);
    lemma_deltas_local(d, e, n, m.seg.end, m.quant.base_q_idx, m.refs.allow_intrabc);
    let off = m.lossless || m.refs.allow_intrabc;
    lemma_loop_local(d, e, n, m.deltas.end, off, chroma);
    lemma_cdef_local(d, e, n, m.filter.end, off || !seq.enable_cdef, chroma);
    lemma_back_local(d, e, n, m.cdef.end, seq, m.kind, m.refs, m.lossless);
}

// ---------------------------------------------------------------------------
// The law
// ---------------------------------------------------------------------------

/// A frame header that parses ends at a byte of its payload, and only the bytes up to
/// there matter: whatever bytes follow them, the header and its end are the same. So the
/// bytes behind it are just the tile group of a frame unit.
pub proof fn law_header_local(d: Seq<u8>, tail: Seq<u8>, seq: SequenceHeaderObu)
    requires
        seq.wf(),
        header_outcome(d, seq) is Ok,
    ensures
        ({
            let bits = header_outcome(d, seq)->Ok_0;
            let e = d.take(bits / 8) + tail;
            &&& bits % 8 == 0
            &&& 0 <= bits <= 8 * d.len()
            &&& header_model(e, seq) == header_model(d, seq)
            &&& header_outcome(e, seq) == header_outcome(d, seq)
            &&& forall|h: FrameHeader| #[trigger] h.coded_in(e, seq) == h.coded_in(d, seq)
        }),
{
    let m = header_model(d, seq);
    lemma_header_ends(d, seq);
    let bits = aligned(m.end);
    let e = d.take(bits / 8) + tail;
    assert(m.end <= bits && bits % 8 == 0);
    assert(bits <= 8 * d.len());
    assert forall|q: int| q < bits implies #[trigger] bit_at(d, q) == bit_at(e, q) by {
        reveal(bit_at);
        if q >= 0 {
            assert(e[q / 8] == d[q / 8]);
        }
    }
    lemma_agree(d, e, bits);
    lemma_model_local(d, e, bits, seq);
    assert(padding_clear(e, m.end)) by {
        assert forall|q: int| m.end <= q < aligned(m.end) implies #[trigger] bit_at(e, q) == 0 by {
            assert(bit_at(d, q) == 0);
        }
    }
    lemma_back_ends(d, m.cdef.end, seq, m.kind, m.refs, m.lossless);
    assert(m.seg.update_data ==> feature_pos(d, m.seg.grid, 64) == m.seg.end) by {
        reveal(seg_model);
    }
    assert forall|h: FrameHeader| #[trigger] h.coded_in(e, seq) == h.coded_in(d, seq) by {
        lemma_seg_arrays_local(
            d,
            e,
            bits,
            m.seg,
            h.seg_feature_enabled,
            h.seg_feature_data,
        );
        lemma_gm_arrays_local(
            d,
            e,
            bits,
            m.back.gm,
            type_is_intra(m.kind.frame_type),
            m.refs.allow_high_precision_mv,
            h.gm_type,
            h.gm_params,
        );
    }
}

} // verus!
