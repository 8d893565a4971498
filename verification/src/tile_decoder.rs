//! Decoding a tile block by block.
use crate::blocks::{
    lemma_block_dims, mi_height_log2, mi_width_log2, split_into_subblocks, SubBlock, BLOCK_128X128,
    BLOCK_16X16, BLOCK_32X32, BLOCK_64X64, BLOCK_8X8, BLOCK_HEIGHT, BLOCK_WIDTH,
    PARTITION_CDF_LOOKUP, PARTITION_HORZ, PARTITION_SPLIT, PARTITION_VERT,
};
use crate::coeff::{CoeffContexts, CtxModel, TileCdfs};
use crate::coeff_tables::{lemma_tx_dims, TX_HEIGHT, TX_WIDTH};
use crate::entropy::{sym_init, SymbolDecoder};
use crate::error::KinetixError;
use crate::inter::{RefFrames, INTERP_BILINEAR, INTERP_SWITCHABLE};
use crate::inter_block::{
    add_chroma_residual, add_luma_residual, inter_predict_plane, read_motion, refs_model, refs_wf,
    InterJob, Motion,
};
use crate::inter_cdfs::{initial_inters, InterCdfs};
use crate::intra_block::{
    reconstruct_chroma, reconstruct_luma, record_transform, IntraJob,
};
use crate::intra_syntax::{block_chroma, read_info, read_luma_tx, IntraInfo, TileConfig};
use crate::loop_filter::FrameMeta;
use crate::mode_cdfs::{initial_modes, ModeCdfs, ModeDefaults};
use crate::sides::{fresh_sides, lemma_sides_kept, mark_ok, Mark, Neighbour, Sides};
use crate::tile::{
    chroma_motion, ends, filter_of, inter_block, inter_from, inter_residual, intra_block,
    intra_chroma, intra_from, intra_in_inter, intra_samples, is_inter_key, leaf, leaves,
    left_by_inter, left_by_intra, partition_ctx, partition_of, predicted, sized, skip_of, square,
    superblock, tree, Tile,
};
use vstd::prelude::*;

verus! {

/// A tile that is being decoded.
pub struct TileDecodeState<'a> {
    pub cfg: TileConfig,
    pub dec: SymbolDecoder<'a>,
    pub coeff_cdfs: TileCdfs,
    pub mode_cdfs: ModeCdfs,
    pub inter_cdfs: InterCdfs,
    pub coeff_ctxs: CoeffContexts,
    pub sides: Sides,
    pub y_plane: Vec<u8>,
    pub u_plane: Vec<u8>,
    pub v_plane: Vec<u8>,
    pub meta: FrameMeta,
    pub refs: RefFrames<'a>,
}

/// The contexts before a block is decoded.
pub open spec fn fresh_contexts(cols: int, rows: int) -> CtxModel {
    CtxModel {
        above_level: crate::coeff::zero_rows(cols),
        above_dc: crate::coeff::zero_rows(cols),
        left_level: crate::coeff::zero_rows(rows),
        left_dc: crate::coeff::zero_rows(rows),
    }
}

/// A tile before a block is decoded.
pub open spec fn fresh_tile(
    data: Seq<u8>,
    offset: int,
    cfg: TileConfig,
    y: Seq<u8>,
    u: Seq<u8>,
    v: Seq<u8>,
    meta: crate::loop_filter::MetaModel,
    coef: TileCdfs,
    modes: ModeDefaults,
) -> Tile {
    Tile {
        sym: sym_init(data, offset),
        coef: coef@,
        mode: initial_modes(modes),
        inter: initial_inters(),
        ctx: fresh_contexts(cfg.cols(), cfg.rows()),
        sides: fresh_sides(cfg.cols(), cfg.rows()),
        y,
        u,
        v,
        meta,
    }
}

impl<'a> TileDecodeState<'a> {
    /// The state of the tile.
    pub open spec fn model(self) -> Tile {
        Tile {
            sym: self.dec@,
            coef: self.coeff_cdfs@,
            mode: self.mode_cdfs@,
            inter: self.inter_cdfs@,
            ctx: self.coeff_ctxs@,
            sides: self.sides@,
            y: self.y_plane@,
            u: self.u_plane@,
            v: self.v_plane@,
            meta: self.meta@,
        }
    }

    /// Tables that are probability tables, sides that cover the frame, references with
    /// planes of their size.
    pub open spec fn wf(self) -> bool {
        &&& self.cfg.wf()
        &&& self.dec@.wf()
        &&& self.coeff_cdfs.wf()
        &&& self.mode_cdfs.wf()
        &&& self.inter_cdfs.wf()
        &&& self.sides@.wf(self.cfg.cols(), self.cfg.rows())
        &&& refs_wf(self.refs)
        &&& self.meta.wf()
    }

    /// The tile is still the same one.
    pub open spec fn continues(self, before: Self) -> bool {
        &&& self.wf()
        &&& self.cfg == before.cfg
        &&& self.refs == before.refs
        &&& self.y_plane@.len() == before.y_plane@.len()
        &&& self.u_plane@.len() == before.u_plane@.len()
        &&& self.v_plane@.len() == before.v_plane@.len()
        &&& self.meta.w8 == before.meta.w8
        &&& self.meta.h8 == before.meta.h8
    }

    /// A tile whose data start `bit_offset` bits into `data`.
    pub fn new(
        data: &'a [u8],
        bit_offset: usize,
        cfg: TileConfig,
        y_plane: Vec<u8>,
        u_plane: Vec<u8>,
        v_plane: Vec<u8>,
        meta: FrameMeta,
        refs: RefFrames<'a>,
        coeff_defaults: &[TileCdfs; 4],
        mode_defaults: &ModeDefaults,
    ) -> (r: Self)
        requires
            cfg.wf(),
            refs_wf(refs),
            meta.wf(),
            8 * data@.len() <= usize::MAX,
            8 * data@.len() <= i64::MAX,
            forall|i: int| 0 <= i < 4 ==> (#[trigger] coeff_defaults[i]).wf(),
            mode_defaults.wf(),
        ensures
            r.wf(),
            r.cfg == cfg,
            r.refs == refs,
            r.meta == meta,
            r.model() == fresh_tile(
                data@,
                bit_offset as int,
                cfg,
                y_plane@,
                u_plane@,
                v_plane@,
                meta@,
                coeff_defaults[crate::coeff::q_bucket(cfg.qindex as int)],
                *mode_defaults,
            ),
    {
        let cols: usize = cfg.mi_cols();
        let rows: usize = cfg.mi_rows();
        TileDecodeState {
            cfg,
            dec: SymbolDecoder::new_with_bit_offset(data, bit_offset),
            coeff_cdfs: TileCdfs::new(cfg.qindex, coeff_defaults),
            mode_cdfs: ModeCdfs::new(mode_defaults),
            inter_cdfs: InterCdfs::new(),
            coeff_ctxs: CoeffContexts::new(cols, rows),
            sides: Sides::new(cols, rows),
            y_plane,
            u_plane,
            v_plane,
            meta,
            refs,
        }
    }
}

impl<'a> TileDecodeState<'a> {
    /// The context of a partition: twice whether the block to the left is smaller, plus
    /// whether the one above is.
    pub fn partition_context(&self, mi_row: usize, mi_col: usize, bsize: usize) -> (r: usize)
        requires
            self.wf(),
            bsize < 22,
        ensures
            r == partition_ctx(self.sides@, mi_row as int, mi_col as int, bsize as int),
            r < 4,
    {
        let log: usize = mi_width_log2(bsize);
        let cols: usize = self.cfg.mi_cols();
        let rows: usize = self.cfg.mi_rows();
        let col: usize = if mi_col <= cols - 1 {
            mi_col
        } else {
            cols - 1
        };
        let row: usize = if mi_row <= rows - 1 {
            mi_row
        } else {
            rows - 1
        };
        let above: usize = if mi_row > 0 && (self.sides.above[col].size_log2 as usize) < log {
            1
        } else {
            0
        };
        let left: usize = if mi_col > 0 && (self.sides.left[row].size_log2 as usize) < log {
            2
        } else {
            0
        };
        left + above
    }

    /// Leaves the size of a block for its neighbours.
    pub fn record_mi_size_context(&mut self, mi_row: usize, mi_col: usize, bsize: usize)
        requires
            old(self).wf(),
            mi_row <= 0x1_0000,
            mi_col <= 0x1_0000,
            bsize < 22,
        ensures
            final(self).continues(*old(self)),
            final(self).model() == old(self).model().with_sides(
                sized(old(self).sides@, mi_row as int, mi_col as int, bsize as int),
            ),
    {
        proof {
            lemma_block_dims(bsize as int);
            lemma_sides_kept(self.sides@, self.cfg.cols(), self.cfg.rows());
        }
        let w: u8 = mi_width_log2(bsize) as u8;
        let h: u8 = mi_height_log2(bsize) as u8;
        assert(mark_ok(Mark::Size(w)) && mark_ok(Mark::Size(h)));
        self.sides.mark(
            mi_row,
            mi_col,
            BLOCK_WIDTH[bsize] / 4,
            BLOCK_HEIGHT[bsize] / 4,
            Mark::Size(w),
            Mark::Size(h),
        );
    }

    /// Reads the transform size of a block.
    pub fn read_tx_size(
        &mut self,
        bsize: usize,
        max_tx: usize,
        mi_row: usize,
        mi_col: usize,
    ) -> (r: usize)
        requires
            old(self).wf(),
            bsize < 22,
            max_tx < 19,
            mi_row < old(self).cfg.rows(),
            mi_col < old(self).cfg.cols(),
        ensures
            final(self).continues(*old(self)),
            ({
                let m = crate::intra_syntax::tx_size_of(
                    old(self).model().modes(),
                    old(self).sides@,
                    mi_row as int,
                    mi_col as int,
                    bsize as int,
                    max_tx as int,
                );
                &&& r == m.0
                &&& final(self).model() == old(self).model().with_modes(m.1)
            }),
            r < 19,
    {
        crate::intra_syntax::read_tx_size(
            &mut self.dec,
            &mut self.mode_cdfs,
            &self.sides,
            bsize,
            max_tx,
            mi_row,
            mi_col,
        )
    }

    /// Leaves the modes and palettes of an intra block for its neighbours.
    fn leave_intra(
        &mut self,
        mi_row: usize,
        mi_col: usize,
        bsize: usize,
        skip: bool,
        info: &IntraInfo,
        Ghost(j): Ghost<IntraJob>,
    )
        requires
            old(self).wf(),
            j.wf(),
            j.cfg == old(self).cfg,
            j.row == mi_row,
            j.col == mi_col,
            j.bsize == bsize,
            j.skip == skip,
            j.info == info@,
        ensures
            final(self).continues(*old(self)),
            final(self).model() == old(self).model().with_sides(
                left_by_intra(old(self).sides@, j),
            ),
    {
        proof {
            reveal(left_by_intra);
            lemma_block_dims(bsize as int);
            lemma_tx_dims(info.luma_tx as int);
            lemma_sides_kept(self.sides@, self.cfg.cols(), self.cfg.rows());
        }
        let w: usize = BLOCK_WIDTH[bsize] / 4;
        let h: usize = BLOCK_HEIGHT[bsize] / 4;
        let skip_byte: u8 = if skip {
            1
        } else {
            0
        };
        let y_mode: u8 = info.modes.y_mode as u8;
        let uv_mode: u8 = info.modes.uv_mode as u8;
        let top: Mark = Mark::Intra(y_mode, uv_mode, TX_WIDTH[info.luma_tx] as u8, skip_byte);
        let side: Mark = Mark::Intra(y_mode, uv_mode, TX_HEIGHT[info.luma_tx] as u8, skip_byte);
        assert(mark_ok(top) && mark_ok(side));
        self.sides.mark(mi_row, mi_col, w, h, top, side);
        proof {
            lemma_sides_kept(self.sides@, self.cfg.cols(), self.cfg.rows());
        }
        self.sides.recolor(mi_row, mi_col, w, h, &info.colors_y, &info.colors_u);
    }

    /// Reconstructs the chroma of an intra block.
    fn intra_block_chroma(
        &mut self,
        mi_row: usize,
        mi_col: usize,
        bsize: usize,
        skip: bool,
        info: &IntraInfo,
        chroma: bool,
        Ghost(j): Ghost<IntraJob>,
    ) -> (r: Result<(), KinetixError>)
        requires
            old(self).wf(),
            j.wf(),
            j.cfg == old(self).cfg,
            j.row == mi_row,
            j.col == mi_col,
            j.bsize == bsize,
            j.skip == skip,
            j.info == info@,
        ensures
            final(self).continues(*old(self)),
            ends(intra_chroma(old(self).model(), j, chroma), final(self).model(), r),
    {
        proof {
            reveal(intra_chroma);
        }
        if chroma {
            match reconstruct_chroma(
                &mut self.dec,
                &mut self.coeff_cdfs,
                &mut self.coeff_ctxs,
                &self.y_plane,
                &mut self.u_plane,
                &mut self.v_plane,
                &self.cfg,
                mi_row,
                mi_col,
                bsize,
                skip,
                info,
            ) {
                Ok(()) => {},
                Err(e) => {
                    return Err(e);
                },
            }
            let c_tx: usize = crate::blocks::chroma_tx_size(
                bsize,
                self.cfg.subsampling_x,
                self.cfg.subsampling_y,
            );
            record_transform(
                &mut self.meta,
                &self.cfg,
                mi_row,
                mi_col,
                bsize,
                skip,
                c_tx,
                true,
                Ghost(j),
            );
        }
        Ok(())
    }

    /// Reconstructs an intra block whose modes are known: luma, then chroma. The first
    /// refused transform block ends it.
    fn reconstruct_intra_subblock(
        &mut self,
        mi_row: usize,
        mi_col: usize,
        bsize: usize,
        skip: bool,
        info: &IntraInfo,
        Ghost(j): Ghost<IntraJob>,
    ) -> (r: Result<(), KinetixError>)
        requires
            old(self).wf(),
            j.wf(),
            j == (IntraJob {
                cfg: old(self).cfg,
                row: mi_row as int,
                col: mi_col as int,
                bsize: bsize as int,
                skip,
                info: info@,
            }),
        ensures
            final(self).continues(*old(self)),
            ends(
                intra_samples(
                    old(self).model(),
                    j,
                    block_chroma(old(self).cfg, mi_row as int, mi_col as int, bsize as int),
                ),
                final(self).model(),
                r,
            ),
    {
        proof {
            reveal(intra_samples);
        }
        match reconstruct_luma(
            &mut self.dec,
            &mut self.coeff_cdfs,
            &mut self.coeff_ctxs,
            &mut self.y_plane,
            &self.cfg,
            mi_row,
            mi_col,
            bsize,
            skip,
            info,
        ) {
            Ok(()) => {},
            Err(e) => {
                return Err(e);
            },
        }
        record_transform(
            &mut self.meta,
            &self.cfg,
            mi_row,
            mi_col,
            bsize,
            skip,
            info.luma_tx,
            false,
            Ghost(j),
        );
        let chroma: bool = !self.cfg.monochrome && crate::blocks::has_chroma(
            bsize,
            mi_row,
            mi_col,
            self.cfg.subsampling_x,
            self.cfg.subsampling_y,
        );
        match self.intra_block_chroma(mi_row, mi_col, bsize, skip, info, chroma, Ghost(j)) {
            Ok(()) => {},
            Err(e) => {
                return Err(e);
            },
        }
        self.leave_intra(mi_row, mi_col, bsize, skip, info, Ghost(j));
        Ok(())
    }

    /// Decodes an intra block behind its skip flag.
    fn decode_intra_from(
        &mut self,
        mi_row: usize,
        mi_col: usize,
        bsize: usize,
        skip: bool,
    ) -> (r: Result<(), KinetixError>)
        requires
            old(self).wf(),
            old(self).cfg.holds(mi_row as int, mi_col as int),
            bsize < 22,
        ensures
            final(self).continues(*old(self)),
            ends(
                intra_from(
                    old(self).model(),
                    old(self).cfg,
                    mi_row as int,
                    mi_col as int,
                    bsize as int,
                    skip,
                ),
                final(self).model(),
                r,
            ),
    {
        proof {
            reveal(intra_from);
        }
        let info: IntraInfo = read_info(
            &mut self.dec,
            &mut self.mode_cdfs,
            &self.sides,
            &self.cfg,
            mi_row,
            mi_col,
            bsize,
        );
        let ghost j = IntraJob {
            cfg: self.cfg,
            row: mi_row as int,
            col: mi_col as int,
            bsize: bsize as int,
            skip,
            info: info@,
        };
        self.reconstruct_intra_subblock(mi_row, mi_col, bsize, skip, &info, Ghost(j))
    }

    /// Reads whether a block has no residual.
    fn read_skip(&mut self, mi_row: usize, mi_col: usize) -> (skip: bool)
        requires
            old(self).wf(),
            old(self).cfg.holds(mi_row as int, mi_col as int),
        ensures
            final(self).continues(*old(self)),
            ({
                let m = skip_of(
                    old(self).model().modes(),
                    old(self).sides@,
                    old(self).cfg.seg_feature_skip,
                    mi_row as int,
                    mi_col as int,
                );
                &&& skip == m.0
                &&& final(self).model() == old(self).model().with_modes(m.1)
            }),
    {
        if self.cfg.seg_feature_skip {
            return true;
        }
        proof {
            assert(self.sides@.above[mi_col as int].wf());
            assert(self.sides@.left[mi_row as int].wf());
        }
        let sum: usize = self.sides.above[mi_col].skip as usize + self.sides.left[mi_row].skip
            as usize;
        let s: usize = self.mode_cdfs.read_skip(&mut self.dec, sum);
        s == 1
    }

    /// Decodes a block of an intra frame.
    fn decode_intra_block(
        &mut self,
        mi_row: usize,
        mi_col: usize,
        bsize: usize,
    ) -> (r: Result<(), KinetixError>)
        requires
            old(self).wf(),
            old(self).cfg.holds(mi_row as int, mi_col as int),
            bsize < 22,
        ensures
            final(self).continues(*old(self)),
            ends(
                intra_block(
                    old(self).model(),
                    old(self).cfg,
                    mi_row as int,
                    mi_col as int,
                    bsize as int,
                ),
                final(self).model(),
                r,
            ),
    {
        proof {
            reveal(intra_block);
        }
        if self.cfg.segmentation_enabled {
            let _segment: usize = self.mode_cdfs.read_segment_id(&mut self.dec, 0);
        }
        let skip: bool = self.read_skip(mi_row, mi_col);
        self.decode_intra_from(mi_row, mi_col, bsize, skip)
    }
}

impl<'a> TileDecodeState<'a> {
    /// Predicts the planes of an inter block.
    fn predict_inter(
        &mut self,
        mi_row: usize,
        mi_col: usize,
        bsize: usize,
        m: Motion,
        filter: u8,
    )
        requires
            old(self).wf(),
            old(self).cfg.holds(mi_row as int, mi_col as int),
            bsize < 22,
            m.wf(),
        ensures
            final(self).continues(*old(self)),
            final(self).model() == predicted(
                old(self).model(),
                refs_model(old(self).refs),
                old(self).cfg,
                mi_row as int,
                mi_col as int,
                bsize as int,
                m,
                filter,
            ),
    {
        proof {
            reveal(predicted);
            lemma_block_dims(bsize as int);
        }
        let x: usize = mi_col * 4 - self.cfg.tile_px_x0;
        let y: usize = mi_row * 4 - self.cfg.tile_px_y0;
        let w: usize = BLOCK_WIDTH[bsize];
        let h: usize = BLOCK_HEIGHT[bsize];
        let cw: usize = if w / 2 < 4 {
            4
        } else {
            w / 2
        };
        let ch: usize = if h / 2 < 4 {
            4
        } else {
            h / 2
        };
        let cm: Motion = Motion {
            ref0: m.ref0,
            ref1: m.ref1,
            mv0: m.mv0.scaled_chroma(),
            mv1: m.mv1.scaled_chroma(),
        };
        assert(cm == chroma_motion(m));
        inter_predict_plane(&mut self.y_plane, &self.refs, &self.cfg, 0, x, y, w, h, m, filter);
        inter_predict_plane(
            &mut self.u_plane,
            &self.refs,
            &self.cfg,
            1,
            x / 2,
            y / 2,
            cw,
            ch,
            cm,
            filter,
        );
        inter_predict_plane(
            &mut self.v_plane,
            &self.refs,
            &self.cfg,
            2,
            x / 2,
            y / 2,
            cw,
            ch,
            cm,
            filter,
        );
    }

    /// Adds the residual of an inter block. The first refused transform block ends it.
    fn add_inter_residual(
        &mut self,
        mi_row: usize,
        mi_col: usize,
        bsize: usize,
        skip: bool,
        luma_tx: usize,
    ) -> (r: Result<(), KinetixError>)
        requires
            old(self).wf(),
            old(self).cfg.holds(mi_row as int, mi_col as int),
            bsize < 22,
            luma_tx < 19,
        ensures
            final(self).continues(*old(self)),
            ends(
                inter_residual(
                    old(self).model(),
                    InterJob {
                        cfg: old(self).cfg,
                        row: mi_row as int,
                        col: mi_col as int,
                        bsize: bsize as int,
                        tx: luma_tx as int,
                    },
                    skip,
                ),
                final(self).model(),
                r,
            ),
    {
        proof {
            reveal(inter_residual);
        }
        if skip || luma_tx > 2 {
            return Ok(());
        }
        let ghost j = InterJob {
            cfg: self.cfg,
            row: mi_row as int,
            col: mi_col as int,
            bsize: bsize as int,
            tx: luma_tx as int,
        };
        match add_luma_residual(
            &mut self.dec,
            &mut self.coeff_cdfs,
            &mut self.coeff_ctxs,
            &mut self.y_plane,
            &self.cfg,
            mi_row,
            mi_col,
            bsize,
            luma_tx,
            Ghost(j),
        ) {
            Ok(()) => {},
            Err(e) => {
                return Err(e);
            },
        }
        add_chroma_residual(
            &mut self.dec,
            &mut self.coeff_cdfs,
            &mut self.coeff_ctxs,
            &mut self.u_plane,
            &mut self.v_plane,
            &self.cfg,
            mi_row,
            mi_col,
            bsize,
            luma_tx,
            Ghost(j),
        )
    }

    /// Leaves the references and vectors of an inter block for its neighbours.
    fn leave_inter(
        &mut self,
        mi_row: usize,
        mi_col: usize,
        bsize: usize,
        skip: bool,
        luma_tx: usize,
        m: Motion,
    )
        requires
            old(self).wf(),
            old(self).cfg.holds(mi_row as int, mi_col as int),
            bsize < 22,
            luma_tx < 19,
        ensures
            final(self).continues(*old(self)),
            final(self).model() == old(self).model().with_sides(
                left_by_inter(
                    old(self).sides@,
                    mi_row as int,
                    mi_col as int,
                    bsize as int,
                    skip,
                    luma_tx as int,
                    m,
                ),
            ),
    {
        proof {
            reveal(left_by_inter);
            lemma_block_dims(bsize as int);
            lemma_tx_dims(luma_tx as int);
            lemma_sides_kept(self.sides@, self.cfg.cols(), self.cfg.rows());
        }
        let skip_byte: u8 = if skip {
            1
        } else {
            0
        };
        let top: Mark = Mark::Inter(
            TX_WIDTH[luma_tx] as u8,
            skip_byte,
            m.ref0,
            m.ref1,
            m.mv0,
            m.mv1,
        );
        let side: Mark = Mark::Inter(
            TX_HEIGHT[luma_tx] as u8,
            skip_byte,
            m.ref0,
            m.ref1,
            m.mv0,
            m.mv1,
        );
        assert(mark_ok(top) && mark_ok(side));
        self.sides.mark(
            mi_row,
            mi_col,
            BLOCK_WIDTH[bsize] / 4,
            BLOCK_HEIGHT[bsize] / 4,
            top,
            side,
        );
    }

    /// Reads the interpolation filter of a block.
    fn read_filter(&mut self) -> (filter: u8)
        requires
            old(self).wf(),
        ensures
            final(self).continues(*old(self)),
            ({
                let m = filter_of(old(self).model().modes(), old(self).cfg.interpolation_filter);
                &&& filter == m.0
                &&& final(self).model() == old(self).model().with_modes(m.1)
            }),
    {
        if self.cfg.interpolation_filter == INTERP_SWITCHABLE {
            let f: usize = self.mode_cdfs.read_interp_filter(&mut self.dec, 0);
            f as u8
        } else {
            self.cfg.interpolation_filter
        }
    }

    /// Reads the references and vectors of a block.
    fn read_block_motion(&mut self, mi_row: usize, mi_col: usize, hp: bool) -> (m: Motion)
        requires
            old(self).wf(),
            old(self).cfg.holds(mi_row as int, mi_col as int),
        ensures
            final(self).continues(*old(self)),
            ({
                let s = crate::inter_block::motion_of(
                    old(self).model().inters(),
                    old(self).sides@,
                    mi_row as int,
                    mi_col as int,
                    old(self).cfg.reference_select,
                    hp,
                );
                &&& m == s.0
                &&& final(self).model() == old(self).model().with_inters(s.1)
            }),
            m.wf(),
    {
        let above: Neighbour = self.sides.above[mi_col];
        let left: Neighbour = self.sides.left[mi_row];
        read_motion(
            &mut self.dec,
            &mut self.inter_cdfs,
            above,
            left,
            self.cfg.reference_select,
            hp,
            Ghost(self.sides@),
            Ghost(mi_row as int),
            Ghost(mi_col as int),
        )
    }

    /// Decodes an inter block behind its flags.
    fn decode_inter_from(
        &mut self,
        mi_row: usize,
        mi_col: usize,
        bsize: usize,
        skip: bool,
    ) -> (r: Result<(), KinetixError>)
        requires
            old(self).wf(),
            old(self).cfg.holds(mi_row as int, mi_col as int),
            bsize < 22,
        ensures
            final(self).continues(*old(self)),
            ends(
                inter_from(
                    old(self).model(),
                    refs_model(old(self).refs),
                    old(self).cfg,
                    mi_row as int,
                    mi_col as int,
                    bsize as int,
                    skip,
                ),
                final(self).model(),
                r,
            ),
    {
        proof {
            reveal(inter_from);
        }
        let hp: bool = self.cfg.allow_high_precision_mv && self.cfg.interpolation_filter
            != INTERP_BILINEAR;
        let m: Motion = self.read_block_motion(mi_row, mi_col, hp);
        let filter: u8 = self.read_filter();
        self.predict_inter(mi_row, mi_col, bsize, m, filter);
        let coded: bool = !skip && self.cfg.tx_mode_select && self.cfg.qindex != 0;
        assert(coded == (!skip && self.cfg.tx_mode_select && !self.cfg.lossless()));
        let luma_tx: usize = read_luma_tx(
            &mut self.dec,
            &mut self.mode_cdfs,
            &self.sides,
            mi_row,
            mi_col,
            bsize,
            coded,
        );
        match self.add_inter_residual(mi_row, mi_col, bsize, skip, luma_tx) {
            Ok(()) => {},
            Err(e) => {
                return Err(e);
            },
        }
        self.leave_inter(mi_row, mi_col, bsize, skip, luma_tx, m);
        Ok(())
    }

    /// Decodes an intra block of an inter frame behind its flags.
    fn decode_intra_in_inter(
        &mut self,
        mi_row: usize,
        mi_col: usize,
        bsize: usize,
        skip: bool,
    ) -> (r: Result<(), KinetixError>)
        requires
            old(self).wf(),
            old(self).cfg.holds(mi_row as int, mi_col as int),
            bsize < 22,
        ensures
            final(self).continues(*old(self)),
            ends(
                intra_in_inter(
                    old(self).model(),
                    old(self).cfg,
                    mi_row as int,
                    mi_col as int,
                    bsize as int,
                    skip,
                ),
                final(self).model(),
                r,
            ),
    {
        proof {
            reveal(intra_in_inter);
            lemma_block_dims(bsize as int);
        }
        match self.decode_intra_from(mi_row, mi_col, bsize, skip) {
            Ok(()) => {},
            Err(e) => {
                return Err(e);
            },
        }
        proof {
            lemma_sides_kept(self.sides@, self.cfg.cols(), self.cfg.rows());
            assert(mark_ok(Mark::NotInter));
        }
        self.sides.mark(
            mi_row,
            mi_col,
            BLOCK_WIDTH[bsize] / 4,
            BLOCK_HEIGHT[bsize] / 4,
            Mark::NotInter,
            Mark::NotInter,
        );
        Ok(())
    }

    /// Reads whether a block is an inter block.
    fn read_is_inter(&mut self, mi_row: usize, mi_col: usize) -> (b: bool)
        requires
            old(self).wf(),
            old(self).cfg.holds(mi_row as int, mi_col as int),
        ensures
            final(self).continues(*old(self)),
            ({
                let k = is_inter_key(old(self).sides@, mi_row as int, mi_col as int);
                &&& b == (old(self).model().inters().val(k) == 1)
                &&& final(self).model() == old(self).model().with_inters(
                    old(self).model().inters().next(k),
                )
            }),
    {
        proof {
            assert(self.sides@.above[mi_col as int].wf());
            assert(self.sides@.left[mi_row as int].wf());
        }
        let sum: usize = self.sides.left[mi_row].is_inter as usize
            + self.sides.above[mi_col].is_inter as usize;
        let s: usize = self.inter_cdfs.read_is_inter(&mut self.dec, sum);
        s == 1
    }

    /// Decodes a block of an inter frame.
    fn decode_inter_block(
        &mut self,
        mi_row: usize,
        mi_col: usize,
        bsize: usize,
    ) -> (r: Result<(), KinetixError>)
        requires
            old(self).wf(),
            old(self).cfg.holds(mi_row as int, mi_col as int),
            bsize < 22,
        ensures
            final(self).continues(*old(self)),
            ends(
                inter_block(
                    old(self).model(),
                    refs_model(old(self).refs),
                    old(self).cfg,
                    mi_row as int,
                    mi_col as int,
                    bsize as int,
                ),
                final(self).model(),
                r,
            ),
    {
        proof {
            reveal(inter_block);
        }
        let skip: bool = self.read_skip(mi_row, mi_col);
        let is_inter: bool = self.read_is_inter(mi_row, mi_col);
        if is_inter {
            self.decode_inter_from(mi_row, mi_col, bsize, skip)
        } else {
            self.decode_intra_in_inter(mi_row, mi_col, bsize, skip)
        }
    }

    /// Decodes a leaf of the partition tree.
    fn decode_block(
        &mut self,
        mi_row: usize,
        mi_col: usize,
        bsize: usize,
    ) -> (r: Result<(), KinetixError>)
        requires
            old(self).wf(),
            old(self).cfg.holds(mi_row as int, mi_col as int),
            bsize < 22,
        ensures
            final(self).continues(*old(self)),
            ends(
                leaf(
                    old(self).model(),
                    refs_model(old(self).refs),
                    old(self).cfg,
                    mi_row as int,
                    mi_col as int,
                    bsize as int,
                ),
                final(self).model(),
                r,
            ),
    {
        proof {
            reveal(leaf);
        }
        self.record_mi_size_context(mi_row, mi_col, bsize);
        if self.cfg.frame_is_intra {
            self.decode_intra_block(mi_row, mi_col, bsize)
        } else {
            self.decode_inter_block(mi_row, mi_col, bsize)
        }
    }

    /// Reads the partition of a block.
    fn read_block_partition(&mut self, mi_row: usize, mi_col: usize, bsize: usize) -> (p: u8)
        requires
            old(self).wf(),
            old(self).cfg.holds(mi_row as int, mi_col as int),
            bsize < 22,
        ensures
            final(self).continues(*old(self)),
            ({
                let m = partition_of(
                    old(self).model().modes(),
                    old(self).sides@,
                    old(self).cfg,
                    mi_row as int,
                    mi_col as int,
                    bsize as int,
                );
                &&& p == m.0
                &&& final(self).model() == old(self).model().with_modes(m.1)
            }),
    {
        proof {
            reveal(partition_of);
            lemma_block_dims(bsize as int);
        }
        let half: usize = BLOCK_WIDTH[bsize] / 4 / 2;
        let has_rows: bool = mi_row + half < self.cfg.mi_rows();
        let has_cols: bool = mi_col + half < self.cfg.mi_cols();
        let ctx: usize = self.partition_context(mi_row, mi_col, bsize);
        let bucket: usize = PARTITION_CDF_LOOKUP[bsize];
        if has_rows && has_cols {
            let p: usize = self.mode_cdfs.read_partition(&mut self.dec, bucket, ctx);
            p as u8
        } else if has_cols {
            if self.mode_cdfs.read_split_or_horz(&mut self.dec, bucket, ctx, bsize) {
                PARTITION_SPLIT
            } else {
                PARTITION_HORZ
            }
        } else if has_rows {
            if self.mode_cdfs.read_split_or_vert(&mut self.dec, bucket, ctx, bsize) {
                PARTITION_SPLIT
            } else {
                PARTITION_VERT
            }
        } else {
            PARTITION_SPLIT
        }
    }

    /// Decodes the parts of a block as leaves.
    fn decode_leaves(
        &mut self,
        mi_row: usize,
        mi_col: usize,
        parts: &Vec<SubBlock>,
    ) -> (r: Result<(), KinetixError>)
        requires
            old(self).wf(),
            old(self).cfg.holds(mi_row as int, mi_col as int),
            forall|i: int|
                0 <= i < parts@.len() ==> (#[trigger] parts@[i]).bsize < 22 && parts@[i].row <= 32
                    && parts@[i].col <= 32,
        ensures
            final(self).continues(*old(self)),
            ends(
                leaves(
                    old(self).model(),
                    refs_model(old(self).refs),
                    old(self).cfg,
                    mi_row as int,
                    mi_col as int,
                    parts@,
                    0,
                ),
                final(self).model(),
                r,
            ),
    {
        let ghost t0 = self.model();
        let rows: usize = self.cfg.mi_rows();
        let cols: usize = self.cfg.mi_cols();
        let mut i: usize = 0;
        while i < parts.len()
            invariant
                i <= parts@.len(),
                self.continues(*old(self)),
                old(self).wf(),
                old(self).cfg.holds(mi_row as int, mi_col as int),
                rows == old(self).cfg.rows(),
                cols == old(self).cfg.cols(),
                rows <= 0x4000,
                cols <= 0x4000,
                forall|k: int|
                    0 <= k < parts@.len() ==> (#[trigger] parts@[k]).bsize < 22 && parts@[k].row
                        <= 32 && parts@[k].col <= 32,
                t0 == old(self).model(),
                leaves(
                    t0,
                    refs_model(old(self).refs),
                    old(self).cfg,
                    mi_row as int,
                    mi_col as int,
                    parts@,
                    0,
                ) == leaves(
                    self.model(),
                    refs_model(old(self).refs),
                    old(self).cfg,
                    mi_row as int,
                    mi_col as int,
                    parts@,
                    i as int,
                ),
            decreases parts.len() - i,
        {
            let s: SubBlock = parts[i];
            assert(s == parts@[i as int]);
            let row: usize = mi_row + s.row;
            let col: usize = mi_col + s.col;
            if row < rows && col < cols {
                match self.decode_block(row, col, s.bsize) {
                    Ok(()) => {},
                    Err(e) => {
                        return Err(e);
                    },
                }
            }
            i = i + 1;
        }
        Ok(())
    }

    /// Decodes the partition tree of a square block. Places beyond the frame hold
    /// nothing.
    fn decode_partition(
        &mut self,
        mi_row: usize,
        mi_col: usize,
        bsize: usize,
    ) -> (r: Result<(), KinetixError>)
        requires
            old(self).wf(),
            square(bsize as int),
            mi_row <= 0x1_0000,
            mi_col <= 0x1_0000,
            old(self).cfg.tile_px_y0 <= mi_row * 4,
            old(self).cfg.tile_px_x0 <= mi_col * 4,
        ensures
            final(self).continues(*old(self)),
            ends(
                tree(
                    old(self).model(),
                    refs_model(old(self).refs),
                    old(self).cfg,
                    mi_row as int,
                    mi_col as int,
                    bsize as int,
                ),
                final(self).model(),
                r,
            ),
        decreases bsize,
    {
        if mi_row >= self.cfg.mi_rows() || mi_col >= self.cfg.mi_cols() {
            return Ok(());
        }
        proof {
            lemma_block_dims(bsize as int);
        }
        let p: u8 = self.read_block_partition(mi_row, mi_col, bsize);
        let bw: usize = BLOCK_WIDTH[bsize] / 4;
        let bh: usize = BLOCK_HEIGHT[bsize] / 4;
        if p == PARTITION_SPLIT && bsize > BLOCK_8X8 {
            let q: usize = if bsize == BLOCK_128X128 {
                BLOCK_64X64
            } else if bsize == BLOCK_64X64 {
                BLOCK_32X32
            } else if bsize == BLOCK_32X32 {
                BLOCK_16X16
            } else {
                BLOCK_8X8
            };
            let h: usize = bw / 2;
            match self.decode_partition(mi_row, mi_col, q) {
                Ok(()) => {},
                Err(e) => {
                    return Err(e);
                },
            }
            match self.decode_partition(mi_row, mi_col + h, q) {
                Ok(()) => {},
                Err(e) => {
                    return Err(e);
                },
            }
            match self.decode_partition(mi_row + h, mi_col, q) {
                Ok(()) => {},
                Err(e) => {
                    return Err(e);
                },
            }
            self.decode_partition(mi_row + h, mi_col + h, q)
        } else {
            let parts: Vec<SubBlock> = split_into_subblocks(bw, bh, p);
            self.decode_leaves(mi_row, mi_col, &parts)
        }
    }

    /// Decodes a superblock.
    pub fn decode_superblock(
        &mut self,
        mi_row: usize,
        mi_col: usize,
        sb_bsize: usize,
    ) -> (r: Result<(), KinetixError>)
        requires
            old(self).wf(),
            square(sb_bsize as int),
            mi_row <= 0x1_0000,
            mi_col <= 0x1_0000,
            old(self).cfg.tile_px_y0 <= mi_row * 4,
            old(self).cfg.tile_px_x0 <= mi_col * 4,
        ensures
            final(self).continues(*old(self)),
            ends(
                superblock(
                    old(self).model(),
                    refs_model(old(self).refs),
                    old(self).cfg,
                    mi_row as int,
                    mi_col as int,
                    sb_bsize as int,
                ),
                final(self).model(),
                r,
            ),
    {
        self.coeff_ctxs.clear_left();
        self.decode_partition(mi_row, mi_col, sb_bsize)
    }
}

} // verus!
