//! Reading the modes of a block with the tables of the block syntax.
use crate::blocks::{BLOCK_128X128, BLOCK_HEIGHT, BLOCK_WIDTH};
use crate::entropy::{sym_next, sym_value, Coder, SymbolDecoder};
use crate::mode_cdfs::{cdf_fair, ModeCdfs, ModeKey};
use vstd::prelude::*;

verus! {

/// The chroma mode that predicts from luma.
pub const UV_CFL_PRED: usize = 13;

/// The decoder with the tables of the block syntax.
pub open spec fn m_state(dec: SymbolDecoder<'_>, cdfs: ModeCdfs) -> Coder<ModeKey> {
    Coder { sym: dec@, bank: cdfs@ }
}

// ---------------------------------------------------------------------------
// Partitions
// ---------------------------------------------------------------------------

/// The partition table of a group of block sizes.
pub open spec fn partition_key(bucket: int, ctx: int) -> ModeKey {
    if bucket == 0 {
        ModeKey::PartitionW8(ctx)
    } else if bucket == 1 {
        ModeKey::PartitionW16(ctx)
    } else if bucket == 2 {
        ModeKey::PartitionW32(ctx)
    } else if bucket == 3 {
        ModeKey::PartitionW64(ctx)
    } else {
        ModeKey::PartitionW128(ctx)
    }
}

/// The probability of symbol `k`, zero where the table has no such symbol.
pub open spec fn mass(cdf: Seq<u16>, k: int) -> int {
    if k > cdf.len() - 2 {
        0
    } else if k == 0 {
        cdf[0] as int
    } else {
        cdf[k] - cdf[k - 1]
    }
}

/// The probability that a block that can only be split or halved down is split.
pub open spec fn split_mass_horz(cdf: Seq<u16>, bsize: int) -> int {
    mass(cdf, 2) + mass(cdf, 3) + mass(cdf, 4) + mass(cdf, 6) + mass(cdf, 7) + if bsize
        != BLOCK_128X128 {
        mass(cdf, 9)
    } else {
        0
    }
}

/// The probability that a block that can only be split or halved across is split.
pub open spec fn split_mass_vert(cdf: Seq<u16>, bsize: int) -> int {
    mass(cdf, 1) + mass(cdf, 3) + mass(cdf, 4) + mass(cdf, 5) + mass(cdf, 6) + if bsize
        != BLOCK_128X128 {
        mass(cdf, 8)
    } else {
        0
    }
}

/// A table of two symbols, the second with probability `p`.
pub open spec fn two_way(p: int) -> Seq<u16> {
    seq![(32768 - p) as u16, 32768u16, 0u16]
}

/// The length of a partition table.
pub open spec fn partition_len(len: int) -> bool {
    len == 5 || len == 9 || len == 11
}

/// A probability lies between zero and one.
proof fn lemma_split_mass(cdf: Seq<u16>, bsize: int)
    requires
        cdf_fair(cdf),
        partition_len(cdf.len() as int),
    ensures
        0 <= split_mass_horz(cdf, bsize) <= 32768,
        0 <= split_mass_vert(cdf, bsize) <= 32768,
{
    assert(cdf[0] <= cdf[1] <= cdf[2] <= cdf[3] <= 32768);
    if cdf.len() > 5 {
        assert(cdf[3] <= cdf[4] <= cdf[5] <= cdf[6] <= cdf[7] <= 32768);
    }
    if cdf.len() > 9 {
        assert(cdf[7] <= cdf[8] <= cdf[9] <= 32768);
    }
}

fn mass_of(cdf: &[u16], k: usize) -> (r: i32)
    requires
        2 <= cdf@.len(),
    ensures
        r == mass(cdf@, k as int),
        -65535 <= r <= 65535,
{
    if k > cdf.len() - 2 {
        0
    } else if k == 0 {
        cdf[0] as i32
    } else {
        cdf[k] as i32 - cdf[k - 1] as i32
    }
}

impl ModeCdfs {
    /// Reads the partition of a block.
    pub fn read_partition(
        &mut self,
        dec: &mut SymbolDecoder<'_>,
        bucket: usize,
        ctx: usize,
    ) -> (r: usize)
        requires
            old(self).wf(),
            old(dec)@.wf(),
            ctx < 4,
        ensures
            final(self).wf(),
            final(dec)@.wf(),
            ({
                let k = partition_key(bucket as int, ctx as int);
                &&& r == m_state(*old(dec), *old(self)).val(k)
                &&& m_state(*final(dec), *final(self)) == m_state(*old(dec), *old(self)).next(k)
            }),
            r < 10,
    {
        if bucket == 0 {
            self.read_partition_w8(dec, ctx)
        } else if bucket == 1 {
            self.read_partition_w16(dec, ctx)
        } else if bucket == 2 {
            self.read_partition_w32(dec, ctx)
        } else if bucket == 3 {
            self.read_partition_w64(dec, ctx)
        } else {
            self.read_partition_w128(dec, ctx)
        }
    }

    /// The partition table of a group of block sizes.
    pub fn base_partition_cdf(&self, bucket: usize, ctx: usize) -> (r: &[u16])
        requires
            self.wf(),
            ctx < 4,
        ensures
            r@ == self@[partition_key(bucket as int, ctx as int)],
            cdf_fair(r@),
            partition_len(r@.len() as int),
    {
        assert(partition_key(bucket as int, ctx as int).valid());
        assert(cdf_fair(self@[partition_key(bucket as int, ctx as int)]));
        if bucket == 0 {
            &self.partition_w8[ctx]
        } else if bucket == 1 {
            &self.partition_w16[ctx]
        } else if bucket == 2 {
            &self.partition_w32[ctx]
        } else if bucket == 3 {
            &self.partition_w64[ctx]
        } else {
            &self.partition_w128[ctx]
        }
    }

    /// Reads whether a block at the lower border is split; else it is halved down. The
    /// probability is that of all partitions that split the block across; the tables
    /// do not adapt.
    pub fn read_split_or_horz(
        &mut self,
        dec: &mut SymbolDecoder<'_>,
        bucket: usize,
        ctx: usize,
        bsize: usize,
    ) -> (r: bool)
        requires
            old(self).wf(),
            old(dec)@.wf(),
            ctx < 4,
        ensures
            *final(self) == *old(self),
            final(dec)@.wf(),
            ({
                let cdf = old(self)@[partition_key(bucket as int, ctx as int)];
                let t = two_way(split_mass_horz(cdf, bsize as int));
                &&& r == (sym_value(old(dec)@, t) == 1)
                &&& final(dec)@ == sym_next(old(dec)@, t)
            }),
    {
        let cdf: &[u16] = self.base_partition_cdf(bucket, ctx);
        proof {
            lemma_split_mass(cdf@, bsize as int);
        }
        let last: i32 = if bsize != BLOCK_128X128 {
            mass_of(cdf, 9)
        } else {
            0
        };
        let psum: i32 = mass_of(cdf, 2) + mass_of(cdf, 3) + mass_of(cdf, 4) + mass_of(cdf, 6)
            + mass_of(cdf, 7) + last;
        read_two_way(dec, psum)
    }

    /// Reads whether a block at the right border is split; else it is halved across.
    pub fn read_split_or_vert(
        &mut self,
        dec: &mut SymbolDecoder<'_>,
        bucket: usize,
        ctx: usize,
        bsize: usize,
    ) -> (r: bool)
        requires
            old(self).wf(),
            old(dec)@.wf(),
            ctx < 4,
        ensures
            *final(self) == *old(self),
            final(dec)@.wf(),
            ({
                let cdf = old(self)@[partition_key(bucket as int, ctx as int)];
                let t = two_way(split_mass_vert(cdf, bsize as int));
                &&& r == (sym_value(old(dec)@, t) == 1)
                &&& final(dec)@ == sym_next(old(dec)@, t)
            }),
    {
        let cdf: &[u16] = self.base_partition_cdf(bucket, ctx);
        proof {
            lemma_split_mass(cdf@, bsize as int);
        }
        let last: i32 = if bsize != BLOCK_128X128 {
            mass_of(cdf, 8)
        } else {
            0
        };
        let psum: i32 = mass_of(cdf, 1) + mass_of(cdf, 3) + mass_of(cdf, 4) + mass_of(cdf, 5)
            + mass_of(cdf, 6) + last;
        read_two_way(dec, psum)
    }
}

fn read_two_way(dec: &mut SymbolDecoder<'_>, p: i32) -> (r: bool)
    requires
        old(dec)@.wf(),
        0 <= p <= 32768,
    ensures
        final(dec)@.wf(),
        r == (sym_value(old(dec)@, two_way(p as int)) == 1),
        final(dec)@ == sym_next(old(dec)@, two_way(p as int)),
{
    let mut t: [u16; 3] = [(32768 - p) as u16, 32768, 0];
    assert(t@ =~= two_way(p as int));
    let s: usize = dec.read_symbol(&mut t);
    s == 1
}

// ---------------------------------------------------------------------------
// Intra modes
// ---------------------------------------------------------------------------

/// The chroma mode table.
pub open spec fn uv_mode_key(cfl_allowed: bool, y_mode: int) -> ModeKey {
    if cfl_allowed {
        ModeKey::UvModeAllowed(y_mode)
    } else {
        ModeKey::UvModeNotAllowed(y_mode)
    }
}

/// The table of a transform depth.
pub open spec fn tx_level_key(depth: int, ctx: int) -> ModeKey {
    if depth == 0 {
        ModeKey::Tx8x8(ctx)
    } else if depth == 1 {
        ModeKey::Tx16x16(ctx)
    } else if depth == 2 {
        ModeKey::Tx32x32(ctx)
    } else {
        ModeKey::Tx64x64(ctx)
    }
}

/// The share of luma in a chroma plane: its sign by `sign` (0 for none, 1 for
/// negative), with table `ctx` for its magnitude.
pub open spec fn cfl_alpha_of(c: Coder<ModeKey>, sign: int, ctx: int) -> (int, Coder<ModeKey>) {
    if sign == 0 {
        (0, c)
    } else {
        let k = ModeKey::CflAlpha(ctx);
        let mag = 1 + c.val(k);
        (
            if sign == 1 {
                -mag
            } else {
                mag
            },
            c.next(k),
        )
    }
}

/// The shares of luma in both chroma planes.
#[verifier::opaque]
pub open spec fn cfl_alphas_of(c: Coder<ModeKey>) -> (int, int, Coder<ModeKey>) {
    let k = ModeKey::CflSign;
    let joint = c.val(k);
    let su = (joint + 1) / 3;
    let sv = (joint + 1) % 3;
    let (au, c1) = cfl_alpha_of(c.next(k), su, (su - 1) * 3 + sv);
    let (av, c2) = cfl_alpha_of(c1, sv, (sv - 1) * 3 + su);
    (au, av, c2)
}

/// The filter of a block without a palette: coded only for mean-predicted blocks of at
/// most 32 samples a side.
#[verifier::opaque]
pub open spec fn filter_intra_of(c: Coder<ModeKey>, enabled: bool, y_mode: int, bsize: int) -> (
    Option<usize>,
    Coder<ModeKey>,
) {
    if enabled && y_mode == 0 && BLOCK_WIDTH[bsize] <= 32 && BLOCK_HEIGHT[bsize] <= 32 {
        let k = ModeKey::FilterIntra(bsize);
        let c1 = c.next(k);
        if c.val(k) == 1 {
            (Some(c1.val(ModeKey::FilterIntraMode) as usize), c1.next(ModeKey::FilterIntraMode))
        } else {
            (None, c1)
        }
    } else {
        (None, c)
    }
}

/// The table of a palette index.
pub open spec fn color_key(uv: bool, n: int, ctx: int) -> ModeKey {
    if uv {
        if n == 2 {
            ModeKey::PaletteUvColor2(ctx)
        } else if n == 3 {
            ModeKey::PaletteUvColor3(ctx)
        } else if n == 4 {
            ModeKey::PaletteUvColor4(ctx)
        } else if n == 5 {
            ModeKey::PaletteUvColor5(ctx)
        } else if n == 6 {
            ModeKey::PaletteUvColor6(ctx)
        } else if n == 7 {
            ModeKey::PaletteUvColor7(ctx)
        } else {
            ModeKey::PaletteUvColor8(ctx)
        }
    } else {
        if n == 2 {
            ModeKey::PaletteYColor2(ctx)
        } else if n == 3 {
            ModeKey::PaletteYColor3(ctx)
        } else if n == 4 {
            ModeKey::PaletteYColor4(ctx)
        } else if n == 5 {
            ModeKey::PaletteYColor5(ctx)
        } else if n == 6 {
            ModeKey::PaletteYColor6(ctx)
        } else if n == 7 {
            ModeKey::PaletteYColor7(ctx)
        } else {
            ModeKey::PaletteYColor8(ctx)
        }
    }
}

/// The table of a palette index has a symbol for every color.
pub open spec fn color_symbols(n: int) -> int {
    if 2 <= n <= 7 {
        n
    } else {
        8
    }
}

impl ModeCdfs {
    /// Reads the chroma mode.
    pub fn read_uv_mode(
        &mut self,
        dec: &mut SymbolDecoder<'_>,
        cfl_allowed: bool,
        y_mode: usize,
    ) -> (r: usize)
        requires
            old(self).wf(),
            old(dec)@.wf(),
            y_mode < 13,
        ensures
            final(self).wf(),
            final(dec)@.wf(),
            ({
                let k = uv_mode_key(cfl_allowed, y_mode as int);
                &&& r == m_state(*old(dec), *old(self)).val(k)
                &&& m_state(*final(dec), *final(self)) == m_state(*old(dec), *old(self)).next(k)
            }),
            r < 14,
    {
        if cfl_allowed {
            self.read_uv_mode_allowed(dec, y_mode)
        } else {
            self.read_uv_mode_not_allowed(dec, y_mode)
        }
    }

    /// Reads how far the angle of directional mode `mode` is turned.
    pub fn read_turn(&mut self, dec: &mut SymbolDecoder<'_>, mode: usize) -> (r: i32)
        requires
            old(self).wf(),
            old(dec)@.wf(),
            1 <= mode <= 8,
        ensures
            final(self).wf(),
            final(dec)@.wf(),
            ({
                let k = ModeKey::AngleDelta(mode - 1);
                &&& r == m_state(*old(dec), *old(self)).val(k) - 3
                &&& m_state(*final(dec), *final(self)) == m_state(*old(dec), *old(self)).next(k)
            }),
            -3 <= r <= 3,
    {
        self.read_angle_delta(dec, mode - 1) as i32 - 3
    }

    /// Reads the depth of a transform.
    pub fn read_tx_level(&mut self, dec: &mut SymbolDecoder<'_>, depth: usize, ctx: usize) -> (r: usize)
        requires
            old(self).wf(),
            old(dec)@.wf(),
            ctx < 3,
        ensures
            final(self).wf(),
            final(dec)@.wf(),
            ({
                let k = tx_level_key(depth as int, ctx as int);
                &&& r == m_state(*old(dec), *old(self)).val(k)
                &&& m_state(*final(dec), *final(self)) == m_state(*old(dec), *old(self)).next(k)
            }),
            r < 3,
    {
        if depth == 0 {
            self.read_tx_8x8(dec, ctx)
        } else if depth == 1 {
            self.read_tx_16x16(dec, ctx)
        } else if depth == 2 {
            self.read_tx_32x32(dec, ctx)
        } else {
            self.read_tx_64x64(dec, ctx)
        }
    }

    /// Reads the shares of luma in both chroma planes.
    pub fn read_cfl_alphas(&mut self, dec: &mut SymbolDecoder<'_>) -> (r: (i32, i32))
        requires
            old(self).wf(),
            old(dec)@.wf(),
        ensures
            final(self).wf(),
            final(dec)@.wf(),
            (r.0 as int, r.1 as int, m_state(*final(dec), *final(self))) == cfl_alphas_of(
                m_state(*old(dec), *old(self)),
            ),
            -16 <= r.0 <= 16,
            -16 <= r.1 <= 16,
    {
        proof {
            reveal(cfl_alphas_of);
        }
        let joint: usize = self.read_cfl_sign(dec);
        let su: usize = (joint + 1) / 3;
        let sv: usize = (joint + 1) % 3;
        let ctx_u: usize = if su != 0 {
            (su - 1) * 3 + sv
        } else {
            0
        };
        let au: i32 = self.read_share(dec, su, ctx_u);
        let ctx_v: usize = if sv != 0 {
            (sv - 1) * 3 + su
        } else {
            0
        };
        let av: i32 = self.read_share(dec, sv, ctx_v);
        (au, av)
    }

    fn read_share(&mut self, dec: &mut SymbolDecoder<'_>, sign: usize, ctx: usize) -> (r: i32)
        requires
            old(self).wf(),
            old(dec)@.wf(),
            ctx < 6,
        ensures
            final(self).wf(),
            final(dec)@.wf(),
            (r as int, m_state(*final(dec), *final(self))) == cfl_alpha_of(
                m_state(*old(dec), *old(self)),
                sign as int,
                ctx as int,
            ),
            -16 <= r <= 16,
    {
        if sign == 0 {
            return 0;
        }
        let mag: i32 = 1 + self.read_cfl_alpha(dec, ctx) as i32;
        if sign == 1 {
            -mag
        } else {
            mag
        }
    }

    /// Reads the filter of a block without a palette.
    pub fn read_filter_intra_mode_info(
        &mut self,
        dec: &mut SymbolDecoder<'_>,
        enable_filter_intra: bool,
        y_mode: usize,
        bsize: usize,
    ) -> (r: Option<usize>)
        requires
            old(self).wf(),
            old(dec)@.wf(),
            bsize < 22,
        ensures
            final(self).wf(),
            final(dec)@.wf(),
            (r, m_state(*final(dec), *final(self))) == filter_intra_of(
                m_state(*old(dec), *old(self)),
                enable_filter_intra,
                y_mode as int,
                bsize as int,
            ),
            r matches Some(f) ==> f < 5,
    {
        proof {
            reveal(filter_intra_of);
        }
        if enable_filter_intra && y_mode == 0 && BLOCK_WIDTH[bsize] <= 32 && BLOCK_HEIGHT[bsize]
            <= 32 {
            let used: usize = self.read_filter_intra(dec, bsize);
            if used == 1 {
                let f: usize = self.read_filter_intra_mode(dec);
                return Some(f);
            }
        }
        None
    }

    /// Reads the palette index of a luma sample, with a palette of `size` colors.
    pub fn read_palette_color_idx_y(
        &mut self,
        dec: &mut SymbolDecoder<'_>,
        size: usize,
        ctx: usize,
    ) -> (r: usize)
        requires
            old(self).wf(),
            old(dec)@.wf(),
            ctx < 5,
        ensures
            final(self).wf(),
            final(dec)@.wf(),
            ({
                let k = color_key(false, size as int, ctx as int);
                &&& r == m_state(*old(dec), *old(self)).val(k)
                &&& m_state(*final(dec), *final(self)) == m_state(*old(dec), *old(self)).next(k)
            }),
            r < color_symbols(size as int),
    {
        if size == 2 {
            self.read_palette_y_color_2(dec, ctx)
        } else if size == 3 {
            self.read_palette_y_color_3(dec, ctx)
        } else if size == 4 {
            self.read_palette_y_color_4(dec, ctx)
        } else if size == 5 {
            self.read_palette_y_color_5(dec, ctx)
        } else if size == 6 {
            self.read_palette_y_color_6(dec, ctx)
        } else if size == 7 {
            self.read_palette_y_color_7(dec, ctx)
        } else {
            self.read_palette_y_color_8(dec, ctx)
        }
    }

    /// Reads the palette index of a chroma sample, with a palette of `size` colors.
    pub fn read_palette_color_idx_uv(
        &mut self,
        dec: &mut SymbolDecoder<'_>,
        size: usize,
        ctx: usize,
    ) -> (r: usize)
        requires
            old(self).wf(),
            old(dec)@.wf(),
            ctx < 5,
        ensures
            final(self).wf(),
            final(dec)@.wf(),
            ({
                let k = color_key(true, size as int, ctx as int);
                &&& r == m_state(*old(dec), *old(self)).val(k)
                &&& m_state(*final(dec), *final(self)) == m_state(*old(dec), *old(self)).next(k)
            }),
            r < color_symbols(size as int),
    {
        if size == 2 {
            self.read_palette_uv_color_2(dec, ctx)
        } else if size == 3 {
            self.read_palette_uv_color_3(dec, ctx)
        } else if size == 4 {
            self.read_palette_uv_color_4(dec, ctx)
        } else if size == 5 {
            self.read_palette_uv_color_5(dec, ctx)
        } else if size == 6 {
            self.read_palette_uv_color_6(dec, ctx)
        } else if size == 7 {
            self.read_palette_uv_color_7(dec, ctx)
        } else {
            self.read_palette_uv_color_8(dec, ctx)
        }
    }
}

} // verus!
