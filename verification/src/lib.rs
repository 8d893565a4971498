//! A verified AV1 decoding library.
//!
//! Every module states what it computes as contracts over mathematical models:
//! a byte string is a `Seq<u8>`, a bit cursor is a position in it, an adaptive
//! probability table is a `Seq<u16>`, a picture plane is a `Seq<u8>`.
pub mod bits;
pub mod blocks;
pub mod capture;
pub mod cdef;
pub mod cdef_laws;
pub mod cfl;
pub mod chroma_laws;
pub mod code_laws;
pub mod coeff;
pub mod coeff_laws;
pub mod coeff_tables;
pub mod color_map;
pub mod deblock_laws;
pub mod dct_laws;
pub mod debug_frame_seq;
pub mod decoder;
pub mod entropy;
pub mod error;
pub mod flat;
pub mod frame;
pub mod header_laws;
pub mod header_local;
pub mod header_parts;
pub mod inter;
pub mod inter_block;
pub mod inter_cdfs;
pub mod inter_laws;
pub mod inter_syntax;
pub mod intra_block;
pub mod intra_laws;
pub mod intra_pred;
pub mod intra_syntax;
pub mod loop_filter;
pub mod math;
pub mod media;
pub mod mode_cdfs;
pub mod mode_syntax;
pub mod motion_laws;
pub mod obu;
pub mod padding;
pub mod palette;
pub mod palette_colors;
pub mod planes;
pub mod quant;
pub mod reconstruct;
pub mod residual_laws;
pub mod scans;
pub mod sequence_laws;
pub mod session;
pub mod sides;
pub mod sine_laws;
pub mod symbol_laws;
pub mod table_laws;
pub mod tile;
pub mod tile_decoder;
pub mod tile_group;
pub mod tile_laws;
pub mod trace;
pub mod transform;
pub mod transform_laws;
pub mod tx_block;
pub mod wave_laws;

pub use decoder::{Av1Decoder, TileData};
