//! Cell size query utilities for Kitty graphics protocol.
//!
//! Applications query cell pixel dimensions before sending images
//! to calculate how many cells an image will occupy.
//! The query is typically via `\x1b[16t` (cell size report).

use vstd::prelude::*;

use crate::encoding::{decimal, push_decimal};

verus! {

/// Default cell pixel width used when actual dimensions are unknown.
pub const DEFAULT_CELL_WIDTH_PX: u32 = 8;

/// Default cell pixel height used when actual dimensions are unknown.
pub const DEFAULT_CELL_HEIGHT_PX: u32 = 16;

/// The cell size report `ESC [ 6 ; <height> ; <width> t`.
pub open spec fn cell_size_report(cell_width_px: u32, cell_height_px: u32) -> Seq<u8> {
    seq![0x1bu8, 0x5bu8, 0x36u8, 0x3bu8] + decimal(cell_height_px as nat) + seq![0x3bu8] + decimal(
        cell_width_px as nat,
    ) + seq![0x74u8]
}

/// Build a cell size response for `\x1b[16t` query.
/// Format: `\x1b[6;<height>;<width>t`
pub fn build_cell_size_response(cell_width_px: u32, cell_height_px: u32) -> (r: Vec<u8>)
    ensures
        r@ == cell_size_report(cell_width_px, cell_height_px),
{
    let mut out: Vec<u8> = vec![0x1B, 0x5B, 0x36, 0x3B];
    push_decimal(&mut out, cell_height_px as u64);
    out.push(0x3B);
    push_decimal(&mut out, cell_width_px as u64);
    out.push(0x74);
    assert(out@ =~= cell_size_report(cell_width_px, cell_height_px));
    out
}

/// Calculate how many terminal cells an image of given pixel dimensions would occupy.
/// Uses ceiling division to ensure partial cells are counted.
pub fn pixels_to_cells(pixel_dim: u32, cell_dim_px: u32) -> (r: u32)
    requires
        cell_dim_px == 0 || pixel_dim + cell_dim_px <= u32::MAX,
    ensures
        cell_dim_px == 0 ==> r == 0,
        cell_dim_px > 0 ==> r == (pixel_dim + cell_dim_px - 1) / (cell_dim_px as int),
        cell_dim_px > 0 ==> r * cell_dim_px >= pixel_dim && (r - 1) * cell_dim_px < pixel_dim
            || (r == 0 && pixel_dim == 0),
{
    if cell_dim_px == 0 {
        return 0;
    }
    let r = (pixel_dim + cell_dim_px - 1) / cell_dim_px;
    proof {
        let p = pixel_dim as int;
        let c = cell_dim_px as int;
        let q = (p + c - 1) / c;
        assert(q * c <= p + c - 1 && p + c - 1 < q * c + c) by (nonlinear_arith)
            requires
                c > 0,
                q == (p + c - 1) / c,
        ;
        assert(q * c - c == (q - 1) * c) by (nonlinear_arith);
    }
    r
}

/// The graphics attribute report `ESC [ ? 2 ; 0 ; <width> S ESC [ ? 3 ; 0 ; <height> S`.
pub open spec fn xtsmgraphics_report(cell_width_px: u32, cell_height_px: u32) -> Seq<u8> {
    seq![0x1bu8, 0x5bu8, 0x3fu8, 0x32u8, 0x3bu8, 0x30u8, 0x3bu8] + decimal(cell_width_px as nat)
        + seq![0x53u8, 0x1bu8, 0x5bu8, 0x3fu8, 0x33u8, 0x3bu8, 0x30u8, 0x3bu8] + decimal(
        cell_height_px as nat,
    ) + seq![0x53u8]
}

/// Build an XTSMGRAPHICS response for cell size query.
/// Format: `\x1b[?2;0;<width>S\x1b[?3;0;<height>S` where values are cell dimensions in pixels.
pub fn build_xtsmgraphics_cell_size_response(cell_width_px: u32, cell_height_px: u32) -> (r: Vec<
    u8,
>)
    ensures
        r@ == xtsmgraphics_report(cell_width_px, cell_height_px),
{
    let mut out: Vec<u8> = vec![0x1B, 0x5B, 0x3F, 0x32, 0x3B, 0x30, 0x3B];
    push_decimal(&mut out, cell_width_px as u64);
    let middle: Vec<u8> = vec![0x53, 0x1B, 0x5B, 0x3F, 0x33, 0x3B, 0x30, 0x3B];
    crate::encoding::push_all(&mut out, middle.as_slice());
    push_decimal(&mut out, cell_height_px as u64);
    out.push(0x53);
    assert(out@ =~= xtsmgraphics_report(cell_width_px, cell_height_px));
    out
}

} // verus!
