//! The coordinate model: tile addresses and the XYZ/TMS row conversion.
//!
//! A tile is addressed by a zoom level `z` and a column/row pair `(x, y)`.
//! On a given zoom level the grid is `2^z` by `2^z`, so a coordinate is valid
//! only when both `x` and `y` lie below `2^z`.  Zoom levels above 31 cannot
//! index their full grid with `u32` columns and are treated as out of range.
//!
//! Two row conventions exist: XYZ (row 0 at the top) and TMS (row 0 at the
//! bottom, used on disk).  They differ by the involution
//! `y -> 2^z - 1 - y` computed by [`invert_y_value`].

use vstd::prelude::*;
use vstd::arithmetic::power2::{pow2, lemma_pow2_strictly_increases, lemma2_to64};
use vstd::bits::lemma_u32_shl_is_mul;

verus! {

/// Failure of coordinate construction.
#[derive(Clone, Copy, Debug, PartialEq, Eq, Structural)]
pub enum CoordinateError {
    /// The column or row does not fit on the requested zoom level.
    OutOfRange,
}

/// The number of columns (and of rows) of the tile grid on zoom level `z`.
pub open spec fn tile_dim(z: u8) -> int {
    pow2(z as nat) as int
}

/// Whether `(x, y)` addresses a tile of the `2^z` by `2^z` grid of zoom `z`.
pub open spec fn valid_tile_index(z: u8, x: u32, y: u32) -> bool {
    z <= 31 && (x as int) < tile_dim(z) && (y as int) < tile_dim(z)
}

/// The row with the opposite convention: `2^z - 1 - y`.
pub open spec fn invert_y(z: u8, y: u32) -> u32
    recommends
        valid_tile_index(z, 0, y),
{
    (tile_dim(z) - 1 - y) as u32
}

/// On every zoom level up to 31 the grid dimension `2^z` is computed by a
/// shift and fits `u32`.
proof fn lemma_tile_dim(z: u8)
    requires
        z <= 31,
    ensures
        1u32 << (z as u32) == tile_dim(z),
        1 <= tile_dim(z) <= 0x8000_0000,
{
    lemma2_to64();
    if z < 31 {
        lemma_pow2_strictly_increases(z as nat, 31);
    }
    lemma_u32_shl_is_mul(1u32, z as u32);
}

/// A tile address: zoom level, column, and row.
///
/// The row convention (XYZ or TMS) is whichever the call site selects;
/// the conversion between the two is [`invert_y_value`].
#[derive(Clone, Copy, Debug, Hash, PartialEq, Eq, Structural)]
pub struct TileCoord {
    pub z: u8,
    pub x: u32,
    pub y: u32,
}

/// Whether a coordinate lies on the grid of its own zoom level.
pub open spec fn coord_valid(c: TileCoord) -> bool {
    valid_tile_index(c.z, c.x, c.y)
}

impl TileCoord {
    /// Builds a coordinate, failing with [`CoordinateError::OutOfRange`]
    /// when `(x, y)` does not address a tile of zoom level `z`.
    pub fn new(z: u8, x: u32, y: u32) -> (r: Result<TileCoord, CoordinateError>)
        ensures
            valid_tile_index(z, x, y) ==> r == Ok::<TileCoord, CoordinateError>(
                TileCoord { z, x, y },
            ),
            !valid_tile_index(z, x, y) ==> r == Err::<TileCoord, CoordinateError>(
                CoordinateError::OutOfRange,
            ),
    {
        if Self::is_possible_on_zoom_level(z, x, y) {
            Ok(TileCoord { z, x, y })
        } else {
            Err(CoordinateError::OutOfRange)
        }
    }

    /// Builds a coordinate that the caller has already validated.
    pub fn new_unchecked(z: u8, x: u32, y: u32) -> (c: TileCoord)
        requires
            valid_tile_index(z, x, y),
        ensures
            c == (TileCoord { z, x, y }),
    {
        TileCoord { z, x, y }
    }

    /// Whether `(x, y)` addresses a tile of the grid of zoom level `z`.
    pub fn is_possible_on_zoom_level(z: u8, x: u32, y: u32) -> (b: bool)
        ensures
            b == valid_tile_index(z, x, y),
    {
        if z > 31 {
            false
        } else {
            proof {
                lemma_tile_dim(z);
            }
            let dim = 1u32 << (z as u32);
            x < dim && y < dim
        }
    }
}

/// Converts a row between the XYZ and the TMS convention.
///
/// Defined only for rows that are valid on zoom level `z`; the engine
/// validates rows before inverting them, so this function never wraps.
pub fn invert_y_value(z: u8, y: u32) -> (r: u32)
    requires
        valid_tile_index(z, 0, y),
    ensures
        r == invert_y(z, y),
        valid_tile_index(z, 0, r),
{
    proof {
        lemma_tile_dim(z);
    }
    (1u32 << (z as u32)) - 1 - y
}

/// Row inversion is an involution: converting a valid row to the opposite
/// convention and back returns the original row.
pub proof fn lemma_invert_y_involution(z: u8, y: u32)
    requires
        valid_tile_index(z, 0, y),
    ensures
        valid_tile_index(z, 0, invert_y(z, y)),
        invert_y(z, invert_y(z, y)) == y,
{
    lemma_tile_dim(z);
}

/// Whether all three raw fields of a stored row are present, fit their
/// target types, and name a tile of the grid of their zoom level.
pub open spec fn raw_index_ok(z: Option<i64>, x: Option<i64>, y: Option<i64>) -> bool {
    &&& z matches Some(zv) && 0 <= zv <= u8::MAX
    &&& x matches Some(xv) && 0 <= xv <= u32::MAX
    &&& y matches Some(yv) && 0 <= yv <= u32::MAX
    &&& valid_tile_index(z.unwrap() as u8, x.unwrap() as u32, y.unwrap() as u32)
}

/// What [`parse_tile_index`] returns: the narrowed coordinate with its row
/// converted from the stored TMS convention to XYZ, or `None` where a
/// field is absent or out of range.
pub open spec fn parse_tile_index_spec(z: Option<i64>, x: Option<i64>, y: Option<i64>) -> Option<
    TileCoord,
> {
    if raw_index_ok(z, x, y) {
        Some(
            TileCoord {
                z: z.unwrap() as u8,
                x: x.unwrap() as u32,
                y: invert_y(z.unwrap() as u8, y.unwrap() as u32),
            },
        )
    } else {
        None
    }
}

/// Narrows the nullable wide integers of a raw storage row to a coordinate.
///
/// The stored row uses the TMS convention; the returned coordinate carries
/// the XYZ row.  Returns `None` when a field is absent, does not fit its
/// target type, or does not lie on the grid of its zoom level — the row is
/// validated before its row value is inverted, never cast unchecked.
pub fn parse_tile_index(z: Option<i64>, x: Option<i64>, y: Option<i64>) -> (r: Option<TileCoord>)
    ensures
        r == parse_tile_index_spec(z, x, y),
        r matches Some(c) ==> coord_valid(c),
{
    let zv = match z {
        Some(v) if 0 <= v && v <= u8::MAX as i64 => v as u8,
        _ => {
            return None;
        },
    };
    let xv = match x {
        Some(v) if 0 <= v && v <= u32::MAX as i64 => v as u32,
        _ => {
            return None;
        },
    };
    let yv = match y {
        Some(v) if 0 <= v && v <= u32::MAX as i64 => v as u32,
        _ => {
            return None;
        },
    };
    if TileCoord::is_possible_on_zoom_level(zv, xv, yv) {
        proof {
            lemma_invert_y_involution(zv, yv);
        }
        Some(TileCoord::new_unchecked(zv, xv, invert_y_value(zv, yv)))
    } else {
        None
    }
}

} // verus!
