//! The streaming accessor: enumeration of the coordinates or the full
//! tiles of a container, and the decoding of raw storage rows.
//!
//! The enumeration follows the stored row order; consumers may not rely on
//! any particular order.  Raw rows read from storage carry nullable wide
//! integers; decoding one that is absent or out of range yields an
//! [`StreamError::InvalidTileIndex`] item rather than ending the whole
//! enumeration, so a consumer can choose to stop or continue.

use vstd::prelude::*;
use crate::container::Container;
use crate::container::clone_bytes;
use crate::tile::TileCoord;
use crate::tile::invert_y;
use crate::tile::parse_tile_index_spec;

verus! {

/// Failure of decoding one stored row.
#[derive(Clone, Debug, PartialEq, Eq)]
pub enum StreamError {
    /// The row's zoom, column, or row field is absent, does not fit its
    /// type, or does not lie on the grid of its zoom level.  The raw
    /// fields are carried for diagnosis.
    InvalidTileIndex(Option<i64>, Option<i64>, Option<i64>),
}

/// Decodes one raw storage row into a coordinate, surfacing a failed row
/// as an error item.
///
/// The stored row uses the TMS convention; the returned coordinate
/// carries the XYZ row.
pub fn stream_row(z: Option<i64>, x: Option<i64>, y: Option<i64>) -> (r: Result<
    TileCoord,
    StreamError,
>)
    ensures
        r matches Ok(c) ==> parse_tile_index_spec(z, x, y) == Some(c),
        r matches Err(e) ==> parse_tile_index_spec(z, x, y) is None && (e
            == StreamError::InvalidTileIndex(z, x, y)),
{
    match crate::tile::parse_tile_index(z, x, y) {
        Some(c) => Ok(c),
        None => Err(StreamError::InvalidTileIndex(z, x, y)),
    }
}

impl Container {
    /// The coordinates of all tiles, in stored row order, with XYZ rows.
    pub fn stream_coords(&self) -> (r: Vec<TileCoord>)
        requires
            self.wf(),
        ensures
            r@.len() == self.rows@.len(),
            forall|i: int|
                0 <= i < r@.len() ==> #[trigger] r@[i] == (TileCoord {
                    z: self.rows@[i].z,
                    x: self.rows@[i].x,
                    y: invert_y(self.rows@[i].z, self.rows@[i].y),
                }),
    {
        let mut out: Vec<TileCoord> = Vec::new();
        let mut i: usize = 0;
        while i < self.rows.len()
            invariant
                self.wf(),
                i <= self.rows@.len(),
                out@.len() == i,
                forall|j: int|
                    0 <= j < i ==> #[trigger] out@[j] == (TileCoord {
                        z: self.rows@[j].z,
                        x: self.rows@[j].x,
                        y: invert_y(self.rows@[j].z, self.rows@[j].y),
                    }),
            decreases self.rows@.len() - i,
        {
            let row = &self.rows[i];
            let yx = crate::tile::invert_y_value(row.z, row.y);
            out.push(TileCoord { z: row.z, x: row.x, y: yx });
            i += 1;
        }
        out
    }

    /// All tiles as coordinate and bytes pairs, in stored row order, with
    /// XYZ rows.
    pub fn stream_tiles(&self) -> (r: Vec<(TileCoord, Vec<u8>)>)
        requires
            self.wf(),
        ensures
            r@.len() == self.rows@.len(),
            forall|i: int|
                0 <= i < r@.len() ==> (#[trigger] r@[i]).0 == (TileCoord {
                    z: self.rows@[i].z,
                    x: self.rows@[i].x,
                    y: invert_y(self.rows@[i].z, self.rows@[i].y),
                }) && r@[i].1@ == self.rows@[i].data@,
    {
        let mut out: Vec<(TileCoord, Vec<u8>)> = Vec::new();
        let mut i: usize = 0;
        while i < self.rows.len()
            invariant
                self.wf(),
                i <= self.rows@.len(),
                out@.len() == i,
                forall|j: int|
                    0 <= j < i ==> (#[trigger] out@[j]).0 == (TileCoord {
                        z: self.rows@[j].z,
                        x: self.rows@[j].x,
                        y: invert_y(self.rows@[j].z, self.rows@[j].y),
                    }) && out@[j].1@ == self.rows@[j].data@,
            decreases self.rows@.len() - i,
        {
            let row = &self.rows[i];
            let yx = crate::tile::invert_y_value(row.z, row.y);
            out.push((TileCoord { z: row.z, x: row.x, y: yx }, clone_bytes(row.data.as_slice())));
            i += 1;
        }
        out
    }
}

} // verus!
