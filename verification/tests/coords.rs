use mbtiles::tile::CoordinateError;
use mbtiles::tile::TileCoord;
use mbtiles::tile::invert_y_value;
use mbtiles::tile::parse_tile_index;
use mbtiles::stream::StreamError;
use mbtiles::stream::stream_row;

#[test]
fn invert_row_involution() {
    for z in [0u8, 1, 2, 5, 10, 31] {
        let max = if z == 31 { u32::MAX / 2 } else { (1u32 << z) - 1 };
        for y in [0u32, 1, max / 2, max] {
            let y = y.min((1u32 << z) - 1);
            assert_eq!(invert_y_value(z, invert_y_value(z, y)), y);
        }
    }
    assert_eq!(invert_y_value(3, 0), 7);
    assert_eq!(invert_y_value(3, 7), 0);
    assert_eq!(invert_y_value(0, 0), 0);
}

#[test]
fn coordinate_construction_in_range() {
    let c = TileCoord::new(3, 7, 7).unwrap();
    assert_eq!(c.z, 3);
    assert_eq!(c.x, 7);
    assert_eq!(c.y, 7);
    assert!(TileCoord::new(0, 0, 0).is_ok());
}

#[test]
fn coordinate_construction_out_of_range() {
    assert_eq!(TileCoord::new(0, 1, 0), Err(CoordinateError::OutOfRange));
    assert_eq!(TileCoord::new(0, 0, 1), Err(CoordinateError::OutOfRange));
    assert_eq!(TileCoord::new(3, 8, 0), Err(CoordinateError::OutOfRange));
    assert_eq!(TileCoord::new(3, 0, 8), Err(CoordinateError::OutOfRange));
    assert_eq!(TileCoord::new(31, u32::MAX, 0), Err(CoordinateError::OutOfRange));
    // Zoom levels beyond 31 cannot index their grid with u32 columns.
    assert_eq!(TileCoord::new(32, 0, 0), Err(CoordinateError::OutOfRange));
}

#[test]
fn parse_tile_index_narrows_and_inverts() {
    let c = parse_tile_index(Some(3), Some(1), Some(2)).unwrap();
    assert_eq!(c, TileCoord { z: 3, x: 1, y: 5 });
    let c = parse_tile_index(Some(0), Some(0), Some(0)).unwrap();
    assert_eq!(c, TileCoord { z: 0, x: 0, y: 0 });
}

#[test]
fn parse_tile_index_rejects_bad_rows() {
    assert_eq!(parse_tile_index(None, Some(0), Some(0)), None);
    assert_eq!(parse_tile_index(Some(0), None, Some(0)), None);
    assert_eq!(parse_tile_index(Some(0), Some(0), None), None);
    assert_eq!(parse_tile_index(Some(-1), Some(0), Some(0)), None);
    assert_eq!(parse_tile_index(Some(0), Some(-3), Some(0)), None);
    assert_eq!(parse_tile_index(Some(256), Some(0), Some(0)), None);
    assert_eq!(parse_tile_index(Some(0), Some(0), Some(1)), None);
    assert_eq!(parse_tile_index(Some(2), Some(4), Some(0)), None);
    assert_eq!(parse_tile_index(Some(0), Some(i64::MAX), Some(0)), None);
}

#[test]
fn stream_row_surfaces_bad_rows_as_items() {
    let c = stream_row(Some(1), Some(1), Some(0)).unwrap();
    assert_eq!(c, TileCoord { z: 1, x: 1, y: 1 });
    let e = stream_row(Some(1), Some(2), Some(0)).unwrap_err();
    assert_eq!(e, StreamError::InvalidTileIndex(Some(1), Some(2), Some(0)));
}
