use mbtiles::Container;
use mbtiles::CopyDuplicateMode;
use mbtiles::CopyError;
use mbtiles::CopyType;
use mbtiles::MbtType;
use mbtiles::TileCoord;
use mbtiles::copy_container;

#[test]
fn end_to_end_flat_to_normalized() {
    let mut src = Container::new(MbtType::Flat);
    src.insert_tiles(
        CopyDuplicateMode::Ignore,
        &[
            (0u8, 0u32, 0u32, b"A".to_vec()),
            (1, 0, 0, b"B".to_vec()),
            (1, 1, 0, b"C".to_vec()),
        ],
    )
    .unwrap();
    assert_eq!(src.get_tile(0, 0, 0).unwrap(), b"A".to_vec());
    let coords = src.stream_coords();
    assert_eq!(coords.len(), 3);
    for expected in [
        TileCoord { z: 0, x: 0, y: 0 },
        TileCoord { z: 1, x: 0, y: 0 },
        TileCoord { z: 1, x: 1, y: 0 },
    ] {
        assert!(coords.contains(&expected));
    }
    let mut dst = Container::new(MbtType::Normalized { hash_view: false });
    let stats = copy_container(&src, &mut dst, CopyType::All, CopyDuplicateMode::Ignore).unwrap();
    assert_eq!(stats.tiles, 3);
    assert_eq!(dst.get_tile(1, 1, 0).unwrap(), b"C".to_vec());
    assert_eq!(dst.tile_count(), 3);
    assert_eq!(dst.agg_tiles_hash(), src.agg_tiles_hash());
}

#[test]
fn copy_tiles_only_leaves_metadata_alone() {
    let mut src = Container::new(MbtType::Flat);
    src.insert_tiles(CopyDuplicateMode::Ignore, &[(0u8, 0u32, 0u32, b"A".to_vec())])
        .unwrap();
    src.set_metadata_value("name", "source");
    let mut dst = Container::new(MbtType::Flat);
    dst.set_metadata_value("name", "destination");
    let stats =
        copy_container(&src, &mut dst, CopyType::Tiles, CopyDuplicateMode::Ignore).unwrap();
    assert_eq!(stats.tiles, 1);
    assert_eq!(stats.metadata, 0);
    assert_eq!(dst.get_tile(0, 0, 0).unwrap(), b"A".to_vec());
    assert_eq!(dst.get_metadata_value("name").unwrap(), "destination");
}

#[test]
fn copy_metadata_only_leaves_tiles_alone() {
    let mut src = Container::new(MbtType::Flat);
    src.insert_tiles(CopyDuplicateMode::Ignore, &[(0u8, 0u32, 0u32, b"A".to_vec())])
        .unwrap();
    src.set_metadata_value("attribution", "nobody");
    let mut dst = Container::new(MbtType::Flat);
    let stats =
        copy_container(&src, &mut dst, CopyType::Metadata, CopyDuplicateMode::Override).unwrap();
    assert_eq!(stats.tiles, 0);
    assert_eq!(stats.metadata, 1);
    assert_eq!(dst.tile_count(), 0);
    assert_eq!(dst.get_metadata_value("attribution").unwrap(), "nobody");
}

#[test]
fn copy_duplicate_modes_on_shared_coordinate() {
    let mut src = Container::new(MbtType::Flat);
    src.insert_tiles(CopyDuplicateMode::Ignore, &[(3u8, 3u32, 3u32, b"new".to_vec())])
        .unwrap();
    // Ignore: the destination's bytes survive.
    let mut dst = Container::new(MbtType::Flat);
    dst.insert_tiles(CopyDuplicateMode::Ignore, &[(3u8, 3u32, 3u32, b"old".to_vec())])
        .unwrap();
    copy_container(&src, &mut dst, CopyType::Tiles, CopyDuplicateMode::Ignore).unwrap();
    assert_eq!(dst.get_tile(3, 3, 3).unwrap(), b"old".to_vec());
    // Override: the source's bytes replace them.
    let mut dst = Container::new(MbtType::Flat);
    dst.insert_tiles(CopyDuplicateMode::Ignore, &[(3u8, 3u32, 3u32, b"old".to_vec())])
        .unwrap();
    copy_container(&src, &mut dst, CopyType::Tiles, CopyDuplicateMode::Override).unwrap();
    assert_eq!(dst.get_tile(3, 3, 3).unwrap(), b"new".to_vec());
    // Abort: the copy fails whole and the destination keeps its bytes.
    let mut dst = Container::new(MbtType::Flat);
    dst.insert_tiles(CopyDuplicateMode::Ignore, &[(3u8, 3u32, 3u32, b"old".to_vec())])
        .unwrap();
    let r = copy_container(&src, &mut dst, CopyType::Tiles, CopyDuplicateMode::Abort);
    assert_eq!(r, Err(CopyError::Conflict));
    assert_eq!(dst.get_tile(3, 3, 3).unwrap(), b"old".to_vec());
    assert_eq!(dst.tile_count(), 1);
}

#[test]
fn copy_abort_on_shared_metadata_name() {
    let mut src = Container::new(MbtType::Flat);
    src.set_metadata_value("name", "a");
    let mut dst = Container::new(MbtType::Flat);
    dst.set_metadata_value("name", "b");
    let r = copy_container(&src, &mut dst, CopyType::All, CopyDuplicateMode::Abort);
    assert_eq!(r, Err(CopyError::Conflict));
    assert_eq!(dst.get_metadata_value("name").unwrap(), "b");
}

#[test]
fn copy_translates_hashes_for_the_destination() {
    let mut src = Container::new(MbtType::Flat);
    src.insert_tiles(CopyDuplicateMode::Ignore, &[(2u8, 0u32, 0u32, b"bytes".to_vec())])
        .unwrap();
    let mut dst = Container::new(MbtType::FlatWithHash);
    copy_container(&src, &mut dst, CopyType::Tiles, CopyDuplicateMode::Ignore).unwrap();
    let (data, hash) = dst.get_tile_and_hash(2, 0, 0).unwrap();
    assert_eq!(data, b"bytes".to_vec());
    assert_eq!(hash.unwrap(), mbtiles::md5_hex(b"bytes"));
}

#[test]
fn copy_type_selectors() {
    assert!(CopyType::All.copy_tiles());
    assert!(CopyType::All.copy_metadata());
    assert!(CopyType::Tiles.copy_tiles());
    assert!(!CopyType::Tiles.copy_metadata());
    assert!(!CopyType::Metadata.copy_tiles());
    assert!(CopyType::Metadata.copy_metadata());
    assert_eq!(CopyType::default(), CopyType::All);
}
