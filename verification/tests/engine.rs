use mbtiles::Container;
use mbtiles::CopyDuplicateMode;
use mbtiles::MbtType;
use mbtiles::WriteError;
use mbtiles::md5_hex;
use mbtiles::detect_type;
use mbtiles::DetectError;
use mbtiles::SchemaProbe;
use mbtiles::hashing::md5_hex_ascii;

fn all_variants() -> Vec<MbtType> {
    vec![
        MbtType::Flat,
        MbtType::FlatWithHash,
        MbtType::Normalized { hash_view: false },
        MbtType::Normalized { hash_view: true },
    ]
}

#[test]
fn round_trip_every_variant() {
    for variant in all_variants() {
        let mut c = Container::new(variant);
        let batch = vec![
            (0u8, 0u32, 0u32, b"alpha".to_vec()),
            (1, 0, 1, b"beta".to_vec()),
            (2, 3, 1, b"gamma".to_vec()),
        ];
        c.insert_tiles(CopyDuplicateMode::Ignore, &batch).unwrap();
        assert_eq!(c.tile_count(), 3);
        assert_eq!(c.get_tile(0, 0, 0).unwrap(), b"alpha".to_vec());
        assert_eq!(c.get_tile(1, 0, 1).unwrap(), b"beta".to_vec());
        assert_eq!(c.get_tile(2, 3, 1).unwrap(), b"gamma".to_vec());
        assert_eq!(c.get_tile(2, 3, 2), None);
    }
}

#[test]
fn tile_and_hash_per_variant() {
    for variant in all_variants() {
        let mut c = Container::new(variant);
        c.insert_tiles(CopyDuplicateMode::Ignore, &[(4u8, 2u32, 9u32, b"payload".to_vec())])
            .unwrap();
        let (data, hash) = c.get_tile_and_hash(4, 2, 9).unwrap();
        assert_eq!(data, b"payload".to_vec());
        match variant {
            MbtType::Flat => assert_eq!(hash, None),
            _ => assert_eq!(hash.unwrap(), md5_hex(b"payload")),
        }
        assert_eq!(c.get_tile_and_hash(4, 2, 8), None);
    }
}

#[test]
fn normalized_dedup_single_content_row() {
    let mut c = Container::new(MbtType::Normalized { hash_view: false });
    let batch = vec![
        (5u8, 1u32, 1u32, b"same-bytes".to_vec()),
        (5, 2, 2, b"same-bytes".to_vec()),
    ];
    c.insert_tiles(CopyDuplicateMode::Ignore, &batch).unwrap();
    assert_eq!(c.tile_count(), 2);
    // Identical bytes under two coordinates share exactly one content row.
    assert_eq!(c.content_row_count(), 1);
    let mut d = Container::new(MbtType::Normalized { hash_view: false });
    d.insert_tiles(CopyDuplicateMode::Ignore, &[(5u8, 1u32, 1u32, b"same-bytes".to_vec())])
        .unwrap();
    d.insert_tiles(CopyDuplicateMode::Ignore, &[(5u8, 2u32, 2u32, b"same-bytes".to_vec())])
        .unwrap();
    assert_eq!(d.content_row_count(), 1);
    assert_eq!(c.agg_tiles_hash(), d.agg_tiles_hash());
}

#[test]
fn aggregate_hash_independent_of_layout() {
    let batch = vec![
        (0u8, 0u32, 0u32, b"one".to_vec()),
        (3, 4, 5, b"two".to_vec()),
        (3, 4, 6, b"one".to_vec()),
    ];
    let mut hashes = Vec::new();
    for variant in all_variants() {
        let mut c = Container::new(variant);
        c.insert_tiles(CopyDuplicateMode::Ignore, &batch).unwrap();
        hashes.push(c.agg_tiles_hash());
    }
    for h in &hashes {
        assert_eq!(h, &hashes[0]);
    }
}

#[test]
fn aggregate_is_hash_of_per_tile_hashes() {
    let mut c = Container::new(MbtType::Normalized { hash_view: false });
    c.insert_tiles(
        CopyDuplicateMode::Ignore,
        &[(1u8, 0u32, 0u32, b"same".to_vec()), (1, 1, 0, b"same".to_vec())],
    )
    .unwrap();
    // Each coordinate contributes its own content id to the aggregate,
    // even though the two share one content row.
    let mut payload = md5_hex_ascii(b"same");
    payload.extend_from_slice(&md5_hex_ascii(b"same"));
    assert_eq!(c.agg_tiles_hash(), md5_hex(&payload));
    assert_eq!(c.content_row_count(), 1);
}

#[test]
fn aggregate_hash_of_empty_container() {
    let c = Container::new(MbtType::Flat);
    assert_eq!(c.agg_tiles_hash(), "d41d8cd98f00b204e9800998ecf8427e");
}

#[test]
fn duplicate_mode_ignore_first_wins() {
    let mut c = Container::new(MbtType::Flat);
    c.insert_tiles(CopyDuplicateMode::Ignore, &[(2u8, 1u32, 1u32, b"first".to_vec())])
        .unwrap();
    c.insert_tiles(CopyDuplicateMode::Ignore, &[(2u8, 1u32, 1u32, b"second".to_vec())])
        .unwrap();
    assert_eq!(c.get_tile(2, 1, 1).unwrap(), b"first".to_vec());
    assert_eq!(c.tile_count(), 1);
}

#[test]
fn duplicate_mode_override_second_wins() {
    let mut c = Container::new(MbtType::FlatWithHash);
    c.insert_tiles(CopyDuplicateMode::Override, &[(2u8, 1u32, 1u32, b"first".to_vec())])
        .unwrap();
    c.insert_tiles(CopyDuplicateMode::Override, &[(2u8, 1u32, 1u32, b"second".to_vec())])
        .unwrap();
    assert_eq!(c.get_tile(2, 1, 1).unwrap(), b"second".to_vec());
    assert_eq!(c.tile_count(), 1);
    let (_, hash) = c.get_tile_and_hash(2, 1, 1).unwrap();
    assert_eq!(hash.unwrap(), md5_hex(b"second"));
}

#[test]
fn duplicate_mode_abort_keeps_first_batch() {
    let mut c = Container::new(MbtType::Flat);
    c.insert_tiles(CopyDuplicateMode::Abort, &[(2u8, 1u32, 1u32, b"first".to_vec())])
        .unwrap();
    let r = c.insert_tiles(
        CopyDuplicateMode::Abort,
        &[(2u8, 0u32, 0u32, b"other".to_vec()), (2, 1, 1, b"second".to_vec())],
    );
    assert_eq!(r, Err(WriteError::Conflict));
    // The whole colliding batch rolled back: not even its fresh row landed.
    assert_eq!(c.tile_count(), 1);
    assert_eq!(c.get_tile(2, 1, 1).unwrap(), b"first".to_vec());
    assert_eq!(c.get_tile(2, 0, 0), None);
}

#[test]
fn abort_rejects_duplicates_within_one_batch() {
    let mut c = Container::new(MbtType::Flat);
    let r = c.insert_tiles(
        CopyDuplicateMode::Abort,
        &[(1u8, 0u32, 0u32, b"a".to_vec()), (1, 0, 0, b"b".to_vec())],
    );
    assert_eq!(r, Err(WriteError::Conflict));
    assert_eq!(c.tile_count(), 0);
}

#[test]
fn invalid_coordinate_aborts_whole_batch() {
    for mode in [
        CopyDuplicateMode::Ignore,
        CopyDuplicateMode::Override,
        CopyDuplicateMode::Abort,
    ] {
        let mut c = Container::new(MbtType::Flat);
        let r = c.insert_tiles(
            mode,
            &[(1u8, 0u32, 0u32, b"fine".to_vec()), (1, 2, 0, b"out of range".to_vec())],
        );
        assert_eq!(r, Err(WriteError::InvalidCoordinate));
        assert_eq!(c.tile_count(), 0);
    }
}

#[test]
fn rows_are_stored_in_tms_convention() {
    let mut c = Container::new(MbtType::Flat);
    c.insert_tiles(CopyDuplicateMode::Ignore, &[(3u8, 1u32, 2u32, b"t".to_vec())])
        .unwrap();
    let coords = c.stream_coords();
    assert_eq!(coords.len(), 1);
    // The accessor hands the XYZ row back out.
    assert_eq!(coords[0].z, 3);
    assert_eq!(coords[0].x, 1);
    assert_eq!(coords[0].y, 2);
}

#[test]
fn metadata_set_get_and_replace() {
    let mut c = Container::new(MbtType::Flat);
    assert_eq!(c.get_metadata_value("name"), None);
    c.set_metadata_value("name", "demo");
    c.set_metadata_value("format", "png");
    assert_eq!(c.get_metadata_value("name").unwrap(), "demo");
    assert_eq!(c.get_metadata_value("format").unwrap(), "png");
    c.set_metadata_value("name", "renamed");
    assert_eq!(c.get_metadata_value("name").unwrap(), "renamed");
}

#[test]
fn detect_type_single_layouts() {
    let flat = SchemaProbe {
        has_flat_table: true,
        has_flat_with_hash_table: false,
        has_normalized_tables: false,
        has_hash_view: false,
    };
    assert_eq!(detect_type(flat), Ok(MbtType::Flat));
    let fwh = SchemaProbe { has_flat_table: false, has_flat_with_hash_table: true, ..flat };
    assert_eq!(detect_type(fwh), Ok(MbtType::FlatWithHash));
    let norm = SchemaProbe {
        has_flat_table: false,
        has_flat_with_hash_table: false,
        has_normalized_tables: true,
        has_hash_view: true,
    };
    assert_eq!(detect_type(norm), Ok(MbtType::Normalized { hash_view: true }));
    let norm_plain = SchemaProbe { has_hash_view: false, ..norm };
    assert_eq!(detect_type(norm_plain), Ok(MbtType::Normalized { hash_view: false }));
}

#[test]
fn detect_type_failures() {
    let none = SchemaProbe {
        has_flat_table: false,
        has_flat_with_hash_table: false,
        has_normalized_tables: false,
        has_hash_view: false,
    };
    assert_eq!(detect_type(none), Err(DetectError::NoTileTable));
    let mixed = SchemaProbe { has_flat_table: true, has_normalized_tables: true, ..none };
    assert_eq!(detect_type(mixed), Err(DetectError::MixedSchema));
}

#[test]
fn duplicate_is_independent() {
    let mut c = Container::new(MbtType::Normalized { hash_view: false });
    c.insert_tiles(CopyDuplicateMode::Ignore, &[(1u8, 1u32, 0u32, b"x".to_vec())])
        .unwrap();
    c.set_metadata_value("name", "orig");
    let mut d = c.duplicate();
    d.insert_tiles(CopyDuplicateMode::Override, &[(1u8, 1u32, 0u32, b"y".to_vec())])
        .unwrap();
    assert_eq!(c.get_tile(1, 1, 0).unwrap(), b"x".to_vec());
    assert_eq!(d.get_tile(1, 1, 0).unwrap(), b"y".to_vec());
    assert_eq!(d.get_metadata_value("name").unwrap(), "orig");
}
