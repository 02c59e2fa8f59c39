use mbtiles::CopyDuplicateMode;
use mbtiles::LightAnchor;
use mbtiles::MbtType;
use mbtiles::MbtTypeCli;
use mbtiles::Mbtiles;
use mbtiles::VectorScheme;
use mbtiles::md5_hex;
use mbtiles::elide_vec;
use mbtiles::text::dec_string;
use mbtiles::hashing::hex_encode;

#[test]
fn file_reference_names() {
    let m = Mbtiles::new("data/tiles/world.mbtiles");
    assert_eq!(m.filepath(), "data/tiles/world.mbtiles");
    assert_eq!(m.filename(), "world");
    assert_eq!(Mbtiles::new("world.mbtiles").filename(), "world");
    assert_eq!(Mbtiles::new("archive.tar.gz").filename(), "archive.tar");
    assert_eq!(Mbtiles::new(".hidden").filename(), ".hidden");
    assert_eq!(Mbtiles::new("plain").filename(), "plain");
    assert_eq!(Mbtiles::new("dir/").filename(), "unknown");
    assert_eq!(Mbtiles::new("").filename(), "unknown");
}

#[test]
fn insert_sql_per_layout_and_policy() {
    let (sql1, sql2) = Mbtiles::get_insert_sql(MbtType::Flat, CopyDuplicateMode::Ignore);
    assert_eq!(
        sql1,
        "INSERT OR IGNORE INTO tiles (zoom_level, tile_column, tile_row, tile_data) VALUES (?1, ?2, ?3, ?4);"
    );
    assert_eq!(sql2, None);
    let (sql1, sql2) = Mbtiles::get_insert_sql(MbtType::FlatWithHash, CopyDuplicateMode::Override);
    assert_eq!(
        sql1,
        "INSERT OR REPLACE INTO tiles_with_hash (zoom_level, tile_column, tile_row, tile_data, tile_hash) VALUES (?1, ?2, ?3, ?4, md5_hex(?4));"
    );
    assert_eq!(sql2, None);
    let (sql1, sql2) =
        Mbtiles::get_insert_sql(MbtType::Normalized { hash_view: false }, CopyDuplicateMode::Abort);
    assert_eq!(
        sql1,
        "INSERT OR ABORT INTO map (zoom_level, tile_column, tile_row, tile_id) VALUES (?1, ?2, ?3, md5_hex(?4));"
    );
    assert_eq!(
        sql2.unwrap(),
        "INSERT OR IGNORE INTO images (tile_id, tile_data) VALUES (md5_hex(?1), ?1);"
    );
}

#[test]
fn tile_and_hash_sql_per_layout() {
    assert_eq!(
        Mbtiles::get_tile_and_hash_sql(MbtType::Flat),
        "SELECT tile_data, NULL AS tile_hash FROM tiles WHERE zoom_level = ? AND tile_column = ? AND tile_row = ?"
    );
    assert_eq!(
        Mbtiles::get_tile_and_hash_sql(MbtType::FlatWithHash),
        Mbtiles::get_tile_and_hash_sql(MbtType::Normalized { hash_view: true })
    );
    assert_eq!(
        Mbtiles::get_tile_and_hash_sql(MbtType::Normalized { hash_view: false }),
        "SELECT images.tile_data, images.tile_id AS tile_hash FROM map JOIN images ON map.tile_id = images.tile_id WHERE map.zoom_level = ? AND map.tile_column = ? AND map.tile_row = ?"
    );
}

#[test]
fn content_id_known_values() {
    assert_eq!(md5_hex(b""), "d41d8cd98f00b204e9800998ecf8427e");
    assert_eq!(md5_hex(b"abc"), "900150983cd24fb0d6963f7d28e17f72");
    assert_eq!(hex_encode(&[0x00, 0x0f, 0xa5, 0xff]), "000fa5ff");
}

#[test]
fn decimal_formatting() {
    assert_eq!(dec_string(0), "0");
    assert_eq!(dec_string(7), "7");
    assert_eq!(dec_string(10), "10");
    assert_eq!(dec_string(90210), "90210");
}

#[test]
fn elide_vec_short_lists_stay_whole() {
    let items = vec!["alpha".to_string(), "beta".to_string()];
    assert_eq!(elide_vec(&items, 3, 15), "alpha beta");
    assert_eq!(elide_vec(&[], 3, 15), "");
}

#[test]
fn elide_vec_cuts_long_entries() {
    let items = vec!["abcdefgh".to_string()];
    assert_eq!(elide_vec(&items, 3, 4), "abcd\u{2026}");
}

#[test]
fn elide_vec_summarizes_the_rest() {
    let items: Vec<String> = ["a", "b", "c", "d", "e", "f"]
        .iter()
        .map(|s| s.to_string())
        .collect();
    assert_eq!(elide_vec(&items, 2, 15), "a b c and 3 more");
}

#[test]
fn enum_names() {
    assert_eq!(MbtType::Flat.as_str(), "flat");
    assert_eq!(MbtType::FlatWithHash.as_str(), "flat-with-hash");
    assert_eq!(MbtType::Normalized { hash_view: true }.as_str(), "normalized");
    assert_eq!(MbtTypeCli::Normalized.as_str(), "normalized");
    assert_eq!(MbtTypeCli::Normalized.to_mbt_type(), MbtType::Normalized { hash_view: true });
    assert_eq!(CopyDuplicateMode::Ignore.to_sql(), "OR IGNORE");
    assert_eq!(CopyDuplicateMode::Override.to_sql(), "OR REPLACE");
    assert_eq!(CopyDuplicateMode::Abort.to_sql(), "OR ABORT");
    assert_eq!(VectorScheme::XYZ.as_str(), "xyz");
    assert_eq!(VectorScheme::TMS.as_str(), "tms");
    assert_eq!(LightAnchor::default(), LightAnchor::Viewport);
}
