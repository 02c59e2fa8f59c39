use mbtiles::Container;
use mbtiles::CopyDuplicateMode;
use mbtiles::MbtType;
use mbtiles::PatchArtifact;
use mbtiles::PatchEntry;
use mbtiles::PatchError;
use mbtiles::PatchFileInfo;
use mbtiles::PatchOp;
use mbtiles::PatchType;
use mbtiles::compute_patch;

fn base_container(variant: MbtType) -> Container {
    let mut c = Container::new(variant);
    c.insert_tiles(
        CopyDuplicateMode::Ignore,
        &[
            (0u8, 0u32, 0u32, b"kept".to_vec()),
            (1, 0, 0, b"will change quite a bit of content".to_vec()),
            (1, 1, 1, b"will vanish".to_vec()),
        ],
    )
    .unwrap();
    c
}

fn target_container(variant: MbtType) -> Container {
    let mut c = Container::new(variant);
    c.insert_tiles(
        CopyDuplicateMode::Ignore,
        &[
            (0u8, 0u32, 0u32, b"kept".to_vec()),
            (1, 0, 0, b"will change quite a bit of content, changed".to_vec()),
            (2, 2, 2, b"brand new".to_vec()),
        ],
    )
    .unwrap();
    c
}

fn assert_same_tiles(a: &Container, b: &Container) {
    let ta = a.stream_tiles();
    let tb = b.stream_tiles();
    assert_eq!(ta.len(), tb.len());
    for (pa, pb) in ta.iter().zip(tb.iter()) {
        assert_eq!(pa.0, pb.0);
        assert_eq!(pa.1, pb.1);
    }
}

#[test]
fn whole_patch_round_trip() {
    for variant in [MbtType::Flat, MbtType::Normalized { hash_view: true }] {
        let base = base_container(variant);
        let target = target_container(variant);
        let artifact = compute_patch(&base, &target, PatchType::Whole).unwrap();
        let mut applied = base.duplicate();
        let info = applied.apply_patch(&artifact).unwrap();
        assert_same_tiles(&applied, &target);
        assert_eq!(applied.agg_tiles_hash(), target.agg_tiles_hash());
        assert_eq!(info.agg_tiles_hash.unwrap(), target.agg_tiles_hash());
        assert_eq!(info.patch_type, Some(PatchType::Whole));
    }
}

#[test]
fn bindiff_raw_patch_round_trip() {
    let base = base_container(MbtType::Flat);
    let target = target_container(MbtType::Flat);
    let artifact = compute_patch(&base, &target, PatchType::BinDiffRaw).unwrap();
    let mut applied = base.duplicate();
    applied.apply_patch(&artifact).unwrap();
    assert_same_tiles(&applied, &target);
}

#[test]
fn bindiff_gz_patch_round_trip() {
    let base = base_container(MbtType::FlatWithHash);
    let target = target_container(MbtType::FlatWithHash);
    let artifact = compute_patch(&base, &target, PatchType::BinDiffGz).unwrap();
    let mut applied = base.duplicate();
    applied.apply_patch(&artifact).unwrap();
    assert_same_tiles(&applied, &target);
}

#[test]
fn base_mismatch_leaves_container_untouched() {
    let base = base_container(MbtType::Flat);
    let target = target_container(MbtType::Flat);
    let mut artifact = compute_patch(&base, &target, PatchType::Whole).unwrap();
    artifact.info.agg_tiles_hash_before_apply =
        Some("00000000000000000000000000000000".to_string());
    let mut victim = base.duplicate();
    let before_count = victim.tile_count();
    let before_tiles = victim.stream_tiles();
    assert_eq!(victim.apply_patch(&artifact), Err(PatchError::BaseMismatch));
    assert_eq!(victim.tile_count(), before_count);
    let after_tiles = victim.stream_tiles();
    for (pa, pb) in before_tiles.iter().zip(after_tiles.iter()) {
        assert_eq!(pa.0, pb.0);
        assert_eq!(pa.1, pb.1);
    }
}

#[test]
fn result_mismatch_rolls_back() {
    let base = base_container(MbtType::Flat);
    let target = target_container(MbtType::Flat);
    let mut artifact = compute_patch(&base, &target, PatchType::Whole).unwrap();
    artifact.info.agg_tiles_hash_after_apply =
        Some("ffffffffffffffffffffffffffffffff".to_string());
    let mut victim = base.duplicate();
    assert_eq!(victim.apply_patch(&artifact), Err(PatchError::ResultMismatch));
    assert_same_tiles(&victim, &base);
}

#[test]
fn corrupt_delta_fails_cleanly() {
    let base = base_container(MbtType::Flat);
    let artifact = PatchArtifact {
        info: PatchFileInfo {
            mbt_type: MbtType::Flat,
            agg_tiles_hash: None,
            agg_tiles_hash_before_apply: None,
            agg_tiles_hash_after_apply: None,
            patch_type: Some(PatchType::BinDiffRaw),
        },
        entries: vec![PatchEntry {
            z: 0,
            x: 0,
            y: 0,
            op: PatchOp::Delta(b"this is not a delta".to_vec()),
        }],
    };
    let mut victim = base.duplicate();
    assert_eq!(victim.apply_patch(&artifact), Err(PatchError::Io));
    assert_same_tiles(&victim, &base);
}

#[test]
fn delta_against_missing_tile_fails_cleanly() {
    let base = base_container(MbtType::Flat);
    let artifact = PatchArtifact {
        info: PatchFileInfo {
            mbt_type: MbtType::Flat,
            agg_tiles_hash: None,
            agg_tiles_hash_before_apply: None,
            agg_tiles_hash_after_apply: None,
            patch_type: Some(PatchType::BinDiffRaw),
        },
        entries: vec![PatchEntry {
            z: 7,
            x: 7,
            y: 7,
            op: PatchOp::Delta(Vec::new()),
        }],
    };
    let mut victim = base.duplicate();
    assert_eq!(victim.apply_patch(&artifact), Err(PatchError::Io));
    assert_same_tiles(&victim, &base);
}

#[test]
fn patch_info_records_both_aggregates() {
    let base = base_container(MbtType::Flat);
    let target = target_container(MbtType::Flat);
    let artifact = compute_patch(&base, &target, PatchType::Whole).unwrap();
    assert_eq!(
        artifact.info.agg_tiles_hash_before_apply.as_ref().unwrap(),
        &base.agg_tiles_hash(),
    );
    assert_eq!(
        artifact.info.agg_tiles_hash_after_apply.as_ref().unwrap(),
        &target.agg_tiles_hash(),
    );
    assert_eq!(artifact.info.agg_tiles_hash, None);
}

#[test]
fn patch_between_layouts_uses_logical_content() {
    // A patch computed between different layouts still brackets by the
    // layout-independent aggregate hash.
    let base = base_container(MbtType::Flat);
    let target = target_container(MbtType::Normalized { hash_view: false });
    let artifact = compute_patch(&base, &target, PatchType::Whole).unwrap();
    let mut applied = base.duplicate();
    applied.apply_patch(&artifact).unwrap();
    assert_eq!(applied.agg_tiles_hash(), target.agg_tiles_hash());
}
