//! The patch engine: computing a delta between two containers and
//! applying it, bracketed by aggregate-hash verification.
//!
//! A patch artifact carries, per affected stored coordinate, either the
//! full new bytes, a binary delta against the base bytes, or a deletion,
//! together with the aggregate hashes of the base and of the result.
//! Before applying, the engine compares the base container's aggregate
//! hash with the artifact's expected base hash and fails with
//! [`PatchError::BaseMismatch`] without touching the base; after applying
//! all rows to a working copy it recomputes the aggregate and fails with
//! [`PatchError::ResultMismatch`], leaving the base untouched, when the
//! result drifted.  This double bracketing makes application
//! all-or-nothing and self-verifying.

use vstd::prelude::*;
use crate::bindiff::PatchType;
use crate::bindiff::bsdiff_apply;
use crate::bindiff::bsdiff_diff;
use crate::bindiff::bspatch_of;
use crate::bindiff::gunzip_of;
use crate::bindiff::gzip_compress;
use crate::bindiff::gzip_decompress;
use crate::container::Container;
use crate::container::bytes_eq;
use crate::container::clone_bytes;
use crate::container::has_key;
use crate::container::key_lt;
use crate::container::key_of;
use crate::container::lemma_lookup_append;
use crate::container::lemma_lookup_at;
use crate::container::lemma_lookup_some_iff;
use crate::container::lookup_rows;
use crate::container::meta_lookup;
use crate::container::same_key;
use crate::container::TileRow;
use crate::schema::MbtType;
use crate::text::str_eq;
use crate::tile::TileCoord;
use crate::tile::valid_tile_index;

verus! {

/// Failure of computing or applying a patch.
#[derive(Clone, Copy, Debug, PartialEq, Eq, Structural)]
pub enum PatchError {
    /// The base container's aggregate hash is not the one the patch was
    /// computed against.
    BaseMismatch,
    /// After application the aggregate hash is not the expected result
    /// hash; the base container is left untouched.
    ResultMismatch,
    /// The delta subsystem failed: a delta could not be computed or
    /// decoded, referenced a missing tile, or an entry carried an
    /// impossible coordinate.
    Io,
}

/// What a patch artifact describes: the layout it addresses, its own
/// aggregate hash where it has one, the aggregate hashes expected before
/// and after application, and the delta kind of its entries.
#[derive(Clone, Debug, PartialEq, Eq)]
pub struct PatchFileInfo {
    pub mbt_type: MbtType,
    pub agg_tiles_hash: Option<String>,
    pub agg_tiles_hash_before_apply: Option<String>,
    pub agg_tiles_hash_after_apply: Option<String>,
    pub patch_type: Option<PatchType>,
}

/// One change of a patch: full replacement bytes, a binary delta against
/// the bytes stored at the coordinate, or a deletion.
pub enum PatchOp {
    Put(Vec<u8>),
    Delta(Vec<u8>),
    Delete,
}

/// One affected stored coordinate (TMS row convention) with its change.
pub struct PatchEntry {
    pub z: u8,
    pub x: u32,
    pub y: u32,
    pub op: PatchOp,
}

/// A delta artifact: its description and its entries.
pub struct PatchArtifact {
    pub info: PatchFileInfo,
    pub entries: Vec<PatchEntry>,
}

/// The delta kind that governs application: the artifact's kind, or full
/// replacement where none is recorded.
pub open spec fn effective_patch_type(info: PatchFileInfo) -> PatchType {
    match info.patch_type {
        Some(t) => t,
        None => PatchType::Whole,
    }
}

/// The raw binary delta carried by a `Delta` entry: the entry bytes
/// themselves, or their gzip decoding under the compressed kind.
pub open spec fn delta_source(pt: PatchType, p: Seq<u8>) -> Seq<u8> {
    if pt == PatchType::BinDiffGz {
        gunzip_of(p)
    } else {
        p
    }
}

/// The bytes an entry leaves at its coordinate, given the bytes `prev`
/// stored there before.
pub open spec fn entry_result(prev: Option<Seq<u8>>, op: PatchOp, pt: PatchType) -> Option<
    Seq<u8>,
> {
    match op {
        PatchOp::Put(d) => Some(d@),
        PatchOp::Delta(p) => Some(bspatch_of(prev.unwrap(), delta_source(pt, p@))),
        PatchOp::Delete => None,
    }
}

/// The bytes that applying the entries in order leaves under the TMS key
/// `(z, x, y)`, given the bytes `prev` stored there before.
pub open spec fn patched_lookup(
    prev: Option<Seq<u8>>,
    entries: Seq<PatchEntry>,
    pt: PatchType,
    z: u8,
    x: u32,
    y: u32,
) -> Option<Seq<u8>>
    decreases entries.len(),
{
    if entries.len() == 0 {
        prev
    } else {
        let p = patched_lookup(prev, entries.drop_last(), pt, z, x, y);
        let e = entries.last();
        if e.z == z && e.x == x && e.y == y {
            entry_result(p, e.op, pt)
        } else {
            p
        }
    }
}

/// Every entry addresses a possible coordinate, and under the full
/// replacement kind none carries a binary delta.
pub open spec fn entries_wf(entries: Seq<PatchEntry>, pt: PatchType) -> bool {
    &&& forall|i: int|
        0 <= i < entries.len() ==> valid_tile_index(
            (#[trigger] entries[i]).z,
            entries[i].x,
            entries[i].y,
        )
    &&& pt == PatchType::Whole ==> forall|i: int|
        0 <= i < entries.len() ==> !((#[trigger] entries[i]).op matches PatchOp::Delta(_))
}

/// Computes the patch that transforms the tile set of `base` into the
/// tile set of `target`, with `patch_type` deltas, together with the
/// aggregate hashes of both states.
///
/// With [`PatchType::Whole`] the computation always succeeds; with a
/// binary-delta kind it fails with [`PatchError::Io`] when the delta
/// subsystem refuses a pair of contents.
#[verifier::loop_isolation(false)]
pub fn compute_patch(base: &Container, target: &Container, patch_type: PatchType) -> (r: Result<
    PatchArtifact,
    PatchError,
>)
    requires
        base.wf(),
        target.wf(),
    ensures
        match r {
            Ok(a) => {
                &&& forall|z: u8, x: u32, y: u32| #[trigger] patched_lookup(
                    base.lookup(z, x, y),
                    a.entries@,
                    patch_type,
                    z,
                    x,
                    y,
                ) == target.lookup(z, x, y)
                &&& entries_wf(a.entries@, patch_type)
                &&& a.info.patch_type == Some(patch_type)
                &&& a.info.mbt_type == target.variant
                &&& a.info.agg_tiles_hash is None
                &&& (a.info.agg_tiles_hash_before_apply matches Some(h) && h@ == base.agg_spec())
                &&& (a.info.agg_tiles_hash_after_apply matches Some(h) && h@ == target.agg_spec())
            },
            Err(PatchError::Io) => patch_type != PatchType::Whole,
            Err(_) => false,
        },
{
    let mut entries: Vec<PatchEntry> = Vec::new();
    // Changed and added tiles, in target row order.
    let mut i: usize = 0;
    while i < target.rows.len()
        invariant
            i <= target.rows@.len(),
            entries_wf(entries@, patch_type),
            forall|z: u8, x: u32, y: u32| #[trigger] patched_lookup(
                base.lookup(z, x, y),
                entries@,
                patch_type,
                z,
                x,
                y,
            ) == (match lookup_rows(target.rows@.take(i as int), z, x, y) {
                Some(d) => Some(d),
                None => base.lookup(z, x, y),
            }),
        decreases target.rows@.len() - i,
    {
        let trow = &target.rows[i];
        let ghost ii = i as int;
        let ghost pre_entries = entries@;
        proof {
            assert(target.rows@.take(ii + 1).drop_last() =~= target.rows@.take(ii));
            assert(target.rows@.take(ii + 1).last() == target.rows@[ii]);
            // Rows before `i` carry strictly smaller keys, so the prefix
            // does not hold the key of row `i`.
            lemma_lookup_some_iff(target.rows@.take(ii), trow.z, trow.x, trow.y);
            if has_key(target.rows@.take(ii), trow.z, trow.x, trow.y) {
                let j = choose|j: int|
                    0 <= j < target.rows@.take(ii).len() && same_key(
                        #[trigger] target.rows@.take(ii)[j],
                        trow.z,
                        trow.x,
                        trow.y,
                    );
                assert(key_lt(key_of(target.rows@[j]), key_of(target.rows@[ii])));
                assert(false);
            }
        }
        let base_bytes = base.get_raw(trow.z, trow.x, trow.y);
        let mut changed = true;
        match &base_bytes {
            Some(bd) => {
                if bytes_eq(bd.as_slice(), trow.data.as_slice()) {
                    changed = false;
                }
            },
            None => {},
        }
        if changed {
            let op: PatchOp = match &base_bytes {
                None => PatchOp::Put(clone_bytes(trow.data.as_slice())),
                Some(bd) => {
                    match patch_type {
                        PatchType::Whole => PatchOp::Put(clone_bytes(trow.data.as_slice())),
                        PatchType::BinDiffRaw => {
                            match bsdiff_diff(bd.as_slice(), trow.data.as_slice()) {
                                Some(p) => PatchOp::Delta(p),
                                None => {
                                    return Err(PatchError::Io);
                                },
                            }
                        },
                        PatchType::BinDiffGz => {
                            match bsdiff_diff(bd.as_slice(), trow.data.as_slice()) {
                                Some(p) => {
                                    match gzip_compress(p.as_slice()) {
                                        Some(g) => PatchOp::Delta(g),
                                        None => {
                                            return Err(PatchError::Io);
                                        },
                                    }
                                },
                                None => {
                                    return Err(PatchError::Io);
                                },
                            }
                        },
                    }
                },
            };
            entries.push(PatchEntry { z: trow.z, x: trow.x, y: trow.y, op });
            proof {
                assert(entries@.drop_last() =~= pre_entries);
                lemma_lookup_at(target.rows@, ii);
                assert forall|z: u8, x: u32, y: u32| #[trigger] patched_lookup(
                    base.lookup(z, x, y),
                    entries@,
                    patch_type,
                    z,
                    x,
                    y,
                ) == (match lookup_rows(target.rows@.take(ii + 1), z, x, y) {
                    Some(d) => Some(d),
                    None => base.lookup(z, x, y),
                }) by {
                    lemma_lookup_append(target.rows@.take(ii), seq![target.rows@[ii]], z, x, y);
                    assert(target.rows@.take(ii + 1) =~= target.rows@.take(ii) + seq![
                        target.rows@[ii],
                    ]);
                    assert(seq![target.rows@[ii]].drop_first() =~= Seq::<TileRow>::empty());
                    assert(lookup_rows(Seq::<TileRow>::empty(), z, x, y) is None);
                    if z == trow.z && x == trow.x && y == trow.y {
                        assert(patched_lookup(
                            base.lookup(z, x, y),
                            pre_entries,
                            patch_type,
                            z,
                            x,
                            y,
                        ) == base.lookup(z, x, y));
                        assert(lookup_rows(target.rows@, trow.z, trow.x, trow.y) == Some(
                            trow.data@,
                        ));
                    }
                }
            }
        } else {
            proof {
                lemma_lookup_at(target.rows@, ii);
                assert forall|z: u8, x: u32, y: u32| #[trigger] patched_lookup(
                    base.lookup(z, x, y),
                    entries@,
                    patch_type,
                    z,
                    x,
                    y,
                ) == (match lookup_rows(target.rows@.take(ii + 1), z, x, y) {
                    Some(d) => Some(d),
                    None => base.lookup(z, x, y),
                }) by {
                    lemma_lookup_append(target.rows@.take(ii), seq![target.rows@[ii]], z, x, y);
                    assert(target.rows@.take(ii + 1) =~= target.rows@.take(ii) + seq![
                        target.rows@[ii],
                    ]);
                    assert(seq![target.rows@[ii]].drop_first() =~= Seq::<TileRow>::empty());
                    assert(lookup_rows(Seq::<TileRow>::empty(), z, x, y) is None);
                }
            }
        }
        i += 1;
    }
    proof {
        assert(target.rows@.take(target.rows@.len() as int) =~= target.rows@);
    }
    // Tiles of the base that the target no longer holds, in base row
    // order.
    let mut j: usize = 0;
    while j < base.rows.len()
        invariant
            j <= base.rows@.len(),
            entries_wf(entries@, patch_type),
            forall|z: u8, x: u32, y: u32| #[trigger] patched_lookup(
                base.lookup(z, x, y),
                entries@,
                patch_type,
                z,
                x,
                y,
            ) == (match target.lookup(z, x, y) {
                Some(d) => Some(d),
                None => if has_key(base.rows@.take(j as int), z, x, y) {
                    None
                } else {
                    base.lookup(z, x, y)
                },
            }),
        decreases base.rows@.len() - j,
    {
        let brow = &base.rows[j];
        let ghost jj = j as int;
        let ghost pre_entries = entries@;
        proof {
            assert(base.rows@.take(jj + 1) =~= base.rows@.take(jj).push(base.rows@[jj]));
        }
        let still_there = target.get_raw(brow.z, brow.x, brow.y);
        match still_there {
            Some(_) => {
                proof {
                    assert forall|z: u8, x: u32, y: u32|
                        has_key(base.rows@.take(jj + 1), z, x, y) == (has_key(
                            base.rows@.take(jj),
                            z,
                            x,
                            y,
                        ) || same_key(#[trigger] base.rows@[jj], z, x, y)) by {
                        lemma_has_key_push(base.rows@.take(jj), base.rows@[jj], z, x, y);
                    }
                }
            },
            None => {
                entries.push(PatchEntry { z: brow.z, x: brow.x, y: brow.y, op: PatchOp::Delete });
                proof {
                    assert(entries@.drop_last() =~= pre_entries);
                    assert forall|z: u8, x: u32, y: u32| #[trigger] patched_lookup(
                        base.lookup(z, x, y),
                        entries@,
                        patch_type,
                        z,
                        x,
                        y,
                    ) == (match target.lookup(z, x, y) {
                        Some(d) => Some(d),
                        None => if has_key(base.rows@.take(jj + 1), z, x, y) {
                            None
                        } else {
                            base.lookup(z, x, y)
                        },
                    }) by {
                        assert(patched_lookup(base.lookup(z, x, y), pre_entries, patch_type, z, x, y)
                            == (match target.lookup(z, x, y) {
                            Some(d) => Some(d),
                            None => if has_key(base.rows@.take(jj), z, x, y) {
                                None
                            } else {
                                base.lookup(z, x, y)
                            },
                        }));
                        assert(patched_lookup(base.lookup(z, x, y), entries@.drop_last(), patch_type, z, x, y)
                            == patched_lookup(base.lookup(z, x, y), pre_entries, patch_type, z, x, y));
                        lemma_has_key_push(base.rows@.take(jj), base.rows@[jj], z, x, y);
                        if z == brow.z && x == brow.x && y == brow.y {
                            assert(same_key(base.rows@[jj], z, x, y));
                            assert(target.lookup(z, x, y) is None);
                        }
                    }
                }
            },
        }
        j += 1;
    }
    proof {
        assert(base.rows@.take(base.rows@.len() as int) =~= base.rows@);
        assert forall|z: u8, x: u32, y: u32| #[trigger] patched_lookup(
            base.lookup(z, x, y),
            entries@,
            patch_type,
            z,
            x,
            y,
        ) == target.lookup(z, x, y) by {
            if target.lookup(z, x, y) is None {
                lemma_lookup_some_iff(base.rows@, z, x, y);
            }
        }
    }
    let before = base.agg_tiles_hash();
    let after = target.agg_tiles_hash();
    Ok(
        PatchArtifact {
            info: PatchFileInfo {
                mbt_type: target.mbt_type(),
                agg_tiles_hash: None,
                agg_tiles_hash_before_apply: Some(before),
                agg_tiles_hash_after_apply: Some(after),
                patch_type: Some(patch_type),
            },
            entries,
        },
    )
}

/// A pushed row adds exactly its own key to a row sequence.
proof fn lemma_has_key_push(rows: Seq<TileRow>, r: TileRow, z: u8, x: u32, y: u32)
    ensures
        has_key(rows.push(r), z, x, y) == (has_key(rows, z, x, y) || same_key(r, z, x, y)),
{
    if has_key(rows, z, x, y) {
        let i = choose|i: int| 0 <= i < rows.len() && same_key(#[trigger] rows[i], z, x, y);
        assert(same_key(rows.push(r)[i], z, x, y));
    }
    if same_key(r, z, x, y) {
        assert(same_key(rows.push(r)[rows.len() as int], z, x, y));
    }
    if has_key(rows.push(r), z, x, y) {
        let i = choose|i: int|
            0 <= i < rows.push(r).len() && same_key(#[trigger] rows.push(r)[i], z, x, y);
        if i < rows.len() {
            assert(same_key(rows[i], z, x, y));
        } else {
            assert(same_key(r, z, x, y));
        }
    }
}

impl Container {
    /// Applies a patch artifact to this container, bracketed by
    /// aggregate-hash verification.
    ///
    /// When the artifact names an expected base hash and this container's
    /// aggregate differs, the application fails with
    /// [`PatchError::BaseMismatch`] and the container is left untouched.
    /// The entries are applied to a working copy; when the artifact names
    /// an expected result hash and the copy's aggregate differs, the
    /// application fails with [`PatchError::ResultMismatch`] and the
    /// container is left untouched.  Only a fully verified application is
    /// committed.  An artifact whose entries are full replacements and
    /// deletions with possible coordinates is applied without calling the
    /// delta subsystem, so only the two mismatches can fail it.
    #[verifier::loop_isolation(false)]
    pub fn apply_patch(&mut self, patch: &PatchArtifact) -> (r: Result<PatchFileInfo, PatchError>)
        requires
            old(self).wf(),
        ensures
            final(self).wf(),
            final(self).variant == old(self).variant,
            forall|n: Seq<char>| #[trigger] final(self).meta(n) == old(self).meta(n),
            match r {
                Ok(info) => {
                    &&& (patch.info.agg_tiles_hash_before_apply matches Some(h) ==> h@ == old(self).agg_spec())
                    &&& forall|z: u8, x: u32, y: u32| #[trigger] final(self).lookup(z, x, y)
                        == patched_lookup(
                        old(self).lookup(z, x, y),
                        patch.entries@,
                        effective_patch_type(patch.info),
                        z,
                        x,
                        y,
                    )
                    &&& (patch.info.agg_tiles_hash_after_apply matches Some(h) ==> h@ == final(self).agg_spec())
                    &&& info.mbt_type == old(self).variant
                    &&& (info.agg_tiles_hash matches Some(h) && h@ == final(self).agg_spec())
                    &&& (info.agg_tiles_hash_before_apply matches Some(h) && h@ == old(self).agg_spec())
                    &&& (info.agg_tiles_hash_after_apply matches Some(h) && h@ == final(self).agg_spec())
                    &&& info.patch_type == patch.info.patch_type
                },
                Err(PatchError::BaseMismatch) => {
                    &&& (patch.info.agg_tiles_hash_before_apply matches Some(h) && h@ != old(self).agg_spec())
                    &&& final(self).rows@ == old(self).rows@
                    &&& final(self).images@ == old(self).images@
                },
                Err(PatchError::ResultMismatch) => {
                    &&& (patch.info.agg_tiles_hash_before_apply matches Some(h) ==> h@ == old(self).agg_spec())
                    &&& patch.info.agg_tiles_hash_after_apply is Some
                    &&& final(self).rows@ == old(self).rows@
                    &&& final(self).images@ == old(self).images@
                },
                Err(PatchError::Io) => {
                    &&& (patch.info.agg_tiles_hash_before_apply matches Some(h) ==> h@ == old(self).agg_spec())
                    &&& !entries_wf(patch.entries@, PatchType::Whole) || (exists|i: int|
                        0 <= i < patch.entries@.len() && ((#[trigger] patch.entries@[i]).op
                            matches PatchOp::Delta(_)))
                    &&& final(self).rows@ == old(self).rows@
                    &&& final(self).images@ == old(self).images@
                },
            },
    {
        let base_agg = self.agg_tiles_hash();
        match &patch.info.agg_tiles_hash_before_apply {
            Some(expected) => {
                if !str_eq(base_agg.as_str(), expected.as_str()) {
                    return Err(PatchError::BaseMismatch);
                }
            },
            None => {},
        }
        let pt: PatchType = match &patch.info.patch_type {
            Some(t) => *t,
            None => PatchType::Whole,
        };
        let mut work = self.duplicate();
        let ghost work0 = work;
        let normalized = matches!(work.variant, MbtType::Normalized { .. });
        let mut i: usize = 0;
        while i < patch.entries.len()
            invariant
                i <= patch.entries@.len(),
                work.wf(),
                work.variant == old(self).variant,
                work.metadata@ == work0.metadata@,
                forall|z: u8, x: u32, y: u32| #[trigger] work.lookup(z, x, y) == patched_lookup(
                    old(self).lookup(z, x, y),
                    patch.entries@.take(i as int),
                    pt,
                    z,
                    x,
                    y,
                ),
            decreases patch.entries@.len() - i,
        {
            let e = &patch.entries[i];
            let ghost ii = i as int;
            let ghost pre = work;
            proof {
                assert(patch.entries@.take(ii + 1).drop_last() =~= patch.entries@.take(ii));
                assert(patch.entries@.take(ii + 1).last() == patch.entries@[ii]);
            }
            if !TileCoord::is_possible_on_zoom_level(e.z, e.x, e.y) {
                return Err(PatchError::Io);
            }
            match &e.op {
                PatchOp::Put(d) => {
                    let data = clone_bytes(d.as_slice());
                    if normalized {
                        work.add_image(&data);
                    }
                    work.put_row(e.z, e.x, e.y, data, true);
                },
                PatchOp::Delta(p) => {
                    let cur = match work.get_raw(e.z, e.x, e.y) {
                        Some(c) => c,
                        None => {
                            return Err(PatchError::Io);
                        },
                    };
                    let raw = if matches!(pt, PatchType::BinDiffGz) {
                        match gzip_decompress(p.as_slice()) {
                            Some(r) => r,
                            None => {
                                return Err(PatchError::Io);
                            },
                        }
                    } else {
                        clone_bytes(p.as_slice())
                    };
                    let newd = match bsdiff_apply(cur.as_slice(), raw.as_slice()) {
                        Some(n) => n,
                        None => {
                            return Err(PatchError::Io);
                        },
                    };
                    if normalized {
                        work.add_image(&newd);
                    }
                    work.put_row(e.z, e.x, e.y, newd, true);
                },
                PatchOp::Delete => {
                    work.delete_row(e.z, e.x, e.y);
                },
            }
            proof {
                assert forall|z: u8, x: u32, y: u32| #[trigger] work.lookup(z, x, y)
                    == patched_lookup(
                    old(self).lookup(z, x, y),
                    patch.entries@.take(ii + 1),
                    pt,
                    z,
                    x,
                    y,
                ) by {
                    if !(z == e.z && x == e.x && y == e.y) {
                        assert(work.lookup(z, x, y) == pre.lookup(z, x, y));
                    }
                }
            }
            i += 1;
        }
        proof {
            assert(patch.entries@.take(patch.entries@.len() as int) =~= patch.entries@);
        }
        let new_agg = work.agg_tiles_hash();
        match &patch.info.agg_tiles_hash_after_apply {
            Some(expected) => {
                if !str_eq(new_agg.as_str(), expected.as_str()) {
                    return Err(PatchError::ResultMismatch);
                }
            },
            None => {},
        }
        proof {
            assert forall|n: Seq<char>| #[trigger] work.meta(n) == old(self).meta(n) by {
                assert(meta_lookup(work.metadata@, n) == meta_lookup(work0.metadata@, n));
                assert(work0.meta(n) == old(self).meta(n));
            }
        }
        let info = PatchFileInfo {
            mbt_type: work.mbt_type(),
            agg_tiles_hash: Some(new_agg.clone()),
            agg_tiles_hash_before_apply: Some(base_agg),
            agg_tiles_hash_after_apply: Some(new_agg),
            patch_type: match &patch.info.patch_type {
                Some(t) => Some(*t),
                None => None,
            },
        };
        *self = work;
        Ok(info)
    }
}

} // verus!
