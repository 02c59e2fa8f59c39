//! The copy/merge engine: transferring tiles and metadata between two
//! containers.
//!
//! Tiles are read through the source's read path and re-inserted through
//! the destination's write path, so a copy between different layouts
//! translates implicitly; the batch writer recomputes hashes and content
//! rows as the destination's layout demands.  The copy selector keeps the
//! two transfers independent: a tiles-only copy never touches metadata
//! and a metadata-only copy never touches tiles.

use vstd::prelude::*;
use crate::container::Container;
use crate::container::MetaRow;
use crate::container::TileRow;
use crate::container::WriteError;
use crate::container::abort_ok;
use crate::container::batch_key_matches;
use crate::container::batch_valid;
use crate::container::clone_bytes;
use crate::container::first_match;
use crate::container::has_key;
use crate::container::key_lt;
use crate::container::key_of;
use crate::container::last_match;
use crate::container::lemma_ignore_first_wins;
use crate::container::lemma_lookup_append;
use crate::container::lemma_lookup_at;
use crate::container::lemma_lookup_some_iff;
use crate::container::lemma_meta_append;
use crate::container::lemma_override_last_wins;
use crate::container::lookup_rows;
use crate::container::meta_lookup;
use crate::container::rows_sorted;
use crate::container::same_key;
use crate::schema::CopyDuplicateMode;
use crate::schema::CopyType;
use crate::tile::invert_y;
use crate::tile::invert_y_value;
use crate::tile::lemma_invert_y_involution;
use crate::tile::valid_tile_index;

verus! {

/// Failure of a copy.
#[derive(Clone, Copy, Debug, PartialEq, Eq, Structural)]
pub enum CopyError {
    /// Under [`CopyDuplicateMode::Abort`], a transferred tile collided
    /// with an existing coordinate of the destination, or a transferred
    /// metadata name was already present.
    Conflict,
}

/// What a copy transferred.
#[derive(Clone, Copy, Debug, PartialEq, Eq, Structural)]
pub struct CopyStats {
    /// The number of tile rows read from the source and handed to the
    /// destination's write path.
    pub tiles: usize,
    /// The number of metadata rows handed to the destination.
    pub metadata: usize,
}

impl Container {
    /// The tile rows as one write-path batch, with rows converted from
    /// the stored TMS convention to the XYZ convention the batch writer
    /// takes.
    pub fn stream_raw_batch(&self) -> (r: Vec<(u8, u32, u32, Vec<u8>)>)
        requires
            self.wf(),
        ensures
            r@.len() == self.rows@.len(),
            batch_valid(r@),
            forall|z: u8, x: u32, y: u32| #[trigger] first_match(r@, z, x, y) == self.lookup(
                z,
                x,
                y,
            ),
            forall|z: u8, x: u32, y: u32| #[trigger] last_match(r@, z, x, y) == self.lookup(
                z,
                x,
                y,
            ),
            forall|a: int, b: int|
                0 <= a < b < r@.len() ==> !((#[trigger] r@[a]).0 == (#[trigger] r@[b]).0 && r@[a].1
                    == r@[b].1 && r@[a].2 == r@[b].2),
            forall|j: int| 0 <= j < r@.len() ==> (#[trigger] r@[j]).0 == self.rows@[j].z && r@[j].1
                == self.rows@[j].x && r@[j].2 == invert_y(self.rows@[j].z, self.rows@[j].y)
                && r@[j].3@ == self.rows@[j].data@,
    {
        let mut out: Vec<(u8, u32, u32, Vec<u8>)> = Vec::new();
        let mut i: usize = 0;
        while i < self.rows.len()
            invariant
                self.wf(),
                i <= self.rows@.len(),
                out@.len() == i,
                forall|j: int| 0 <= j < i ==> (#[trigger] out@[j]).0 == self.rows@[j].z
                    && out@[j].1 == self.rows@[j].x && out@[j].2 == invert_y(
                    self.rows@[j].z,
                    self.rows@[j].y,
                ) && out@[j].3@ == self.rows@[j].data@,
            decreases self.rows@.len() - i,
        {
            let row = &self.rows[i];
            let yx = invert_y_value(row.z, row.y);
            out.push((row.z, row.x, yx, clone_bytes(row.data.as_slice())));
            i += 1;
        }
        proof {
            assert forall|z: u8, x: u32, y: u32| #[trigger] first_match(out@, z, x, y)
                == self.lookup(z, x, y) by {
                lemma_first_match_rows(out@, self.rows@, z, x, y);
            }
            assert forall|z: u8, x: u32, y: u32| #[trigger] last_match(out@, z, x, y)
                == self.lookup(z, x, y) by {
                lemma_last_match_rows(out@, self.rows@, z, x, y);
            }
            assert forall|a: int, b: int|
                0 <= a < b < out@.len() implies !((#[trigger] out@[a]).0 == (#[trigger] out@[b]).0
                && out@[a].1 == out@[b].1 && out@[a].2 == out@[b].2) by {
                assert(key_lt(key_of(self.rows@[a]), key_of(self.rows@[b])));
                lemma_invert_y_involution(self.rows@[a].z, self.rows@[a].y);
                lemma_invert_y_involution(self.rows@[b].z, self.rows@[b].y);
            }
        }
        out
    }
}

/// A batch built row for row from a row sequence finds, first match or
/// not, the same bytes under every key as the rows themselves.
proof fn lemma_first_match_rows(
    batch: Seq<(u8, u32, u32, Vec<u8>)>,
    rows: Seq<TileRow>,
    z: u8,
    x: u32,
    y: u32,
)
    requires
        batch.len() == rows.len(),
        forall|j: int|
            0 <= j < rows.len() ==> valid_tile_index(
                (#[trigger] rows[j]).z,
                rows[j].x,
                rows[j].y,
            ),
        forall|j: int| 0 <= j < batch.len() ==> (#[trigger] batch[j]).0 == rows[j].z && batch[j].1
            == rows[j].x && batch[j].2 == invert_y(rows[j].z, rows[j].y) && batch[j].3@
            == rows[j].data@,
    ensures
        first_match(batch, z, x, y) == lookup_rows(rows, z, x, y),
    decreases batch.len(),
{
    if batch.len() > 0 {
        lemma_invert_y_involution(rows[0].z, rows[0].y);
        assert(batch_key_matches(batch[0], z, x, y) == same_key(rows[0], z, x, y));
        assert(forall|j: int|
            0 <= j < batch.drop_first().len() ==> #[trigger] batch.drop_first()[j] == batch[j + 1]
                && rows.drop_first()[j] == rows[j + 1]);
        lemma_first_match_rows(batch.drop_first(), rows.drop_first(), z, x, y);
    }
}

/// The same, matching from the last record: the rows of a container are
/// unique by coordinate, so first and last match agree.
proof fn lemma_last_match_rows(
    batch: Seq<(u8, u32, u32, Vec<u8>)>,
    rows: Seq<TileRow>,
    z: u8,
    x: u32,
    y: u32,
)
    requires
        rows_sorted(rows),
        batch.len() == rows.len(),
        forall|j: int|
            0 <= j < rows.len() ==> valid_tile_index(
                (#[trigger] rows[j]).z,
                rows[j].x,
                rows[j].y,
            ),
        forall|j: int| 0 <= j < batch.len() ==> (#[trigger] batch[j]).0 == rows[j].z && batch[j].1
            == rows[j].x && batch[j].2 == invert_y(rows[j].z, rows[j].y) && batch[j].3@
            == rows[j].data@,
    ensures
        last_match(batch, z, x, y) == lookup_rows(rows, z, x, y),
    decreases batch.len(),
{
    if batch.len() > 0 {
        let n = batch.len() - 1;
        lemma_invert_y_involution(rows[n].z, rows[n].y);
        assert(batch_key_matches(batch.last(), z, x, y) == same_key(rows.last(), z, x, y));
        if same_key(rows.last(), z, x, y) {
            lemma_lookup_at(rows, n);
        } else {
            assert(rows_sorted(rows.drop_last())) by {
                assert(forall|a: int, b: int|
                    0 <= a < b < rows.drop_last().len() ==> key_lt(
                        key_of(#[trigger] rows.drop_last()[a]),
                        key_of(#[trigger] rows.drop_last()[b]),
                    ));
            }
            assert(forall|j: int|
                0 <= j < batch.drop_last().len() ==> #[trigger] batch.drop_last()[j] == batch[j]
                    && rows.drop_last()[j] == rows[j]);
            lemma_last_match_rows(batch.drop_last(), rows.drop_last(), z, x, y);
            assert(rows =~= rows.drop_last() + seq![rows.last()]);
            lemma_lookup_append(rows.drop_last(), seq![rows.last()], z, x, y);
            assert(seq![rows.last()].drop_first() =~= Seq::<TileRow>::empty());
            assert(lookup_rows(Seq::<TileRow>::empty(), z, x, y) is None);
        }
    }
}

/// Copies tiles, metadata, or both from `src` into `dst` under the
/// duplicate policy `on_duplicate`.
///
/// Tile rows transfer as one batch write, so the whole tile transfer
/// commits or none of it does; under [`CopyDuplicateMode::Abort`] any
/// collision — a coordinate stored on both sides, or a metadata name
/// present on both sides — fails the copy with [`CopyError::Conflict`]
/// before anything is written, leaving the destination untouched.
/// Metadata rows transfer name by name: an existing name wins under
/// `Ignore` and is replaced under `Override`.
#[verifier::loop_isolation(false)]
pub fn copy_container(
    src: &Container,
    dst: &mut Container,
    copy_type: CopyType,
    on_duplicate: CopyDuplicateMode,
) -> (r: Result<CopyStats, CopyError>)
    requires
        src.wf(),
        old(dst).wf(),
    ensures
        final(dst).wf(),
        final(dst).variant == old(dst).variant,
        match r {
            Ok(stats) => {
                &&& stats.tiles == (if copy_type == CopyType::All || copy_type == CopyType::Tiles {
                    src.rows@.len() as int
                } else {
                    0int
                })
                &&& stats.metadata == (if copy_type == CopyType::All || copy_type
                    == CopyType::Metadata {
                    src.metadata@.len() as int
                } else {
                    0int
                })
                &&& (copy_type == CopyType::All || copy_type == CopyType::Tiles) ==> forall|
                    z: u8,
                    x: u32,
                    y: u32,
                | #[trigger] final(dst).lookup(z, x, y) == (if on_duplicate
                    == CopyDuplicateMode::Ignore {
                    if old(dst).lookup(z, x, y) is Some {
                        old(dst).lookup(z, x, y)
                    } else {
                        src.lookup(z, x, y)
                    }
                } else {
                    match src.lookup(z, x, y) {
                        Some(d) => Some(d),
                        None => old(dst).lookup(z, x, y),
                    }
                })
                &&& (copy_type == CopyType::All || copy_type == CopyType::Tiles) && on_duplicate
                    == CopyDuplicateMode::Abort ==> forall|z: u8, x: u32, y: u32|
                    !(#[trigger] src.lookup(z, x, y) is Some && old(dst).lookup(z, x, y) is Some)
                &&& copy_type == CopyType::Metadata ==> forall|z: u8, x: u32, y: u32| #[trigger]
                    final(dst).lookup(z, x, y) == old(dst).lookup(z, x, y)
                &&& (copy_type == CopyType::All || copy_type == CopyType::Metadata) ==> forall|
                    n: Seq<char>,
                | #[trigger] final(dst).meta(n) == (match src.meta(n) {
                    Some(v) => if on_duplicate == CopyDuplicateMode::Ignore && old(dst).meta(n)
                        is Some {
                        old(dst).meta(n)
                    } else {
                        Some(v)
                    },
                    None => old(dst).meta(n),
                })
                &&& (copy_type == CopyType::All || copy_type == CopyType::Metadata) && on_duplicate
                    == CopyDuplicateMode::Abort ==> forall|k: int|
                    0 <= k < src.metadata@.len() ==> old(dst).meta(
                        (#[trigger] src.metadata@[k]).name@,
                    ) is None
                &&& copy_type == CopyType::Tiles ==> forall|n: Seq<char>| #[trigger] final(dst).meta(n) == old(dst).meta(n)
            },
            Err(CopyError::Conflict) => {
                &&& on_duplicate == CopyDuplicateMode::Abort
                &&& final(dst).rows@ == old(dst).rows@
                &&& final(dst).images@ == old(dst).images@
                &&& final(dst).metadata@ == old(dst).metadata@
                &&& ((copy_type == CopyType::All || copy_type == CopyType::Tiles) && (exists|
                    z: u8,
                    x: u32,
                    y: u32,
                |
                    #[trigger] src.lookup(z, x, y) is Some && old(dst).lookup(z, x, y) is Some))
                    || ((copy_type == CopyType::All || copy_type == CopyType::Metadata) && (exists|
                    k: int,
                |
                    0 <= k < src.metadata@.len() && old(dst).meta(
                        (#[trigger] src.metadata@[k]).name@,
                    ) is Some))
            },
        },
{
    let do_tiles = copy_type.copy_tiles();
    let do_metadata = copy_type.copy_metadata();
    // Under Abort, find any metadata collision before any write at all.
    if do_metadata && on_duplicate == CopyDuplicateMode::Abort {
        let mut i: usize = 0;
        while i < src.metadata.len()
            invariant
                i <= src.metadata@.len(),
                forall|j: int|
                    0 <= j < i ==> old(dst).meta((#[trigger] src.metadata@[j]).name@) is None,
            decreases src.metadata@.len() - i,
        {
            let row = &src.metadata[i];
            if let Some(_) = dst.get_metadata_value(row.name.as_str()) {
                proof {
                    let ii = i as int;
                    assert(old(dst).meta((#[trigger] src.metadata@[ii]).name@) is Some);
                }
                return Err(CopyError::Conflict);
            }
            i += 1;
        }
    }
    let mut tiles_copied: usize = 0;
    if do_tiles {
        let batch = src.stream_raw_batch();
        match dst.insert_tiles(on_duplicate, batch.as_slice()) {
            Ok(()) => {
                proof {
                    assert forall|z: u8, x: u32, y: u32| #[trigger] dst.lookup(z, x, y) == (if
                        on_duplicate == CopyDuplicateMode::Ignore {
                        if old(dst).lookup(z, x, y) is Some {
                            old(dst).lookup(z, x, y)
                        } else {
                            src.lookup(z, x, y)
                        }
                    } else {
                        match src.lookup(z, x, y) {
                            Some(d) => Some(d),
                            None => old(dst).lookup(z, x, y),
                        }
                    }) by {
                        if on_duplicate == CopyDuplicateMode::Ignore {
                            lemma_ignore_first_wins(old(dst).lookup(z, x, y), batch@, z, x, y);
                        } else {
                            lemma_override_last_wins(
                                old(dst).lookup(z, x, y),
                                batch@,
                                on_duplicate,
                                z,
                                x,
                                y,
                            );
                        }
                    }
                    if on_duplicate == CopyDuplicateMode::Abort {
                        assert forall|z: u8, x: u32, y: u32|
                            !(#[trigger] src.lookup(z, x, y) is Some && old(dst).lookup(z, x, y)
                                is Some) by {
                            if src.lookup(z, x, y) is Some && old(dst).lookup(z, x, y) is Some {
                                lemma_lookup_some_iff(src.rows@, z, x, y);
                                let j = choose|j: int|
                                    0 <= j < src.rows@.len() && same_key(
                                        #[trigger] src.rows@[j],
                                        z,
                                        x,
                                        y,
                                    );
                                lemma_invert_y_involution(src.rows@[j].z, src.rows@[j].y);
                                assert(old(dst).lookup(
                                    (#[trigger] batch@[j]).0,
                                    batch@[j].1,
                                    invert_y(batch@[j].0, batch@[j].2),
                                ) is None);
                                assert(false);
                            }
                        }
                    }
                }
            },
            Err(WriteError::Conflict) => {
                proof {
                    // A conflict under Abort names a coordinate stored on
                    // both sides: the batch never collides with itself,
                    // since the source rows are unique.
                    if !(exists|z: u8, x: u32, y: u32|
                        #[trigger] src.lookup(z, x, y) is Some && old(dst).lookup(z, x, y)
                            is Some) {
                        assert(abort_ok(old(dst).rows@, batch@)) by {
                            assert forall|a: int| 0 <= a < batch@.len() implies lookup_rows(
                                old(dst).rows@,
                                (#[trigger] batch@[a]).0,
                                batch@[a].1,
                                invert_y(batch@[a].0, batch@[a].2),
                            ) is None by {
                                lemma_invert_y_involution(src.rows@[a].z, src.rows@[a].y);
                                lemma_lookup_at(src.rows@, a);
                                if lookup_rows(
                                    old(dst).rows@,
                                    batch@[a].0,
                                    batch@[a].1,
                                    invert_y(batch@[a].0, batch@[a].2),
                                ) is Some {
                                    assert(src.lookup(src.rows@[a].z, src.rows@[a].x, src.rows@[a].y)
                                        is Some);
                                    assert(false);
                                }
                            }
                        }
                        assert(false);
                    }
                }
                return Err(CopyError::Conflict);
            },
            Err(WriteError::InvalidCoordinate) => {
                proof {
                    assert(false);
                }
            },
        }
        tiles_copied = batch.len();
    }
    let ghost mid = *dst;
    let mut metadata_copied: usize = 0;
    if do_metadata {
        let mut i: usize = 0;
        while i < src.metadata.len()
            invariant
                i <= src.metadata@.len(),
                dst.wf(),
                dst.variant == mid.variant,
                dst.rows@ == mid.rows@,
                dst.images@ == mid.images@,
                forall|n: Seq<char>| #[trigger] dst.meta(n) == (match meta_lookup(
                    src.metadata@.take(i as int),
                    n,
                ) {
                    Some(v) => if on_duplicate == CopyDuplicateMode::Ignore && mid.meta(n)
                        is Some {
                        mid.meta(n)
                    } else {
                        Some(v)
                    },
                    None => mid.meta(n),
                }),
            decreases src.metadata@.len() - i,
        {
            let row = &src.metadata[i];
            let ghost ii = i as int;
            let ghost dpre = *dst;
            proof {
                lemma_meta_take_step(src.metadata@, ii);
            }
            let skip = if on_duplicate == CopyDuplicateMode::Ignore {
                dst.get_metadata_value(row.name.as_str()).is_some()
            } else {
                false
            };
            if !skip {
                dst.set_metadata_value(row.name.as_str(), row.value.as_str());
            }
            proof {
                assert forall|n: Seq<char>| #[trigger] dst.meta(n) == (match meta_lookup(
                    src.metadata@.take(ii + 1),
                    n,
                ) {
                    Some(v) => if on_duplicate == CopyDuplicateMode::Ignore && mid.meta(n)
                        is Some {
                        mid.meta(n)
                    } else {
                        Some(v)
                    },
                    None => mid.meta(n),
                }) by {
                    if n != row.name@ {
                        assert(dst.meta(n) == dpre.meta(n));
                    } else {
                        // The source names are unique, so the prefix does
                        // not hold this row's name.
                        assert(forall|j: int|
                            0 <= j < ii ==> (#[trigger] src.metadata@.take(ii)[j]).name@ != n);
                        crate::container::lemma_meta_absent(src.metadata@.take(ii), n);
                    }
                }
            }
            i += 1;
        }
        proof {
            assert(src.metadata@.take(src.metadata@.len() as int) =~= src.metadata@);
        }
        metadata_copied = src.metadata.len();
    }
    proof {
        assert forall|z: u8, x: u32, y: u32| #[trigger] dst.lookup(z, x, y) == mid.lookup(
            z,
            x,
            y,
        ) by {
            assert(dst.rows@ == mid.rows@);
        }
    }
    Ok(CopyStats { tiles: tiles_copied, metadata: metadata_copied })
}

/// A metadata table's lookup over one more source row: the new row
/// answers for its own name where the prefix did not.
proof fn lemma_meta_take_step(meta: Seq<MetaRow>, i: int)
    requires
        0 <= i < meta.len(),
    ensures
        forall|n: Seq<char>| #[trigger] meta_lookup(meta.take(i + 1), n) == (match meta_lookup(
            meta.take(i),
            n,
        ) {
            Some(v) => Some(v),
            None => if meta[i].name@ == n {
                Some(meta[i].value@)
            } else {
                None
            },
        }),
{
    assert forall|n: Seq<char>| #[trigger] meta_lookup(meta.take(i + 1), n) == (match meta_lookup(
        meta.take(i),
        n,
    ) {
        Some(v) => Some(v),
        None => if meta[i].name@ == n {
            Some(meta[i].value@)
        } else {
            None
        },
    }) by {
        assert(meta.take(i + 1) =~= meta.take(i) + seq![meta[i]]);
        lemma_meta_append(meta.take(i), seq![meta[i]], n);
        assert(seq![meta[i]].drop_first() =~= Seq::<MetaRow>::empty());
        assert(meta_lookup(Seq::<MetaRow>::empty(), n) is None);
    }
}

} // verus!
