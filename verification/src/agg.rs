//! The aggregate hash: one digest summarizing a container's logical tile
//! set, independent of its physical layout.
//!
//! The per-tile content ids are concatenated in coordinate order and the
//! concatenation is hashed again.  Because the rows of a well-formed
//! container are sorted and unique by coordinate, the aggregate is a
//! function of the logical tile set alone: two containers holding the same
//! tiles produce the same aggregate hash whatever their layouts — the
//! cross-layout integrity anchor of patch verification.

use vstd::prelude::*;
use crate::container::Container;
use crate::container::TileRow;
use crate::container::key_of;
use crate::container::lookup_rows;
use crate::container::rows_sorted;
use crate::container::lemma_lookup_at;
use crate::container::lemma_lookup_some_iff;
use crate::container::has_key;
use crate::container::same_key;
use crate::container::key_lt;
use crate::hashing::ascii_chars_of;
use crate::hashing::hex_of;
use crate::hashing::md5_of;
use crate::hashing::md5_hex;
use crate::hashing::md5_hex_ascii;

verus! {

/// The concatenation, in row order, of the per-tile content ids as ASCII
/// bytes.
pub open spec fn agg_payload(rows: Seq<TileRow>) -> Seq<u8>
    decreases rows.len(),
{
    if rows.len() == 0 {
        Seq::empty()
    } else {
        agg_payload(rows.drop_last()) + hex_of(md5_of(rows.last().data@))
    }
}

/// The aggregate hash of a row sequence: the content id of the
/// concatenated per-tile content ids.
pub open spec fn agg_hash_of(rows: Seq<TileRow>) -> Seq<char> {
    ascii_chars_of(hex_of(md5_of(agg_payload(rows))))
}

impl Container {
    /// The aggregate hash of this container's tile set.
    pub open spec fn agg_spec(self) -> Seq<char> {
        agg_hash_of(self.rows@)
    }

    /// Computes the aggregate hash over all tiles in coordinate order.
    pub fn agg_tiles_hash(&self) -> (r: String)
        ensures
            r@ == self.agg_spec(),
    {
        let mut payload: Vec<u8> = Vec::new();
        let mut i: usize = 0;
        while i < self.rows.len()
            invariant
                i <= self.rows@.len(),
                payload@ == agg_payload(self.rows@.take(i as int)),
            decreases self.rows@.len() - i,
        {
            let mut h = md5_hex_ascii(self.rows[i].data.as_slice());
            payload.append(&mut h);
            proof {
                let ii = i as int;
                assert(self.rows@.take(ii + 1).drop_last() =~= self.rows@.take(ii));
                assert(self.rows@.take(ii + 1).last() == self.rows@[ii]);
            }
            i += 1;
        }
        proof {
            assert(self.rows@.take(self.rows@.len() as int) =~= self.rows@);
        }
        md5_hex(payload.as_slice())
    }
}

/// One more row at the end of the row order extends the aggregate
/// payload by exactly that row's content id: each tile contributes its
/// own hash, once, whether or not its bytes are shared with another
/// coordinate.
pub proof fn lemma_agg_payload_snoc(rows: Seq<TileRow>, r: TileRow)
    ensures
        agg_payload(rows.push(r)) == agg_payload(rows) + hex_of(md5_of(r.data@)),
{
    assert(rows.push(r).drop_last() =~= rows);
}

/// Row sequences that agree on length and on the bytes of each row have
/// one aggregate payload.
proof fn lemma_agg_payload_data(a: Seq<TileRow>, b: Seq<TileRow>)
    requires
        a.len() == b.len(),
        forall|i: int| 0 <= i < a.len() ==> (#[trigger] a[i]).data@ == b[i].data@,
    ensures
        agg_payload(a) == agg_payload(b),
    decreases a.len(),
{
    if a.len() > 0 {
        assert(forall|i: int|
            0 <= i < a.drop_last().len() ==> (#[trigger] a.drop_last()[i]).data@
                == b.drop_last()[i].data@);
        lemma_agg_payload_data(a.drop_last(), b.drop_last());
    }
}

/// Strictly sorted row sequences with one lookup function are equal row
/// for row in key and bytes: the sorted representation of a tile set is
/// unique.
proof fn lemma_sorted_same_lookup(a: Seq<TileRow>, b: Seq<TileRow>)
    requires
        rows_sorted(a),
        rows_sorted(b),
        forall|z: u8, x: u32, y: u32| #[trigger] lookup_rows(a, z, x, y) == lookup_rows(b, z, x, y),
    ensures
        a.len() == b.len(),
        forall|i: int|
            0 <= i < a.len() ==> key_of(#[trigger] a[i]) == key_of(b[i]) && a[i].data@
                == b[i].data@,
    decreases a.len() + b.len(),
{
    if a.len() == 0 {
        if b.len() > 0 {
            lemma_lookup_at(b, 0);
            lemma_lookup_some_iff(a, b[0].z, b[0].x, b[0].y);
            assert(false);
        }
    } else if b.len() == 0 {
        lemma_lookup_at(a, 0);
        lemma_lookup_some_iff(b, a[0].z, a[0].x, a[0].y);
        assert(false);
    } else {
        // The two head rows carry the same key: the smaller head would
        // otherwise be present on one side and absent from the other.
        assert(key_of(a[0]) == key_of(b[0])) by {
            if key_lt(key_of(a[0]), key_of(b[0])) {
                lemma_lookup_at(a, 0);
                lemma_lookup_some_iff(b, a[0].z, a[0].x, a[0].y);
                if has_key(b, a[0].z, a[0].x, a[0].y) {
                    let i = choose|i: int|
                        0 <= i < b.len() && same_key(#[trigger] b[i], a[0].z, a[0].x, a[0].y);
                    if i > 0 {
                        assert(key_lt(key_of(b[0]), key_of(b[i])));
                    }
                    assert(false);
                }
            } else if key_lt(key_of(b[0]), key_of(a[0])) {
                lemma_lookup_at(b, 0);
                lemma_lookup_some_iff(a, b[0].z, b[0].x, b[0].y);
                if has_key(a, b[0].z, b[0].x, b[0].y) {
                    let i = choose|i: int|
                        0 <= i < a.len() && same_key(#[trigger] a[i], b[0].z, b[0].x, b[0].y);
                    if i > 0 {
                        assert(key_lt(key_of(a[0]), key_of(a[i])));
                    }
                    assert(false);
                }
            }
        }
        assert(a[0].data@ == b[0].data@) by {
            lemma_lookup_at(a, 0);
            lemma_lookup_at(b, 0);
            assert(same_key(b[0], a[0].z, a[0].x, a[0].y));
        }
        assert(rows_sorted(a.drop_first())) by {
            assert(forall|i: int, j: int|
                0 <= i < j < a.drop_first().len() ==> key_lt(
                    key_of(#[trigger] a.drop_first()[i]),
                    key_of(#[trigger] a.drop_first()[j]),
                ));
        }
        assert(rows_sorted(b.drop_first())) by {
            assert(forall|i: int, j: int|
                0 <= i < j < b.drop_first().len() ==> key_lt(
                    key_of(#[trigger] b.drop_first()[i]),
                    key_of(#[trigger] b.drop_first()[j]),
                ));
        }
        assert forall|z: u8, x: u32, y: u32| #[trigger] lookup_rows(a.drop_first(), z, x, y)
            == lookup_rows(b.drop_first(), z, x, y) by {
            if same_key(a[0], z, x, y) {
                // Neither tail holds the head key again: the heads are
                // strictly smaller than every later row.
                lemma_lookup_some_iff(a.drop_first(), z, x, y);
                if has_key(a.drop_first(), z, x, y) {
                    let i = choose|i: int|
                        0 <= i < a.drop_first().len() && same_key(
                            #[trigger] a.drop_first()[i],
                            z,
                            x,
                            y,
                        );
                    assert(a.drop_first()[i] == a[i + 1]);
                    assert(key_lt(key_of(a[0]), key_of(a[i + 1])));
                    assert(false);
                }
                lemma_lookup_some_iff(b.drop_first(), z, x, y);
                if has_key(b.drop_first(), z, x, y) {
                    let i = choose|i: int|
                        0 <= i < b.drop_first().len() && same_key(
                            #[trigger] b.drop_first()[i],
                            z,
                            x,
                            y,
                        );
                    assert(b.drop_first()[i] == b[i + 1]);
                    assert(key_lt(key_of(b[0]), key_of(b[i + 1])));
                    assert(false);
                }
            } else {
                assert(lookup_rows(a, z, x, y) == lookup_rows(a.drop_first(), z, x, y));
                assert(!same_key(b[0], z, x, y));
                assert(lookup_rows(b, z, x, y) == lookup_rows(b.drop_first(), z, x, y));
            }
        }
        lemma_sorted_same_lookup(a.drop_first(), b.drop_first());
        assert forall|i: int|
            0 <= i < a.len() implies key_of(#[trigger] a[i]) == key_of(b[i]) && a[i].data@
            == b[i].data@ by {
            if i > 0 {
                assert(a.drop_first()[i - 1] == a[i]);
                assert(b.drop_first()[i - 1] == b[i]);
            }
        }
    }
}

/// Two well-formed containers that store the same logical tile set have
/// one aggregate hash, whatever their physical layouts and whether or not
/// their content is deduplicated.
pub proof fn lemma_agg_layout_independent(a: Container, b: Container)
    requires
        a.wf(),
        b.wf(),
        forall|z: u8, x: u32, y: u32| #[trigger] a.lookup(z, x, y) == b.lookup(z, x, y),
    ensures
        a.agg_spec() == b.agg_spec(),
{
    assert forall|z: u8, x: u32, y: u32| #[trigger] lookup_rows(a.rows@, z, x, y) == lookup_rows(
        b.rows@,
        z,
        x,
        y,
    ) by {
        assert(a.lookup(z, x, y) == b.lookup(z, x, y));
    }
    lemma_sorted_same_lookup(a.rows@, b.rows@);
    lemma_agg_payload_data(a.rows@, b.rows@);
}

} // verus!
