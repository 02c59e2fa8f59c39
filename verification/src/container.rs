//! The tile container model and its read and write paths.
//!
//! A container holds tile rows keyed by `(zoom, column, row)` with the row
//! stored in the TMS convention, an optional metadata table, and — under the
//! normalized layout — a content table keyed by the content id.  The rows
//! are kept sorted by coordinate and unique per coordinate; under the
//! normalized layout the content table holds exactly one row per content id,
//! which is the deduplication invariant.

use vstd::prelude::*;
use crate::hashing::hash_hex;
use crate::hashing::md5_hex;
use crate::schema::CopyDuplicateMode;
use crate::schema::MbtType;
use crate::text::str_eq;
use crate::tile::valid_tile_index;

verus! {

/// One tile row: a coordinate (TMS row convention, as stored) with its
/// bytes and, when the layout keeps one, the content hash.
pub struct TileRow {
    pub z: u8,
    pub x: u32,
    /// The stored row, in the TMS convention.
    pub y: u32,
    pub data: Vec<u8>,
    /// `None` under `Flat`; the content id of `data` otherwise.
    pub hash: Option<String>,
}

/// One row of the content table of the normalized layout.
pub struct ImageRow {
    /// The content id: the hash of `data`.
    pub tile_id: String,
    pub data: Vec<u8>,
}

/// One metadata row.
pub struct MetaRow {
    pub name: String,
    pub value: String,
}

/// The coordinate key of a row, ordered by zoom, then column, then row.
pub open spec fn key_of(r: TileRow) -> (int, int, int) {
    (r.z as int, r.x as int, r.y as int)
}

/// Lexicographic order on coordinate keys.
pub open spec fn key_lt(a: (int, int, int), b: (int, int, int)) -> bool {
    ||| a.0 < b.0
    ||| (a.0 == b.0 && a.1 < b.1)
    ||| (a.0 == b.0 && a.1 == b.1 && a.2 < b.2)
}

/// Whether a row carries exactly the key `(z, x, y)`.
pub open spec fn same_key(r: TileRow, z: u8, x: u32, y: u32) -> bool {
    r.z == z && r.x == x && r.y == y
}

/// Rows strictly sorted by their coordinate key, which also makes every
/// coordinate unique.
pub open spec fn rows_sorted(rows: Seq<TileRow>) -> bool {
    forall|i: int, j: int|
        0 <= i < j < rows.len() ==> key_lt(key_of(#[trigger] rows[i]), key_of(#[trigger] rows[j]))
}

/// A row as the layout admits it: a valid coordinate, and the hash column
/// absent under `Flat` and equal to the content id of the bytes otherwise.
pub open spec fn row_wf(r: TileRow, variant: MbtType) -> bool {
    &&& valid_tile_index(r.z, r.x, r.y)
    &&& match variant {
        MbtType::Flat => r.hash is None,
        _ => r.hash matches Some(h) && h@ == hash_hex(r.data@),
    }
}

/// Whether the content table holds a row under the content id `id`.
pub open spec fn images_contain(images: Seq<ImageRow>, id: Seq<char>) -> bool {
    exists|k: int| 0 <= k < images.len() && (#[trigger] images[k]).tile_id@ == id
}

/// The bytes stored under the first row carrying the key `(z, x, y)`.
pub open spec fn lookup_rows(rows: Seq<TileRow>, z: u8, x: u32, y: u32) -> Option<Seq<u8>>
    decreases rows.len(),
{
    if rows.len() == 0 {
        None
    } else if same_key(rows[0], z, x, y) {
        Some(rows[0].data@)
    } else {
        lookup_rows(rows.drop_first(), z, x, y)
    }
}

/// Whether some row carries the key `(z, x, y)`.
pub open spec fn has_key(rows: Seq<TileRow>, z: u8, x: u32, y: u32) -> bool {
    exists|i: int| 0 <= i < rows.len() && same_key(#[trigger] rows[i], z, x, y)
}

/// The value stored under the first metadata row named `name`.
pub open spec fn meta_lookup(meta: Seq<MetaRow>, name: Seq<char>) -> Option<Seq<char>>
    decreases meta.len(),
{
    if meta.len() == 0 {
        None
    } else if meta[0].name@ == name {
        Some(meta[0].value@)
    } else {
        meta_lookup(meta.drop_first(), name)
    }
}

/// A lookup over concatenated row sequences reads the left part first.
pub proof fn lemma_lookup_append(s1: Seq<TileRow>, s2: Seq<TileRow>, z: u8, x: u32, y: u32)
    ensures
        lookup_rows(s1 + s2, z, x, y) == (match lookup_rows(s1, z, x, y) {
            Some(d) => Some(d),
            None => lookup_rows(s2, z, x, y),
        }),
    decreases s1.len(),
{
    if s1.len() == 0 {
        assert(s1 + s2 =~= s2);
    } else {
        assert((s1 + s2).drop_first() =~= s1.drop_first() + s2);
        lemma_lookup_append(s1.drop_first(), s2, z, x, y);
    }
}

/// A lookup finds bytes exactly when some row carries the key.
pub proof fn lemma_lookup_some_iff(rows: Seq<TileRow>, z: u8, x: u32, y: u32)
    ensures
        (lookup_rows(rows, z, x, y) is Some) == has_key(rows, z, x, y),
    decreases rows.len(),
{
    if rows.len() > 0 {
        lemma_lookup_some_iff(rows.drop_first(), z, x, y);
        if same_key(rows[0], z, x, y) {
            assert(has_key(rows, z, x, y));
        } else {
            if has_key(rows.drop_first(), z, x, y) {
                let i = choose|i: int|
                    0 <= i < rows.drop_first().len() && same_key(
                        #[trigger] rows.drop_first()[i],
                        z,
                        x,
                        y,
                    );
                assert(same_key(rows[i + 1], z, x, y));
            }
            if has_key(rows, z, x, y) {
                let i = choose|i: int| 0 <= i < rows.len() && same_key(#[trigger] rows[i], z, x, y);
                assert(i >= 1 && same_key(rows.drop_first()[i - 1], z, x, y));
            }
        }
    }
}

/// In a sorted row sequence, the lookup of the key of row `i` returns the
/// bytes of row `i`.
pub proof fn lemma_lookup_at(rows: Seq<TileRow>, i: int)
    requires
        rows_sorted(rows),
        0 <= i < rows.len(),
    ensures
        lookup_rows(rows, rows[i].z, rows[i].x, rows[i].y) == Some(rows[i].data@),
    decreases i,
{
    if i == 0 {
    } else {
        assert(key_lt(key_of(rows[0]), key_of(rows[i])));
        assert(rows.drop_first()[i - 1] == rows[i]);
        assert(rows_sorted(rows.drop_first())) by {
            assert(forall|a: int, b: int|
                0 <= a < b < rows.drop_first().len() ==> key_lt(
                    key_of(#[trigger] rows.drop_first()[a]),
                    key_of(#[trigger] rows.drop_first()[b]),
                ));
        }
        lemma_lookup_at(rows.drop_first(), i - 1);
    }
}

/// A container: the layout tag, the sorted tile rows, the content table of
/// the normalized layout, and the metadata table.
pub struct Container {
    pub variant: MbtType,
    pub rows: Vec<TileRow>,
    pub images: Vec<ImageRow>,
    pub metadata: Vec<MetaRow>,
}

impl Container {
    /// Well-formedness: rows sorted and unique by coordinate, every row as
    /// its layout admits it, the content table deduplicated and consistent
    /// with the index rows under the normalized layout and empty otherwise,
    /// and metadata names unique.
    pub open spec fn wf(self) -> bool {
        &&& rows_sorted(self.rows@)
        &&& forall|i: int|
            0 <= i < self.rows@.len() ==> row_wf(#[trigger] self.rows@[i], self.variant)
        &&& match self.variant {
            MbtType::Normalized { .. } => {
                &&& forall|i: int, j: int|
                    0 <= i < j < self.images@.len() ==> (#[trigger] self.images@[i]).tile_id@ != (
                    #[trigger] self.images@[j]).tile_id@
                &&& forall|i: int|
                    0 <= i < self.images@.len() ==> (#[trigger] self.images@[i]).tile_id@
                        == hash_hex(self.images@[i].data@)
                &&& forall|i: int|
                    0 <= i < self.rows@.len() ==> images_contain(
                        self.images@,
                        hash_hex((#[trigger] self.rows@[i]).data@),
                    )
            },
            _ => self.images@.len() == 0,
        }
        &&& forall|i: int, j: int|
            0 <= i < j < self.metadata@.len() ==> (#[trigger] self.metadata@[i]).name@ != (
            #[trigger] self.metadata@[j]).name@
    }

    /// The bytes stored under the TMS key `(z, x, y)`.
    pub open spec fn lookup(self, z: u8, x: u32, y: u32) -> Option<Seq<u8>> {
        lookup_rows(self.rows@, z, x, y)
    }

    /// The value stored under the metadata name `name`.
    pub open spec fn meta(self, name: Seq<char>) -> Option<Seq<char>> {
        meta_lookup(self.metadata@, name)
    }

    /// Creates an empty container governed by `variant`.
    pub fn new(variant: MbtType) -> (c: Container)
        ensures
            c.wf(),
            c.variant == variant,
            c.rows@.len() == 0,
            c.images@.len() == 0,
            c.metadata@.len() == 0,
            forall|z: u8, x: u32, y: u32| #[trigger] c.lookup(z, x, y) is None,
            forall|name: Seq<char>| #[trigger] c.meta(name) is None,
    {
        Container { variant, rows: Vec::new(), images: Vec::new(), metadata: Vec::new() }
    }

    /// The layout that governs this container.
    pub fn mbt_type(&self) -> (r: MbtType)
        ensures
            r == self.variant,
    {
        self.variant
    }

    /// The number of tile rows.
    pub fn tile_count(&self) -> (r: usize)
        ensures
            r == self.rows@.len(),
    {
        self.rows.len()
    }

    /// The number of rows of the content table; zero outside the
    /// normalized layout.
    pub fn content_row_count(&self) -> (r: usize)
        ensures
            r == self.images@.len(),
    {
        self.images.len()
    }
}

/// The first metadata row named `name` yields the stored value when no
/// earlier row carries that name.
proof fn lemma_meta_first(meta: Seq<MetaRow>, name: Seq<char>, i: int)
    requires
        0 <= i < meta.len(),
        meta[i].name@ == name,
        forall|j: int| 0 <= j < i ==> (#[trigger] meta[j]).name@ != name,
    ensures
        meta_lookup(meta, name) == Some(meta[i].value@),
    decreases i,
{
    if i > 0 {
        assert(meta.drop_first()[i - 1] == meta[i]);
        lemma_meta_first(meta.drop_first(), name, i - 1);
    }
}

/// When no metadata row carries `name`, the lookup is absent.
pub proof fn lemma_meta_absent(meta: Seq<MetaRow>, name: Seq<char>)
    requires
        forall|j: int| 0 <= j < meta.len() ==> (#[trigger] meta[j]).name@ != name,
    ensures
        meta_lookup(meta, name) is None,
    decreases meta.len(),
{
    if meta.len() > 0 {
        assert(forall|j: int|
            0 <= j < meta.drop_first().len() ==> (#[trigger] meta.drop_first()[j]).name@ != name);
        lemma_meta_absent(meta.drop_first(), name);
    }
}

/// A metadata lookup over concatenated tables reads the left part first.
pub proof fn lemma_meta_append(s1: Seq<MetaRow>, s2: Seq<MetaRow>, name: Seq<char>)
    ensures
        meta_lookup(s1 + s2, name) == (match meta_lookup(s1, name) {
            Some(v) => Some(v),
            None => meta_lookup(s2, name),
        }),
    decreases s1.len(),
{
    if s1.len() == 0 {
        assert(s1 + s2 =~= s2);
    } else {
        assert((s1 + s2).drop_first() =~= s1.drop_first() + s2);
        lemma_meta_append(s1.drop_first(), s2, name);
    }
}

fn key_lt_exec(z1: u8, x1: u32, y1: u32, z2: u8, x2: u32, y2: u32) -> (r: bool)
    ensures
        r == key_lt((z1 as int, x1 as int, y1 as int), (z2 as int, x2 as int, y2 as int)),
{
    z1 < z2 || (z1 == z2 && (x1 < x2 || (x1 == x2 && y1 < y2)))
}

impl Container {
    /// The index of the row carrying the TMS key `(z, x, y)`, if any.
    fn find_row(&self, z: u8, x: u32, y: u32) -> (r: Option<usize>)
        requires
            self.wf(),
        ensures
            match r {
                Some(i) => i < self.rows@.len() && same_key(self.rows@[i as int], z, x, y)
                    && self.lookup(z, x, y) == Some(self.rows@[i as int].data@),
                None => self.lookup(z, x, y) is None,
            },
    {
        let mut i: usize = 0;
        while i < self.rows.len()
            invariant
                self.wf(),
                i <= self.rows@.len(),
                forall|j: int| 0 <= j < i ==> !same_key(#[trigger] self.rows@[j], z, x, y),
            decreases self.rows@.len() - i,
        {
            let row = &self.rows[i];
            if row.z == z && row.x == x && row.y == y {
                proof {
                    lemma_lookup_at(self.rows@, i as int);
                }
                return Some(i);
            }
            i += 1;
        }
        proof {
            lemma_lookup_some_iff(self.rows@, z, x, y);
        }
        None
    }

    /// The bytes stored for the XYZ coordinate `(z, x, y)`, if any.
    ///
    /// An out-of-range coordinate addresses no tile and yields `None`.
    pub open spec fn get_spec(self, z: u8, x: u32, y: u32) -> Option<Seq<u8>> {
        if valid_tile_index(z, x, y) {
            self.lookup(z, x, crate::tile::invert_y(z, y))
        } else {
            None
        }
    }

    /// Reads the tile at the XYZ coordinate `(z, x, y)`.
    ///
    /// The coordinate is validated, then converted to the stored TMS row.
    pub fn get_tile(&self, z: u8, x: u32, y: u32) -> (r: Option<Vec<u8>>)
        requires
            self.wf(),
        ensures
            match r {
                Some(d) => self.get_spec(z, x, y) == Some(d@),
                None => self.get_spec(z, x, y) is None,
            },
    {
        if !crate::tile::TileCoord::is_possible_on_zoom_level(z, x, y) {
            return None;
        }
        let yt = crate::tile::invert_y_value(z, y);
        match self.find_row(z, x, yt) {
            Some(i) => Some(clone_bytes(self.rows[i].data.as_slice())),
            None => None,
        }
    }

    /// Reads the tile at the XYZ coordinate `(z, x, y)` together with its
    /// content hash.
    ///
    /// Under `Flat` no hash is stored and the hash is `None`; under every
    /// other layout the hash is the content id of the returned bytes.  All
    /// read paths return the same bytes for the same logical content.
    pub fn get_tile_and_hash(&self, z: u8, x: u32, y: u32) -> (r: Option<(Vec<u8>, Option<String>)>)
        requires
            self.wf(),
        ensures
            match r {
                Some(p) => {
                    &&& self.get_spec(z, x, y) == Some(p.0@)
                    &&& self.variant == MbtType::Flat ==> p.1 is None
                    &&& self.variant != MbtType::Flat ==> (p.1 matches Some(h) && h@ == hash_hex(
                        p.0@,
                    ))
                },
                None => self.get_spec(z, x, y) is None,
            },
    {
        if !crate::tile::TileCoord::is_possible_on_zoom_level(z, x, y) {
            return None;
        }
        let yt = crate::tile::invert_y_value(z, y);
        match self.find_row(z, x, yt) {
            Some(i) => {
                let row = &self.rows[i];
                let hash: Option<String> = match &row.hash {
                    Some(h) => Some(h.clone()),
                    None => None,
                };
                Some((clone_bytes(row.data.as_slice()), hash))
            },
            None => None,
        }
    }

    /// Reads the metadata value stored under `name`.
    pub fn get_metadata_value(&self, name: &str) -> (r: Option<String>)
        requires
            self.wf(),
        ensures
            match r {
                Some(v) => self.meta(name@) == Some(v@),
                None => self.meta(name@) is None,
            },
    {
        let mut i: usize = 0;
        while i < self.metadata.len()
            invariant
                i <= self.metadata@.len(),
                forall|j: int| 0 <= j < i ==> (#[trigger] self.metadata@[j]).name@ != name@,
            decreases self.metadata@.len() - i,
        {
            let row = &self.metadata[i];
            if str_eq(row.name.as_str(), name) {
                proof {
                    lemma_meta_first(self.metadata@, name@, i as int);
                }
                return Some(row.value.clone());
            }
            i += 1;
        }
        proof {
            lemma_meta_absent(self.metadata@, name@);
        }
        None
    }

    /// Stores `value` under the metadata name `name`, replacing an
    /// existing value.
    pub fn set_metadata_value(&mut self, name: &str, value: &str)
        requires
            old(self).wf(),
        ensures
            final(self).wf(),
            final(self).variant == old(self).variant,
            final(self).rows@ == old(self).rows@,
            final(self).images@ == old(self).images@,
            final(self).meta(name@) == Some(value@),
            forall|n: Seq<char>|
                n != name@ ==> #[trigger] final(self).meta(n) == old(self).meta(n),
    {
        let ghost meta0 = self.metadata@;
        let row = MetaRow { name: String::from_str(name), value: String::from_str(value) };
        let ghost rowg = row;
        let mut i: usize = 0;
        let mut found = false;
        while i < self.metadata.len() && !found
            invariant
                self == old(self),
                i <= self.metadata@.len(),
                forall|j: int| 0 <= j < i ==> (#[trigger] self.metadata@[j]).name@ != name@,
                found ==> i < self.metadata@.len() && self.metadata@[i as int].name@ == name@,
            decreases self.metadata@.len() - i, (if found { 0int } else { 1int }),
        {
            if str_eq(self.metadata[i].name.as_str(), name) {
                found = true;
            } else {
                i += 1;
            }
        }
        if found {
            let ghost oldrow = meta0[i as int];
            self.metadata.remove(i);
            self.metadata.insert(i, row);
            proof {
                let ii = i as int;
                assert(self.metadata@ =~= meta0.take(ii) + (seq![rowg] + meta0.skip(ii + 1)));
                assert(meta0 =~= meta0.take(ii) + (seq![oldrow] + meta0.skip(ii + 1)));
                assert forall|n: Seq<char>| #[trigger]
                    meta_lookup(self.metadata@, n) == (if n == name@ {
                        Some(value@)
                    } else {
                        meta_lookup(meta0, n)
                    }) by {
                    lemma_meta_append(meta0.take(ii), seq![rowg] + meta0.skip(ii + 1), n);
                    lemma_meta_append(seq![rowg], meta0.skip(ii + 1), n);
                    lemma_meta_append(meta0.take(ii), seq![oldrow] + meta0.skip(ii + 1), n);
                    lemma_meta_append(seq![oldrow], meta0.skip(ii + 1), n);
                    assert(seq![rowg].drop_first() =~= Seq::<MetaRow>::empty());
                    assert(seq![oldrow].drop_first() =~= Seq::<MetaRow>::empty());
                    assert(meta_lookup(Seq::<MetaRow>::empty(), n) is None);
                    if n == name@ {
                        lemma_meta_absent(meta0.take(ii), n);
                    }
                }
            }
        } else {
            self.metadata.push(row);
            proof {
                assert(self.metadata@ =~= meta0 + seq![rowg]);
                assert forall|n: Seq<char>| #[trigger]
                    meta_lookup(self.metadata@, n) == (if n == name@ {
                        Some(value@)
                    } else {
                        meta_lookup(meta0, n)
                    }) by {
                    lemma_meta_append(meta0, seq![rowg], n);
                    assert(seq![rowg].drop_first() =~= Seq::<MetaRow>::empty());
                    assert(meta_lookup(Seq::<MetaRow>::empty(), n) is None);
                    if n == name@ {
                        lemma_meta_absent(meta0, n);
                    }
                }
            }
        }
    }
}

impl Container {
    /// The position where a row keyed `(z, x, y)` belongs in the sorted
    /// row sequence: after every strictly smaller key.
    fn find_insert_pos(&self, z: u8, x: u32, y: u32) -> (i: usize)
        ensures
            i <= self.rows@.len(),
            forall|j: int|
                0 <= j < i ==> key_lt(
                    key_of(#[trigger] self.rows@[j]),
                    (z as int, x as int, y as int),
                ),
            i < self.rows@.len() ==> !key_lt(
                key_of(self.rows@[i as int]),
                (z as int, x as int, y as int),
            ),
    {
        let mut i: usize = 0;
        loop
            invariant
                i <= self.rows@.len(),
                forall|j: int|
                    0 <= j < i ==> key_lt(
                        key_of(#[trigger] self.rows@[j]),
                        (z as int, x as int, y as int),
                    ),
            decreases self.rows@.len() - i,
        {
            if i >= self.rows.len() {
                return i;
            }
            let row = &self.rows[i];
            if !key_lt_exec(row.z, row.x, row.y, z, x, y) {
                return i;
            }
            i += 1;
        }
    }

    /// Writes the bytes `data` under the TMS key `(z, x, y)`.
    ///
    /// When a row already carries the key, `replace` selects whether the
    /// new bytes win; otherwise the row is inserted at its sorted
    /// position.  The hash column is filled as the layout demands.  Under
    /// the normalized layout the content table must already hold the
    /// content id of `data`.
    pub(crate) fn put_row(&mut self, z: u8, x: u32, y: u32, data: Vec<u8>, replace: bool)
        requires
            old(self).wf(),
            valid_tile_index(z, x, y),
            (old(self).variant matches MbtType::Normalized { .. }) ==> images_contain(
                old(self).images@,
                hash_hex(data@),
            ),
        ensures
            final(self).wf(),
            final(self).variant == old(self).variant,
            final(self).images@ == old(self).images@,
            final(self).metadata@ == old(self).metadata@,
            final(self).lookup(z, x, y) == (if replace || old(self).lookup(z, x, y) is None {
                Some(data@)
            } else {
                old(self).lookup(z, x, y)
            }),
            forall|z2: u8, x2: u32, y2: u32|
                !(z2 == z && x2 == x && y2 == y) ==> #[trigger] final(self).lookup(z2, x2, y2)
                    == old(self).lookup(z2, x2, y2),
            final(self).rows@.len() == old(self).rows@.len() + (if old(self).lookup(z, x, y)
                is Some {
                0int
            } else {
                1int
            }),
    {
        let ghost rows0 = self.rows@;
        let ghost k = (z as int, x as int, y as int);
        let variant = self.variant;
        let hash: Option<String> = match variant {
            MbtType::Flat => None,
            _ => Some(md5_hex(data.as_slice())),
        };
        let row = TileRow { z, x, y, data, hash };
        let ghost rowg = row;
        let i = self.find_insert_pos(z, x, y);
        let ii: usize = i;
        let ghost iii = i as int;
        let same = i < self.rows.len() && {
            let r = &self.rows[i];
            r.z == z && r.x == x && r.y == y
        };
        if same {
            proof {
                lemma_lookup_at(rows0, iii);
            }
            if replace {
                let ghost oldrow = rows0[iii];
                self.rows.remove(ii);
                self.rows.insert(ii, row);
                proof {
                    assert(self.rows@ =~= rows0.take(iii) + (seq![rowg] + rows0.skip(iii + 1)));
                    assert(rows0 =~= rows0.take(iii) + (seq![oldrow] + rows0.skip(iii + 1)));
                    assert(rows_sorted(self.rows@)) by {
                        assert(forall|j: int|
                            0 <= j < self.rows@.len() ==> key_of(#[trigger] self.rows@[j])
                                == key_of(rows0[j]));
                    }
                    assert forall|z2: u8, x2: u32, y2: u32|
                        !(z2 == z && x2 == x && y2 == y) implies #[trigger] lookup_rows(
                        self.rows@,
                        z2,
                        x2,
                        y2,
                    ) == lookup_rows(rows0, z2, x2, y2) by {
                        lemma_lookup_append(rows0.take(iii), seq![rowg] + rows0.skip(iii + 1), z2, x2, y2);
                        lemma_lookup_append(seq![rowg], rows0.skip(iii + 1), z2, x2, y2);
                        lemma_lookup_append(rows0.take(iii), seq![oldrow] + rows0.skip(iii + 1), z2, x2, y2);
                        lemma_lookup_append(seq![oldrow], rows0.skip(iii + 1), z2, x2, y2);
                        assert(seq![rowg].drop_first() =~= Seq::<TileRow>::empty());
                        assert(seq![oldrow].drop_first() =~= Seq::<TileRow>::empty());
                        assert(lookup_rows(Seq::<TileRow>::empty(), z2, x2, y2) is None);
                    }
                    lemma_lookup_at(self.rows@, iii);
                }
            }
        } else {
            proof {
                assert(forall|j: int|
                    iii <= j < rows0.len() ==> key_lt(k, key_of(#[trigger] rows0[j]))) by {
                    if iii < rows0.len() {
                        assert(key_lt(k, key_of(rows0[iii])));
                    }
                }
                assert(!has_key(rows0, z, x, y));
                lemma_lookup_some_iff(rows0, z, x, y);
            }
            self.rows.insert(ii, row);
            proof {
                assert(self.rows@ =~= rows0.take(iii) + (seq![rowg] + rows0.skip(iii)));
                assert(rows0 =~= rows0.take(iii) + rows0.skip(iii));
                assert(rows_sorted(self.rows@)) by {
                    assert(forall|j: int| 0 <= j < iii ==> key_of(#[trigger] self.rows@[j]) == key_of(rows0[j]));
                    assert(forall|j: int|
                        iii < j < self.rows@.len() ==> key_of(#[trigger] self.rows@[j]) == key_of(
                            rows0[j - 1],
                        ));
                }
                assert forall|z2: u8, x2: u32, y2: u32| #[trigger] lookup_rows(self.rows@, z2, x2, y2)
                    == (if z2 == z && x2 == x && y2 == y {
                    Some(rowg.data@)
                } else {
                    lookup_rows(rows0, z2, x2, y2)
                }) by {
                    lemma_lookup_append(rows0.take(iii), seq![rowg] + rows0.skip(iii), z2, x2, y2);
                    lemma_lookup_append(seq![rowg], rows0.skip(iii), z2, x2, y2);
                    lemma_lookup_append(rows0.take(iii), rows0.skip(iii), z2, x2, y2);
                    assert(seq![rowg].drop_first() =~= Seq::<TileRow>::empty());
                    assert(lookup_rows(Seq::<TileRow>::empty(), z2, x2, y2) is None);
                    if z2 == z && x2 == x && y2 == y {
                        lemma_lookup_some_iff(rows0.take(iii), z2, x2, y2);
                        if has_key(rows0.take(iii), z2, x2, y2) {
                            let j = choose|j: int|
                                0 <= j < rows0.take(iii).len() && same_key(
                                    #[trigger] rows0.take(iii)[j],
                                    z2,
                                    x2,
                                    y2,
                                );
                            assert(key_lt(key_of(rows0[j]), k));
                        }
                    }
                }
            }
        }
    }

    /// Ensures the content table holds the bytes `data` under their
    /// content id: an idempotent upsert, "insert, ignore if present".
    ///
    /// This is the single place that preserves the deduplication
    /// invariant: two coordinates with identical bytes share one content
    /// row.
    pub(crate) fn add_image(&mut self, data: &Vec<u8>)
        requires
            old(self).wf(),
            old(self).variant matches MbtType::Normalized { .. },
        ensures
            final(self).wf(),
            final(self).variant == old(self).variant,
            final(self).rows@ == old(self).rows@,
            final(self).metadata@ == old(self).metadata@,
            forall|id: Seq<char>| #[trigger]
                images_contain(final(self).images@, id) == (images_contain(old(self).images@, id)
                    || id == hash_hex(data@)),
            final(self).images@.len() == old(self).images@.len() + (if images_contain(
                old(self).images@,
                hash_hex(data@),
            ) {
                0int
            } else {
                1int
            }),
    {
        let ghost images0 = self.images@;
        let tile_id = md5_hex(data.as_slice());
        let mut j: usize = 0;
        while j < self.images.len()
            invariant
                self == old(self),
                self.images@ == images0,
                self.variant == old(self).variant,
                self.rows@ == old(self).rows@,
                self.metadata@ == old(self).metadata@,
                old(self).wf(),
                images0 == old(self).images@,
                tile_id@ == hash_hex(data@),
                j <= self.images@.len(),
                forall|j2: int| 0 <= j2 < j ==> (#[trigger] self.images@[j2]).tile_id@ != tile_id@,
            decreases self.images@.len() - j,
        {
            if str_eq(self.images[j].tile_id.as_str(), tile_id.as_str()) {
                proof {
                    let jj = j as int;
                    assert(0 <= jj < images0.len() && (#[trigger] images0[jj]).tile_id@ == hash_hex(
                        data@,
                    ));
                    assert(images_contain(images0, hash_hex(data@)));
                }
                return ;
            }
            j += 1;
        }
        let row = ImageRow { tile_id, data: clone_bytes(data.as_slice()) };
        let ghost rowg = row;
        self.images.push(row);
        proof {
            assert(self.images@ =~= images0.push(rowg));
            assert forall|id: Seq<char>| #[trigger]
                images_contain(self.images@, id) == (images_contain(images0, id) || id == hash_hex(
                    data@,
                )) by {
                if images_contain(images0, id) {
                    let kk = choose|kk: int|
                        0 <= kk < images0.len() && (#[trigger] images0[kk]).tile_id@ == id;
                    assert((self.images@[kk]).tile_id@ == id);
                }
                if id == hash_hex(data@) {
                    assert((self.images@[images0.len() as int]).tile_id@ == id);
                }
                if images_contain(self.images@, id) {
                    let kk = choose|kk: int|
                        0 <= kk < self.images@.len() && (#[trigger] self.images@[kk]).tile_id@
                            == id;
                    if kk < images0.len() {
                        assert((images0[kk]).tile_id@ == id);
                    }
                }
            }
            assert(!images_contain(images0, hash_hex(data@)));
        }
    }
}

/// Failure of a batch write.
#[derive(Clone, Copy, Debug, PartialEq, Eq, Structural)]
pub enum WriteError {
    /// Under [`CopyDuplicateMode::Abort`], a record collided with an
    /// existing coordinate or with another record of the batch.
    Conflict,
    /// A record's coordinate does not lie on the grid of its zoom level.
    InvalidCoordinate,
}

/// Whether a batch record, whose row arrives in the XYZ convention, is
/// stored under the TMS key `(z, x, y)`.
pub open spec fn batch_key_matches(rec: (u8, u32, u32, Vec<u8>), z: u8, x: u32, y: u32) -> bool {
    rec.0 == z && rec.1 == x && crate::tile::invert_y(rec.0, rec.2) == y
}

/// Every record of the batch carries a valid coordinate.
pub open spec fn batch_valid(batch: Seq<(u8, u32, u32, Vec<u8>)>) -> bool {
    forall|i: int|
        0 <= i < batch.len() ==> valid_tile_index(
            (#[trigger] batch[i]).0,
            batch[i].1,
            batch[i].2,
        )
}

/// Whether some record of the batch carries bytes whose content id is `id`.
pub open spec fn batch_has_content(batch: Seq<(u8, u32, u32, Vec<u8>)>, id: Seq<char>) -> bool {
    exists|i: int| 0 <= i < batch.len() && hash_hex((#[trigger] batch[i]).3@) == id
}

/// The bytes that applying the batch in order leaves under the TMS key
/// `(z, x, y)`, given the bytes `prev` stored there before.
///
/// Under `Ignore` the first write of a coordinate wins and an existing row
/// is kept; under `Override` and `Abort` the new write replaces what is
/// there (under `Abort` the batch only commits when no collision exists at
/// all).
pub open spec fn applied_lookup(
    prev: Option<Seq<u8>>,
    batch: Seq<(u8, u32, u32, Vec<u8>)>,
    mode: CopyDuplicateMode,
    z: u8,
    x: u32,
    y: u32,
) -> Option<Seq<u8>>
    decreases batch.len(),
{
    if batch.len() == 0 {
        prev
    } else {
        let p = applied_lookup(prev, batch.drop_last(), mode, z, x, y);
        let rec = batch.last();
        if batch_key_matches(rec, z, x, y) {
            if mode == CopyDuplicateMode::Ignore {
                if p is None {
                    Some(rec.3@)
                } else {
                    p
                }
            } else {
                Some(rec.3@)
            }
        } else {
            p
        }
    }
}

/// No record of the batch collides with a coordinate already stored in
/// `rows`, nor with another record of the batch.
pub open spec fn abort_ok(rows: Seq<TileRow>, batch: Seq<(u8, u32, u32, Vec<u8>)>) -> bool {
    &&& forall|i: int|
        0 <= i < batch.len() ==> lookup_rows(
            rows,
            (#[trigger] batch[i]).0,
            batch[i].1,
            crate::tile::invert_y(batch[i].0, batch[i].2),
        ) is None
    &&& forall|i: int, j: int|
        0 <= i < j < batch.len() ==> !((#[trigger] batch[i]).0 == (#[trigger] batch[j]).0
            && batch[i].1 == batch[j].1 && batch[i].2 == batch[j].2)
}

impl Container {
    /// Inserts a batch of tiles, given with XYZ rows, under the duplicate
    /// policy `on_duplicate`.
    ///
    /// The whole batch commits or none of it does.  A record whose
    /// coordinate fails validation aborts the whole batch with
    /// [`WriteError::InvalidCoordinate`] under every policy — no row of
    /// such a batch is applied.  Under [`CopyDuplicateMode::Abort`] any
    /// collision, with an existing coordinate or within the batch, fails
    /// the whole batch with [`WriteError::Conflict`] and leaves the
    /// container untouched.  Each row's coordinate is converted from XYZ
    /// to the stored TMS convention exactly once, immediately before the
    /// write.  Under the normalized layout the content rows are written
    /// first, as an idempotent upsert keyed by the content id, then the
    /// index rows.
    #[verifier::loop_isolation(false)]
    pub fn insert_tiles(
        &mut self,
        on_duplicate: CopyDuplicateMode,
        batch: &[(u8, u32, u32, Vec<u8>)],
    ) -> (r: Result<(), WriteError>)
        requires
            old(self).wf(),
        ensures
            final(self).wf(),
            final(self).variant == old(self).variant,
            final(self).metadata@ == old(self).metadata@,
            match r {
                Ok(()) => {
                    &&& batch_valid(batch@)
                    &&& on_duplicate == CopyDuplicateMode::Abort ==> abort_ok(old(self).rows@, batch@)
                    &&& forall|z: u8, x: u32, y: u32| #[trigger] final(self).lookup(z, x, y)
                        == applied_lookup(old(self).lookup(z, x, y), batch@, on_duplicate, z, x, y)
                    &&& (old(self).variant matches MbtType::Normalized { .. }) ==> forall|
                        id: Seq<char>,
                    | #[trigger]
                        images_contain(final(self).images@, id) == (images_contain(
                            old(self).images@,
                            id,
                        ) || batch_has_content(batch@, id))
                    &&& !(old(self).variant matches MbtType::Normalized { .. })
                        ==> final(self).images@ == old(self).images@
                },
                Err(WriteError::InvalidCoordinate) => {
                    &&& !batch_valid(batch@)
                    &&& final(self).rows@ == old(self).rows@
                    &&& final(self).images@ == old(self).images@
                },
                Err(WriteError::Conflict) => {
                    &&& batch_valid(batch@)
                    &&& on_duplicate == CopyDuplicateMode::Abort
                    &&& !abort_ok(old(self).rows@, batch@)
                    &&& final(self).rows@ == old(self).rows@
                    &&& final(self).images@ == old(self).images@
                },
            },
    {
        // Validate every coordinate before any write: an invalid record
        // aborts the whole batch.
        let mut i: usize = 0;
        while i < batch.len()
            invariant
                self.variant == old(self).variant,
                self.rows@ == old(self).rows@,
                self.images@ == old(self).images@,
                self.metadata@ == old(self).metadata@,
                old(self).wf(),
                i <= batch@.len(),
                forall|j: int|
                    0 <= j < i ==> valid_tile_index(
                        (#[trigger] batch@[j]).0,
                        batch@[j].1,
                        batch@[j].2,
                    ),
            decreases batch@.len() - i,
        {
            let rec = &batch[i];
            if !crate::tile::TileCoord::is_possible_on_zoom_level(rec.0, rec.1, rec.2) {
                return Err(WriteError::InvalidCoordinate);
            }
            i += 1;
        }
        // Under Abort, find any collision before any write.
        if on_duplicate == CopyDuplicateMode::Abort {
            let mut i: usize = 0;
            while i < batch.len()
                invariant
                    self.variant == old(self).variant,
                    self.rows@ == old(self).rows@,
                    self.images@ == old(self).images@,
                    self.metadata@ == old(self).metadata@,
                    old(self).wf(),
                    batch_valid(batch@),
                    i <= batch@.len(),
                    forall|a: int|
                        0 <= a < i ==> old(self).lookup(
                            (#[trigger] batch@[a]).0,
                            batch@[a].1,
                            crate::tile::invert_y(batch@[a].0, batch@[a].2),
                        ) is None,
                    forall|b: int, a: int|
                        0 <= b < a < i ==> !((#[trigger] batch@[a]).0 == (#[trigger] batch@[b]).0
                            && batch@[a].1 == batch@[b].1 && batch@[a].2 == batch@[b].2),
                decreases batch@.len() - i,
            {
                let rec = &batch[i];
                let yt = crate::tile::invert_y_value(rec.0, rec.2);
                if let Some(_) = self.find_row(rec.0, rec.1, yt) {
                    proof {
                        let ii = i as int;
                        assert(!abort_ok(old(self).rows@, batch@)) by {
                            if abort_ok(old(self).rows@, batch@) {
                                assert(lookup_rows(
                                    old(self).rows@,
                                    (#[trigger] batch@[ii]).0,
                                    batch@[ii].1,
                                    crate::tile::invert_y(batch@[ii].0, batch@[ii].2),
                                ) is None);
                            }
                        }
                    }
                    return Err(WriteError::Conflict);
                }
                let mut j: usize = 0;
                while j < i
                    invariant
                        self.variant == old(self).variant,
                        self.rows@ == old(self).rows@,
                        self.images@ == old(self).images@,
                        self.metadata@ == old(self).metadata@,
                        old(self).wf(),
                        batch_valid(batch@),
                        i < batch@.len(),
                        j <= i,
                        forall|b: int|
                            0 <= b < j ==> !((#[trigger] batch@[b]).0 == batch@[i as int].0
                                && batch@[b].1 == batch@[i as int].1 && batch@[b].2 == batch@[
                                i as int].2),
                    decreases i - j,
                {
                    let prev = &batch[j];
                    if prev.0 == rec.0 && prev.1 == rec.1 && prev.2 == rec.2 {
                        proof {
                            let ii = i as int;
                            let jj = j as int;
                            assert(!abort_ok(old(self).rows@, batch@)) by {
                                if abort_ok(old(self).rows@, batch@) {
                                    assert(!((#[trigger] batch@[jj]).0 == (#[trigger] batch@[ii]).0
                                        && batch@[jj].1 == batch@[ii].1 && batch@[jj].2
                                        == batch@[ii].2));
                                }
                            }
                        }
                        return Err(WriteError::Conflict);
                    }
                    j += 1;
                }
                i += 1;
            }
        }
        // Under the normalized layout, write the content rows first: an
        // idempotent upsert per record.
        let normalized = matches!(self.variant, MbtType::Normalized { .. });
        if normalized {
            let mut i: usize = 0;
            while i < batch.len()
                invariant
                    self.wf(),
                    self.variant == old(self).variant,
                    self.variant matches MbtType::Normalized { .. },
                    self.rows@ == old(self).rows@,
                    self.metadata@ == old(self).metadata@,
                    i <= batch@.len(),
                    forall|id: Seq<char>| #[trigger]
                        images_contain(self.images@, id) == (images_contain(old(self).images@, id)
                            || batch_has_content(batch@.take(i as int), id)),
                decreases batch@.len() - i,
            {
                let rec = &batch[i];
                let ghost pre = self.images@;
                self.add_image(&rec.3);
                proof {
                    let ii = i as int;
                    assert forall|id: Seq<char>| #[trigger]
                        images_contain(self.images@, id) == (images_contain(old(self).images@, id)
                            || batch_has_content(batch@.take(ii + 1), id)) by {
                        assert(images_contain(self.images@, id) == (images_contain(pre, id) || id
                            == hash_hex(batch@[ii].3@)));
                        if batch_has_content(batch@.take(ii), id) {
                            let w = choose|w: int|
                                0 <= w < batch@.take(ii).len() && hash_hex(
                                    (#[trigger] batch@.take(ii)[w]).3@,
                                ) == id;
                            assert(hash_hex((batch@.take(ii + 1)[w]).3@) == id);
                            assert(batch_has_content(batch@.take(ii + 1), id));
                        }
                        if id == hash_hex(batch@[ii].3@) {
                            assert(hash_hex((batch@.take(ii + 1)[ii]).3@) == id);
                            assert(batch_has_content(batch@.take(ii + 1), id));
                        }
                        if batch_has_content(batch@.take(ii + 1), id) && id != hash_hex(
                            batch@[ii].3@,
                        ) {
                            let w = choose|w: int|
                                0 <= w < batch@.take(ii + 1).len() && hash_hex(
                                    (#[trigger] batch@.take(ii + 1)[w]).3@,
                                ) == id;
                            assert(w < ii);
                            assert(hash_hex((batch@.take(ii)[w]).3@) == id);
                            assert(batch_has_content(batch@.take(ii), id));
                        }
                    }
                }
                i += 1;
            }
            proof {
                assert(batch@.take(batch@.len() as int) =~= batch@);
            }
        }
        // Write the index rows: one conversion to TMS per record,
        // immediately before the write.
        let replace = !(on_duplicate == CopyDuplicateMode::Ignore);
        let mut i: usize = 0;
        while i < batch.len()
            invariant
                self.wf(),
                self.variant == old(self).variant,
                self.metadata@ == old(self).metadata@,
                batch_valid(batch@),
                normalized == (self.variant matches MbtType::Normalized { .. }),
                replace == !(on_duplicate == CopyDuplicateMode::Ignore),
                normalized ==> forall|id: Seq<char>| #[trigger]
                    images_contain(self.images@, id) == (images_contain(old(self).images@, id)
                        || batch_has_content(batch@, id)),
                !normalized ==> self.images@ == old(self).images@,
                i <= batch@.len(),
                forall|z2: u8, x2: u32, y2: u32| #[trigger] self.lookup(z2, x2, y2)
                    == applied_lookup(
                    old(self).lookup(z2, x2, y2),
                    batch@.take(i as int),
                    on_duplicate,
                    z2,
                    x2,
                    y2,
                ),
            decreases batch@.len() - i,
        {
            let rec = &batch[i];
            let yt = crate::tile::invert_y_value(rec.0, rec.2);
            let data = clone_bytes(rec.3.as_slice());
            let ghost pre = *self;
            proof {
                if normalized {
                    assert(batch_has_content(batch@, hash_hex(rec.3@))) by {
                        assert(hash_hex((#[trigger] batch@[i as int]).3@) == hash_hex(rec.3@));
                    }
                    assert(images_contain(self.images@, hash_hex(data@)));
                }
            }
            self.put_row(rec.0, rec.1, yt, data, replace);
            proof {
                let ii = i as int;
                assert(batch@.take(ii + 1).drop_last() =~= batch@.take(ii));
                assert(batch@.take(ii + 1).last() == batch@[ii]);
                assert forall|z2: u8, x2: u32, y2: u32| #[trigger] self.lookup(z2, x2, y2)
                    == applied_lookup(
                    old(self).lookup(z2, x2, y2),
                    batch@.take(ii + 1),
                    on_duplicate,
                    z2,
                    x2,
                    y2,
                ) by {
                    assert(pre.lookup(z2, x2, y2) == applied_lookup(
                        old(self).lookup(z2, x2, y2),
                        batch@.take(ii),
                        on_duplicate,
                        z2,
                        x2,
                        y2,
                    ));
                    if z2 == rec.0 && x2 == rec.1 && y2 == yt {
                        assert(batch_key_matches(batch@[ii], z2, x2, y2));
                    } else {
                        assert(!batch_key_matches(batch@[ii], z2, x2, y2));
                        assert(self.lookup(z2, x2, y2) == pre.lookup(z2, x2, y2));
                    }
                }
            }
            i += 1;
        }
        proof {
            assert(batch@.take(batch@.len() as int) =~= batch@);
        }
        Ok(())
    }
}

/// The bytes of the first record of the batch stored under the TMS key
/// `(z, x, y)`, if any.
pub open spec fn first_match(
    batch: Seq<(u8, u32, u32, Vec<u8>)>,
    z: u8,
    x: u32,
    y: u32,
) -> Option<Seq<u8>>
    decreases batch.len(),
{
    if batch.len() == 0 {
        None
    } else if batch_key_matches(batch[0], z, x, y) {
        Some(batch[0].3@)
    } else {
        first_match(batch.drop_first(), z, x, y)
    }
}

/// The bytes of the last record of the batch stored under the TMS key
/// `(z, x, y)`, if any.
pub open spec fn last_match(
    batch: Seq<(u8, u32, u32, Vec<u8>)>,
    z: u8,
    x: u32,
    y: u32,
) -> Option<Seq<u8>>
    decreases batch.len(),
{
    if batch.len() == 0 {
        None
    } else if batch_key_matches(batch.last(), z, x, y) {
        Some(batch.last().3@)
    } else {
        last_match(batch.drop_last(), z, x, y)
    }
}

proof fn lemma_first_match_snoc(
    batch: Seq<(u8, u32, u32, Vec<u8>)>,
    rec: (u8, u32, u32, Vec<u8>),
    z: u8,
    x: u32,
    y: u32,
)
    ensures
        first_match(batch.push(rec), z, x, y) == (match first_match(batch, z, x, y) {
            Some(d) => Some(d),
            None => if batch_key_matches(rec, z, x, y) {
                Some(rec.3@)
            } else {
                None
            },
        }),
    decreases batch.len(),
{
    if batch.len() == 0 {
        assert(batch.push(rec)[0] == rec);
        assert(batch.push(rec).drop_first() =~= Seq::<(u8, u32, u32, Vec<u8>)>::empty());
        assert(first_match(Seq::<(u8, u32, u32, Vec<u8>)>::empty(), z, x, y) is None);
        assert(first_match(batch, z, x, y) is None);
    } else {
        assert(batch.push(rec)[0] == batch[0]);
        assert(batch.push(rec).drop_first() =~= batch.drop_first().push(rec));
        lemma_first_match_snoc(batch.drop_first(), rec, z, x, y);
    }
}

/// Under `Ignore` the stored bytes win, and otherwise the first record of
/// the batch carrying the coordinate is the one that stays.
pub proof fn lemma_ignore_first_wins(
    prev: Option<Seq<u8>>,
    batch: Seq<(u8, u32, u32, Vec<u8>)>,
    z: u8,
    x: u32,
    y: u32,
)
    ensures
        applied_lookup(prev, batch, CopyDuplicateMode::Ignore, z, x, y) == (if prev is Some {
            prev
        } else {
            first_match(batch, z, x, y)
        }),
    decreases batch.len(),
{
    if batch.len() > 0 {
        assert(batch =~= batch.drop_last().push(batch.last()));
        lemma_ignore_first_wins(prev, batch.drop_last(), z, x, y);
        lemma_first_match_snoc(batch.drop_last(), batch.last(), z, x, y);
    }
}

/// Under `Override` and `Abort` the last record of the batch carrying the
/// coordinate replaces whatever was stored.
pub proof fn lemma_override_last_wins(
    prev: Option<Seq<u8>>,
    batch: Seq<(u8, u32, u32, Vec<u8>)>,
    mode: CopyDuplicateMode,
    z: u8,
    x: u32,
    y: u32,
)
    requires
        mode != CopyDuplicateMode::Ignore,
    ensures
        applied_lookup(prev, batch, mode, z, x, y) == (match last_match(batch, z, x, y) {
            Some(d) => Some(d),
            None => prev,
        }),
    decreases batch.len(),
{
    if batch.len() > 0 {
        lemma_override_last_wins(prev, batch.drop_last(), mode, z, x, y);
    }
}

/// A batch with no record under the key leaves the stored bytes alone.
pub proof fn lemma_applied_no_match(
    prev: Option<Seq<u8>>,
    batch: Seq<(u8, u32, u32, Vec<u8>)>,
    mode: CopyDuplicateMode,
    z: u8,
    x: u32,
    y: u32,
)
    requires
        forall|i: int| 0 <= i < batch.len() ==> !batch_key_matches(#[trigger] batch[i], z, x, y),
    ensures
        applied_lookup(prev, batch, mode, z, x, y) == prev,
    decreases batch.len(),
{
    if batch.len() > 0 {
        lemma_applied_no_match(prev, batch.drop_last(), mode, z, x, y);
    }
}

/// Round trip of a batch write: after inserting a batch of valid,
/// pairwise-distinct coordinates — into a container that does not yet
/// store any of them when the policy is `Ignore` — the coordinate of each
/// record reads back exactly the bytes of that record.
pub proof fn lemma_insert_round_trip(
    prev: Option<Seq<u8>>,
    batch: Seq<(u8, u32, u32, Vec<u8>)>,
    mode: CopyDuplicateMode,
    i: int,
)
    requires
        0 <= i < batch.len(),
        batch_valid(batch),
        forall|a: int, b: int|
            0 <= a < b < batch.len() ==> !((#[trigger] batch[a]).0 == (#[trigger] batch[b]).0
                && batch[a].1 == batch[b].1 && batch[a].2 == batch[b].2),
        mode == CopyDuplicateMode::Ignore ==> prev is None,
    ensures
        applied_lookup(
            prev,
            batch,
            mode,
            batch[i].0,
            batch[i].1,
            crate::tile::invert_y(batch[i].0, batch[i].2),
        ) == Some(batch[i].3@),
    decreases batch.len(),
{
    let z = batch[i].0;
    let x = batch[i].1;
    let y = crate::tile::invert_y(batch[i].0, batch[i].2);
    assert forall|j: int| 0 <= j < batch.len() && j != i implies !batch_key_matches(
        #[trigger] batch[j],
        z,
        x,
        y,
    ) by {
        if batch_key_matches(batch[j], z, x, y) {
            crate::tile::lemma_invert_y_involution(batch[i].0, batch[i].2);
            crate::tile::lemma_invert_y_involution(batch[j].0, batch[j].2);
        }
    }
    if i == batch.len() - 1 {
        assert(batch_key_matches(batch.last(), z, x, y));
        assert forall|j: int|
            0 <= j < batch.drop_last().len() implies !batch_key_matches(
            #[trigger] batch.drop_last()[j],
            z,
            x,
            y,
        ) by {
            assert(batch.drop_last()[j] == batch[j]);
        }
        lemma_applied_no_match(prev, batch.drop_last(), mode, z, x, y);
        if mode == CopyDuplicateMode::Ignore {
            assert(applied_lookup(prev, batch.drop_last(), mode, z, x, y) is None);
        }
    } else {
        assert(!batch_key_matches(batch.last(), z, x, y));
        assert(batch.drop_last()[i] == batch[i]);
        lemma_insert_round_trip(prev, batch.drop_last(), mode, i);
    }
}

/// The deduplication invariant of the normalized layout: the content
/// table of a well-formed container never holds two rows under one
/// content id.
pub proof fn lemma_dedup_unique(c: Container, i: int, j: int)
    requires
        c.wf(),
        c.variant matches MbtType::Normalized { .. },
        0 <= i < c.images@.len(),
        0 <= j < c.images@.len(),
        c.images@[i].tile_id@ == c.images@[j].tile_id@,
    ensures
        i == j,
{
}

/// The view of an optional hash column.
pub open spec fn opt_hash_view(h: Option<String>) -> Option<Seq<char>> {
    match h {
        Some(s) => Some(s@),
        None => None,
    }
}

/// Row sequences equal in length, keys, bytes, and hash text.
pub open spec fn rows_equivalent(a: Seq<TileRow>, b: Seq<TileRow>) -> bool {
    &&& a.len() == b.len()
    &&& forall|i: int|
        0 <= i < a.len() ==> key_of(#[trigger] a[i]) == key_of(b[i]) && a[i].data@ == b[i].data@
            && opt_hash_view(a[i].hash) == opt_hash_view(b[i].hash)
}

/// Equivalent row sequences have one lookup function.
pub proof fn lemma_equiv_lookup(a: Seq<TileRow>, b: Seq<TileRow>, z: u8, x: u32, y: u32)
    requires
        rows_equivalent(a, b),
    ensures
        lookup_rows(a, z, x, y) == lookup_rows(b, z, x, y),
    decreases a.len(),
{
    if a.len() > 0 {
        assert(rows_equivalent(a.drop_first(), b.drop_first())) by {
            assert(forall|i: int|
                0 <= i < a.drop_first().len() ==> a.drop_first()[i] == a[i + 1] && b.drop_first()[i]
                    == b[i + 1]);
        }
        lemma_equiv_lookup(a.drop_first(), b.drop_first(), z, x, y);
    }
}

impl Container {
    /// The bytes stored under the TMS key `(z, x, y)`, without the XYZ
    /// conversion of [`Container::get_tile`].
    pub(crate) fn get_raw(&self, z: u8, x: u32, y: u32) -> (r: Option<Vec<u8>>)
        requires
            self.wf(),
        ensures
            match r {
                Some(d) => self.lookup(z, x, y) == Some(d@),
                None => self.lookup(z, x, y) is None,
            },
    {
        match self.find_row(z, x, y) {
            Some(i) => Some(clone_bytes(self.rows[i].data.as_slice())),
            None => None,
        }
    }

    /// Removes the row stored under the TMS key `(z, x, y)`, if any.
    #[verifier::loop_isolation(false)]
    pub(crate) fn delete_row(&mut self, z: u8, x: u32, y: u32)
        requires
            old(self).wf(),
        ensures
            final(self).wf(),
            final(self).variant == old(self).variant,
            final(self).images@ == old(self).images@,
            final(self).metadata@ == old(self).metadata@,
            final(self).lookup(z, x, y) is None,
            forall|z2: u8, x2: u32, y2: u32|
                !(z2 == z && x2 == x && y2 == y) ==> #[trigger] final(self).lookup(z2, x2, y2)
                    == old(self).lookup(z2, x2, y2),
            final(self).rows@.len() == old(self).rows@.len() - (if old(self).lookup(z, x, y)
                is Some {
                1int
            } else {
                0int
            }),
    {
        let ghost rows0 = self.rows@;
        match self.find_row(z, x, y) {
            None => {},
            Some(i) => {
                let ghost iii = i as int;
                let ghost oldrow = rows0[iii];
                self.rows.remove(i);
                proof {
                    assert(self.rows@ =~= rows0.take(iii) + rows0.skip(iii + 1));
                    assert(rows0 =~= rows0.take(iii) + (seq![oldrow] + rows0.skip(iii + 1)));
                    assert(rows_sorted(self.rows@)) by {
                        assert(forall|j: int|
                            0 <= j < iii ==> key_of(#[trigger] self.rows@[j]) == key_of(rows0[j]));
                        assert(forall|j: int|
                            iii <= j < self.rows@.len() ==> key_of(#[trigger] self.rows@[j])
                                == key_of(rows0[j + 1]));
                    }
                    assert forall|z2: u8, x2: u32, y2: u32| #[trigger] lookup_rows(
                        self.rows@,
                        z2,
                        x2,
                        y2,
                    ) == (if z2 == z && x2 == x && y2 == y {
                        None
                    } else {
                        lookup_rows(rows0, z2, x2, y2)
                    }) by {
                        lemma_lookup_append(rows0.take(iii), rows0.skip(iii + 1), z2, x2, y2);
                        lemma_lookup_append(
                            rows0.take(iii),
                            seq![oldrow] + rows0.skip(iii + 1),
                            z2,
                            x2,
                            y2,
                        );
                        lemma_lookup_append(seq![oldrow], rows0.skip(iii + 1), z2, x2, y2);
                        assert(seq![oldrow].drop_first() =~= Seq::<TileRow>::empty());
                        assert(lookup_rows(Seq::<TileRow>::empty(), z2, x2, y2) is None);
                        if z2 == z && x2 == x && y2 == y {
                            lemma_lookup_some_iff(rows0.take(iii), z2, x2, y2);
                            if has_key(rows0.take(iii), z2, x2, y2) {
                                let j = choose|j: int|
                                    0 <= j < rows0.take(iii).len() && same_key(
                                        #[trigger] rows0.take(iii)[j],
                                        z2,
                                        x2,
                                        y2,
                                    );
                                assert(key_lt(key_of(rows0[j]), key_of(rows0[iii])));
                                assert(false);
                            }
                            lemma_lookup_some_iff(rows0.skip(iii + 1), z2, x2, y2);
                            if has_key(rows0.skip(iii + 1), z2, x2, y2) {
                                let j = choose|j: int|
                                    0 <= j < rows0.skip(iii + 1).len() && same_key(
                                        #[trigger] rows0.skip(iii + 1)[j],
                                        z2,
                                        x2,
                                        y2,
                                    );
                                assert(key_lt(key_of(rows0[iii]), key_of(rows0[iii + 1 + j])));
                                assert(false);
                            }
                        }
                    }
                }
            },
        }
    }

    /// Builds an independent container holding the same layout, tiles,
    /// content rows, and metadata.
    #[verifier::loop_isolation(false)]
    pub fn duplicate(&self) -> (c: Container)
        requires
            self.wf(),
        ensures
            c.wf(),
            c.variant == self.variant,
            rows_equivalent(c.rows@, self.rows@),
            forall|z: u8, x: u32, y: u32| #[trigger] c.lookup(z, x, y) == self.lookup(z, x, y),
            c.images@.len() == self.images@.len(),
            forall|id: Seq<char>| #[trigger]
                images_contain(c.images@, id) == images_contain(self.images@, id),
            forall|n: Seq<char>| #[trigger] c.meta(n) == self.meta(n),
    {
        let mut rows: Vec<TileRow> = Vec::new();
        let mut i: usize = 0;
        while i < self.rows.len()
            invariant
                i <= self.rows@.len(),
                rows@.len() == i,
                forall|j: int|
                    0 <= j < i ==> key_of(#[trigger] rows@[j]) == key_of(self.rows@[j])
                        && rows@[j].data@ == self.rows@[j].data@ && opt_hash_view(rows@[j].hash)
                        == opt_hash_view(self.rows@[j].hash),
            decreases self.rows@.len() - i,
        {
            let row = &self.rows[i];
            let hash: Option<String> = match &row.hash {
                Some(h) => Some(h.clone()),
                None => None,
            };
            rows.push(
                TileRow { z: row.z, x: row.x, y: row.y, data: clone_bytes(row.data.as_slice()), hash },
            );
            i += 1;
        }
        let mut images: Vec<ImageRow> = Vec::new();
        let mut i: usize = 0;
        while i < self.images.len()
            invariant
                i <= self.images@.len(),
                images@.len() == i,
                forall|j: int|
                    0 <= j < i ==> (#[trigger] images@[j]).tile_id@ == self.images@[j].tile_id@
                        && images@[j].data@ == self.images@[j].data@,
            decreases self.images@.len() - i,
        {
            let img = &self.images[i];
            images.push(
                ImageRow { tile_id: img.tile_id.clone(), data: clone_bytes(img.data.as_slice()) },
            );
            i += 1;
        }
        let mut metadata: Vec<MetaRow> = Vec::new();
        let mut i: usize = 0;
        while i < self.metadata.len()
            invariant
                i <= self.metadata@.len(),
                metadata@.len() == i,
                forall|j: int|
                    0 <= j < i ==> (#[trigger] metadata@[j]).name@ == self.metadata@[j].name@
                        && metadata@[j].value@ == self.metadata@[j].value@,
            decreases self.metadata@.len() - i,
        {
            let row = &self.metadata[i];
            metadata.push(MetaRow { name: row.name.clone(), value: row.value.clone() });
            i += 1;
        }
        let c = Container { variant: self.variant, rows, images, metadata };
        proof {
            assert(c.wf()) by {
                assert(forall|a: int, b: int|
                    0 <= a < b < c.rows@.len() ==> key_lt(
                        key_of(#[trigger] c.rows@[a]),
                        key_of(#[trigger] c.rows@[b]),
                    ));
                assert forall|a: int| 0 <= a < c.rows@.len() implies row_wf(
                    #[trigger] c.rows@[a],
                    c.variant,
                ) by {
                    assert(row_wf(self.rows@[a], self.variant));
                }
                if c.variant matches MbtType::Normalized { .. } {
                    assert forall|a: int| 0 <= a < c.rows@.len() implies images_contain(
                        c.images@,
                        hash_hex((#[trigger] c.rows@[a]).data@),
                    ) by {
                        assert(images_contain(self.images@, hash_hex(self.rows@[a].data@)));
                        let k = choose|k: int|
                            0 <= k < self.images@.len() && (#[trigger] self.images@[k]).tile_id@
                                == hash_hex(self.rows@[a].data@);
                        assert((c.images@[k]).tile_id@ == hash_hex(c.rows@[a].data@));
                    }
                }
            }
            assert forall|z: u8, x: u32, y: u32| #[trigger] c.lookup(z, x, y) == self.lookup(
                z,
                x,
                y,
            ) by {
                lemma_equiv_lookup(c.rows@, self.rows@, z, x, y);
            }
            assert forall|id: Seq<char>| #[trigger]
                images_contain(c.images@, id) == images_contain(self.images@, id) by {
                if images_contain(c.images@, id) {
                    let k = choose|k: int|
                        0 <= k < c.images@.len() && (#[trigger] c.images@[k]).tile_id@ == id;
                    assert((self.images@[k]).tile_id@ == id);
                }
                if images_contain(self.images@, id) {
                    let k = choose|k: int|
                        0 <= k < self.images@.len() && (#[trigger] self.images@[k]).tile_id@ == id;
                    assert((c.images@[k]).tile_id@ == id);
                }
            }
            assert forall|n: Seq<char>| #[trigger] c.meta(n) == self.meta(n) by {
                lemma_meta_equiv(c.metadata@, self.metadata@, n);
            }
        }
        c
    }
}

/// Metadata tables equal in names and values row for row have one lookup.
proof fn lemma_meta_equiv(a: Seq<MetaRow>, b: Seq<MetaRow>, n: Seq<char>)
    requires
        a.len() == b.len(),
        forall|i: int|
            0 <= i < a.len() ==> (#[trigger] a[i]).name@ == b[i].name@ && a[i].value@
                == b[i].value@,
    ensures
        meta_lookup(a, n) == meta_lookup(b, n),
    decreases a.len(),
{
    if a.len() > 0 {
        assert(forall|i: int|
            0 <= i < a.drop_first().len() ==> a.drop_first()[i] == a[i + 1] && b.drop_first()[i]
                == b[i + 1]);
        lemma_meta_equiv(a.drop_first(), b.drop_first(), n);
    }
}

/// Compares two byte slices.
pub fn bytes_eq(a: &[u8], b: &[u8]) -> (r: bool)
    ensures
        r == (a@ == b@),
{
    if a.len() != b.len() {
        return false;
    }
    let mut i: usize = 0;
    while i < a.len()
        invariant
            a@.len() == b@.len(),
            i <= a@.len(),
            forall|j: int| 0 <= j < i ==> a@[j] == b@[j],
        decreases a@.len() - i,
    {
        if a[i] != b[i] {
            return false;
        }
        i += 1;
    }
    proof {
        assert(a@ =~= b@);
    }
    true
}

/// Copies a byte slice into a fresh vector.
pub fn clone_bytes(data: &[u8]) -> (r: Vec<u8>)
    ensures
        r@ == data@,
{
    let mut out: Vec<u8> = Vec::new();
    let mut i: usize = 0;
    while i < data.len()
        invariant
            i <= data@.len(),
            out@ == data@.take(i as int),
        decreases data@.len() - i,
    {
        out.push(data[i]);
        proof {
            assert(out@ =~= data@.take(i + 1));
        }
        i += 1;
    }
    proof {
        assert(data@.take(data@.len() as int) =~= data@);
    }
    out
}

} // verus!
