//! The container file reference and the SQL statement pairs of the three
//! layouts.
//!
//! An [`Mbtiles`] value names a container file without opening it: the
//! full path and the display name derived from the path's stem.  The
//! statement functions are the single place that knows the physical SQL
//! differences of the layouts; everything above them is variant-agnostic.

use vstd::prelude::*;
use vstd::string::StrSliceExecFns;
use vstd::string::StringExecFns;
use crate::schema::CopyDuplicateMode;
use crate::schema::MbtType;

verus! {

/// The greatest index at which `c` occurs in `s`, or `-1` where it does
/// not occur.
pub open spec fn last_pos(s: Seq<char>, c: char) -> int
    decreases s.len(),
{
    if s.len() == 0 {
        -1
    } else if s.last() == c {
        s.len() - 1
    } else {
        last_pos(s.drop_last(), c)
    }
}

/// The part of a path after its last separator: the whole path where no
/// separator occurs.
pub open spec fn file_name_of(p: Seq<char>) -> Seq<char> {
    p.skip(last_pos(p, '/') + 1)
}

/// The file name with the part from its last dot removed; a name whose
/// only dot leads it, and a name without a dot, stay whole.
pub open spec fn file_stem_of(p: Seq<char>) -> Seq<char> {
    let name = file_name_of(p);
    let d = last_pos(name, '.');
    if d <= 0 {
        name
    } else {
        name.take(d)
    }
}

proof fn lemma_last_pos_at(s: Seq<char>, c: char, i: int)
    requires
        0 <= i < s.len(),
        s[i] == c,
        forall|j: int| i < j < s.len() ==> s[j] != c,
    ensures
        last_pos(s, c) == i,
    decreases s.len(),
{
    if i < s.len() - 1 {
        assert(forall|j: int| i < j < s.drop_last().len() ==> s.drop_last()[j] != c);
        lemma_last_pos_at(s.drop_last(), c, i);
    }
}

proof fn lemma_last_pos_absent(s: Seq<char>, c: char)
    requires
        forall|j: int| 0 <= j < s.len() ==> s[j] != c,
    ensures
        last_pos(s, c) == -1,
    decreases s.len(),
{
    if s.len() > 0 {
        assert(forall|j: int| 0 <= j < s.drop_last().len() ==> s.drop_last()[j] != c);
        lemma_last_pos_absent(s.drop_last(), c);
    }
}

/// The index of the last occurrence of `c` in `s`, if any.
fn last_char_pos(s: &str, c: char) -> (r: Option<usize>)
    ensures
        match r {
            Some(i) => i < s@.len() && last_pos(s@, c) == i,
            None => last_pos(s@, c) == -1,
        },
{
    let mut i = s.unicode_len();
    while i > 0
        invariant
            i <= s@.len(),
            forall|j: int| i <= j < s@.len() ==> s@[j] != c,
        decreases i,
    {
        i = i - 1;
        if s.get_char(i) == c {
            proof {
                lemma_last_pos_at(s@, c, i as int);
            }
            return Some(i);
        }
    }
    proof {
        lemma_last_pos_absent(s@, c);
    }
    None
}

/// A reference to a container file: the path itself, and the display
/// name taken from the path's stem — `unknown` where the path yields no
/// stem.
#[derive(Clone, Debug)]
pub struct Mbtiles {
    pub filepath: String,
    pub filename: String,
}

impl Mbtiles {
    /// Creates a reference to a container file.
    ///
    /// This does not open the file, nor check that it exists.
    pub fn new(filepath: &str) -> (m: Mbtiles)
        ensures
            m.filepath@ == filepath@,
            m.filename@ == (if file_stem_of(filepath@).len() == 0 {
                "unknown"@
            } else {
                file_stem_of(filepath@)
            }),
    {
        let len = filepath.unicode_len();
        let start = match last_char_pos(filepath, '/') {
            Some(i) => i + 1,
            None => 0,
        };
        let name = filepath.substring_char(start, len);
        proof {
            assert(name@ =~= file_name_of(filepath@));
        }
        let stem = match last_char_pos(name, '.') {
            Some(d) if d > 0 => name.substring_char(0, d),
            _ => name,
        };
        proof {
            assert(stem@ =~= file_stem_of(filepath@));
        }
        if stem.unicode_len() == 0 {
            Mbtiles { filepath: String::from_str(filepath), filename: String::from_str("unknown") }
        } else {
            Mbtiles { filepath: String::from_str(filepath), filename: String::from_str(stem) }
        }
    }

    /// The path of the container file.
    pub fn filepath(&self) -> (r: &str)
        ensures
            r@ == self.filepath@,
    {
        self.filepath.as_str()
    }

    /// The display name of the container file.
    pub fn filename(&self) -> (r: &str)
        ensures
            r@ == self.filename@,
    {
        self.filename.as_str()
    }

    /// The read statement for a tile with its hash, per layout.
    ///
    /// `Flat` stores no hash and the statement returns an explicit null
    /// hash; `FlatWithHash` and the hash view of `Normalized` read the
    /// denormalized hash-bearing view; `Normalized` without the view
    /// joins the index and content tables and uses the content id as the
    /// hash.  All four paths return the same bytes-and-hash semantics for
    /// the same logical content.
    pub fn get_tile_and_hash_sql(mbt_type: MbtType) -> (r: &'static str)
        ensures
            r@ == tile_and_hash_sql_spec(mbt_type),
    {
        match mbt_type {
            MbtType::Flat => {
                "SELECT tile_data, NULL AS tile_hash FROM tiles WHERE zoom_level = ? AND tile_column = ? AND tile_row = ?"
            },
            MbtType::FlatWithHash | MbtType::Normalized { hash_view: true } => {
                "SELECT tile_data, tile_hash FROM tiles_with_hash WHERE zoom_level = ? AND tile_column = ? AND tile_row = ?"
            },
            MbtType::Normalized { hash_view: false } => {
                "SELECT images.tile_data, images.tile_id AS tile_hash FROM map JOIN images ON map.tile_id = images.tile_id WHERE map.zoom_level = ? AND map.tile_column = ? AND map.tile_row = ?"
            },
        }
    }

    /// The write statement pair for a batch insert, per layout and
    /// duplicate policy.
    ///
    /// The first statement writes the tile row (with an inline hash
    /// under `FlatWithHash`, and the content id under `Normalized`); the
    /// second, present under `Normalized` only, upserts the content
    /// table first — idempotent, "insert, ignore if present", whatever
    /// the policy, so identical bytes never occupy two content rows.
    pub fn get_insert_sql(src_type: MbtType, on_duplicate: CopyDuplicateMode) -> (r: (
        String,
        Option<String>,
    ))
        ensures
            r.0@ == insert_tile_sql_spec(src_type, on_duplicate),
            match r.1 {
                Some(s) => (src_type matches MbtType::Normalized { .. }) && s@
                    == insert_content_sql_spec(),
                None => !(src_type matches MbtType::Normalized { .. }),
            },
    {
        let sql1: &'static str = match (src_type, on_duplicate) {
            (MbtType::Flat, CopyDuplicateMode::Ignore) => {
                "INSERT OR IGNORE INTO tiles (zoom_level, tile_column, tile_row, tile_data) VALUES (?1, ?2, ?3, ?4);"
            },
            (MbtType::Flat, CopyDuplicateMode::Override) => {
                "INSERT OR REPLACE INTO tiles (zoom_level, tile_column, tile_row, tile_data) VALUES (?1, ?2, ?3, ?4);"
            },
            (MbtType::Flat, CopyDuplicateMode::Abort) => {
                "INSERT OR ABORT INTO tiles (zoom_level, tile_column, tile_row, tile_data) VALUES (?1, ?2, ?3, ?4);"
            },
            (MbtType::FlatWithHash, CopyDuplicateMode::Ignore) => {
                "INSERT OR IGNORE INTO tiles_with_hash (zoom_level, tile_column, tile_row, tile_data, tile_hash) VALUES (?1, ?2, ?3, ?4, md5_hex(?4));"
            },
            (MbtType::FlatWithHash, CopyDuplicateMode::Override) => {
                "INSERT OR REPLACE INTO tiles_with_hash (zoom_level, tile_column, tile_row, tile_data, tile_hash) VALUES (?1, ?2, ?3, ?4, md5_hex(?4));"
            },
            (MbtType::FlatWithHash, CopyDuplicateMode::Abort) => {
                "INSERT OR ABORT INTO tiles_with_hash (zoom_level, tile_column, tile_row, tile_data, tile_hash) VALUES (?1, ?2, ?3, ?4, md5_hex(?4));"
            },
            (MbtType::Normalized { .. }, CopyDuplicateMode::Ignore) => {
                "INSERT OR IGNORE INTO map (zoom_level, tile_column, tile_row, tile_id) VALUES (?1, ?2, ?3, md5_hex(?4));"
            },
            (MbtType::Normalized { .. }, CopyDuplicateMode::Override) => {
                "INSERT OR REPLACE INTO map (zoom_level, tile_column, tile_row, tile_id) VALUES (?1, ?2, ?3, md5_hex(?4));"
            },
            (MbtType::Normalized { .. }, CopyDuplicateMode::Abort) => {
                "INSERT OR ABORT INTO map (zoom_level, tile_column, tile_row, tile_id) VALUES (?1, ?2, ?3, md5_hex(?4));"
            },
        };
        let sql2: Option<String> = match src_type {
            MbtType::Normalized { .. } => Some(
                String::from_str(
                    "INSERT OR IGNORE INTO images (tile_id, tile_data) VALUES (md5_hex(?1), ?1);",
                ),
            ),
            _ => None,
        };
        (String::from_str(sql1), sql2)
    }
}

/// The text of the hash-bearing read statement, per layout.
pub open spec fn tile_and_hash_sql_spec(mbt_type: MbtType) -> Seq<char> {
    match mbt_type {
        MbtType::Flat => (
        "SELECT tile_data, NULL AS tile_hash FROM tiles WHERE zoom_level = ? AND tile_column = ? AND tile_row = ?")@,
        MbtType::FlatWithHash => (
        "SELECT tile_data, tile_hash FROM tiles_with_hash WHERE zoom_level = ? AND tile_column = ? AND tile_row = ?")@,
        MbtType::Normalized { hash_view } => if hash_view {
            (
            "SELECT tile_data, tile_hash FROM tiles_with_hash WHERE zoom_level = ? AND tile_column = ? AND tile_row = ?")@
        } else {
            (
            "SELECT images.tile_data, images.tile_id AS tile_hash FROM map JOIN images ON map.tile_id = images.tile_id WHERE map.zoom_level = ? AND map.tile_column = ? AND map.tile_row = ?")@
        },
    }
}

/// The text of the tile-row write statement, per layout and policy.
pub open spec fn insert_tile_sql_spec(src_type: MbtType, on_duplicate: CopyDuplicateMode) -> Seq<
    char,
> {
    match (src_type, on_duplicate) {
        (MbtType::Flat, CopyDuplicateMode::Ignore) => (
        "INSERT OR IGNORE INTO tiles (zoom_level, tile_column, tile_row, tile_data) VALUES (?1, ?2, ?3, ?4);")@,
        (MbtType::Flat, CopyDuplicateMode::Override) => (
        "INSERT OR REPLACE INTO tiles (zoom_level, tile_column, tile_row, tile_data) VALUES (?1, ?2, ?3, ?4);")@,
        (MbtType::Flat, CopyDuplicateMode::Abort) => (
        "INSERT OR ABORT INTO tiles (zoom_level, tile_column, tile_row, tile_data) VALUES (?1, ?2, ?3, ?4);")@,
        (MbtType::FlatWithHash, CopyDuplicateMode::Ignore) => (
        "INSERT OR IGNORE INTO tiles_with_hash (zoom_level, tile_column, tile_row, tile_data, tile_hash) VALUES (?1, ?2, ?3, ?4, md5_hex(?4));")@,
        (MbtType::FlatWithHash, CopyDuplicateMode::Override) => (
        "INSERT OR REPLACE INTO tiles_with_hash (zoom_level, tile_column, tile_row, tile_data, tile_hash) VALUES (?1, ?2, ?3, ?4, md5_hex(?4));")@,
        (MbtType::FlatWithHash, CopyDuplicateMode::Abort) => (
        "INSERT OR ABORT INTO tiles_with_hash (zoom_level, tile_column, tile_row, tile_data, tile_hash) VALUES (?1, ?2, ?3, ?4, md5_hex(?4));")@,
        (MbtType::Normalized { .. }, CopyDuplicateMode::Ignore) => (
        "INSERT OR IGNORE INTO map (zoom_level, tile_column, tile_row, tile_id) VALUES (?1, ?2, ?3, md5_hex(?4));")@,
        (MbtType::Normalized { .. }, CopyDuplicateMode::Override) => (
        "INSERT OR REPLACE INTO map (zoom_level, tile_column, tile_row, tile_id) VALUES (?1, ?2, ?3, md5_hex(?4));")@,
        (MbtType::Normalized { .. }, CopyDuplicateMode::Abort) => (
        "INSERT OR ABORT INTO map (zoom_level, tile_column, tile_row, tile_id) VALUES (?1, ?2, ?3, md5_hex(?4));")@,
    }
}

/// The text of the content-table upsert of the normalized layout.
pub open spec fn insert_content_sql_spec() -> Seq<char> {
    ("INSERT OR IGNORE INTO images (tile_id, tile_data) VALUES (md5_hex(?1), ?1);")@
}

} // verus!
