//! The schema variant model: the three physical layouts of a container,
//! the copy selector, and the duplicate-handling policy.
//!
//! Exactly one variant governs a container at a time.  `Flat` keeps one row
//! per coordinate with the bytes inline and no hash; `FlatWithHash` adds a
//! content hash to each row; `Normalized` splits the storage into an index
//! table (coordinate to content id) and a content table (content id to
//! bytes), which deduplicates identical tile bytes.  The `hash_view` flag of
//! `Normalized` only selects the read path, not the physical layout.

use vstd::prelude::*;

verus! {

/// Failure of schema detection.
#[derive(Clone, Copy, Debug, PartialEq, Eq, Structural)]
pub enum DetectError {
    /// No recognizable tile table is present.
    NoTileTable,
    /// Tables of more than one layout are present.
    MixedSchema,
}

/// The physical layout of a container.
#[derive(Clone, Copy, Debug, Hash, PartialEq, Eq, Structural)]
pub enum MbtType {
    /// One row per coordinate, bytes inline, no hash.
    Flat,
    /// One row per coordinate, bytes inline, content hash stored per row.
    FlatWithHash,
    /// Index table plus content table keyed by the content hash.
    /// `hash_view` selects whether reads go through the denormalized
    /// hash-bearing view.
    Normalized { hash_view: bool },
}

impl MbtType {
    /// A short lower-case name for the layout.
    pub fn as_str(self) -> (r: &'static str)
        ensures
            self == MbtType::Flat ==> r@ == "flat"@,
            self == MbtType::FlatWithHash ==> r@ == "flat-with-hash"@,
            (self matches MbtType::Normalized { .. }) ==> r@ == "normalized"@,
    {
        match self {
            MbtType::Flat => "flat",
            MbtType::FlatWithHash => "flat-with-hash",
            MbtType::Normalized { .. } => "normalized",
        }
    }
}

/// The layout as selected on a command line, without the read-path flag.
#[derive(Clone, Copy, Debug, Hash, PartialEq, Eq, Structural)]
pub enum MbtTypeCli {
    Flat,
    FlatWithHash,
    Normalized,
}

impl MbtTypeCli {
    /// The layout that the selector names; `Normalized` reads through the
    /// denormalized hash view.
    pub fn to_mbt_type(self) -> (r: MbtType)
        ensures
            self == MbtTypeCli::Flat ==> r == MbtType::Flat,
            self == MbtTypeCli::FlatWithHash ==> r == MbtType::FlatWithHash,
            self == MbtTypeCli::Normalized ==> r == (MbtType::Normalized { hash_view: true }),
    {
        match self {
            MbtTypeCli::Flat => MbtType::Flat,
            MbtTypeCli::FlatWithHash => MbtType::FlatWithHash,
            MbtTypeCli::Normalized => MbtType::Normalized { hash_view: true },
        }
    }

    /// A short kebab-case name for the selector.
    pub fn as_str(self) -> (r: &'static str)
        ensures
            self == MbtTypeCli::Flat ==> r@ == "flat"@,
            self == MbtTypeCli::FlatWithHash ==> r@ == "flat-with-hash"@,
            self == MbtTypeCli::Normalized ==> r@ == "normalized"@,
    {
        match self {
            MbtTypeCli::Flat => "flat",
            MbtTypeCli::FlatWithHash => "flat-with-hash",
            MbtTypeCli::Normalized => "normalized",
        }
    }
}

/// What a copy operation transfers.
#[derive(Clone, Copy, Debug, Hash, PartialEq, Eq, Structural)]
pub enum CopyType {
    /// Both the tile rows and the metadata rows.
    All,
    /// Only the metadata rows.
    Metadata,
    /// Only the tile rows.
    Tiles,
}

impl Default for CopyType {
    fn default() -> (r: Self)
        ensures
            r == CopyType::All,
    {
        CopyType::All
    }
}

impl CopyType {
    /// Whether this selector transfers tile rows.
    pub fn copy_tiles(self) -> (r: bool)
        ensures
            r == (self == CopyType::All || self == CopyType::Tiles),
    {
        matches!(self, Self::All | Self::Tiles)
    }

    /// Whether this selector transfers metadata rows.
    pub fn copy_metadata(self) -> (r: bool)
        ensures
            r == (self == CopyType::All || self == CopyType::Metadata),
    {
        matches!(self, Self::All | Self::Metadata)
    }

    /// A short lower-case name for the selector.
    pub fn as_str(self) -> (r: &'static str)
        ensures
            self == CopyType::All ==> r@ == "all"@,
            self == CopyType::Metadata ==> r@ == "metadata"@,
            self == CopyType::Tiles ==> r@ == "tiles"@,
    {
        match self {
            CopyType::All => "all",
            CopyType::Metadata => "metadata",
            CopyType::Tiles => "tiles",
        }
    }
}

/// Resolution policy when a write collides with an existing coordinate.
#[derive(Clone, Copy, Debug, Hash, PartialEq, Eq, Structural)]
pub enum CopyDuplicateMode {
    /// The existing row wins; the new write is silently dropped.
    Ignore,
    /// The new write replaces the existing row.
    Override,
    /// The whole transaction fails and rolls back on the first collision.
    Abort,
}

impl CopyDuplicateMode {
    /// The SQL conflict clause that implements this policy.
    pub fn to_sql(self) -> (r: &'static str)
        ensures
            self == CopyDuplicateMode::Ignore ==> r@ == "OR IGNORE"@,
            self == CopyDuplicateMode::Override ==> r@ == "OR REPLACE"@,
            self == CopyDuplicateMode::Abort ==> r@ == "OR ABORT"@,
    {
        match self {
            CopyDuplicateMode::Ignore => "OR IGNORE",
            CopyDuplicateMode::Override => "OR REPLACE",
            CopyDuplicateMode::Abort => "OR ABORT",
        }
    }

    /// A short lower-case name for the policy.
    pub fn as_str(self) -> (r: &'static str)
        ensures
            self == CopyDuplicateMode::Ignore ==> r@ == "ignore"@,
            self == CopyDuplicateMode::Override ==> r@ == "override"@,
            self == CopyDuplicateMode::Abort ==> r@ == "abort"@,
    {
        match self {
            CopyDuplicateMode::Ignore => "ignore",
            CopyDuplicateMode::Override => "override",
            CopyDuplicateMode::Abort => "abort",
        }
    }
}

/// Which tile tables a container file holds, as found by inspecting the
/// table presence of its schema.
#[derive(Clone, Copy, Debug, PartialEq, Eq, Structural)]
pub struct SchemaProbe {
    /// A flat `tiles` table with inline bytes is present.
    pub has_flat_table: bool,
    /// A flat table with a per-row content hash is present.
    pub has_flat_with_hash_table: bool,
    /// The index and content tables of the normalized layout are present.
    pub has_normalized_tables: bool,
    /// The denormalized hash-bearing view over the normalized tables is
    /// present.
    pub has_hash_view: bool,
}

/// Determines the layout that governs a container from the presence of its
/// tables.
///
/// Fails with [`DetectError::NoTileTable`] when no recognizable tile table
/// exists, and with [`DetectError::MixedSchema`] when the tables of more
/// than one layout are present at once.
pub fn detect_type(probe: SchemaProbe) -> (r: Result<MbtType, DetectError>)
    ensures
        r == detect_type_spec(probe),
{
    let layouts: u8 = (if probe.has_flat_table { 1u8 } else { 0u8 })
        + (if probe.has_flat_with_hash_table { 1u8 } else { 0u8 })
        + (if probe.has_normalized_tables { 1u8 } else { 0u8 });
    if layouts == 0 {
        Err(DetectError::NoTileTable)
    } else if layouts > 1 {
        Err(DetectError::MixedSchema)
    } else if probe.has_flat_table {
        Ok(MbtType::Flat)
    } else if probe.has_flat_with_hash_table {
        Ok(MbtType::FlatWithHash)
    } else {
        Ok(MbtType::Normalized { hash_view: probe.has_hash_view })
    }
}

/// What [`detect_type`] returns for each probe: the single present layout,
/// or the error that names why no single layout governs the container.
pub open spec fn detect_type_spec(probe: SchemaProbe) -> Result<MbtType, DetectError> {
    let flat = probe.has_flat_table;
    let fwh = probe.has_flat_with_hash_table;
    let norm = probe.has_normalized_tables;
    if !flat && !fwh && !norm {
        Err(DetectError::NoTileTable)
    } else if (flat && fwh) || (flat && norm) || (fwh && norm) {
        Err(DetectError::MixedSchema)
    } else if flat {
        Ok(MbtType::Flat)
    } else if fwh {
        Ok(MbtType::FlatWithHash)
    } else {
        Ok(MbtType::Normalized { hash_view: probe.has_hash_view })
    }
}

} // verus!
