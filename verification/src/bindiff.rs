//! Binary deltas between tile contents, and the gzip wrapping of the
//! compressed delta kind.
//!
//! The delta subsystem is the `bsdiff` crate; the gzip coding is the
//! `flate2` crate.  Both compute pure functions of their inputs, named
//! here so that the patch engine's contracts can speak of them.

use vstd::prelude::*;
use std::io::Read;
use std::io::Write;

verus! {

/// The kind of delta a patch carries per tile.
#[derive(Clone, Copy, Debug, Hash, PartialEq, Eq, Structural)]
pub enum PatchType {
    /// Each changed tile carries its full new bytes.
    Whole,
    /// Each changed tile carries a gzip-compressed binary delta against
    /// its base bytes.
    BinDiffGz,
    /// Each changed tile carries a raw binary delta against its base
    /// bytes.
    BinDiffRaw,
}

impl PatchType {
    /// A short kebab-case name for the delta kind.
    pub fn as_str(self) -> (r: &'static str)
        ensures
            self == PatchType::Whole ==> r@ == "whole"@,
            self == PatchType::BinDiffGz ==> r@ == "bin-diff-gz"@,
            self == PatchType::BinDiffRaw ==> r@ == "bin-diff-raw"@,
    {
        match self {
            PatchType::Whole => "whole",
            PatchType::BinDiffGz => "bin-diff-gz",
            PatchType::BinDiffRaw => "bin-diff-raw",
        }
    }
}

/// The binary delta that `bsdiff::diff` derives from a base and a target.
pub uninterp spec fn bsdiff_of(base: Seq<u8>, target: Seq<u8>) -> Seq<u8>;

/// The bytes that `bsdiff::patch` rebuilds from a base and a delta, when
/// it succeeds.
pub uninterp spec fn bspatch_of(base: Seq<u8>, patch: Seq<u8>) -> Seq<u8>;

/// The gzip coding of a byte sequence, at the default compression level
/// with an empty header.
pub uninterp spec fn gzip_of(data: Seq<u8>) -> Seq<u8>;

/// The bytes that gzip decoding rebuilds, when it succeeds.
pub uninterp spec fn gunzip_of(data: Seq<u8>) -> Seq<u8>;

/// Relies on `bsdiff::diff`: the delta is a function of the two inputs
/// alone, and `bsdiff::patch` applied to the base and the delta rebuilds
/// the target.
#[verifier::external_body]
pub(crate) fn bsdiff_diff(base: &[u8], target: &[u8]) -> (r: Option<Vec<u8>>)
    ensures
        r matches Some(p) ==> p@ == bsdiff_of(base@, target@) && bspatch_of(base@, p@) == target@,
{
    let mut patch: Vec<u8> = Vec::new();
    match bsdiff::diff(base, target, &mut patch) {
        Ok(()) => Some(patch),
        Err(_) => None,
    }
}

/// Relies on `bsdiff::patch`: on success the rebuilt bytes are a function
/// of the base bytes and the delta alone; a malformed delta is an error,
/// never a panic.
#[verifier::external_body]
pub(crate) fn bsdiff_apply(base: &[u8], patch: &[u8]) -> (r: Option<Vec<u8>>)
    ensures
        r matches Some(n) ==> n@ == bspatch_of(base@, patch@),
{
    let mut target: Vec<u8> = Vec::new();
    let mut reader: &[u8] = patch;
    match bsdiff::patch(base, &mut reader, &mut target) {
        Ok(()) => Some(target),
        Err(_) => None,
    }
}

/// Relies on `flate2::write::GzEncoder`: with the default level and the
/// default header (zero mtime, fixed platform byte) the coding is a
/// function of the input alone, and gzip decoding rebuilds the input.
#[verifier::external_body]
pub(crate) fn gzip_compress(data: &[u8]) -> (r: Option<Vec<u8>>)
    ensures
        r matches Some(g) ==> g@ == gzip_of(data@) && gunzip_of(g@) == data@,
{
    let mut enc = flate2::write::GzEncoder::new(Vec::new(), flate2::Compression::default());
    if enc.write_all(data).is_err() {
        return None;
    }
    enc.finish().ok()
}

/// Relies on `flate2::read::GzDecoder`: on success the decoded bytes are
/// a function of the input alone; corrupt input is an error, never a
/// panic.
#[verifier::external_body]
pub(crate) fn gzip_decompress(data: &[u8]) -> (r: Option<Vec<u8>>)
    ensures
        r matches Some(o) ==> o@ == gunzip_of(data@),
{
    let mut out: Vec<u8> = Vec::new();
    let mut dec = flate2::read::GzDecoder::new(data);
    match dec.read_to_end(&mut out) {
        Ok(_) => Some(out),
        Err(_) => None,
    }
}

} // verus!
