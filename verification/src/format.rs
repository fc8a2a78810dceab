//! The eight record lumps that follow a map marker, and the failures of
//! reading them.

use vstd::prelude::*;
use vstd::string::StringExecFns;

verus! {

/// One of the record lumps of a map. Each is found at a fixed distance after
/// the map's marker lump, never by its name.
#[derive(Debug, Clone, Copy, PartialEq, Eq, Structural)]
pub enum LumpKind {
    Things,
    Linedefs,
    Sidedefs,
    Vertices,
    Segs,
    Subsectors,
    Nodes,
    Sectors,
}

/// Why a map or its BSP index could not be read.
#[derive(Debug, Clone, Copy, PartialEq, Eq, Structural)]
pub enum FormatError {
    /// No lump carries the map's name.
    NotFound,
    /// The container ends before the lump that should hold these records.
    MissingLump(LumpKind),
    /// The lump's length is not a whole number of records.
    Truncated(LumpKind),
    /// A reference leads outside its array, or the node graph has a cycle.
    Corrupt,
}

impl LumpKind {
    /// How many lumps after the marker this lump stands.
    pub open spec fn spec_offset(self) -> nat {
        match self {
            LumpKind::Things => 1,
            LumpKind::Linedefs => 2,
            LumpKind::Sidedefs => 3,
            LumpKind::Vertices => 4,
            LumpKind::Segs => 5,
            LumpKind::Subsectors => 6,
            LumpKind::Nodes => 7,
            LumpKind::Sectors => 8,
        }
    }

    /// The length in bytes of one record of this lump.
    pub open spec fn spec_record_len(self) -> nat {
        match self {
            LumpKind::Things => 10,
            LumpKind::Linedefs => 14,
            LumpKind::Sidedefs => 30,
            LumpKind::Vertices => 4,
            LumpKind::Segs => 12,
            LumpKind::Subsectors => 4,
            LumpKind::Nodes => 28,
            LumpKind::Sectors => 26,
        }
    }

    /// The name the lump conventionally carries, used in messages only.
    pub open spec fn spec_label(self) -> Seq<char> {
        match self {
            LumpKind::Things => "THINGS"@,
            LumpKind::Linedefs => "LINEDEFS"@,
            LumpKind::Sidedefs => "SIDEDEFS"@,
            LumpKind::Vertices => "VERTEXES"@,
            LumpKind::Segs => "SEGS"@,
            LumpKind::Subsectors => "SSECTORS"@,
            LumpKind::Nodes => "NODES"@,
            LumpKind::Sectors => "SECTORS"@,
        }
    }

    /// How many lumps after the marker this lump stands.
    pub fn offset(self) -> (n: usize)
        ensures
            n == self.spec_offset(),
    {
        match self {
            LumpKind::Things => 1,
            LumpKind::Linedefs => 2,
            LumpKind::Sidedefs => 3,
            LumpKind::Vertices => 4,
            LumpKind::Segs => 5,
            LumpKind::Subsectors => 6,
            LumpKind::Nodes => 7,
            LumpKind::Sectors => 8,
        }
    }

    /// The length in bytes of one record of this lump.
    pub fn record_len(self) -> (n: usize)
        ensures
            n == self.spec_record_len(),
    {
        match self {
            LumpKind::Things => 10,
            LumpKind::Linedefs => 14,
            LumpKind::Sidedefs => 30,
            LumpKind::Vertices => 4,
            LumpKind::Segs => 12,
            LumpKind::Subsectors => 4,
            LumpKind::Nodes => 28,
            LumpKind::Sectors => 26,
        }
    }

    /// The name the lump conventionally carries.
    pub fn label(self) -> (s: &'static str)
        ensures
            s@ == self.spec_label(),
    {
        match self {
            LumpKind::Things => "THINGS",
            LumpKind::Linedefs => "LINEDEFS",
            LumpKind::Sidedefs => "SIDEDEFS",
            LumpKind::Vertices => "VERTEXES",
            LumpKind::Segs => "SEGS",
            LumpKind::Subsectors => "SSECTORS",
            LumpKind::Nodes => "NODES",
            LumpKind::Sectors => "SECTORS",
        }
    }
}

impl FormatError {
    /// The text of `message`: which stage of the load failed, and on which
    /// lump.
    pub open spec fn spec_message(self) -> Seq<char> {
        match self {
            FormatError::NotFound => "map marker not found"@,
            FormatError::MissingLump(kind) => "missing lump: "@ + kind.spec_label(),
            FormatError::Truncated(kind) => "truncated lump: "@ + kind.spec_label(),
            FormatError::Corrupt => "corrupt reference"@,
        }
    }

    /// A one-line description that names the stage that failed.
    pub fn message(&self) -> (text: String)
        ensures
            text@ == self.spec_message(),
    {
        match self {
            FormatError::NotFound => "map marker not found".to_owned(),
            FormatError::MissingLump(kind) => "missing lump: ".to_owned().concat(kind.label()),
            FormatError::Truncated(kind) => "truncated lump: ".to_owned().concat(kind.label()),
            FormatError::Corrupt => "corrupt reference".to_owned(),
        }
    }
}

/// The record lump of the given kind is a whole number of records long.
pub open spec fn whole_records(data: Seq<u8>, kind: LumpKind) -> bool {
    data.len() % kind.spec_record_len() == 0
}

/// How many records of the given kind the lump holds.
pub open spec fn record_count(data: Seq<u8>, kind: LumpKind) -> nat {
    data.len() / kind.spec_record_len()
}

/// Counts the records of a lump, refusing one whose length is not a multiple
/// of the record length.
pub fn count_records(data: &[u8], kind: LumpKind) -> (r: Result<usize, FormatError>)
    ensures
        match r {
            Ok(n) => whole_records(data@, kind) && n == record_count(data@, kind),
            Err(e) => !whole_records(data@, kind) && e == FormatError::Truncated(kind),
        },
{
    let len: usize = data.len();
    let size: usize = kind.record_len();
    if len % size != 0 {
        Err(FormatError::Truncated(kind))
    } else {
        Ok(len / size)
    }
}

} // verus!
