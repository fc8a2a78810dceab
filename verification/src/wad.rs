//! The WAD container: a twelve-byte header, a directory of sixteen-byte
//! entries, and the lumps the entries point at.
//!
//! The loader works on a stream that has been read into memory in full. A
//! field or lump that would lie beyond the last byte is the in-memory form of
//! a read or seek running past the end of the stream, and is reported as
//! [`WadError::Io`].

use crate::bytes::field_name;
use crate::bytes::le_byte;
use crate::bytes::lemma_le_bytes;
use crate::bytes::lemma_le_value;
use crate::bytes::le_bytes_of;
use crate::bytes::name_from_field;
use crate::bytes::push_le_u32;
use crate::bytes::read_u32_at;
use crate::bytes::u32_le;
use vstd::prelude::*;
use vstd::slice::slice_subrange;
use vstd::slice::slice_to_vec;
use vstd::string::StringExecFns;

verus! {

/// The part of a container that was being read when the stream ended.
#[derive(Debug, Clone, Copy, PartialEq, Eq, Structural)]
pub enum ReadStage {
    /// The four bytes of the signature.
    Signature,
    /// The lump count and the directory offset.
    Header,
    /// The directory.
    Directory,
    /// The bytes of a lump.
    Lump,
}

/// Why a container could not be loaded.
#[derive(Debug, Clone, Copy, PartialEq, Eq, Structural)]
pub enum WadError {
    /// The first four bytes are neither `IWAD` nor `PWAD`.
    InvalidSignature,
    /// A read or seek ran past the end of the stream.
    Io(ReadStage),
    /// A lump name could not be represented. The loader never reports this:
    /// names are read leniently.
    InvalidLumpName,
}

/// One named block of bytes.
pub struct WadLump {
    pub name: String,
    pub data: Vec<u8>,
}

/// A lump as a value: its name as text and its bytes.
pub struct LumpSpec {
    pub name: Seq<char>,
    pub data: Seq<u8>,
}

impl View for WadLump {
    type V = LumpSpec;

    open spec fn view(&self) -> LumpSpec {
        LumpSpec { name: self.name@, data: self.data@ }
    }
}

/// The lumps of a container, in directory order.
pub struct WadFile {
    pub lumps: Vec<WadLump>,
}

impl View for WadFile {
    type V = Seq<LumpSpec>;

    open spec fn view(&self) -> Seq<LumpSpec> {
        Seq::new(self.lumps@.len(), |i: int| self.lumps@[i]@)
    }
}

/// One directory entry as stored: where the lump starts, how long it is, and
/// its eight-byte name field.
#[derive(Debug, Clone, Copy)]
pub struct DirEntry {
    pub offset: u32,
    pub size: u32,
    pub name: [u8; 8],
}

/// A directory entry as a value.
pub struct EntrySpec {
    pub offset: u32,
    pub size: u32,
    pub name: Seq<u8>,
}

impl View for DirEntry {
    type V = EntrySpec;

    open spec fn view(&self) -> EntrySpec {
        EntrySpec { offset: self.offset, size: self.size, name: self.name@ }
    }
}

/// The entries of a directory as values.
pub open spec fn entries_view(entries: Seq<DirEntry>) -> Seq<EntrySpec> {
    Seq::new(entries.len(), |i: int| entries[i]@)
}

/// The length of the header: the signature, the lump count and the directory
/// offset, four bytes each.
pub const HEADER_LEN: usize = 12;

/// The length of a directory entry: offset, size and an eight-byte name.
pub const ENTRY_LEN: usize = 16;

/// The stream starts with one of the two recognised tags, `IWAD` or `PWAD`.
pub open spec fn has_signature(bytes: Seq<u8>) -> bool {
    &&& bytes.len() >= 4
    &&& bytes[0] == 73 || bytes[0] == 80
    &&& bytes[1] == 87
    &&& bytes[2] == 65
    &&& bytes[3] == 68
}

/// The number of lumps the header announces.
pub open spec fn lump_count(bytes: Seq<u8>) -> int {
    u32_le(bytes, 4) as int
}

/// Where the header says the directory starts.
pub open spec fn directory_offset(bytes: Seq<u8>) -> int {
    u32_le(bytes, 8) as int
}

/// Where the directory ends, if it holds what the header announces.
pub open spec fn directory_end(bytes: Seq<u8>) -> int {
    directory_offset(bytes) + 16 * lump_count(bytes)
}

/// The `i`-th directory entry of the stream.
pub open spec fn entry_at(bytes: Seq<u8>, i: int) -> EntrySpec {
    let at = directory_offset(bytes) + 16 * i;
    EntrySpec {
        offset: u32_le(bytes, at),
        size: u32_le(bytes, at + 4),
        name: bytes.subrange(at + 8, at + 16),
    }
}

/// The directory of the stream, or the reason it cannot be read: a stream too
/// short for the tag, an unknown tag, a stream too short for the header, or a
/// directory that does not fit in the stream, in that order.
pub open spec fn directory_of(bytes: Seq<u8>) -> Result<Seq<EntrySpec>, WadError> {
    if bytes.len() < 4 {
        Err(WadError::Io(ReadStage::Signature))
    } else if !has_signature(bytes) {
        Err(WadError::InvalidSignature)
    } else if bytes.len() < 12 {
        Err(WadError::Io(ReadStage::Header))
    } else if directory_end(bytes) > bytes.len() {
        Err(WadError::Io(ReadStage::Directory))
    } else {
        Ok(Seq::new(lump_count(bytes) as nat, |i: int| entry_at(bytes, i)))
    }
}

/// The lump that `entry` describes lies within the stream.
pub open spec fn entry_in_bounds(bytes: Seq<u8>, entry: EntrySpec) -> bool {
    entry.offset + entry.size <= bytes.len()
}

/// The lump that `entry` describes: its decoded name and exactly the bytes
/// between its boundaries.
pub open spec fn lump_of(bytes: Seq<u8>, entry: EntrySpec) -> LumpSpec {
    LumpSpec {
        name: field_name(entry.name),
        data: bytes.subrange(entry.offset as int, entry.offset + entry.size),
    }
}

/// What loading the stream yields: the lumps in directory order, or the
/// reason there are none. A single lump out of bounds fails the whole load.
pub open spec fn container_of(bytes: Seq<u8>) -> Result<Seq<LumpSpec>, WadError> {
    match directory_of(bytes) {
        Err(e) => Err(e),
        Ok(dir) => if forall|i: int| 0 <= i < dir.len() ==> entry_in_bounds(bytes, #[trigger] dir[i]) {
            Ok(Seq::new(dir.len(), |i: int| lump_of(bytes, dir[i])))
        } else {
            Err(WadError::Io(ReadStage::Lump))
        },
    }
}

/// `i` is the position of the first lump called `name`.
pub open spec fn is_first_named(lumps: Seq<LumpSpec>, name: Seq<char>, i: int) -> bool {
    &&& 0 <= i < lumps.len()
    &&& lumps[i].name == name
    &&& forall|j: int| 0 <= j < i ==> lumps[j].name != name
}

/// The position of the first lump called `name`, if any lump is. Names are
/// compared exactly; a later lump of the same name is shadowed.
pub open spec fn first_named(lumps: Seq<LumpSpec>, name: Seq<char>) -> Option<int> {
    if exists|i: int| is_first_named(lumps, name, i) {
        Some(choose|i: int| is_first_named(lumps, name, i))
    } else {
        None
    }
}

/// A name has at most one first position.
pub proof fn lemma_first_named_unique(lumps: Seq<LumpSpec>, name: Seq<char>, i: int)
    requires
        is_first_named(lumps, name, i),
    ensures
        first_named(lumps, name) == Some(i),
{
    let c = choose|k: int| is_first_named(lumps, name, k);
    assert(is_first_named(lumps, name, c));
    if c < i {
        assert(lumps[c].name != name);
    } else if i < c {
        assert(lumps[i].name != name);
    }
}

/// Byte `j` of the sixteen bytes an entry is stored as.
pub open spec fn entry_byte(entry: EntrySpec, j: int) -> u8 {
    if j < 4 {
        le_byte(entry.offset, j)
    } else if j < 8 {
        le_byte(entry.size, j - 4)
    } else {
        entry.name[j - 8]
    }
}

/// The stored form of a directory: its entries, sixteen bytes each, in order.
pub open spec fn directory_bytes(dir: Seq<EntrySpec>) -> Seq<u8> {
    Seq::new(16 * dir.len(), |k: int| entry_byte(dir[k / 16], k % 16))
}

/// Reading a directory and writing it back reproduces the directory's bytes
/// exactly: every lump boundary and every name field survives the round trip.
pub proof fn lemma_directory_round_trip(bytes: Seq<u8>)
    requires
        directory_of(bytes) is Ok,
    ensures
        directory_bytes(directory_of(bytes)->Ok_0) == bytes.subrange(
            directory_offset(bytes),
            directory_end(bytes),
        ),
{
    let dir = directory_of(bytes)->Ok_0;
    let start = directory_offset(bytes);
    let stored = bytes.subrange(start, directory_end(bytes));
    assert(directory_bytes(dir).len() == stored.len());
    assert forall|k: int| 0 <= k < stored.len() implies directory_bytes(dir)[k] == stored[k] by {
        let i = k / 16;
        let j = k % 16;
        let at = start + 16 * i;
        assert(dir[i] == entry_at(bytes, i));
        assert(stored[k] == bytes[at + j]);
        lemma_le_bytes(bytes, at);
        lemma_le_bytes(bytes, at + 4);
    }
    assert(directory_bytes(dir) =~= stored);
}

/// The lumps of a loaded container have the boundaries its directory gives:
/// lump `i` is as long as entry `i` says and holds the bytes of the stream
/// from the entry's offset on.
pub proof fn lemma_lump_boundaries(bytes: Seq<u8>, i: int)
    requires
        container_of(bytes) is Ok,
        0 <= i < container_of(bytes)->Ok_0.len(),
    ensures
        directory_of(bytes) is Ok,
        container_of(bytes)->Ok_0.len() == directory_of(bytes)->Ok_0.len(),
        container_of(bytes)->Ok_0.len() == lump_count(bytes),
        container_of(bytes)->Ok_0[i].data.len() == (directory_of(bytes)->Ok_0)[i].size,
        container_of(bytes)->Ok_0[i].data == bytes.subrange(
            (directory_of(bytes)->Ok_0)[i].offset as int,
            (directory_of(bytes)->Ok_0)[i].offset + (directory_of(bytes)->Ok_0)[i].size,
        ),
        (directory_of(bytes)->Ok_0)[i] == entry_at(bytes, i),
{
    let dir = directory_of(bytes)->Ok_0;
    assert(entry_in_bounds(bytes, dir[i]));
}

/// A stream whose header announces a directory, and which holds that
/// directory's stored form where the header says, reads back as that
/// directory.
pub proof fn lemma_written_directory_reads_back(bytes: Seq<u8>, dir: Seq<EntrySpec>)
    requires
        has_signature(bytes),
        bytes.len() >= 12,
        lump_count(bytes) == dir.len(),
        directory_end(bytes) <= bytes.len(),
        forall|i: int| 0 <= i < dir.len() ==> (#[trigger] dir[i]).name.len() == 8,
        bytes.subrange(directory_offset(bytes), directory_end(bytes)) == directory_bytes(dir),
    ensures
        directory_of(bytes) == Ok::<Seq<EntrySpec>, WadError>(dir),
{
    let start = directory_offset(bytes);
    let stored = bytes.subrange(start, directory_end(bytes));
    let read = directory_of(bytes)->Ok_0;
    assert forall|i: int| 0 <= i < dir.len() implies read[i] == dir[i] by {
        let at = start + 16 * i;
        assert forall|j: int| 0 <= j < 16 implies bytes[at + j] == entry_byte(dir[i], j) by {
            let k = 16 * i + j;
            assert(stored[k] == bytes[start + k]);
            assert(k / 16 == i && k % 16 == j);
        }
        assert forall|j: int| 0 <= j < 4 implies bytes[at + j] == le_byte(dir[i].offset, j) by {
            assert(bytes[at + j] == entry_byte(dir[i], j));
        }
        assert forall|j: int| 0 <= j < 4 implies bytes[at + 4 + j] == le_byte(dir[i].size, j) by {
            assert(bytes[at + (4 + j)] == entry_byte(dir[i], 4 + j));
        }
        lemma_le_value(dir[i].offset, bytes, at);
        lemma_le_value(dir[i].size, bytes, at + 4);
        assert forall|j: int| 0 <= j < 8 implies entry_at(bytes, i).name[j] == dir[i].name[j] by {
            assert(bytes[at + (8 + j)] == entry_byte(dir[i], 8 + j));
        }
        assert(entry_at(bytes, i).name =~= dir[i].name);
    }
    assert(read =~= dir);
}

impl ReadStage {
    /// What the stage is called in messages.
    pub open spec fn spec_label(self) -> Seq<char> {
        match self {
            ReadStage::Signature => "signature"@,
            ReadStage::Header => "header"@,
            ReadStage::Directory => "directory"@,
            ReadStage::Lump => "lump data"@,
        }
    }

    /// What the stage is called in messages.
    pub fn label(self) -> (s: &'static str)
        ensures
            s@ == self.spec_label(),
    {
        match self {
            ReadStage::Signature => "signature",
            ReadStage::Header => "header",
            ReadStage::Directory => "directory",
            ReadStage::Lump => "lump data",
        }
    }
}

impl WadError {
    /// A one-line description of the failure, naming the stage that failed.
    pub fn message(&self) -> (text: String)
        ensures
            text@ == self.spec_message(),
    {
        match self {
            WadError::InvalidSignature => "Invalid WAD signature".to_owned(),
            WadError::Io(stage) => "IO error: unexpected end of stream in the ".to_owned().concat(
                stage.label(),
            ),
            WadError::InvalidLumpName => "Invalid lump name".to_owned(),
        }
    }

    /// The text of `message`.
    pub open spec fn spec_message(self) -> Seq<char> {
        match self {
            WadError::InvalidSignature => "Invalid WAD signature"@,
            WadError::Io(stage) => "IO error: unexpected end of stream in the "@
                + stage.spec_label(),
            WadError::InvalidLumpName => "Invalid lump name"@,
        }
    }
}

/// Reads the header and the directory of a container, without touching the
/// lumps.
pub fn read_directory(bytes: &[u8]) -> (r: Result<Vec<DirEntry>, WadError>)
    ensures
        match r {
            Ok(entries) => directory_of(bytes@) == Ok::<Seq<EntrySpec>, WadError>(
                entries_view(entries@),
            ),
            Err(e) => directory_of(bytes@) == Err::<Seq<EntrySpec>, WadError>(e),
        },
{
    let len: usize = bytes.len();
    if len < 4 {
        return Err(WadError::Io(ReadStage::Signature));
    }
    if !((bytes[0] == 73 || bytes[0] == 80) && bytes[1] == 87 && bytes[2] == 65 && bytes[3]
        == 68) {
        return Err(WadError::InvalidSignature);
    }
    if len < HEADER_LEN {
        return Err(WadError::Io(ReadStage::Header));
    }
    let count: u32 = read_u32_at(bytes, 4);
    let start: u32 = read_u32_at(bytes, 8);
    let end: u64 = start as u64 + 16 * (count as u64);
    if end > len as u64 {
        return Err(WadError::Io(ReadStage::Directory));
    }
    let first: usize = start as usize;
    let mut entries: Vec<DirEntry> = Vec::new();
    let mut i: usize = 0;
    while i < count as usize
        invariant
            len == bytes@.len(),
            first == directory_offset(bytes@),
            count == lump_count(bytes@),
            first + 16 * count <= len,
            i <= count,
            entries@.len() == i,
            forall|k: int| 0 <= k < i ==> (#[trigger] entries@[k])@ == entry_at(bytes@, k),
        decreases count - i,
    {
        let at: usize = first + ENTRY_LEN * i;
        let offset: u32 = read_u32_at(bytes, at);
        let size: u32 = read_u32_at(bytes, at + 4);
        let mut name: [u8; 8] = [0u8; 8];
        let mut j: usize = 0;
        while j < 8
            invariant
                len == bytes@.len(),
                at + 16 <= len,
                j <= 8,
                forall|k: int| 0 <= k < j ==> name@[k] == bytes@[at + 8 + k],
            decreases 8 - j,
        {
            name[j] = bytes[at + 8 + j];
            j = j + 1;
        }
        let entry = DirEntry { offset, size, name };
        assert(entry@.name =~= bytes@.subrange(at + 8, at + 16));
        entries.push(entry);
        i = i + 1;
    }
    assert(entries_view(entries@) =~= Seq::new(
        lump_count(bytes@) as nat,
        |i: int| entry_at(bytes@, i),
    ));
    Ok(entries)
}

/// Writes a directory in its stored form, sixteen bytes per entry.
pub fn write_directory(entries: &Vec<DirEntry>) -> (out: Vec<u8>)
    ensures
        out@ == directory_bytes(entries_view(entries@)),
{
    let ghost dir = entries_view(entries@);
    let mut out: Vec<u8> = Vec::new();
    let mut i: usize = 0;
    while i < entries.len()
        invariant
            i <= entries@.len(),
            dir == entries_view(entries@),
            out@.len() == 16 * i,
            forall|k: int| 0 <= k < 16 * i ==> out@[k] == entry_byte(dir[k / 16], k % 16),
        decreases entries@.len() - i,
    {
        let e: DirEntry = entries[i];
        let ghost before = out@;
        push_le_u32(&mut out, e.offset);
        push_le_u32(&mut out, e.size);
        let mut j: usize = 0;
        while j < 8
            invariant
                j <= 8,
                out@.len() == 16 * i + 8 + j,
                out@.take(16 * i + 8) == before + le_bytes_of(e.offset) + le_bytes_of(e.size),
                forall|k: int| 0 <= k < j ==> out@[16 * i + 8 + k] == e.name@[k],
            decreases 8 - j,
        {
            let ghost prev = out@;
            out.push(e.name[j]);
            assert(out@.take(16 * i + 8) =~= prev.take(16 * i + 8));
            j = j + 1;
        }
        assert forall|k: int| 0 <= k < 16 * (i + 1) implies out@[k] == entry_byte(
            dir[k / 16],
            k % 16,
        ) by {
            let head = out@.take(16 * i + 8);
            if k < 16 * i {
                assert(out@[k] == head[k]);
                assert(head[k] == before[k]);
            } else {
                assert(k / 16 == i);
                assert(dir[i as int] == e@);
                if k < 16 * i + 8 {
                    assert(out@[k] == head[k]);
                } else {
                    assert(out@[k] == e.name@[k - 16 * i - 8]);
                }
            }
        }
        i = i + 1;
    }
    assert(out@ =~= directory_bytes(dir));
    out
}

impl WadFile {
    /// Loads a container from the bytes of a stream. Either every lump of the
    /// directory is returned, in order, or none is.
    pub fn load(bytes: &[u8]) -> (r: Result<WadFile, WadError>)
        ensures
            match r {
                Ok(wad) => container_of(bytes@) == Ok::<Seq<LumpSpec>, WadError>(wad@),
                Err(e) => container_of(bytes@) == Err::<Seq<LumpSpec>, WadError>(e),
            },
    {
        let entries: Vec<DirEntry> = match read_directory(bytes) {
            Ok(entries) => entries,
            Err(e) => {
                return Err(e);
            },
        };
        let ghost dir = entries_view(entries@);
        let len: usize = bytes.len();
        let mut lumps: Vec<WadLump> = Vec::new();
        let mut i: usize = 0;
        while i < entries.len()
            invariant
                len == bytes@.len(),
                dir == entries_view(entries@),
                directory_of(bytes@) == Ok::<Seq<EntrySpec>, WadError>(dir),
                i <= entries@.len(),
                lumps@.len() == i,
                forall|k: int| 0 <= k < i ==> entry_in_bounds(bytes@, #[trigger] dir[k]),
                forall|k: int| 0 <= k < i ==> (#[trigger] lumps@[k])@ == lump_of(bytes@, dir[k]),
            decreases entries@.len() - i,
        {
            let e: DirEntry = entries[i];
            assert(dir[i as int] == e@);
            if e.offset as u64 + e.size as u64 > len as u64 {
                assert(!entry_in_bounds(bytes@, dir[i as int]));
                return Err(WadError::Io(ReadStage::Lump));
            }
            let from: usize = e.offset as usize;
            let name: String = name_from_field(e.name.as_slice());
            let data: Vec<u8> = slice_to_vec(slice_subrange(bytes, from, from + e.size as usize));
            lumps.push(WadLump { name, data });
            i = i + 1;
        }
        let wad = WadFile { lumps };
        assert(wad@ =~= Seq::new(dir.len(), |i: int| lump_of(bytes@, dir[i])));
        Ok(wad)
    }

    /// The position of the first lump called `name`, if there is one. Names
    /// are compared exactly.
    pub fn find_index(&self, name: &str) -> (r: Option<usize>)
        ensures
            match r {
                Some(i) => first_named(self@, name@) == Some(i as int) && is_first_named(
                    self@,
                    name@,
                    i as int,
                ),
                None => first_named(self@, name@) is None,
            },
            match r {
                Some(i) => {
                    &&& i < self.lumps@.len()
                    &&& self.lumps@[i as int].name@ == name@
                    &&& forall|j: int| 0 <= j < i ==> self.lumps@[j].name@ != name@
                },
                None => forall|j: int| 0 <= j < self.lumps@.len() ==> self.lumps@[j].name@ != name@,
            },
    {
        let wanted: String = name.to_owned();
        let mut i: usize = 0;
        while i < self.lumps.len()
            invariant
                wanted@ == name@,
                i <= self.lumps@.len(),
                forall|j: int| 0 <= j < i ==> self.lumps@[j].name@ != name@,
            decreases self.lumps@.len() - i,
        {
            if self.lumps[i].name == wanted {
                proof {
                    assert(self@[i as int].name == name@);
                    assert forall|j: int| 0 <= j < i implies self@[j].name != name@ by {
                        assert(self@[j] == self.lumps@[j]@);
                    }
                    lemma_first_named_unique(self@, name@, i as int);
                }
                return Some(i);
            }
            i = i + 1;
        }
        proof {
            assert forall|k: int| !is_first_named(self@, name@, k) by {
                if 0 <= k < self@.len() {
                    assert(self@[k] == self.lumps@[k]@);
                }
            }
        }
        None
    }

    /// The first lump called `name`. A later lump of the same name is
    /// shadowed and never returned.
    pub fn find_lump(&self, name: &str) -> (r: Option<&WadLump>)
        ensures
            match r {
                Some(lump) => first_named(self@, name@) is Some && *lump == self.lumps@[first_named(
                    self@,
                    name@,
                )->Some_0],
                None => first_named(self@, name@) is None,
            },
            match r {
                Some(lump) => exists|i: int|
                    {
                        &&& 0 <= i < self.lumps@.len()
                        &&& *lump == #[trigger] self.lumps@[i]
                        &&& lump.name@ == name@
                        &&& forall|j: int| 0 <= j < i ==> self.lumps@[j].name@ != name@
                    },
                None => forall|j: int| 0 <= j < self.lumps@.len() ==> self.lumps@[j].name@ != name@,
            },
    {
        match self.find_index(name) {
            Some(i) => Some(&self.lumps[i]),
            None => None,
        }
    }
}

} // verus!
