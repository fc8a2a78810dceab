//! Map geometry: vertices, linedefs, sidedefs, sectors and things, each
//! decoded from its own lump of fixed-size little-endian records.

use crate::bytes::field_name;
use crate::bytes::i16_le;
use crate::bytes::name_from_field;
use crate::bytes::read_i16_at;
use crate::bytes::read_u16_at;
use crate::bytes::u16_le;
use crate::format::count_records;
use crate::format::record_count;
use crate::format::whole_records;
use crate::format::FormatError;
use crate::format::LumpKind;
use crate::wad::first_named;
use crate::wad::LumpSpec;
use crate::wad::WadFile;
use vstd::prelude::*;
use vstd::slice::slice_subrange;

verus! {

/// A point of the map, in map units.
#[derive(Debug, Clone, Copy, PartialEq, Eq, Structural)]
pub struct Vertex {
    pub x: i16,
    pub y: i16,
}

/// A line between two vertices, with a front side and possibly a back side.
#[derive(Debug, Clone, Copy, PartialEq, Eq, Structural)]
pub struct Linedef {
    pub start_vertex: u16,
    pub end_vertex: u16,
    pub flags: u16,
    pub special_type: u16,
    pub sector_tag: u16,
    pub front_sidedef: u16,
    pub back_sidedef: u16,
}

/// One face of a linedef: its three textures and the sector it looks into.
#[derive(Debug, Clone)]
pub struct Sidedef {
    pub x_offset: i16,
    pub y_offset: i16,
    pub upper_texture: String,
    pub lower_texture: String,
    pub middle_texture: String,
    pub sector: u16,
}

/// A region of the map with one floor and one ceiling.
#[derive(Debug, Clone)]
pub struct Sector {
    pub floor_height: i16,
    pub ceiling_height: i16,
    pub floor_texture: String,
    pub ceiling_texture: String,
    pub light_level: i16,
    pub special_type: u16,
    pub tag: u16,
}

/// Something placed on the map: where, facing which way, and what.
#[derive(Debug, Clone, Copy, PartialEq, Eq, Structural)]
pub struct Thing {
    pub x: i16,
    pub y: i16,
    pub angle: u16,
    pub thing_type: u16,
    pub flags: u16,
}

/// The geometry of one map.
pub struct LevelMap {
    pub vertices: Vec<Vertex>,
    pub linedefs: Vec<Linedef>,
    pub sidedefs: Vec<Sidedef>,
    pub sectors: Vec<Sector>,
    pub things: Vec<Thing>,
}

/// The `back_sidedef` of a linedef that has no back side.
pub const NO_SIDEDEF: u16 = 0xFFFF;

/// A sidedef as a value.
pub struct SidedefSpec {
    pub x_offset: i16,
    pub y_offset: i16,
    pub upper_texture: Seq<char>,
    pub lower_texture: Seq<char>,
    pub middle_texture: Seq<char>,
    pub sector: u16,
}

/// A sector as a value.
pub struct SectorSpec {
    pub floor_height: i16,
    pub ceiling_height: i16,
    pub floor_texture: Seq<char>,
    pub ceiling_texture: Seq<char>,
    pub light_level: i16,
    pub special_type: u16,
    pub tag: u16,
}

/// A map as a value.
pub struct MapSpec {
    pub vertices: Seq<Vertex>,
    pub linedefs: Seq<Linedef>,
    pub sidedefs: Seq<SidedefSpec>,
    pub sectors: Seq<SectorSpec>,
    pub things: Seq<Thing>,
}

impl View for Sidedef {
    type V = SidedefSpec;

    open spec fn view(&self) -> SidedefSpec {
        SidedefSpec {
            x_offset: self.x_offset,
            y_offset: self.y_offset,
            upper_texture: self.upper_texture@,
            lower_texture: self.lower_texture@,
            middle_texture: self.middle_texture@,
            sector: self.sector,
        }
    }
}

impl View for Sector {
    type V = SectorSpec;

    open spec fn view(&self) -> SectorSpec {
        SectorSpec {
            floor_height: self.floor_height,
            ceiling_height: self.ceiling_height,
            floor_texture: self.floor_texture@,
            ceiling_texture: self.ceiling_texture@,
            light_level: self.light_level,
            special_type: self.special_type,
            tag: self.tag,
        }
    }
}

/// The sidedefs of a map as values.
pub open spec fn sidedefs_view(s: Seq<Sidedef>) -> Seq<SidedefSpec> {
    Seq::new(s.len(), |i: int| s[i]@)
}

/// The sectors of a map as values.
pub open spec fn sectors_view(s: Seq<Sector>) -> Seq<SectorSpec> {
    Seq::new(s.len(), |i: int| s[i]@)
}

impl View for LevelMap {
    type V = MapSpec;

    open spec fn view(&self) -> MapSpec {
        MapSpec {
            vertices: self.vertices@,
            linedefs: self.linedefs@,
            sidedefs: sidedefs_view(self.sidedefs@),
            sectors: sectors_view(self.sectors@),
            things: self.things@,
        }
    }
}

/// The vertex stored at `at`: `x`, then `y`.
pub open spec fn vertex_at(data: Seq<u8>, at: int) -> Vertex {
    Vertex { x: i16_le(data, at), y: i16_le(data, at + 2) }
}

/// The linedef stored at `at`: start, end, flags, special, tag, front side,
/// back side.
pub open spec fn linedef_at(data: Seq<u8>, at: int) -> Linedef {
    Linedef {
        start_vertex: u16_le(data, at),
        end_vertex: u16_le(data, at + 2),
        flags: u16_le(data, at + 4),
        special_type: u16_le(data, at + 6),
        sector_tag: u16_le(data, at + 8),
        front_sidedef: u16_le(data, at + 10),
        back_sidedef: u16_le(data, at + 12),
    }
}

/// The sidedef stored at `at`: the two offsets, then the upper, lower and
/// middle texture names, then the sector.
pub open spec fn sidedef_at(data: Seq<u8>, at: int) -> SidedefSpec {
    SidedefSpec {
        x_offset: i16_le(data, at),
        y_offset: i16_le(data, at + 2),
        upper_texture: field_name(data.subrange(at + 4, at + 12)),
        lower_texture: field_name(data.subrange(at + 12, at + 20)),
        middle_texture: field_name(data.subrange(at + 20, at + 28)),
        sector: u16_le(data, at + 28),
    }
}

/// The sector stored at `at`: floor and ceiling height, floor and ceiling
/// texture names, light level, special type, tag.
pub open spec fn sector_at(data: Seq<u8>, at: int) -> SectorSpec {
    SectorSpec {
        floor_height: i16_le(data, at),
        ceiling_height: i16_le(data, at + 2),
        floor_texture: field_name(data.subrange(at + 4, at + 12)),
        ceiling_texture: field_name(data.subrange(at + 12, at + 20)),
        light_level: i16_le(data, at + 20),
        special_type: u16_le(data, at + 22),
        tag: u16_le(data, at + 24),
    }
}

/// The thing stored at `at`: position, angle, type, flags.
pub open spec fn thing_at(data: Seq<u8>, at: int) -> Thing {
    Thing {
        x: i16_le(data, at),
        y: i16_le(data, at + 2),
        angle: u16_le(data, at + 4),
        thing_type: u16_le(data, at + 6),
        flags: u16_le(data, at + 8),
    }
}

/// The vertices of a lump, or `Truncated` if its length is not a multiple of
/// four.
pub open spec fn vertices_of(data: Seq<u8>) -> Result<Seq<Vertex>, FormatError> {
    if whole_records(data, LumpKind::Vertices) {
        Ok(Seq::new(record_count(data, LumpKind::Vertices), |i: int| vertex_at(data, 4 * i)))
    } else {
        Err(FormatError::Truncated(LumpKind::Vertices))
    }
}

/// The linedefs of a lump, or `Truncated` if its length is not a multiple of
/// fourteen.
pub open spec fn linedefs_of(data: Seq<u8>) -> Result<Seq<Linedef>, FormatError> {
    if whole_records(data, LumpKind::Linedefs) {
        Ok(Seq::new(record_count(data, LumpKind::Linedefs), |i: int| linedef_at(data, 14 * i)))
    } else {
        Err(FormatError::Truncated(LumpKind::Linedefs))
    }
}

/// The sidedefs of a lump, or `Truncated` if its length is not a multiple of
/// thirty.
pub open spec fn sidedefs_of(data: Seq<u8>) -> Result<Seq<SidedefSpec>, FormatError> {
    if whole_records(data, LumpKind::Sidedefs) {
        Ok(Seq::new(record_count(data, LumpKind::Sidedefs), |i: int| sidedef_at(data, 30 * i)))
    } else {
        Err(FormatError::Truncated(LumpKind::Sidedefs))
    }
}

/// The sectors of a lump, or `Truncated` if its length is not a multiple of
/// twenty-six.
pub open spec fn sectors_of(data: Seq<u8>) -> Result<Seq<SectorSpec>, FormatError> {
    if whole_records(data, LumpKind::Sectors) {
        Ok(Seq::new(record_count(data, LumpKind::Sectors), |i: int| sector_at(data, 26 * i)))
    } else {
        Err(FormatError::Truncated(LumpKind::Sectors))
    }
}

/// The things of a lump, or `Truncated` if its length is not a multiple of
/// ten.
pub open spec fn things_of(data: Seq<u8>) -> Result<Seq<Thing>, FormatError> {
    if whole_records(data, LumpKind::Things) {
        Ok(Seq::new(record_count(data, LumpKind::Things), |i: int| thing_at(data, 10 * i)))
    } else {
        Err(FormatError::Truncated(LumpKind::Things))
    }
}

/// The bytes of the record lump of the given kind for the map whose marker
/// stands at `marker`, or `MissingLump` if the container ends before it.
pub open spec fn lump_data(lumps: Seq<LumpSpec>, marker: int, kind: LumpKind) -> Result<
    Seq<u8>,
    FormatError,
> {
    if marker + kind.spec_offset() < lumps.len() {
        Ok(lumps[marker + kind.spec_offset()].data)
    } else {
        Err(FormatError::MissingLump(kind))
    }
}

/// The geometry of the map whose marker stands at `marker`. The five lumps
/// are read in the order vertices, linedefs, sidedefs, sectors, things, and
/// the first that is missing or truncated decides the error.
pub open spec fn map_at(lumps: Seq<LumpSpec>, marker: int) -> Result<MapSpec, FormatError> {
    match lump_data(lumps, marker, LumpKind::Vertices) {
        Err(e) => Err(e),
        Ok(d) => match vertices_of(d) {
            Err(e) => Err(e),
            Ok(vertices) => match lump_data(lumps, marker, LumpKind::Linedefs) {
                Err(e) => Err(e),
                Ok(d) => match linedefs_of(d) {
                    Err(e) => Err(e),
                    Ok(linedefs) => match lump_data(lumps, marker, LumpKind::Sidedefs) {
                        Err(e) => Err(e),
                        Ok(d) => match sidedefs_of(d) {
                            Err(e) => Err(e),
                            Ok(sidedefs) => match lump_data(lumps, marker, LumpKind::Sectors) {
                                Err(e) => Err(e),
                                Ok(d) => match sectors_of(d) {
                                    Err(e) => Err(e),
                                    Ok(sectors) => match lump_data(
                                        lumps,
                                        marker,
                                        LumpKind::Things,
                                    ) {
                                        Err(e) => Err(e),
                                        Ok(d) => match things_of(d) {
                                            Err(e) => Err(e),
                                            Ok(things) => Ok(
                                                MapSpec {
                                                    vertices,
                                                    linedefs,
                                                    sidedefs,
                                                    sectors,
                                                    things,
                                                },
                                            ),
                                        },
                                    },
                                },
                            },
                        },
                    },
                },
            },
        },
    }
}

/// The geometry of the map called `name`, or `NotFound` if no lump carries
/// that name.
pub open spec fn map_of(lumps: Seq<LumpSpec>, name: Seq<char>) -> Result<MapSpec, FormatError> {
    match first_named(lumps, name) {
        None => Err(FormatError::NotFound),
        Some(marker) => map_at(lumps, marker),
    }
}

/// The bytes of one of the record lumps that follow a marker.
pub fn record_lump(wad: &WadFile, marker: usize, kind: LumpKind) -> (r: Result<
    &[u8],
    FormatError,
>)
    requires
        marker < wad.lumps@.len(),
    ensures
        match r {
            Ok(data) => lump_data(wad@, marker as int, kind) == Ok::<Seq<u8>, FormatError>(data@),
            Err(e) => lump_data(wad@, marker as int, kind) == Err::<Seq<u8>, FormatError>(e),
        },
{
    let offset: usize = kind.offset();
    if wad.lumps.len() - marker <= offset {
        Err(FormatError::MissingLump(kind))
    } else {
        assert(wad@[marker + offset] == wad.lumps@[marker + offset]@);
        Ok(wad.lumps[marker + offset].data.as_slice())
    }
}

fn read_vertex(data: &[u8], at: usize) -> (v: Vertex)
    requires
        at + 4 <= data@.len(),
    ensures
        v == vertex_at(data@, at as int),
{
    let len: usize = data.len();
    assert(at + 4 <= len);
    Vertex { x: read_i16_at(data, at), y: read_i16_at(data, at + 2) }
}

fn read_linedef(data: &[u8], at: usize) -> (l: Linedef)
    requires
        at + 14 <= data@.len(),
    ensures
        l == linedef_at(data@, at as int),
{
    let len: usize = data.len();
    assert(at + 14 <= len);
    Linedef {
        start_vertex: read_u16_at(data, at),
        end_vertex: read_u16_at(data, at + 2),
        flags: read_u16_at(data, at + 4),
        special_type: read_u16_at(data, at + 6),
        sector_tag: read_u16_at(data, at + 8),
        front_sidedef: read_u16_at(data, at + 10),
        back_sidedef: read_u16_at(data, at + 12),
    }
}

fn read_sidedef(data: &[u8], at: usize) -> (s: Sidedef)
    requires
        at + 30 <= data@.len(),
    ensures
        s@ == sidedef_at(data@, at as int),
{
    let len: usize = data.len();
    assert(at + 30 <= len);
    Sidedef {
        x_offset: read_i16_at(data, at),
        y_offset: read_i16_at(data, at + 2),
        upper_texture: name_from_field(slice_subrange(data, at + 4, at + 12)),
        lower_texture: name_from_field(slice_subrange(data, at + 12, at + 20)),
        middle_texture: name_from_field(slice_subrange(data, at + 20, at + 28)),
        sector: read_u16_at(data, at + 28),
    }
}

fn read_sector(data: &[u8], at: usize) -> (s: Sector)
    requires
        at + 26 <= data@.len(),
    ensures
        s@ == sector_at(data@, at as int),
{
    let len: usize = data.len();
    assert(at + 26 <= len);
    Sector {
        floor_height: read_i16_at(data, at),
        ceiling_height: read_i16_at(data, at + 2),
        floor_texture: name_from_field(slice_subrange(data, at + 4, at + 12)),
        ceiling_texture: name_from_field(slice_subrange(data, at + 12, at + 20)),
        light_level: read_i16_at(data, at + 20),
        special_type: read_u16_at(data, at + 22),
        tag: read_u16_at(data, at + 24),
    }
}

fn read_thing(data: &[u8], at: usize) -> (t: Thing)
    requires
        at + 10 <= data@.len(),
    ensures
        t == thing_at(data@, at as int),
{
    let len: usize = data.len();
    assert(at + 10 <= len);
    Thing {
        x: read_i16_at(data, at),
        y: read_i16_at(data, at + 2),
        angle: read_u16_at(data, at + 4),
        thing_type: read_u16_at(data, at + 6),
        flags: read_u16_at(data, at + 8),
    }
}

impl LevelMap {
    /// Loads the geometry of the map called `map_name`. The marker is found
    /// by name; the five record lumps are taken from their fixed positions
    /// after it, whatever they are called.
    pub fn load_from_wad(wad: &WadFile, map_name: &str) -> (r: Result<LevelMap, FormatError>)
        ensures
            match r {
                Ok(map) => map_of(wad@, map_name@) == Ok::<MapSpec, FormatError>(map@),
                Err(e) => map_of(wad@, map_name@) == Err::<MapSpec, FormatError>(e),
            },
    {
        let marker: usize = match wad.find_index(map_name) {
            Some(i) => i,
            None => {
                return Err(FormatError::NotFound);
            },
        };
        let vertices: Vec<Vertex> = match record_lump(wad, marker, LumpKind::Vertices) {
            Err(e) => {
                return Err(e);
            },
            Ok(data) => match Self::parse_vertices(data) {
                Err(e) => {
                    return Err(e);
                },
                Ok(v) => v,
            },
        };
        let linedefs: Vec<Linedef> = match record_lump(wad, marker, LumpKind::Linedefs) {
            Err(e) => {
                return Err(e);
            },
            Ok(data) => match Self::parse_linedefs(data) {
                Err(e) => {
                    return Err(e);
                },
                Ok(v) => v,
            },
        };
        let sidedefs: Vec<Sidedef> = match record_lump(wad, marker, LumpKind::Sidedefs) {
            Err(e) => {
                return Err(e);
            },
            Ok(data) => match Self::parse_sidedefs(data) {
                Err(e) => {
                    return Err(e);
                },
                Ok(v) => v,
            },
        };
        let sectors: Vec<Sector> = match record_lump(wad, marker, LumpKind::Sectors) {
            Err(e) => {
                return Err(e);
            },
            Ok(data) => match Self::parse_sectors(data) {
                Err(e) => {
                    return Err(e);
                },
                Ok(v) => v,
            },
        };
        let things: Vec<Thing> = match record_lump(wad, marker, LumpKind::Things) {
            Err(e) => {
                return Err(e);
            },
            Ok(data) => match Self::parse_things(data) {
                Err(e) => {
                    return Err(e);
                },
                Ok(v) => v,
            },
        };
        Ok(LevelMap { vertices, linedefs, sidedefs, sectors, things })
    }

    /// The vertex that a record refers to by `index`, or `Corrupt` if the map
    /// has no such vertex.
    pub fn vertex(&self, index: u16) -> (r: Result<&Vertex, FormatError>)
        ensures
            match r {
                Ok(v) => index < self.vertices@.len() && *v == self.vertices@[index as int],
                Err(e) => index >= self.vertices@.len() && e == FormatError::Corrupt,
            },
    {
        if (index as usize) < self.vertices.len() {
            Ok(&self.vertices[index as usize])
        } else {
            Err(FormatError::Corrupt)
        }
    }

    /// The linedef that a record refers to by `index`, or `Corrupt` if the map
    /// has no such linedef.
    pub fn linedef(&self, index: u16) -> (r: Result<&Linedef, FormatError>)
        ensures
            match r {
                Ok(l) => index < self.linedefs@.len() && *l == self.linedefs@[index as int],
                Err(e) => index >= self.linedefs@.len() && e == FormatError::Corrupt,
            },
    {
        if (index as usize) < self.linedefs.len() {
            Ok(&self.linedefs[index as usize])
        } else {
            Err(FormatError::Corrupt)
        }
    }

    /// The sidedef that a record refers to by `index`, or `Corrupt` if the map
    /// has no such sidedef. The index `NO_SIDEDEF` never refers to one.
    pub fn sidedef(&self, index: u16) -> (r: Result<&Sidedef, FormatError>)
        ensures
            match r {
                Ok(s) => index < self.sidedefs@.len() && *s == self.sidedefs@[index as int],
                Err(e) => index >= self.sidedefs@.len() && e == FormatError::Corrupt,
            },
    {
        if (index as usize) < self.sidedefs.len() {
            Ok(&self.sidedefs[index as usize])
        } else {
            Err(FormatError::Corrupt)
        }
    }

    /// The sector that a record refers to by `index`, or `Corrupt` if the map
    /// has no such sector.
    pub fn sector(&self, index: u16) -> (r: Result<&Sector, FormatError>)
        ensures
            match r {
                Ok(s) => index < self.sectors@.len() && *s == self.sectors@[index as int],
                Err(e) => index >= self.sectors@.len() && e == FormatError::Corrupt,
            },
    {
        if (index as usize) < self.sectors.len() {
            Ok(&self.sectors[index as usize])
        } else {
            Err(FormatError::Corrupt)
        }
    }

    /// Decodes a lump of vertex records.
    pub fn parse_vertices(data: &[u8]) -> (r: Result<Vec<Vertex>, FormatError>)
        ensures
            match r {
                Ok(v) => vertices_of(data@) == Ok::<Seq<Vertex>, FormatError>(v@),
                Err(e) => vertices_of(data@) == Err::<Seq<Vertex>, FormatError>(e),
            },
    {
        let count: usize = match count_records(data, LumpKind::Vertices) {
            Ok(n) => n,
            Err(e) => {
                return Err(e);
            },
        };
        let len: usize = data.len();
        let mut out: Vec<Vertex> = Vec::new();
        let mut i: usize = 0;
        while i < count
            invariant
                len == data@.len(),
                4 * count == len,
                i <= count,
                out@.len() == i,
                forall|k: int| 0 <= k < i ==> out@[k] == vertex_at(data@, 4 * k),
            decreases count - i,
        {
            out.push(read_vertex(data, 4 * i));
            i = i + 1;
        }
        assert(out@ =~= vertices_of(data@)->Ok_0);
        Ok(out)
    }

    /// Decodes a lump of linedef records.
    pub fn parse_linedefs(data: &[u8]) -> (r: Result<Vec<Linedef>, FormatError>)
        ensures
            match r {
                Ok(v) => linedefs_of(data@) == Ok::<Seq<Linedef>, FormatError>(v@),
                Err(e) => linedefs_of(data@) == Err::<Seq<Linedef>, FormatError>(e),
            },
    {
        let count: usize = match count_records(data, LumpKind::Linedefs) {
            Ok(n) => n,
            Err(e) => {
                return Err(e);
            },
        };
        let len: usize = data.len();
        let mut out: Vec<Linedef> = Vec::new();
        let mut i: usize = 0;
        while i < count
            invariant
                len == data@.len(),
                14 * count == len,
                i <= count,
                out@.len() == i,
                forall|k: int| 0 <= k < i ==> out@[k] == linedef_at(data@, 14 * k),
            decreases count - i,
        {
            out.push(read_linedef(data, 14 * i));
            i = i + 1;
        }
        assert(out@ =~= linedefs_of(data@)->Ok_0);
        Ok(out)
    }

    /// Decodes a lump of sidedef records.
    pub fn parse_sidedefs(data: &[u8]) -> (r: Result<Vec<Sidedef>, FormatError>)
        ensures
            match r {
                Ok(v) => sidedefs_of(data@) == Ok::<Seq<SidedefSpec>, FormatError>(
                    sidedefs_view(v@),
                ),
                Err(e) => sidedefs_of(data@) == Err::<Seq<SidedefSpec>, FormatError>(e),
            },
    {
        let count: usize = match count_records(data, LumpKind::Sidedefs) {
            Ok(n) => n,
            Err(e) => {
                return Err(e);
            },
        };
        let len: usize = data.len();
        let mut out: Vec<Sidedef> = Vec::new();
        let mut i: usize = 0;
        while i < count
            invariant
                len == data@.len(),
                30 * count == len,
                i <= count,
                out@.len() == i,
                forall|k: int| 0 <= k < i ==> (#[trigger] out@[k])@ == sidedef_at(data@, 30 * k),
            decreases count - i,
        {
            out.push(read_sidedef(data, 30 * i));
            i = i + 1;
        }
        assert(sidedefs_view(out@) =~= sidedefs_of(data@)->Ok_0);
        Ok(out)
    }

    /// Decodes a lump of sector records.
    pub fn parse_sectors(data: &[u8]) -> (r: Result<Vec<Sector>, FormatError>)
        ensures
            match r {
                Ok(v) => sectors_of(data@) == Ok::<Seq<SectorSpec>, FormatError>(sectors_view(v@)),
                Err(e) => sectors_of(data@) == Err::<Seq<SectorSpec>, FormatError>(e),
            },
    {
        let count: usize = match count_records(data, LumpKind::Sectors) {
            Ok(n) => n,
            Err(e) => {
                return Err(e);
            },
        };
        let len: usize = data.len();
        let mut out: Vec<Sector> = Vec::new();
        let mut i: usize = 0;
        while i < count
            invariant
                len == data@.len(),
                26 * count == len,
                i <= count,
                out@.len() == i,
                forall|k: int| 0 <= k < i ==> (#[trigger] out@[k])@ == sector_at(data@, 26 * k),
            decreases count - i,
        {
            out.push(read_sector(data, 26 * i));
            i = i + 1;
        }
        assert(sectors_view(out@) =~= sectors_of(data@)->Ok_0);
        Ok(out)
    }

    /// Decodes a lump of thing records.
    pub fn parse_things(data: &[u8]) -> (r: Result<Vec<Thing>, FormatError>)
        ensures
            match r {
                Ok(v) => things_of(data@) == Ok::<Seq<Thing>, FormatError>(v@),
                Err(e) => things_of(data@) == Err::<Seq<Thing>, FormatError>(e),
            },
    {
        let count: usize = match count_records(data, LumpKind::Things) {
            Ok(n) => n,
            Err(e) => {
                return Err(e);
            },
        };
        let len: usize = data.len();
        let mut out: Vec<Thing> = Vec::new();
        let mut i: usize = 0;
        while i < count
            invariant
                len == data@.len(),
                10 * count == len,
                i <= count,
                out@.len() == i,
                forall|k: int| 0 <= k < i ==> out@[k] == thing_at(data@, 10 * k),
            decreases count - i,
        {
            out.push(read_thing(data, 10 * i));
            i = i + 1;
        }
        assert(out@ =~= things_of(data@)->Ok_0);
        Ok(out)
    }
}

} // verus!
