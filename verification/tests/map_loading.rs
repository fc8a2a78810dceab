use doom_core::format::count_records;
use doom_core::format::FormatError;
use doom_core::format::LumpKind;
use doom_core::map::LevelMap;
use doom_core::wad::WadFile;
use doom_core::wad::WadLump;

fn lump(name: &str, data: Vec<u8>) -> WadLump {
    WadLump { name: name.to_string(), data }
}

fn name8(name: &str) -> [u8; 8] {
    let mut field = [0u8; 8];
    field[..name.len()].copy_from_slice(name.as_bytes());
    field
}

fn vertex(x: i16, y: i16) -> Vec<u8> {
    let mut v = Vec::new();
    v.extend_from_slice(&x.to_le_bytes());
    v.extend_from_slice(&y.to_le_bytes());
    v
}

fn linedef(fields: [u16; 7]) -> Vec<u8> {
    fields.iter().flat_map(|f| f.to_le_bytes()).collect()
}

fn sidedef(x: i16, y: i16, upper: &str, lower: &str, middle: &str, sector: u16) -> Vec<u8> {
    let mut v = Vec::new();
    v.extend_from_slice(&x.to_le_bytes());
    v.extend_from_slice(&y.to_le_bytes());
    v.extend_from_slice(&name8(upper));
    v.extend_from_slice(&name8(lower));
    v.extend_from_slice(&name8(middle));
    v.extend_from_slice(&sector.to_le_bytes());
    v
}

fn sector(floor: i16, ceiling: i16, floor_tex: &str, ceil_tex: &str, light: i16) -> Vec<u8> {
    let mut v = Vec::new();
    v.extend_from_slice(&floor.to_le_bytes());
    v.extend_from_slice(&ceiling.to_le_bytes());
    v.extend_from_slice(&name8(floor_tex));
    v.extend_from_slice(&name8(ceil_tex));
    v.extend_from_slice(&light.to_le_bytes());
    v.extend_from_slice(&7u16.to_le_bytes());
    v.extend_from_slice(&9u16.to_le_bytes());
    v
}

fn one_room() -> WadFile {
    WadFile {
        lumps: vec![
            lump("E1M1", vec![]),
            lump("THINGS", vec![]),
            lump("LINEDEFS", linedef([0, 0, 1, 0, 0, 0, 0xFFFF])),
            lump("SIDEDEFS", sidedef(0, 0, "-", "-", "STONE2", 0)),
            lump("VERTEXES", vertex(10, 20)),
            lump("SEGS", vec![]),
            lump("SSECTORS", vec![]),
            lump("NODES", vec![]),
            lump("SECTORS", sector(0, 128, "FLOOR4_8", "CEIL3_5", 160)),
        ],
    }
}

#[test]
fn one_room_map_loads_with_one_record_of_each_kind() {
    let map = LevelMap::load_from_wad(&one_room(), "E1M1").unwrap();
    assert_eq!(map.vertices.len(), 1);
    assert_eq!(map.linedefs.len(), 1);
    assert_eq!(map.sidedefs.len(), 1);
    assert_eq!(map.sectors.len(), 1);
    assert_eq!(map.things.len(), 0);
    assert_eq!((map.vertices[0].x, map.vertices[0].y), (10, 20));
    assert_eq!(map.linedefs[0].start_vertex, 0);
    assert_eq!(map.linedefs[0].end_vertex, 0);
    assert_eq!(map.linedefs[0].flags, 1);
    assert_eq!(map.linedefs[0].back_sidedef, 0xFFFF);
    assert_eq!(map.sidedefs[0].middle_texture, "STONE2");
    assert_eq!(map.sidedefs[0].upper_texture, "-");
    assert_eq!(map.sidedefs[0].sector, 0);
    assert_eq!(map.sectors[0].floor_height, 0);
    assert_eq!(map.sectors[0].ceiling_height, 128);
    assert_eq!(map.sectors[0].floor_texture, "FLOOR4_8");
    assert_eq!(map.sectors[0].ceiling_texture, "CEIL3_5");
    assert_eq!(map.sectors[0].light_level, 160);
    assert_eq!(map.sectors[0].special_type, 7);
    assert_eq!(map.sectors[0].tag, 9);
}

#[test]
fn unknown_map_name_is_not_found() {
    assert!(matches!(LevelMap::load_from_wad(&one_room(), "E1M2"), Err(FormatError::NotFound)));
    assert!(matches!(LevelMap::load_from_wad(&one_room(), "e1m1"), Err(FormatError::NotFound)));
}

#[test]
fn record_lumps_are_taken_by_position_not_by_name() {
    let mut wad = one_room();
    for l in wad.lumps.iter_mut().skip(1) {
        l.name = "JUNK".to_string();
    }
    let map = LevelMap::load_from_wad(&wad, "E1M1").unwrap();
    assert_eq!(map.vertices.len(), 1);
    assert_eq!(map.sectors.len(), 1);
}

#[test]
fn misaligned_lump_is_truncated() {
    let mut wad = one_room();
    wad.lumps[4].data.push(0);
    assert!(matches!(
        LevelMap::load_from_wad(&wad, "E1M1"),
        Err(FormatError::Truncated(LumpKind::Vertices))
    ));
    let mut wad = one_room();
    wad.lumps[1].data = vec![0; 9];
    assert!(matches!(
        LevelMap::load_from_wad(&wad, "E1M1"),
        Err(FormatError::Truncated(LumpKind::Things))
    ));
    let mut wad = one_room();
    wad.lumps[2].data.pop();
    wad.lumps[1].data = vec![0; 9];
    assert!(matches!(
        LevelMap::load_from_wad(&wad, "E1M1"),
        Err(FormatError::Truncated(LumpKind::Linedefs))
    ));
}

#[test]
fn container_that_ends_early_misses_a_lump() {
    let mut wad = one_room();
    wad.lumps.truncate(8);
    assert!(matches!(
        LevelMap::load_from_wad(&wad, "E1M1"),
        Err(FormatError::MissingLump(LumpKind::Sectors))
    ));
    wad.lumps.truncate(4);
    assert!(matches!(
        LevelMap::load_from_wad(&wad, "E1M1"),
        Err(FormatError::MissingLump(LumpKind::Vertices))
    ));
}

#[test]
fn things_decode_field_by_field() {
    let mut data = Vec::new();
    for v in [-3i16 as u16, 40, 90, 3004, 7] {
        data.extend_from_slice(&v.to_le_bytes());
    }
    let things = LevelMap::parse_things(&data).unwrap();
    assert_eq!(things.len(), 1);
    assert_eq!(things[0].x, -3);
    assert_eq!(things[0].y, 40);
    assert_eq!(things[0].angle, 90);
    assert_eq!(things[0].thing_type, 3004);
    assert_eq!(things[0].flags, 7);
}

#[test]
fn error_messages_name_the_stage() {
    assert_eq!(FormatError::NotFound.message(), "map marker not found");
    assert_eq!(FormatError::Truncated(LumpKind::Sidedefs).message(), "truncated lump: SIDEDEFS");
    assert_eq!(FormatError::MissingLump(LumpKind::Nodes).message(), "missing lump: NODES");
    assert_eq!(FormatError::Corrupt.message(), "corrupt reference");
}

#[test]
fn references_are_checked_when_they_are_followed() {
    let map = LevelMap::load_from_wad(&one_room(), "E1M1").unwrap();
    assert_eq!(map.vertex(0).map(|v| (v.x, v.y)), Ok((10, 20)));
    assert_eq!(map.vertex(1).err(), Some(FormatError::Corrupt));
    assert_eq!(map.linedef(0).map(|l| l.front_sidedef), Ok(0));
    assert_eq!(map.linedef(1).err(), Some(FormatError::Corrupt));
    assert_eq!(map.sidedef(0).map(|s| s.sector), Ok(0));
    assert_eq!(map.sidedef(0xFFFF).err(), Some(FormatError::Corrupt));
    assert_eq!(map.sector(0).map(|s| s.ceiling_height), Ok(128));
    assert_eq!(map.sector(1).err(), Some(FormatError::Corrupt));
}

#[test]
fn record_lumps_stand_at_fixed_places_with_fixed_record_sizes() {
    let kinds = [
        (LumpKind::Things, 1, 10),
        (LumpKind::Linedefs, 2, 14),
        (LumpKind::Sidedefs, 3, 30),
        (LumpKind::Vertices, 4, 4),
        (LumpKind::Segs, 5, 12),
        (LumpKind::Subsectors, 6, 4),
        (LumpKind::Nodes, 7, 28),
        (LumpKind::Sectors, 8, 26),
    ];
    for (kind, offset, size) in kinds {
        assert_eq!(kind.offset(), offset);
        assert_eq!(kind.record_len(), size);
        assert_eq!(count_records(&vec![0; 3 * size], kind), Ok(3));
        assert_eq!(count_records(&[], kind), Ok(0));
        assert_eq!(count_records(&vec![0; 3 * size + 1], kind), Err(FormatError::Truncated(kind)));
        assert_eq!(count_records(&vec![0; size - 1], kind), Err(FormatError::Truncated(kind)));
    }
    assert_eq!(LumpKind::Vertices.label(), "VERTEXES");
    assert_eq!(LumpKind::Subsectors.label(), "SSECTORS");
}

#[test]
fn first_marker_of_a_name_is_the_map() {
    let mut wad = one_room();
    let mut second = one_room().lumps;
    second[4].data = [vertex(1, 1), vertex(2, 2)].concat();
    wad.lumps.append(&mut second);
    let map = LevelMap::load_from_wad(&wad, "E1M1").unwrap();
    assert_eq!(map.vertices.len(), 1);
    wad.lumps[0].name = "E1M0".to_string();
    let map = LevelMap::load_from_wad(&wad, "E1M1").unwrap();
    assert_eq!(map.vertices.len(), 2);
}

#[test]
fn linedefs_and_vertices_decode_field_by_field() {
    let data: Vec<u8> = [1u16, 2, 3, 4, 5, 6, 7, 8, 9, 10, 11, 12, 13, 0xFFFF]
        .iter()
        .flat_map(|f| f.to_le_bytes())
        .collect();
    let lines = LevelMap::parse_linedefs(&data).unwrap();
    assert_eq!(lines.len(), 2);
    let l = &lines[1];
    assert_eq!(
        (l.start_vertex, l.end_vertex, l.flags, l.special_type, l.sector_tag, l.front_sidedef, l.back_sidedef),
        (8, 9, 10, 11, 12, 13, 0xFFFF)
    );
    let vertices = LevelMap::parse_vertices(&[0, 0x80, 0xFF, 0x7F, 1, 0, 0xFF, 0xFF]).unwrap();
    assert_eq!(vertices.len(), 2);
    assert_eq!((vertices[0].x, vertices[0].y), (i16::MIN, i16::MAX));
    assert_eq!((vertices[1].x, vertices[1].y), (1, -1));
    assert_eq!(LevelMap::parse_sidedefs(&[0; 29]).err(), Some(FormatError::Truncated(LumpKind::Sidedefs)));
    assert_eq!(LevelMap::parse_sectors(&[0; 27]).err(), Some(FormatError::Truncated(LumpKind::Sectors)));
    let sides = LevelMap::parse_sidedefs(&sidedef(-5, 6, "UP", "LOWERTEX", "", 3)).unwrap();
    assert_eq!((sides[0].x_offset, sides[0].y_offset, sides[0].sector), (-5, 6, 3));
    assert_eq!(sides[0].upper_texture, "UP");
    assert_eq!(sides[0].lower_texture, "LOWERTEX");
    assert_eq!(sides[0].middle_texture, "");
}
