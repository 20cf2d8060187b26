use d2fileformats::cursor::ByteCursor;
use d2fileformats::ds1::{
    Ds1, FloorCell, Layer, Object, PathNode, ShadowCell, TagCell, TagGroup, WallCell,
};
use d2fileformats::ds1_layers::map_orientation;
use d2fileformats::error::{Fault, FormatError, Section};

fn put_u32(out: &mut Vec<u8>, v: u32) {
    out.extend_from_slice(&v.to_le_bytes());
}

/// A version 1 file of one cell: header, then the five blocks of old files.
fn minimal_v1() -> Vec<u8> {
    let mut b = Vec::new();
    put_u32(&mut b, 1);
    put_u32(&mut b, 0);
    put_u32(&mut b, 0);
    b.extend_from_slice(&[1, 2, 3, 4]); // wall cells
    b.extend_from_slice(&[5, 6, 7, 8]); // floor cells
    b.extend_from_slice(&[2, 0, 0, 0]); // wall orientations
    b.extend_from_slice(&[9, 9, 9, 9]); // tag cells, passed over
    b.extend_from_slice(&[10, 11, 12, 13]); // shadow cells
    b
}

/// The start of a file of one cell from version 4 on, up to and with its
/// layers: one wall layer, one floor layer, the shadow layer and, where the
/// tag type asks for it, the tag layer. Every field that the version has is
/// there; the objects and what follows are left to the caller.
fn one_cell_file(version: u32, tag_type: u32) -> Vec<u8> {
    let mut b = Vec::new();
    put_u32(&mut b, version);
    put_u32(&mut b, 0);
    put_u32(&mut b, 0);
    if version >= 8 {
        put_u32(&mut b, 2); // act 3
    }
    if version >= 10 {
        put_u32(&mut b, tag_type);
    }
    if version >= 3 {
        put_u32(&mut b, 0); // no file references
    }
    if (9..=13).contains(&version) {
        b.extend_from_slice(&[0xEE; 8]);
    }
    put_u32(&mut b, 1); // wall layers
    if version >= 16 {
        put_u32(&mut b, 1); // floor layers
    }
    b.extend_from_slice(&[1, 2, 3, 4]); // wall cells
    b.extend_from_slice(&[3, 0xAA, 0xBB, 0xCC]); // wall orientation
    b.extend_from_slice(&[5, 6, 7, 8]); // floor cells
    b.extend_from_slice(&[10, 11, 12, 13]); // shadow cells
    if version >= 10 && (tag_type == 1 || tag_type == 2) {
        put_u32(&mut b, 0xDEAD_BEEF); // tag cells
    }
    b
}

fn check_one_cell_layers(map: &Ds1, version: u32) {
    let orientation = if version < 7 { 1 } else { 3 };
    assert_eq!(map.wall_layers.len(), 1);
    assert_eq!(
        map.wall_layers[0].get(0, 0),
        Some(WallCell { prop1: 1, prop2: 2, prop3: 3, prop4: 4, orientation })
    );
    assert_eq!(map.floor_layers.len(), 1);
    assert_eq!(
        map.floor_layers[0].get(0, 0),
        Some(FloorCell { prop1: 5, prop2: 6, prop3: 7, prop4: 8 })
    );
    assert_eq!(map.shadow_layers.len(), 1);
    assert_eq!(
        map.shadow_layers[0].get(0, 0),
        Some(ShadowCell { prop1: 10, prop2: 11, prop3: 12, prop4: 13 })
    );
}

#[test]
fn minimal_version_1_map() {
    let map = Ds1::from(&minimal_v1()).unwrap();
    assert_eq!(map.version, 1);
    assert_eq!(map.width, 1);
    assert_eq!(map.height, 1);
    assert_eq!(map.act, 1);
    assert_eq!(map.tag_type, 0);
    assert!(map.file_names.is_empty());
    assert_eq!(map.wall_layers.len(), 1);
    assert_eq!(map.floor_layers.len(), 1);
    assert_eq!(map.shadow_layers.len(), 1);
    assert_eq!(map.tag_layers.len(), 0);
    assert_eq!(map.objects.len(), 0);
    assert_eq!(map.tag_groups.len(), 0);
    assert_eq!(
        map.wall_layers[0].get(0, 0),
        Some(WallCell { prop1: 1, prop2: 2, prop3: 3, prop4: 4, orientation: 2 })
    );
    assert_eq!(
        map.floor_layers[0].get(0, 0),
        Some(FloorCell { prop1: 5, prop2: 6, prop3: 7, prop4: 8 })
    );
    assert_eq!(
        map.shadow_layers[0].get(0, 0),
        Some(ShadowCell { prop1: 10, prop2: 11, prop3: 12, prop4: 13 })
    );
    assert_eq!(map.wall_layers[0].get(1, 0), None);
    assert_eq!(map.wall_layers[0].get(0, 1), None);
}

#[test]
fn orientation_remap_boundary() {
    assert_eq!(map_orientation(6, 2), Some(0x02));
    assert_eq!(map_orientation(7, 2), Some(0x02));
    assert_eq!(map_orientation(6, 3), Some(0x01));
    assert_eq!(map_orientation(7, 3), Some(0x03));
    assert_eq!(map_orientation(0, 0), Some(0x00));
    assert_eq!(map_orientation(6, 24), Some(0x14));
    assert_eq!(map_orientation(6, 25), None);
    assert_eq!(map_orientation(6, 255), None);
    assert_eq!(map_orientation(7, 25), Some(25));
    assert_eq!(map_orientation(7, 255), Some(255));
}

#[test]
fn orientation_table_has_its_25_entries() {
    let table: [u8; 25] = [
        0x00, 0x01, 0x02, 0x01, 0x02, 0x03, 0x03, 0x05, 0x05, 0x06, 0x06, 0x07, 0x07, 0x08, 0x09,
        0x0A, 0x0B, 0x0C, 0x0D, 0x0E, 0x0F, 0x10, 0x11, 0x12, 0x14,
    ];
    for raw in 0..25u8 {
        assert_eq!(map_orientation(1, raw), Some(table[raw as usize]));
    }
}

#[test]
fn version_3_has_file_references_and_version_2_has_none() {
    // Version 3: the count and two names stand between header and layers.
    let mut b = Vec::new();
    put_u32(&mut b, 3);
    put_u32(&mut b, 0);
    put_u32(&mut b, 0);
    put_u32(&mut b, 2);
    b.extend_from_slice(b"tiles\\a.dt1\0");
    b.extend_from_slice(b"\0");
    b.extend_from_slice(&minimal_v1()[12..]);
    put_u32(&mut b, 0); // objects
    let map = Ds1::from(&b).unwrap();
    assert_eq!(map.file_names, vec!["tiles\\a.dt1".to_string(), String::new()]);
    assert_eq!(
        map.shadow_layers[0].get(0, 0),
        Some(ShadowCell { prop1: 10, prop2: 11, prop3: 12, prop4: 13 })
    );

    // Version 2: the layers follow the header at once.
    let mut b = Vec::new();
    put_u32(&mut b, 2);
    put_u32(&mut b, 0);
    put_u32(&mut b, 0);
    b.extend_from_slice(&minimal_v1()[12..]);
    put_u32(&mut b, 0); // objects
    let map = Ds1::from(&b).unwrap();
    assert!(map.file_names.is_empty());
    assert_eq!(
        map.wall_layers[0].get(0, 0),
        Some(WallCell { prop1: 1, prop2: 2, prop3: 3, prop4: 4, orientation: 2 })
    );
}

#[test]
fn bytes_above_127_become_characters_of_that_code() {
    let mut b = Vec::new();
    put_u32(&mut b, 3);
    put_u32(&mut b, 0);
    put_u32(&mut b, 0);
    put_u32(&mut b, 1);
    b.extend_from_slice(&[b'a', 0xE9, 0]);
    b.extend_from_slice(&minimal_v1()[12..]);
    put_u32(&mut b, 0);
    let map = Ds1::from(&b).unwrap();
    assert_eq!(map.file_names, vec!["a\u{e9}".to_string()]);
}

#[test]
fn versions_9_to_13_pass_over_eight_reserved_bytes() {
    for version in [8u32, 9, 10, 11, 12, 13, 14] {
        let mut b = one_cell_file(version, 0);
        put_u32(&mut b, 0); // objects
        let header = 12 + 4 + if version >= 10 { 4 } else { 0 } + 4;
        let reserved = if (9..=13).contains(&version) { 8 } else { 0 };
        assert_eq!(b.len(), header + reserved + 4 + 16 + 4, "version {}", version);
        let map = Ds1::from(&b).unwrap();
        assert_eq!(map.version, version);
        assert_eq!(map.act, 3);
        check_one_cell_layers(&map, version);
    }
}

#[test]
fn reserved_bytes_are_not_taken_for_layers() {
    // The same bytes under version 8 and under version 9: what version 9
    // passes over, version 8 reads as the number of wall layers.
    let mut b = one_cell_file(9, 0);
    put_u32(&mut b, 0);
    assert!(Ds1::from(&b).is_ok());
    b[0] = 8;
    assert_eq!(Ds1::from(&b).err(), Some(FormatError::Truncated));
}

#[test]
fn tag_groups_cut_short_inside_the_third_group() {
    let mut b = one_cell_file(12, 1);
    put_u32(&mut b, 0); // objects
    put_u32(&mut b, 3); // announced groups
    for g in 0..2u32 {
        put_u32(&mut b, 10 + g);
        put_u32(&mut b, 20 + g);
        put_u32(&mut b, 30 + g);
        put_u32(&mut b, 40 + g);
    }
    put_u32(&mut b, 12); // tile_x of the third group
    b.extend_from_slice(&[1, 2]); // half of its tile_y
    let map = Ds1::from(&b).unwrap();
    assert_eq!(map.tag_type, 1);
    assert_eq!(map.tag_layers.len(), 1);
    assert_eq!(map.tag_layers[0].get(0, 0), Some(TagCell { prop1: 0xDEAD_BEEF }));
    assert_eq!(
        map.tag_groups,
        vec![
            TagGroup { tile_x: 10, tile_y: 20, width: 30, height: 40, unknown: 0 },
            TagGroup { tile_x: 11, tile_y: 21, width: 31, height: 41, unknown: 0 },
        ]
    );
}

#[test]
fn tag_groups_cut_short_at_a_record_boundary() {
    let mut b = one_cell_file(13, 2);
    put_u32(&mut b, 0);
    put_u32(&mut b, 5);
    for f in [1u32, 2, 3, 4, 5] {
        put_u32(&mut b, f);
    }
    let mut cur = ByteCursor::new(&b);
    cur.seek(b.len() - 24).unwrap();
    let (groups, cut_short) = Ds1::read_tag_groups(&mut cur, 13, 2).unwrap();
    assert!(cut_short);
    assert_eq!(
        groups,
        vec![TagGroup { tile_x: 1, tile_y: 2, width: 3, height: 4, unknown: 5 }]
    );
    let map = Ds1::from(&b).unwrap();
    assert_eq!(map.tag_groups.len(), 1);
}

#[test]
fn tag_groups_need_version_12_and_a_tag_type() {
    let mut b = Vec::new();
    put_u32(&mut b, 7);
    let mut cur = ByteCursor::new(&b);
    assert_eq!(Ds1::read_tag_groups(&mut cur, 11, 1).unwrap(), (vec![], false));
    assert_eq!(Ds1::read_tag_groups(&mut cur, 12, 0).unwrap(), (vec![], false));
    assert_eq!(Ds1::read_tag_groups(&mut cur, 12, 3).unwrap(), (vec![], false));
    assert_eq!(cur.position(), 0);
    // Version 18 passes over four bytes before the count, which are missing.
    assert_eq!(
        Ds1::read_tag_groups(&mut cur, 18, 1).err(),
        Some(FormatError::Truncated)
    );
    // Version 12 reads the count at once: 7 groups announced, none there.
    assert_eq!(Ds1::read_tag_groups(&mut cur, 12, 2).unwrap(), (vec![], true));
}

#[test]
fn version_18_tag_groups_follow_four_reserved_bytes() {
    let mut b = one_cell_file(18, 1);
    put_u32(&mut b, 0); // objects
    put_u32(&mut b, 0x7777_7777); // reserved
    put_u32(&mut b, 1);
    for f in [6u32, 7, 8, 9, 10] {
        put_u32(&mut b, f);
    }
    let map = Ds1::from(&b).unwrap();
    assert_eq!(
        map.tag_groups,
        vec![TagGroup { tile_x: 6, tile_y: 7, width: 8, height: 9, unknown: 10 }]
    );
    assert_eq!(map.objects.len(), 0);
}

fn three_objects(b: &mut Vec<u8>) {
    put_u32(b, 3);
    for (n, (x, y)) in [(5u32, 6u32), (1, 1), (5, 6)].iter().enumerate() {
        put_u32(b, 100 + n as u32); // type
        put_u32(b, 200 + n as u32); // id
        put_u32(b, *x);
        put_u32(b, *y);
        put_u32(b, 300 + n as u32); // flags
    }
}

#[test]
fn paths_go_to_every_object_at_their_position() {
    let mut b = one_cell_file(18, 0);
    three_objects(&mut b);
    put_u32(&mut b, 3); // path groups
    // Two nodes for the objects at (5, 6).
    put_u32(&mut b, 2);
    put_u32(&mut b, 5);
    put_u32(&mut b, 6);
    for f in [7u32, 8, 9, 17, 18, 19] {
        put_u32(&mut b, f);
    }
    // One node for a position without an object: passed over.
    put_u32(&mut b, 1);
    put_u32(&mut b, 9);
    put_u32(&mut b, 9);
    for f in [1u32, 2, 3] {
        put_u32(&mut b, f);
    }
    // One more node for the objects at (5, 6).
    put_u32(&mut b, 1);
    put_u32(&mut b, 5);
    put_u32(&mut b, 6);
    for f in [27u32, 28, 29] {
        put_u32(&mut b, f);
    }
    let map = Ds1::from(&b).unwrap();
    let path = vec![
        PathNode { x: 7, y: 8, action: 9 },
        PathNode { x: 17, y: 18, action: 19 },
        PathNode { x: 27, y: 28, action: 29 },
    ];
    assert_eq!(
        map.objects,
        vec![
            Object { type_: 100, id: 200, x: 5, y: 6, flags: 300, path_nodes: path.clone() },
            Object { type_: 101, id: 201, x: 1, y: 1, flags: 301, path_nodes: vec![] },
            Object { type_: 102, id: 202, x: 5, y: 6, flags: 302, path_nodes: path },
        ]
    );
}

#[test]
fn nodes_before_version_15_have_action_1() {
    let mut b = one_cell_file(14, 0);
    three_objects(&mut b);
    put_u32(&mut b, 1);
    put_u32(&mut b, 2);
    put_u32(&mut b, 1);
    put_u32(&mut b, 1);
    for f in [7u32, 8, 17, 18] {
        put_u32(&mut b, f);
    }
    let map = Ds1::from(&b).unwrap();
    assert!(map.objects[0].path_nodes.is_empty());
    assert_eq!(
        map.objects[1].path_nodes,
        vec![PathNode { x: 7, y: 8, action: 1 }, PathNode { x: 17, y: 18, action: 1 }]
    );
}

#[test]
fn file_that_ends_behind_its_tag_groups_has_no_paths() {
    let mut b = one_cell_file(18, 0);
    three_objects(&mut b);
    let map = Ds1::from(&b).unwrap();
    assert_eq!(map.objects.len(), 3);
    assert!(map.objects.iter().all(|o| o.path_nodes.is_empty()));
    assert_eq!(map.tag_groups.len(), 0);
}

#[test]
fn path_section_cut_short_is_truncated() {
    let mut b = one_cell_file(18, 0);
    three_objects(&mut b);
    b.extend_from_slice(&[1, 0]);
    assert_eq!(Ds1::from(&b).err(), Some(FormatError::Truncated));
    let mut b = one_cell_file(18, 0);
    three_objects(&mut b);
    put_u32(&mut b, 1);
    put_u32(&mut b, 2);
    put_u32(&mut b, 5);
    put_u32(&mut b, 6);
    for f in [7u32, 8, 9, 17, 18] {
        put_u32(&mut b, f);
    }
    assert_eq!(Ds1::from(&b).err(), Some(FormatError::Truncated));
}

#[test]
fn objects_before_version_5_have_no_flags() {
    let mut b = Vec::new();
    put_u32(&mut b, 2);
    for f in [1u32, 2, 3, 4, 5, 6, 7, 8] {
        put_u32(&mut b, f);
    }
    let mut cur = ByteCursor::new(&b);
    let objects = Ds1::read_objects(&mut cur, 4).unwrap();
    assert_eq!(
        objects,
        vec![
            Object { type_: 1, id: 2, x: 3, y: 4, flags: 0, path_nodes: vec![] },
            Object { type_: 5, id: 6, x: 7, y: 8, flags: 0, path_nodes: vec![] },
        ]
    );
    assert_eq!(cur.position(), 36);
    let mut cur = ByteCursor::new(&b);
    assert_eq!(Ds1::read_objects(&mut cur, 5).err(), Some(FormatError::Truncated));
    let mut cur = ByteCursor::new(&b);
    assert_eq!(Ds1::read_objects(&mut cur, 1).unwrap(), vec![]);
    assert_eq!(cur.position(), 0);
}

#[test]
fn attach_nodes_appends_in_order() {
    let mut objects = vec![
        Object { type_: 0, id: 0, x: 1, y: 2, flags: 0, path_nodes: vec![PathNode { x: 0, y: 0, action: 0 }] },
        Object { type_: 0, id: 1, x: 2, y: 1, flags: 0, path_nodes: vec![] },
    ];
    let nodes = vec![PathNode { x: 1, y: 1, action: 1 }, PathNode { x: 2, y: 2, action: 2 }];
    Ds1::attach_nodes(&mut objects, 1, 2, &nodes);
    assert_eq!(
        objects[0].path_nodes,
        vec![
            PathNode { x: 0, y: 0, action: 0 },
            PathNode { x: 1, y: 1, action: 1 },
            PathNode { x: 2, y: 2, action: 2 },
        ]
    );
    assert!(objects[1].path_nodes.is_empty());
}

#[test]
fn two_wall_layers_of_two_by_three_cells() {
    let (w, h) = (2u32, 3u32);
    let mut b = Vec::new();
    put_u32(&mut b, 4);
    put_u32(&mut b, w - 1);
    put_u32(&mut b, h - 1);
    put_u32(&mut b, 0); // file references
    put_u32(&mut b, 2); // wall layers
    for layer in 0..2u8 {
        for cell in 0..6u8 {
            b.extend_from_slice(&[layer, cell, 0x10 + cell, 0x20 + cell]);
        }
        for cell in 0..6u8 {
            b.extend_from_slice(&[3 + cell + layer, 0xFF, 0xFF, 0xFF]);
        }
    }
    for cell in 0..6u8 {
        b.extend_from_slice(&[0x40 + cell, 1, 2, 3]);
    }
    for cell in 0..6u8 {
        b.extend_from_slice(&[0x50 + cell, 4, 5, 6]);
    }
    put_u32(&mut b, 0); // objects
    let map = Ds1::from(&b).unwrap();
    assert_eq!((map.width, map.height), (2, 3));
    assert_eq!(map.wall_layers.len(), 2);
    assert_eq!(map.floor_layers.len(), 1);
    let table = [0x00u8, 0x01, 0x02, 0x01, 0x02, 0x03, 0x03, 0x05, 0x05, 0x06];
    for layer in 0..2u8 {
        let l: &Layer<WallCell> = &map.wall_layers[layer as usize];
        assert_eq!((l.width, l.height), (2, 3));
        for y in 0..3u32 {
            for x in 0..2u32 {
                let cell = (y * 2 + x) as u8;
                assert_eq!(
                    l.get(x, y),
                    Some(WallCell {
                        prop1: layer,
                        prop2: cell,
                        prop3: 0x10 + cell,
                        prop4: 0x20 + cell,
                        orientation: table[(3 + cell + layer) as usize],
                    })
                );
            }
        }
        assert_eq!(l.get(2, 0), None);
        assert_eq!(l.get(0, 3), None);
    }
    assert_eq!(
        map.floor_layers[0].get(1, 2),
        Some(FloorCell { prop1: 0x45, prop2: 1, prop3: 2, prop4: 3 })
    );
    assert_eq!(
        map.shadow_layers[0].get(0, 1),
        Some(ShadowCell { prop1: 0x52, prop2: 4, prop3: 5, prop4: 6 })
    );
}

#[test]
fn file_without_wall_or_floor_layers() {
    let mut b = Vec::new();
    put_u32(&mut b, 16);
    put_u32(&mut b, 0);
    put_u32(&mut b, 0);
    put_u32(&mut b, 9); // act, capped at 5
    put_u32(&mut b, 0); // tag type
    put_u32(&mut b, 0); // file references
    put_u32(&mut b, 0); // wall layers
    put_u32(&mut b, 0); // floor layers
    b.extend_from_slice(&[1, 1, 1, 1]); // shadow
    put_u32(&mut b, 0); // objects
    let map = Ds1::from(&b).unwrap();
    assert_eq!(map.act, 5);
    assert_eq!(map.wall_layers.len(), 0);
    assert_eq!(map.floor_layers.len(), 0);
    assert_eq!(map.shadow_layers.len(), 1);
}

#[test]
fn act_is_stored_less_one() {
    for (raw, act) in [(0u32, 1u32), (1, 2), (3, 4), (4, 5), (5, 5), (u32::MAX, 5)] {
        let mut b = one_cell_file(8, 0);
        b[12..16].copy_from_slice(&raw.to_le_bytes());
        put_u32(&mut b, 0);
        assert_eq!(Ds1::from(&b).unwrap().act, act);
    }
}

#[test]
fn raw_orientation_without_table_entry_is_malformed() {
    let mut b = one_cell_file(6, 0);
    put_u32(&mut b, 0);
    assert!(Ds1::from(&b).is_ok());
    let orientation_at = 12 + 4 + 4 + 4;
    assert_eq!(b[orientation_at], 3);
    b[orientation_at] = 25;
    assert_eq!(Ds1::from(&b).err(), Some(FormatError::Malformed));
    // From version 7 on the same byte is an orientation like any other.
    let mut b = one_cell_file(7, 0);
    put_u32(&mut b, 0);
    b[orientation_at] = 25;
    assert_eq!(
        Ds1::from(&b).unwrap().wall_layers[0].get(0, 0).unwrap().orientation,
        25
    );
    // The bad byte is met before the end of a file that is also too short.
    let mut b = one_cell_file(6, 0);
    b[orientation_at] = 200;
    b.truncate(orientation_at + 2);
    assert_eq!(Ds1::from(&b).err(), Some(FormatError::Malformed));
}

#[test]
fn size_that_does_not_fit_is_malformed() {
    let mut b = minimal_v1();
    b[4..8].copy_from_slice(&u32::MAX.to_le_bytes());
    assert_eq!(Ds1::from(&b).err(), Some(FormatError::Malformed));
    let mut b = minimal_v1();
    b[8..12].copy_from_slice(&u32::MAX.to_le_bytes());
    assert_eq!(Ds1::from(&b).err(), Some(FormatError::Malformed));
    let mut b = minimal_v1();
    b[4..8].copy_from_slice(&(u32::MAX - 1).to_le_bytes());
    b[8..12].copy_from_slice(&(u32::MAX - 1).to_le_bytes());
    assert_eq!(Ds1::from(&b).err(), Some(FormatError::Malformed));
}

#[test]
fn every_cut_of_a_file_without_soft_end_is_truncated() {
    let whole = minimal_v1();
    for len in 0..whole.len() {
        assert_eq!(
            Ds1::from(&whole[..len]).err(),
            Some(FormatError::Truncated),
            "length {}",
            len
        );
    }
    let mut whole = one_cell_file(11, 2);
    put_u32(&mut whole, 0);
    assert!(Ds1::from(&whole).is_ok());
    for len in 0..whole.len() {
        assert_eq!(
            Ds1::from(&whole[..len]).err(),
            Some(FormatError::Truncated),
            "length {}",
            len
        );
    }
}

#[test]
fn large_map_in_a_small_file_is_truncated() {
    let mut b = minimal_v1();
    b[4..8].copy_from_slice(&9999u32.to_le_bytes());
    b[8..12].copy_from_slice(&9999u32.to_le_bytes());
    assert_eq!(Ds1::from(&b).err(), Some(FormatError::Truncated));
}

#[test]
fn new_layer_is_blank() {
    let layer: Layer<TagCell> = Layer::new(3, 2);
    assert_eq!((layer.width, layer.height), (3, 2));
    for y in 0..2 {
        for x in 0..3 {
            assert_eq!(layer.get(x, y), Some(TagCell { prop1: 0 }));
        }
    }
    assert_eq!(layer.get(3, 0), None);
    let walls: Layer<WallCell> = Layer::new(1, 1);
    assert_eq!(
        walls.get(0, 0),
        Some(WallCell { prop1: 0, prop2: 0, prop3: 0, prop4: 0, orientation: 0 })
    );
}

#[test]
fn wall_cells_keep_their_orientation() {
    let mut layer: Layer<WallCell> = Layer::new(1, 2);
    let bytes = [2u8, 0, 0, 0, 5, 0, 0, 0, 9, 8, 7, 6, 5, 4, 3, 2];
    let mut cur = ByteCursor::new(&bytes);
    Ds1::read_wall_cells_orientation(&mut cur, &mut layer, 1).unwrap();
    assert_eq!(cur.position(), 8);
    assert_eq!(
        layer.get(0, 0),
        Some(WallCell { prop1: 0, prop2: 0, prop3: 0, prop4: 0, orientation: 2 })
    );
    // The materials come in; the orientations stay.
    Ds1::read_wall_cells(&mut cur, &mut layer).unwrap();
    assert_eq!(cur.position(), 16);
    assert_eq!(
        layer.get(0, 0),
        Some(WallCell { prop1: 9, prop2: 8, prop3: 7, prop4: 6, orientation: 2 })
    );
    assert_eq!(
        layer.get(0, 1),
        Some(WallCell { prop1: 5, prop2: 4, prop3: 3, prop4: 2, orientation: 3 })
    );
    // The orientations come in again, of a later version; the materials stay.
    let mut cur = ByteCursor::new(&bytes);
    Ds1::read_wall_cells_orientation(&mut cur, &mut layer, 7).unwrap();
    assert_eq!(
        layer.get(0, 1),
        Some(WallCell { prop1: 5, prop2: 4, prop3: 3, prop4: 2, orientation: 5 })
    );
    // A block that is too short changes nothing.
    let mut cur = ByteCursor::new(&bytes[..7]);
    assert_eq!(
        Ds1::read_wall_cells(&mut cur, &mut layer).err(),
        Some(FormatError::Truncated)
    );
    assert_eq!(cur.position(), 0);
    assert_eq!(
        layer.get(0, 0),
        Some(WallCell { prop1: 9, prop2: 8, prop3: 7, prop4: 6, orientation: 2 })
    );
}

#[test]
fn truncated_header() {
    assert_eq!(Ds1::from(&[1, 0, 0]).err(), Some(FormatError::Truncated));
    assert_eq!(Ds1::from(&[]).err(), Some(FormatError::Truncated));
}

#[test]
fn what_each_version_has() {
    assert!(!Ds1::has_file_references(2));
    assert!(Ds1::has_file_references(3));
    assert!(!Ds1::has_reserved_words(8));
    for version in 9..=13 {
        assert!(Ds1::has_reserved_words(version));
    }
    assert!(!Ds1::has_reserved_words(14));
    assert!(!Ds1::has_act(7) && Ds1::has_act(8));
    assert!(!Ds1::has_tag_type(9) && Ds1::has_tag_type(10));
    assert!(!Ds1::has_wall_count(3) && Ds1::has_wall_count(4));
    assert!(!Ds1::has_floor_count(15) && Ds1::has_floor_count(16));
    assert!(!Ds1::has_objects(1) && Ds1::has_objects(2));
    assert!(!Ds1::has_object_flags(4) && Ds1::has_object_flags(5));
    assert!(Ds1::remaps_orientation(6) && !Ds1::remaps_orientation(7));
    assert!(!Ds1::has_tag_group_unknown(12) && Ds1::has_tag_group_unknown(13));
    assert!(!Ds1::has_node_action(14) && Ds1::has_node_action(15));
    assert!(!Ds1::has_tag_group_pad(17) && Ds1::has_tag_group_pad(18));
    for tag_type in [0u32, 1, 2, 3] {
        let asks = tag_type == 1 || tag_type == 2;
        assert_eq!(Ds1::has_tag_layer(10, tag_type), asks);
        assert!(!Ds1::has_tag_layer(9, tag_type));
        assert_eq!(Ds1::has_tag_groups(12, tag_type), asks);
        assert!(!Ds1::has_tag_groups(11, tag_type));
    }
}

#[test]
fn errors_name_their_section() {
    let fault = |bytes: &[u8]| Ds1::decode(bytes).err();
    let truncated = |section| Some(Fault { error: FormatError::Truncated, section });
    let malformed = |section| Some(Fault { error: FormatError::Malformed, section });

    // Version 18 with a tag layer, three objects and one path group.
    let mut whole = one_cell_file(18, 1);
    let layers_end = whole.len();
    three_objects(&mut whole);
    let objects_end = whole.len();
    put_u32(&mut whole, 0); // reserved
    put_u32(&mut whole, 0); // tag groups
    let groups_end = whole.len();
    put_u32(&mut whole, 1);
    for f in [1u32, 5, 6, 7, 8, 9] {
        put_u32(&mut whole, f);
    }
    assert!(Ds1::decode(&whole).is_ok());
    assert_eq!(Ds1::from(&whole).unwrap().objects[0].path_nodes.len(), 1);

    assert_eq!(fault(&whole[..11]), truncated(Section::Header));
    assert_eq!(fault(&whole[..19]), truncated(Section::Header));
    assert_eq!(fault(&whole[..22]), truncated(Section::FileReferences));
    assert_eq!(fault(&whole[..24]), truncated(Section::LayerCounts));
    assert_eq!(fault(&whole[..31]), truncated(Section::LayerCounts));
    assert_eq!(fault(&whole[..32]), truncated(Section::Layers));
    assert_eq!(fault(&whole[..layers_end - 1]), truncated(Section::Layers));
    assert_eq!(fault(&whole[..layers_end]), truncated(Section::Objects));
    assert_eq!(fault(&whole[..objects_end - 1]), truncated(Section::Objects));
    assert_eq!(fault(&whole[..objects_end + 7]), truncated(Section::TagGroups));
    assert_eq!(fault(&whole[..groups_end]), None);
    assert_eq!(fault(&whole[..groups_end + 3]), truncated(Section::Paths));
    assert_eq!(fault(&whole[..whole.len() - 1]), truncated(Section::Paths));

    let mut bad = whole.clone();
    bad[4..8].copy_from_slice(&u32::MAX.to_le_bytes());
    assert_eq!(fault(&bad), malformed(Section::Header));
    assert_eq!(Ds1::from(&bad).err(), Some(FormatError::Malformed));

    // A string without its end.
    let mut names = Vec::new();
    for f in [3u32, 0, 0, 1] {
        put_u32(&mut names, f);
    }
    names.extend_from_slice(b"abc");
    assert_eq!(fault(&names), truncated(Section::FileReferences));

    // The reserved bytes of version 9.
    let v9 = one_cell_file(9, 0);
    assert_eq!(fault(&v9[..20]), truncated(Section::ReservedBytes));
    assert_eq!(fault(&v9[..27]), truncated(Section::ReservedBytes));
    assert_eq!(fault(&v9[..28]), truncated(Section::LayerCounts));

    // A raw orientation without a table entry.
    let mut v6 = one_cell_file(6, 0);
    v6[12 + 4 + 4 + 4] = 99;
    assert_eq!(fault(&v6), malformed(Section::Layers));

    assert_eq!(Section::Layers.name(), "the layers");
    assert_eq!(Section::Header.name(), "the header");
}
