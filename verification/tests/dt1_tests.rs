use d2fileformats::dt1::{
    decode_isometric, decode_pixels, decode_standard, Dt1, SubTile, SubTilePixel, TileFormat,
};
use d2fileformats::error::{Fault, FormatError, Section};

fn put_u16(out: &mut Vec<u8>, v: u16) {
    out.extend_from_slice(&v.to_le_bytes());
}

fn put_u32(out: &mut Vec<u8>, v: u32) {
    out.extend_from_slice(&v.to_le_bytes());
}

fn px(x: u64, y: u64, index: u8) -> SubTilePixel {
    SubTilePixel { x, y, index }
}

#[test]
fn format_values() {
    assert_eq!(TileFormat::from_u16(0), TileFormat::Standard);
    assert_eq!(TileFormat::from_u16(1), TileFormat::Isometric);
    assert_eq!(TileFormat::from_u16(2), TileFormat::Unknown(2));
    assert_eq!(TileFormat::from_u16(0xFFFF), TileFormat::Unknown(0xFFFF));
}

#[test]
fn isometric_block_of_sequential_indices() {
    let block: Vec<u8> = (0..=255u8).collect();
    let pixels = decode_isometric(&block).unwrap();
    assert_eq!(pixels.len(), 256);
    assert_eq!(&pixels[..4], &[px(14, 0, 0), px(15, 0, 1), px(16, 0, 2), px(17, 0, 3)]);
    // Row 1 holds eight pixels from column 12 on.
    assert_eq!(pixels[4], px(12, 1, 4));
    assert_eq!(pixels[11], px(19, 1, 11));
    // Row 7 is the widest: 32 pixels from column 0 on.
    assert_eq!(pixels[112], px(0, 7, 112));
    assert_eq!(pixels[143], px(31, 7, 143));
    assert_eq!(pixels[144], px(2, 8, 144));
    // Row 14 holds the last four.
    assert_eq!(&pixels[252..], &[px(14, 14, 252), px(15, 14, 253), px(16, 14, 254), px(17, 14, 255)]);
    let row_pixels = [4usize, 8, 12, 16, 20, 24, 28, 32, 28, 24, 20, 16, 12, 8, 4];
    let x_jumps = [14u64, 12, 10, 8, 6, 4, 2, 0, 2, 4, 6, 8, 10, 12, 14];
    let mut at = 0;
    for row in 0..15 {
        for k in 0..row_pixels[row] {
            assert_eq!(pixels[at], px(x_jumps[row] + k as u64, row as u64, at as u8));
            at += 1;
        }
    }
    assert_eq!(at, 256);
}

#[test]
fn isometric_block_of_another_length() {
    assert_eq!(decode_isometric(&[0u8; 255]).err(), Some(FormatError::UnexpectedBlockSize));
    assert_eq!(decode_isometric(&[0u8; 257]).err(), Some(FormatError::UnexpectedBlockSize));
    assert_eq!(decode_isometric(&[]).err(), Some(FormatError::UnexpectedBlockSize));
}

#[test]
fn standard_block() {
    // Row 0: leave 2 out, then 3 pixels; leave 1 out, then 1 pixel. Row 1:
    // empty. Row 2: 2 pixels from the left edge.
    let block = [2u8, 3, 10, 11, 12, 1, 1, 13, 0, 0, 0, 0, 0, 2, 20, 21, 0, 0];
    assert_eq!(
        decode_standard(&block).unwrap(),
        vec![
            px(2, 0, 10),
            px(3, 0, 11),
            px(4, 0, 12),
            px(6, 0, 13),
            px(0, 2, 20),
            px(1, 2, 21),
        ]
    );
}

#[test]
fn standard_block_edges() {
    assert_eq!(decode_standard(&[]).unwrap(), vec![]);
    // A single byte left over is no pair.
    assert_eq!(decode_standard(&[7]).unwrap(), vec![]);
    assert_eq!(decode_standard(&[0, 1, 5, 9]).unwrap(), vec![px(0, 0, 5)]);
    // A skip without pixels only moves on.
    assert_eq!(decode_standard(&[4, 0, 1, 1, 8]).unwrap(), vec![px(5, 0, 8)]);
    // A run that the block does not hold.
    assert_eq!(decode_standard(&[0, 2, 5]).err(), Some(FormatError::Truncated));
    assert_eq!(decode_standard(&[0, 1]).err(), Some(FormatError::Truncated));
}

#[test]
fn blocks_by_format() {
    let block = [0u8, 1, 5];
    assert_eq!(decode_pixels(TileFormat::Standard, &block).unwrap(), vec![px(0, 0, 5)]);
    assert_eq!(
        decode_pixels(TileFormat::Isometric, &block).err(),
        Some(FormatError::UnexpectedBlockSize)
    );
    assert_eq!(decode_pixels(TileFormat::Unknown(9), &block).unwrap(), vec![]);
}

fn header(version1: u32, version2: u32, tiles: u32) -> Vec<u8> {
    let mut b = Vec::new();
    put_u32(&mut b, version1);
    put_u32(&mut b, version2);
    b.extend_from_slice(&[0u8; 260]);
    put_u32(&mut b, tiles);
    b
}

fn put_tile(b: &mut Vec<u8>, seed: u32, pointer: u32, sub_tiles: u32) {
    put_u32(b, seed); // direction
    put_u16(b, 0x1122); // roof height
    put_u16(b, 0x3344); // material flags
    b.extend_from_slice(&(-80i32).to_le_bytes()); // height
    b.extend_from_slice(&160i32.to_le_bytes()); // width
    b.extend_from_slice(&[0xEE; 4]);
    put_u32(b, seed + 1); // type
    put_u32(b, seed + 2); // style
    put_u32(b, seed + 3); // sequence
    put_u32(b, seed + 4); // rarity
    b.extend_from_slice(&[0xEE; 4]);
    for f in 0..25u8 {
        b.push(f + 1);
    }
    b.extend_from_slice(&[0xEE; 7]);
    put_u32(b, pointer);
    put_u32(b, 0x999);
    put_u32(b, sub_tiles);
    b.extend_from_slice(&[0xEE; 12]);
}

fn put_sub_tile(b: &mut Vec<u8>, x: i16, y: i16, format: u16, length: u32, file_offset: u32) {
    b.extend_from_slice(&x.to_le_bytes());
    b.extend_from_slice(&y.to_le_bytes());
    b.extend_from_slice(&[0xEE; 2]);
    b.push(3); // grid x
    b.push(4); // grid y
    put_u16(b, format);
    put_u32(b, length);
    b.extend_from_slice(&[0xEE; 2]);
    put_u32(b, file_offset);
}

/// Two tiles; the table of the first lists a standard and an unknown block,
/// that of the second an isometric block.
fn two_tiles() -> Vec<u8> {
    let mut b = header(7, 6, 2);
    let tables = 272 + 2 * 96;
    put_tile(&mut b, 10, tables, 2);
    put_tile(&mut b, 20, tables + 40 + 6, 1);
    assert_eq!(b.len() as u32, tables);
    put_sub_tile(&mut b, -16, 32, 0, 3, 40);
    put_sub_tile(&mut b, 5, -5, 7, 3, 43);
    b.extend_from_slice(&[0, 1, 99]);
    b.extend_from_slice(&[1, 2, 3]);
    put_sub_tile(&mut b, 0, 0, 1, 256, 20);
    b.extend((0..=255u8).map(|i| 255 - i));
    b
}

#[test]
fn whole_tile_set() {
    let dt1 = Dt1::from(&two_tiles()).unwrap();
    assert_eq!((dt1.version1, dt1.version2), (7, 6));
    assert!(dt1.has_expected_version());
    assert_eq!(dt1.tiles.len(), 2);
    let tile = &dt1.tiles[0];
    assert_eq!(tile.direction, 10);
    assert_eq!(tile.roof_height, 0x1122);
    assert_eq!(tile.material_flags, 0x3344);
    assert_eq!(tile.height, -80);
    assert_eq!(tile.width, 160);
    assert_eq!(tile.tile_type, 11);
    assert_eq!(tile.style, 12);
    assert_eq!(tile.sequence, 13);
    assert_eq!(tile.rarity_frame_index, 14);
    let flags: Vec<u8> = (1..=25).collect();
    assert_eq!(tile.subtile_flags.to_vec(), flags);
    assert_eq!(tile.sub_tiles_header_pointer, 272 + 192);
    assert_eq!(tile.sub_tiles_header_size, 0x999);
    assert_eq!(tile.num_sub_tiles, 2);
    assert_eq!(
        tile.sub_tiles,
        vec![
            SubTile {
                x: -16,
                y: 32,
                grid_x: 3,
                grid_y: 4,
                format: TileFormat::Standard,
                length: 3,
                file_offset: 40,
                encoded_data: vec![0, 1, 99],
                decoded_pixels: vec![px(0, 0, 99)],
            },
            SubTile {
                x: 5,
                y: -5,
                grid_x: 3,
                grid_y: 4,
                format: TileFormat::Unknown(7),
                length: 3,
                file_offset: 43,
                encoded_data: vec![1, 2, 3],
                decoded_pixels: vec![],
            },
        ]
    );
    let tile = &dt1.tiles[1];
    assert_eq!(tile.direction, 20);
    assert_eq!(tile.sub_tiles.len(), 1);
    let sub = &tile.sub_tiles[0];
    assert_eq!(sub.format, TileFormat::Isometric);
    assert_eq!(sub.encoded_data.len(), 256);
    assert_eq!(sub.decoded_pixels.len(), 256);
    assert_eq!(sub.decoded_pixels[0], px(14, 0, 255));
    assert_eq!(sub.decoded_pixels[255], px(17, 14, 0));
}

#[test]
fn other_versions_are_decoded_all_the_same() {
    let mut b = two_tiles();
    b[0] = 9;
    b[4] = 9;
    let dt1 = Dt1::from(&b).unwrap();
    assert_eq!((dt1.version1, dt1.version2), (9, 9));
    assert!(!dt1.has_expected_version());
    assert_eq!(dt1.tiles.len(), 2);
}

#[test]
fn tile_set_without_tiles() {
    let dt1 = Dt1::from(&header(7, 6, 0)).unwrap();
    assert!(dt1.tiles.is_empty());
}

#[test]
fn isometric_block_of_wrong_length_fails_the_file() {
    let mut b = header(7, 6, 1);
    put_tile(&mut b, 1, 272 + 96, 1);
    put_sub_tile(&mut b, 0, 0, 1, 4, 20);
    b.extend_from_slice(&[1, 2, 3, 4]);
    assert_eq!(Dt1::from(&b).err(), Some(FormatError::UnexpectedBlockSize));
}

#[test]
fn short_tile_sets_are_truncated() {
    let whole = two_tiles();
    assert!(Dt1::from(&whole).is_ok());
    for len in [0, 7, 271, 272, 272 + 95, 272 + 192, 272 + 192 + 19, 272 + 192 + 42, whole.len() - 1] {
        assert_eq!(
            Dt1::from(&whole[..len]).err(),
            Some(FormatError::Truncated),
            "length {}",
            len
        );
    }
    // A table far behind the end of the file.
    let mut b = header(7, 6, 1);
    put_tile(&mut b, 1, 0xFFFF_FFFF, 0xFFFF_FFFF);
    assert_eq!(Dt1::from(&b).err(), Some(FormatError::Truncated));
    // A block far behind the end of the file.
    let mut b = header(7, 6, 1);
    put_tile(&mut b, 1, 272 + 96, 1);
    put_sub_tile(&mut b, 0, 0, 0, 0xFFFF_FFFF, 0xFFFF_FFFF);
    assert_eq!(Dt1::from(&b).err(), Some(FormatError::Truncated));
}

#[test]
fn tile_set_errors_name_their_section() {
    let at = |error, section| Some(Fault { error, section });
    let whole = two_tiles();
    assert_eq!(Dt1::decode(&whole).err(), None);
    assert_eq!(
        Dt1::decode(&whole[..271]).err(),
        at(FormatError::Truncated, Section::Header)
    );
    assert_eq!(
        Dt1::decode(&whole[..272]).err(),
        at(FormatError::Truncated, Section::Tiles)
    );
    assert_eq!(
        Dt1::decode(&whole[..whole.len() - 1]).err(),
        at(FormatError::Truncated, Section::Tiles)
    );
    let mut b = header(7, 6, 1);
    put_tile(&mut b, 1, 272 + 96, 1);
    put_sub_tile(&mut b, 0, 0, 1, 4, 20);
    b.extend_from_slice(&[1, 2, 3, 4]);
    assert_eq!(
        Dt1::decode(&b).err(),
        at(FormatError::UnexpectedBlockSize, Section::Tiles)
    );
    assert_eq!(Section::Tiles.name(), "the tiles");
}
