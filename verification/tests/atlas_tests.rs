use d2fileformats::animation::next_sprite_number;
use d2fileformats::atlas::{Atlas, Rgba, SpriteRect};
use d2fileformats::dc6::Dc6;
use d2fileformats::dt1::Dt1;
use d2fileformats::palette::Palette;

fn put_u16(out: &mut Vec<u8>, v: u16) {
    out.extend_from_slice(&v.to_le_bytes());
}

fn put_u32(out: &mut Vec<u8>, v: u32) {
    out.extend_from_slice(&v.to_le_bytes());
}

fn put_i32(out: &mut Vec<u8>, v: i32) {
    out.extend_from_slice(&v.to_le_bytes());
}

/// A palette whose colour `i` is blue `i`, green `i + 1`, red `i + 2`.
fn palette() -> Palette {
    let mut bytes = Vec::new();
    for i in 0..256u32 {
        bytes.push(i as u8);
        bytes.push((i + 1) as u8);
        bytes.push((i + 2) as u8);
    }
    Palette::from(&bytes).unwrap()
}

fn opaque(index: u8) -> Rgba {
    Rgba { r: index.wrapping_add(2), g: index.wrapping_add(1), b: index, a: 255 }
}

const CLEAR: Rgba = Rgba { r: 0, g: 0, b: 0, a: 0 };

fn texels(atlas: &Atlas) -> Vec<Vec<Rgba>> {
    (0..atlas.height)
        .map(|y| (0..atlas.width).map(|x| atlas.get(x, y).unwrap()).collect())
        .collect()
}

fn put_frame(out: &mut Vec<u8>, width: i32, height: i32, stream: &[u8]) {
    put_u32(out, 0);
    put_i32(out, width);
    put_i32(out, height);
    put_i32(out, 0);
    put_i32(out, 0);
    put_u32(out, 0);
    put_i32(out, 0);
    put_u32(out, stream.len() as u32);
    out.extend_from_slice(stream);
}

/// Two directions of two frames: 2x1 and 1x2 in the first, 1x1 and 2x1 in
/// the second.
fn sheet() -> Dc6 {
    let streams: [(i32, i32, Vec<u8>); 4] = [
        (2, 1, vec![0x02, 10, 11, 0x80]),
        (1, 2, vec![0x01, 21, 0x80, 0x01, 20, 0x80]),
        (1, 1, vec![0x80]),
        (2, 1, vec![0x81, 0x01, 40, 0x80]),
    ];
    let mut b = Vec::new();
    for v in [6u32, 1, 0, 0xEEEE_EEEE, 2, 2] {
        put_u32(&mut b, v);
    }
    let mut at = 24 + 16;
    for (_, _, stream) in &streams {
        put_u32(&mut b, at);
        at += 32 + stream.len() as u32;
    }
    for (w, h, stream) in &streams {
        put_frame(&mut b, *w, *h, stream);
    }
    Dc6::from(&b).unwrap()
}

#[test]
fn sheet_is_laid_out_in_rows_of_directions() {
    let atlas = sheet().to_atlas(&palette()).unwrap();
    assert_eq!((atlas.width, atlas.height), (3, 3));
    assert_eq!(atlas.pixels.len(), 36);
    assert_eq!(
        atlas.sprites,
        vec![
            SpriteRect { x: 0, y: 0, width: 2, height: 1 },
            SpriteRect { x: 2, y: 0, width: 1, height: 2 },
            SpriteRect { x: 0, y: 2, width: 1, height: 1 },
            SpriteRect { x: 1, y: 2, width: 2, height: 1 },
        ]
    );
    assert_eq!(
        texels(&atlas),
        vec![
            vec![opaque(10), opaque(11), opaque(20)],
            vec![CLEAR, CLEAR, opaque(21)],
            vec![CLEAR, CLEAR, opaque(40)],
        ]
    );
    assert_eq!(&atlas.pixels[0..4], &[12, 11, 10, 255]);
    assert_eq!(atlas.get(3, 0), None);
    assert_eq!(atlas.get(0, 3), None);
}

#[test]
fn sheet_that_lacks_frames_has_no_atlas() {
    let mut dc6 = sheet();
    dc6.frames.pop();
    assert!(dc6.to_atlas(&palette()).is_none());
    let mut dc6 = sheet();
    dc6.header.directions = 3;
    assert!(dc6.to_atlas(&palette()).is_none());
    let mut dc6 = sheet();
    dc6.frames[1].header.width = -1;
    assert!(dc6.to_atlas(&palette()).is_none());
    assert!(!dc6.check_frames());
    assert!(sheet().check_frames());
}

#[test]
fn sheet_without_frames_has_an_empty_atlas() {
    let mut b = Vec::new();
    for v in [6u32, 1, 0, 0, 0, 0] {
        put_u32(&mut b, v);
    }
    let atlas = Dc6::from(&b).unwrap().to_atlas(&palette()).unwrap();
    assert_eq!((atlas.width, atlas.height), (0, 0));
    assert!(atlas.pixels.is_empty());
    assert!(atlas.sprites.is_empty());
}

#[test]
fn sheet_sizes() {
    let dc6 = sheet();
    assert_eq!(dc6.row_size(0), (3, 2));
    assert_eq!(dc6.row_size(1), (3, 1));
    assert_eq!(dc6.atlas_size(), Some((3, 3)));
}

#[test]
fn palette_colours() {
    let p = palette();
    assert_eq!(p.rgba(None), CLEAR);
    assert_eq!(p.rgba(Some(0)), Rgba { r: 2, g: 1, b: 0, a: 255 });
    assert_eq!(p.rgba(Some(255)), Rgba { r: 1, g: 0, b: 255, a: 255 });
}

fn put_tile(b: &mut Vec<u8>, width: i32, height: i32, pointer: u32, sub_tiles: u32) {
    put_u32(b, 0);
    put_u16(b, 0);
    put_u16(b, 0);
    put_i32(b, height);
    put_i32(b, width);
    b.extend_from_slice(&[0; 4 + 16 + 4 + 25 + 7]);
    put_u32(b, pointer);
    put_u32(b, 0);
    put_u32(b, sub_tiles);
    b.extend_from_slice(&[0; 12]);
}

fn put_sub_tile(b: &mut Vec<u8>, x: i16, y: i16, length: u32, file_offset: u32) {
    b.extend_from_slice(&x.to_le_bytes());
    b.extend_from_slice(&y.to_le_bytes());
    b.extend_from_slice(&[0, 0, 0, 0]);
    put_u16(b, 0);
    put_u32(b, length);
    b.extend_from_slice(&[0, 0]);
    put_u32(b, file_offset);
}

/// A tile of 3 by 2 with two sub-tiles and a tile of 2 by 3 with one.
fn tile_set() -> Dt1 {
    let mut b = Vec::new();
    put_u32(&mut b, 7);
    put_u32(&mut b, 6);
    b.extend_from_slice(&[0u8; 260]);
    put_u32(&mut b, 2);
    let tables = 272 + 192;
    put_tile(&mut b, 3, -2, tables, 2);
    put_tile(&mut b, 2, 3, tables + 40 + 13, 1);
    // Sub-tile at (0, 0): pixels 1 and 2 in row 0, pixel 3 at column 2 of
    // row 1. Sub-tile at (1, -1): pixel 9 at column 1 of row 1, pixel 8 over
    // pixel 3.
    put_sub_tile(&mut b, 0, 0, 9, 40);
    put_sub_tile(&mut b, 1, -1, 4, 49);
    b.extend_from_slice(&[0, 2, 1, 2, 0, 0, 2, 1, 3]);
    b.extend_from_slice(&[0, 2, 9, 8]);
    // Sub-tile at (-1, 1): its first pixel falls left of the tile, the
    // second lands in column 0 of row 1; the next row's in column 1 of row 2.
    put_sub_tile(&mut b, -1, 1, 9, 20);
    b.extend_from_slice(&[0, 2, 5, 6, 0, 0, 2, 1, 7]);
    Dt1::from(&b).unwrap()
}

#[test]
fn tiles_are_laid_out_side_by_side() {
    let atlas = tile_set().to_atlas(&palette()).unwrap();
    assert_eq!((atlas.width, atlas.height), (5, 3));
    assert_eq!(
        atlas.sprites,
        vec![
            SpriteRect { x: 0, y: 0, width: 3, height: 2 },
            SpriteRect { x: 3, y: 0, width: 2, height: 3 },
        ]
    );
    assert_eq!(
        texels(&atlas),
        vec![
            vec![opaque(1), opaque(2), CLEAR, CLEAR, CLEAR],
            vec![CLEAR, opaque(9), opaque(8), opaque(6), CLEAR],
            vec![CLEAR, CLEAR, CLEAR, CLEAR, opaque(7)],
        ]
    );
}

#[test]
fn tile_sizes() {
    assert_eq!(tile_set().atlas_size(), Some((5, 3)));
    let mut set = tile_set();
    set.tiles[0].width = -1;
    assert_eq!(set.atlas_size(), None);
    assert!(set.to_atlas(&palette()).is_none());
    let mut set = tile_set();
    set.tiles[0].width = i32::MAX;
    set.tiles[1].width = i32::MAX;
    assert_eq!(set.atlas_size(), Some((u32::MAX - 1, 3)));
    set.tiles[1].sub_tiles.clear();
    let third = set.tiles[1].clone();
    set.tiles.push(third);
    assert_eq!(set.atlas_size(), None);
    assert!(set.to_atlas(&palette()).is_none());
}

#[test]
fn tile_set_without_tiles_has_an_empty_atlas() {
    let mut set = tile_set();
    set.tiles.clear();
    let atlas = set.to_atlas(&palette()).unwrap();
    assert_eq!((atlas.width, atlas.height), (0, 0));
    assert!(atlas.pixels.is_empty());
}

#[test]
fn animation_wraps_behind_the_last_sprite() {
    assert_eq!(next_sprite_number(0, 3), 1);
    assert_eq!(next_sprite_number(1, 3), 2);
    assert_eq!(next_sprite_number(2, 3), 0);
    assert_eq!(next_sprite_number(7, 3), 0);
    assert_eq!(next_sprite_number(0, 1), 0);
    assert_eq!(next_sprite_number(0, 0), 0);
    assert_eq!(next_sprite_number(usize::MAX, usize::MAX), 0);
}
