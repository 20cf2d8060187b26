use vstd::prelude::*;
use crate::cursor::{can_read, i16_at, i32_at, u16_at, u32_at, ByteCursor};
use crate::error::{fault_in, without_section, Fault, FormatError, Section};
use crate::read_string::ReadString;

verus! {

/// How the pixels of a sub-tile block are stored.
#[derive(Clone, Copy, Debug, PartialEq, Eq, Structural)]
pub enum TileFormat {
    /// Rows of runs, each run behind a count of pixels to leave out.
    Standard,
    /// A diamond of 256 pixels.
    Isometric,
    /// A format value that stands for neither; the value is kept.
    Unknown(u16),
}

impl TileFormat {
    /// The format that the stored value stands for.
    pub open spec fn of(value: u16) -> TileFormat {
        if value == 0 {
            TileFormat::Standard
        } else if value == 1 {
            TileFormat::Isometric
        } else {
            TileFormat::Unknown(value)
        }
    }

    /// The format that the stored value stands for.
    pub fn from_u16(value: u16) -> (format: TileFormat)
        ensures
            format == TileFormat::of(value),
    {
        match value {
            0 => TileFormat::Standard,
            1 => TileFormat::Isometric,
            x => TileFormat::Unknown(x),
        }
    }
}

/// One decoded pixel of a sub-tile: a palette index and its place inside
/// the sub-tile.
#[derive(Clone, Copy, Debug, PartialEq, Eq, Structural)]
pub struct SubTilePixel {
    pub x: u64,
    pub y: u64,
    pub index: u8,
}

/// One pixel block of a tile.
#[derive(Clone, Debug, PartialEq, Eq)]
pub struct SubTile {
    /// The offset of the block inside the tile.
    pub x: i16,
    pub y: i16,
    pub grid_x: u8,
    pub grid_y: u8,
    pub format: TileFormat,
    /// The length of the block in bytes.
    pub length: u32,
    /// The offset of the block from the tile's sub-tile table.
    pub file_offset: u32,
    /// The bytes of the block as stored.
    pub encoded_data: Vec<u8>,
    /// The pixels that the block stands for, in the order of the block.
    pub decoded_pixels: Vec<SubTilePixel>,
}

/// What a [`SubTile`] holds.
pub struct SubTileModel {
    pub x: i16,
    pub y: i16,
    pub grid_x: u8,
    pub grid_y: u8,
    pub format: TileFormat,
    pub length: u32,
    pub file_offset: u32,
    pub encoded_data: Seq<u8>,
    pub decoded_pixels: Seq<SubTilePixel>,
}

impl View for SubTile {
    type V = SubTileModel;

    open spec fn view(&self) -> SubTileModel {
        SubTileModel {
            x: self.x,
            y: self.y,
            grid_x: self.grid_x,
            grid_y: self.grid_y,
            format: self.format,
            length: self.length,
            file_offset: self.file_offset,
            encoded_data: self.encoded_data@,
            decoded_pixels: self.decoded_pixels@,
        }
    }
}

/// One tile: its geometry and its pixel blocks.
#[derive(Clone, Debug, PartialEq, Eq)]
pub struct Tile {
    pub direction: u32,
    pub roof_height: u16,
    pub material_flags: u16,
    /// The height; its sign says from which edge the tile is anchored.
    pub height: i32,
    pub width: i32,
    pub tile_type: u32,
    pub style: u32,
    pub sequence: u32,
    pub rarity_frame_index: u32,
    pub subtile_flags: [u8; 25],
    pub sub_tiles_header_pointer: u32,
    pub sub_tiles_header_size: u32,
    pub num_sub_tiles: u32,
    pub sub_tiles: Vec<SubTile>,
}

/// What a [`Tile`] holds.
pub struct TileModel {
    pub direction: u32,
    pub roof_height: u16,
    pub material_flags: u16,
    pub height: i32,
    pub width: i32,
    pub tile_type: u32,
    pub style: u32,
    pub sequence: u32,
    pub rarity_frame_index: u32,
    pub subtile_flags: Seq<u8>,
    pub sub_tiles_header_pointer: u32,
    pub sub_tiles_header_size: u32,
    pub num_sub_tiles: u32,
    pub sub_tiles: Seq<SubTileModel>,
}

/// What each sub-tile of `sub_tiles` holds.
pub open spec fn sub_tile_models(sub_tiles: Seq<SubTile>) -> Seq<SubTileModel> {
    Seq::new(sub_tiles.len(), |i: int| sub_tiles[i]@)
}

impl View for Tile {
    type V = TileModel;

    open spec fn view(&self) -> TileModel {
        TileModel {
            direction: self.direction,
            roof_height: self.roof_height,
            material_flags: self.material_flags,
            height: self.height,
            width: self.width,
            tile_type: self.tile_type,
            style: self.style,
            sequence: self.sequence,
            rarity_frame_index: self.rarity_frame_index,
            subtile_flags: self.subtile_flags@,
            sub_tiles_header_pointer: self.sub_tiles_header_pointer,
            sub_tiles_header_size: self.sub_tiles_header_size,
            num_sub_tiles: self.num_sub_tiles,
            sub_tiles: sub_tile_models(self.sub_tiles@),
        }
    }
}

/// A decoded DT1 tile set.
#[derive(Clone, Debug, PartialEq, Eq)]
pub struct Dt1 {
    pub version1: u32,
    pub version2: u32,
    pub tiles: Vec<Tile>,
}

/// What a [`Dt1`] holds.
pub struct Dt1Model {
    pub version1: u32,
    pub version2: u32,
    pub tiles: Seq<TileModel>,
}

/// What each tile of `tiles` holds.
pub open spec fn tile_models(tiles: Seq<Tile>) -> Seq<TileModel> {
    Seq::new(tiles.len(), |i: int| tiles[i]@)
}

impl View for Dt1 {
    type V = Dt1Model;

    open spec fn view(&self) -> Dt1Model {
        Dt1Model {
            version1: self.version1,
            version2: self.version2,
            tiles: tile_models(self.tiles@),
        }
    }
}

/// The number of rows of an isometric block.
pub open spec fn iso_rows() -> int {
    15
}

/// The length of an isometric block in bytes.
pub open spec fn iso_block_len() -> int {
    256
}

/// The number of pixels of each row of an isometric block.
pub open spec fn iso_row_lens() -> Seq<int> {
    seq![4int, 8int, 12int, 16int, 20int, 24int, 28int, 32int, 28int, 24int, 20int, 16int, 12int, 8int, 4int]
}

/// The column of the first pixel of each row of an isometric block.
pub open spec fn iso_row_offsets() -> Seq<int> {
    seq![14int, 12int, 10int, 8int, 6int, 4int, 2int, 0int, 2int, 4int, 6int, 8int, 10int, 12int, 14int]
}

/// The index in the block of the first pixel of each row: the number of
/// pixels of the rows before it.
pub open spec fn iso_row_starts() -> Seq<int> {
    seq![
        0int, 4int, 12int, 24int, 40int, 60int, 84int, 112int, 144int, 172int, 196int, 216int, 232int, 244int, 252int,
    ]
}

/// The pixels of row `r` of an isometric block, left to right.
pub open spec fn iso_row(block: Seq<u8>, r: int) -> Seq<SubTilePixel> {
    Seq::new(
        iso_row_lens()[r] as nat,
        |k: int|
            SubTilePixel {
                x: (iso_row_offsets()[r] + k) as u64,
                y: r as u64,
                index: block[iso_row_starts()[r] + k],
            },
    )
}

/// The pixels of the first `rows` rows of an isometric block.
pub open spec fn iso_pixels(block: Seq<u8>, rows: nat) -> Seq<SubTilePixel>
    decreases rows,
{
    if rows == 0 {
        Seq::empty()
    } else {
        iso_pixels(block, (rows - 1) as nat) + iso_row(block, rows - 1)
    }
}

/// The pixels of an isometric block: every byte is the palette index of one
/// pixel of the diamond, row by row. A block of another length than 256 has
/// `UnexpectedBlockSize`.
pub open spec fn decode_isometric_block(block: Seq<u8>) -> Result<Seq<SubTilePixel>, FormatError> {
    if block.len() != iso_block_len() {
        Err(FormatError::UnexpectedBlockSize)
    } else {
        Ok(iso_pixels(block, iso_rows() as nat))
    }
}

/// The `count` pixels of a run whose palette indices start at `at`, laid out
/// from column `x` of row `y`.
pub open spec fn run_pixels(block: Seq<u8>, at: int, x: int, y: int, count: int) -> Seq<
    SubTilePixel,
> {
    Seq::new(
        count as nat,
        |k: int| SubTilePixel { x: (x + k) as u64, y: y as u64, index: block[at + k] },
    )
}

/// The pixels of a standard block from byte `i` on, appended to `out`, with
/// the next pixel due at column `x` of row `y`.
///
/// The block is a sequence of pairs of a skip and a count. Two zeros end the
/// row. Any other pair moves `skip` columns on and is followed by `count`
/// palette indices, which must lie inside the block. A single byte left at
/// the end is no pair and ends the block.
pub open spec fn standard_pixels(block: Seq<u8>, i: int, x: int, y: int, out: Seq<SubTilePixel>) -> Result<
    Seq<SubTilePixel>,
    FormatError,
>
    decreases block.len() - i,
{
    if i < 0 || i + 1 >= block.len() {
        Ok(out)
    } else if block[i] == 0 && block[i + 1] == 0 {
        standard_pixels(block, i + 2, 0, y + 1, out)
    } else if i + 2 + block[i + 1] > block.len() {
        Err(FormatError::Truncated)
    } else {
        standard_pixels(
            block,
            i + 2 + block[i + 1],
            x + block[i] + block[i + 1],
            y,
            out + run_pixels(block, i + 2, x + block[i], y, block[i + 1] as int),
        )
    }
}

/// The pixels of a standard block.
pub open spec fn decode_standard_block(block: Seq<u8>) -> Result<Seq<SubTilePixel>, FormatError> {
    standard_pixels(block, 0, 0, 0, Seq::empty())
}

/// The pixels of a block of the given format. A block of unknown format is
/// kept as it is and stands for no pixels.
pub open spec fn decode_block(format: TileFormat, block: Seq<u8>) -> Result<
    Seq<SubTilePixel>,
    FormatError,
> {
    match format {
        TileFormat::Standard => decode_standard_block(block),
        TileFormat::Isometric => decode_isometric_block(block),
        TileFormat::Unknown(_) => Ok(Seq::empty()),
    }
}

/// The rows of the diamond follow one another without gaps, fill the block
/// and stay inside 32 columns.
pub proof fn lemma_iso_tables(r: int)
    requires
        0 <= r < iso_rows(),
    ensures
        iso_row_lens().len() == 15,
        iso_row_offsets().len() == 15,
        iso_row_starts().len() == 15,
        0 < iso_row_lens()[r],
        0 <= iso_row_offsets()[r],
        iso_row_offsets()[r] + iso_row_lens()[r] <= 32,
        0 <= iso_row_starts()[r],
        iso_row_starts()[r] + iso_row_lens()[r] == if r == 14 {
            iso_block_len()
        } else {
            iso_row_starts()[r + 1]
        },
        iso_row_starts()[r] + iso_row_lens()[r] <= iso_block_len(),
{
    if r == 0 {
    } else if r == 1 {
    } else if r == 2 {
    } else if r == 3 {
    } else if r == 4 {
    } else if r == 5 {
    } else if r == 6 {
    } else if r == 7 {
    } else if r == 8 {
    } else if r == 9 {
    } else if r == 10 {
    } else if r == 11 {
    } else if r == 12 {
    } else if r == 13 {
    } else {
    }
}

/// The first `rows` rows of the diamond hold as many pixels as lie before
/// row `rows`.
pub proof fn lemma_iso_pixels_len(block: Seq<u8>, rows: nat)
    requires
        rows <= iso_rows(),
    ensures
        iso_pixels(block, rows).len() == if rows == 15 {
            iso_block_len()
        } else {
            iso_row_starts()[rows as int]
        },
    decreases rows,
{
    if rows > 0 {
        lemma_iso_pixels_len(block, (rows - 1) as nat);
        lemma_iso_tables(rows - 1);
    } else {
        lemma_iso_tables(0);
    }
}

/// Pixel `k` of row `r` of an isometric block is the byte at that place of
/// the block, `k` columns right of the row's first column: the decoded
/// pixels are the 256 bytes of the block, each at its place in the diamond.
pub proof fn lemma_iso_pixel(block: Seq<u8>, r: int, k: int)
    requires
        block.len() == iso_block_len(),
        0 <= r < iso_rows(),
        0 <= k < iso_row_lens()[r],
    ensures
        decode_isometric_block(block) is Ok,
        decode_isometric_block(block)->Ok_0.len() == iso_block_len(),
        0 <= iso_row_starts()[r] + k < iso_block_len(),
        decode_isometric_block(block)->Ok_0[iso_row_starts()[r] + k] == (SubTilePixel {
            x: (iso_row_offsets()[r] + k) as u64,
            y: r as u64,
            index: block[iso_row_starts()[r] + k],
        }),
{
    lemma_iso_pixels_len(block, 15);
    lemma_iso_tables(r);
    lemma_iso_pixel_in(block, 15, r, k);
}

/// Pixel `k` of row `r` keeps its place when further rows are appended.
proof fn lemma_iso_pixel_in(block: Seq<u8>, rows: nat, r: int, k: int)
    requires
        0 <= r < rows <= iso_rows(),
        0 <= k < iso_row_lens()[r],
    ensures
        iso_row_starts()[r] + k < iso_pixels(block, rows).len(),
        iso_pixels(block, rows)[iso_row_starts()[r] + k] == iso_row(block, r)[k],
    decreases rows,
{
    lemma_iso_tables(r);
    lemma_iso_pixels_len(block, (rows - 1) as nat);
    lemma_iso_pixels_len(block, rows);
    if r < rows - 1 {
        lemma_iso_pixel_in(block, (rows - 1) as nat, r, k);
    }
}

/// Decodes an isometric block.
pub fn decode_isometric(block: &[u8]) -> (r: Result<Vec<SubTilePixel>, FormatError>)
    ensures
        match decode_isometric_block(block@) {
            Ok(pixels) => r is Ok && r->Ok_0@ == pixels,
            Err(e) => r == Err::<Vec<SubTilePixel>, FormatError>(e),
        },
{
    if block.len() != 256 {
        return Err(FormatError::UnexpectedBlockSize);
    }
    let row_pixels: [u8; 15] = [4, 8, 12, 16, 20, 24, 28, 32, 28, 24, 20, 16, 12, 8, 4];
    let x_jumps: [u8; 15] = [14, 12, 10, 8, 6, 4, 2, 0, 2, 4, 6, 8, 10, 12, 14];
    let mut out: Vec<SubTilePixel> = Vec::new();
    let mut data_index: usize = 0;
    let mut row: usize = 0;
    while row < 15
        invariant
            block@.len() == 256,
            0 <= row <= 15,
            row_pixels@.len() == 15,
            x_jumps@.len() == 15,
            forall|i: int| 0 <= i < 15 ==> row_pixels@[i] == #[trigger] iso_row_lens()[i],
            forall|i: int| 0 <= i < 15 ==> x_jumps@[i] == #[trigger] iso_row_offsets()[i],
            data_index == if row == 15 {
                256
            } else {
                iso_row_starts()[row as int]
            },
            out@ == iso_pixels(block@, row as nat),
        decreases 15 - row,
    {
        let count: u8 = row_pixels[row];
        let first: u8 = x_jumps[row];
        let ghost done = out@;
        proof {
            lemma_iso_tables(row as int);
        }
        let mut k: u8 = 0;
        while k < count
            invariant
                block@.len() == 256,
                0 <= row < 15,
                0 <= k <= count,
                count == iso_row_lens()[row as int],
                first == iso_row_offsets()[row as int],
                first + count <= 32,
                data_index == iso_row_starts()[row as int] + k,
                iso_row_starts()[row as int] + count <= 256,
                0 <= iso_row_starts()[row as int],
                out@ == done + iso_row(block@, row as int).take(k as int),
            decreases count - k,
        {
            let pixel = SubTilePixel {
                x: (first + k) as u64,
                y: row as u64,
                index: block[data_index],
            };
            out.push(pixel);
            proof {
                assert(iso_row(block@, row as int).take(k + 1) =~= iso_row(
                    block@,
                    row as int,
                ).take(k as int).push(pixel));
                assert(out@ =~= done + iso_row(block@, row as int).take(k + 1));
            }
            data_index = data_index + 1;
            k = k + 1;
        }
        proof {
            assert(iso_row(block@, row as int).take(count as int) =~= iso_row(
                block@,
                row as int,
            ));
        }
        row = row + 1;
    }
    Ok(out)
}

/// Decodes a standard block. A block is at most `u32::MAX` bytes long, as its
/// length is stored in 32 bits.
pub fn decode_standard(block: &[u8]) -> (r: Result<Vec<SubTilePixel>, FormatError>)
    requires
        block@.len() <= u32::MAX,
    ensures
        match decode_standard_block(block@) {
            Ok(pixels) => r is Ok && r->Ok_0@ == pixels,
            Err(e) => r == Err::<Vec<SubTilePixel>, FormatError>(e),
        },
{
    let len: usize = block.len();
    let mut out: Vec<SubTilePixel> = Vec::new();
    let mut i: usize = 0;
    let mut x: u64 = 0;
    let mut y: u64 = 0;
    while i < len && len - i >= 2
        invariant
            len == block@.len(),
            len <= u32::MAX,
            0 <= i <= len,
            x <= 255 * i,
            y <= i,
            standard_pixels(block@, i as int, x as int, y as int, out@) == decode_standard_block(
                block@,
            ),
        decreases len - i,
    {
        let skip: u8 = block[i];
        let count: u8 = block[i + 1];
        if skip == 0 && count == 0 {
            x = 0;
            y = y + 1;
            i = i + 2;
        } else {
            if count as usize > len - i - 2 {
                return Err(FormatError::Truncated);
            }
            x = x + skip as u64;
            let ghost done = out@;
            let ghost run = run_pixels(block@, i + 2, x as int, y as int, count as int);
            let mut k: u8 = 0;
            while k < count
                invariant
                    len == block@.len(),
                    len <= u32::MAX,
                    0 <= i,
                    i + 2 + count <= len,
                    0 <= k <= count,
                    x <= 255 * i + 255,
                    run == run_pixels(block@, i + 2, x as int, y as int, count as int),
                    out@ == done + run.take(k as int),
                decreases count - k,
            {
                let pixel = SubTilePixel {
                    x: x + k as u64,
                    y,
                    index: block[i + 2 + k as usize],
                };
                out.push(pixel);
                proof {
                    assert(run.take(k + 1) =~= run.take(k as int).push(pixel));
                    assert(out@ =~= done + run.take(k + 1));
                }
                k = k + 1;
            }
            proof {
                assert(run.take(count as int) =~= run);
            }
            x = x + count as u64;
            i = i + 2 + count as usize;
        }
    }
    Ok(out)
}

/// Decodes a block of the given format.
pub fn decode_pixels(format: TileFormat, block: &[u8]) -> (r: Result<Vec<SubTilePixel>, FormatError>)
    requires
        block@.len() <= u32::MAX,
    ensures
        match decode_block(format, block@) {
            Ok(pixels) => r is Ok && r->Ok_0@ == pixels,
            Err(e) => r == Err::<Vec<SubTilePixel>, FormatError>(e),
        },
{
    match format {
        TileFormat::Standard => decode_standard(block),
        TileFormat::Isometric => decode_isometric(block),
        TileFormat::Unknown(_) => Ok(Vec::new()),
    }
}

/// The offset of the first tile record: two version fields, 260 reserved
/// bytes and the tile count stand before it.
pub open spec fn tiles_offset() -> int {
    272
}

/// The length of a tile record in bytes.
pub open spec fn tile_len() -> int {
    96
}

/// The length of a sub-tile record in bytes.
pub open spec fn sub_tile_len() -> int {
    20
}

/// Sub-tile `j` of the table at offset `table`: its record, the bytes of its
/// block, which lies `file_offset` bytes behind the start of the table, and
/// the pixels that the block stands for.
pub open spec fn parse_sub_tile(b: Seq<u8>, table: int, j: int) -> Result<SubTileModel, FormatError> {
    let c = table + sub_tile_len() * j;
    if !can_read(b, c, sub_tile_len()) {
        Err(FormatError::Truncated)
    } else {
        let format = TileFormat::of(u16_at(b, c + 8));
        let length = u32_at(b, c + 10);
        let file_offset = u32_at(b, c + 16);
        let at = table + file_offset;
        if !can_read(b, at, length as int) {
            Err(FormatError::Truncated)
        } else {
            let block = b.subrange(at, at + length);
            match decode_block(format, block) {
                Err(e) => Err(e),
                Ok(pixels) => Ok(
                    SubTileModel {
                        x: i16_at(b, c),
                        y: i16_at(b, c + 2),
                        grid_x: b[c + 6],
                        grid_y: b[c + 7],
                        format,
                        length,
                        file_offset,
                        encoded_data: block,
                        decoded_pixels: pixels,
                    },
                ),
            }
        }
    }
}

/// The first `n` sub-tiles of the table at offset `table`.
pub open spec fn parse_sub_tiles(b: Seq<u8>, table: int, n: nat) -> Result<
    Seq<SubTileModel>,
    FormatError,
>
    decreases n,
{
    if n == 0 {
        Ok(Seq::empty())
    } else {
        match parse_sub_tiles(b, table, (n - 1) as nat) {
            Err(e) => Err(e),
            Ok(sub_tiles) => match parse_sub_tile(b, table, n - 1) {
                Err(e) => Err(e),
                Ok(sub_tile) => Ok(sub_tiles.push(sub_tile)),
            },
        }
    }
}

/// The tile whose record starts at `p`, with the sub-tiles that its table
/// lists.
pub open spec fn parse_tile(b: Seq<u8>, p: int) -> Result<TileModel, FormatError> {
    if !can_read(b, p, tile_len()) {
        Err(FormatError::Truncated)
    } else {
        let pointer = u32_at(b, p + 72);
        let count = u32_at(b, p + 80);
        match parse_sub_tiles(b, pointer as int, count as nat) {
            Err(e) => Err(e),
            Ok(sub_tiles) => Ok(
                TileModel {
                    direction: u32_at(b, p),
                    roof_height: u16_at(b, p + 4),
                    material_flags: u16_at(b, p + 6),
                    height: i32_at(b, p + 8),
                    width: i32_at(b, p + 12),
                    tile_type: u32_at(b, p + 20),
                    style: u32_at(b, p + 24),
                    sequence: u32_at(b, p + 28),
                    rarity_frame_index: u32_at(b, p + 32),
                    subtile_flags: b.subrange(p + 40, p + 65),
                    sub_tiles_header_pointer: pointer,
                    sub_tiles_header_size: u32_at(b, p + 76),
                    num_sub_tiles: count,
                    sub_tiles,
                },
            ),
        }
    }
}

/// The first `n` tiles of the file. The tile records follow one another.
pub open spec fn parse_tiles(b: Seq<u8>, n: nat) -> Result<Seq<TileModel>, FormatError>
    decreases n,
{
    if n == 0 {
        Ok(Seq::empty())
    } else {
        match parse_tiles(b, (n - 1) as nat) {
            Err(e) => Err(e),
            Ok(tiles) => match parse_tile(b, tiles_offset() + tile_len() * (n - 1)) {
                Err(e) => Err(e),
                Ok(tile) => Ok(tiles.push(tile)),
            },
        }
    }
}

/// The tile set that the file `b` holds, or the error that its decoding
/// meets and the section in which it meets it. Any pair of version numbers
/// is taken; a sub-tile whose block does not decode fails the file.
pub open spec fn parse_dt1_sections(b: Seq<u8>) -> Result<Dt1Model, Fault> {
    if !can_read(b, 0, tiles_offset()) {
        Err(Fault { error: FormatError::Truncated, section: Section::Header })
    } else {
        match parse_tiles(b, u32_at(b, 268) as nat) {
            Err(e) => Err(Fault { error: e, section: Section::Tiles }),
            Ok(tiles) => Ok(Dt1Model { version1: u32_at(b, 0), version2: u32_at(b, 4), tiles }),
        }
    }
}

/// The tile set that the file `b` holds, or the error that its decoding
/// meets.
pub open spec fn parse_dt1(b: Seq<u8>) -> Result<Dt1Model, FormatError> {
    without_section(parse_dt1_sections(b))
}

/// Once some prefix of the sub-tiles fails, every longer prefix fails alike.
pub proof fn lemma_parse_sub_tiles_fails(b: Seq<u8>, table: int, k: nat, n: nat)
    requires
        k <= n,
        parse_sub_tiles(b, table, k) is Err,
    ensures
        parse_sub_tiles(b, table, n) == parse_sub_tiles(b, table, k),
    decreases n,
{
    if k < n {
        lemma_parse_sub_tiles_fails(b, table, k, (n - 1) as nat);
    }
}

/// Once some prefix of the tiles fails, every longer prefix fails alike.
pub proof fn lemma_parse_tiles_fails(b: Seq<u8>, k: nat, n: nat)
    requires
        k <= n,
        parse_tiles(b, k) is Err,
    ensures
        parse_tiles(b, n) == parse_tiles(b, k),
    decreases n,
{
    if k < n {
        lemma_parse_tiles_fails(b, k, (n - 1) as nat);
    }
}

impl Dt1 {
    /// Whether the file states the version that every known file states:
    /// 7.6. Another version is decoded all the same.
    pub fn has_expected_version(&self) -> (b: bool)
        ensures
            b == (self.version1 == 7 && self.version2 == 6),
    {
        self.version1 == 7 && self.version2 == 6
    }

    /// Decodes a DT1 file.
    pub fn from(file_bytes: &[u8]) -> (r: Result<Dt1, FormatError>)
        ensures
            match parse_dt1(file_bytes@) {
                Ok(set) => r is Ok && r->Ok_0@ == set,
                Err(e) => r == Err::<Dt1, FormatError>(e),
            },
    {
        match Dt1::decode(file_bytes) {
            Ok(set) => Ok(set),
            Err(fault) => Err(fault.error),
        }
    }

    /// Decodes a DT1 file. An error comes with the section in which the
    /// decoder met it.
    pub fn decode(file_bytes: &[u8]) -> (r: Result<Dt1, Fault>)
        ensures
            match parse_dt1_sections(file_bytes@) {
                Ok(set) => r is Ok && r->Ok_0@ == set,
                Err(fault) => r == Err::<Dt1, Fault>(fault),
            },
    {
        let mut cur = ByteCursor::new(file_bytes);
        if cur.remaining() < 272 {
            return Err(Fault { error: FormatError::Truncated, section: Section::Header });
        }
        let version1: u32 = fault_in(cur.read_u32(), Section::Header)?;
        let version2: u32 = fault_in(cur.read_u32(), Section::Header)?;
        fault_in(cur.skip(260), Section::Header)?;
        let num_tiles: u32 = fault_in(cur.read_u32(), Section::Header)?;
        let tiles: Vec<Tile> = fault_in(Dt1::read_tiles(&mut cur, num_tiles), Section::Tiles)?;
        Ok(Dt1 { version1, version2, tiles })
    }

    /// Reads `num_tiles` tile records from the start of the tile table, each
    /// with its sub-tiles.
    fn read_tiles(cur: &mut ByteCursor, num_tiles: u32) -> (r: Result<Vec<Tile>, FormatError>)
        requires
            old(cur).pos() == tiles_offset(),
        ensures
            final(cur).bytes() == old(cur).bytes(),
            match parse_tiles(old(cur).bytes(), num_tiles as nat) {
                Ok(tiles) => r is Ok && tile_models(r->Ok_0@) == tiles,
                Err(e) => r == Err::<Vec<Tile>, FormatError>(e),
            },
    {
        let ghost b = cur.bytes();
        let mut tiles: Vec<Tile> = Vec::new();
        proof {
            assert(tile_models(tiles@) =~= Seq::<TileModel>::empty());
        }
        let mut n: u32 = 0;
        while n < num_tiles
            invariant
                cur.bytes() == b,
                b == old(cur).bytes(),
                0 <= n <= num_tiles,
                tiles@.len() == n,
                cur.pos() == tiles_offset() + tile_len() * n,
                parse_tiles(b, n as nat) == Ok::<Seq<TileModel>, FormatError>(tile_models(tiles@)),
            decreases num_tiles - n,
        {
            let ghost before = tile_models(tiles@);
            let tile: Tile = match Dt1::read_tile(cur) {
                Ok(t) => t,
                Err(e) => {
                    proof {
                        lemma_parse_tiles_fails(b, (n + 1) as nat, num_tiles as nat);
                    }
                    return Err(e);
                },
            };
            tiles.push(tile);
            proof {
                assert(tile_models(tiles@) =~= before.push(tiles@[n as int]@));
            }
            n = n + 1;
        }
        Ok(tiles)
    }

    /// Reads the tile record at the cursor and the sub-tiles it points to,
    /// and leaves the cursor behind the record.
    pub fn read_tile(cur: &mut ByteCursor) -> (r: Result<Tile, FormatError>)
        ensures
            final(cur).bytes() == old(cur).bytes(),
            match parse_tile(old(cur).bytes(), old(cur).pos() as int) {
                Ok(tile) => r is Ok && r->Ok_0@ == tile && final(cur).pos() == old(cur).pos()
                    + tile_len(),
                Err(e) => r == Err::<Tile, FormatError>(e),
            },
    {
        let ghost b = cur.bytes();
        let ghost p = cur.pos() as int;
        if cur.remaining() < 96 {
            return Err(FormatError::Truncated);
        }
        let direction: u32 = cur.read_u32()?;
        let roof_height: u16 = cur.read_u16()?;
        let material_flags: u16 = cur.read_u16()?;
        let height: i32 = cur.read_i32()?;
        let width: i32 = cur.read_i32()?;
        cur.skip(4)?;
        let tile_type: u32 = cur.read_u32()?;
        let style: u32 = cur.read_u32()?;
        let sequence: u32 = cur.read_u32()?;
        let rarity_frame_index: u32 = cur.read_u32()?;
        cur.skip(4)?;
        let mut subtile_flags: [u8; 25] = [0u8;25];
        let mut j: usize = 0;
        while j < 25
            invariant
                cur.bytes() == b,
                can_read(b, p, tile_len()),
                0 <= j <= 25,
                cur.pos() == p + 40 + j,
                forall|i: int| 0 <= i < j ==> subtile_flags@[i] == b[p + 40 + i],
            decreases 25 - j,
        {
            let v: u8 = cur.read_u8()?;
            subtile_flags[j] = v;
            j = j + 1;
        }
        cur.skip(7)?;
        let sub_tiles_header_pointer: u32 = cur.read_u32()?;
        let sub_tiles_header_size: u32 = cur.read_u32()?;
        let num_sub_tiles: u32 = cur.read_u32()?;
        cur.skip(12)?;
        let next: usize = cur.position();
        let sub_tiles: Vec<SubTile> = Dt1::read_sub_tiles(
            cur,
            num_sub_tiles,
            sub_tiles_header_pointer,
            sub_tiles_header_size,
        )?;
        cur.seek(next)?;
        proof {
            assert(subtile_flags@ =~= b.subrange(p + 40, p + 65));
        }
        Ok(
            Tile {
                direction,
                roof_height,
                material_flags,
                height,
                width,
                tile_type,
                style,
                sequence,
                rarity_frame_index,
                subtile_flags,
                sub_tiles_header_pointer,
                sub_tiles_header_size,
                num_sub_tiles,
                sub_tiles,
            },
        )
    }

    /// Reads the `num_sub_tiles` sub-tiles of the table at
    /// `sub_tiles_header_pointer`. The stated size of the table is not
    /// needed to find them.
    pub fn read_sub_tiles(
        cur: &mut ByteCursor,
        num_sub_tiles: u32,
        sub_tiles_header_pointer: u32,
        sub_tiles_header_size: u32,
    ) -> (r: Result<Vec<SubTile>, FormatError>)
        ensures
            final(cur).bytes() == old(cur).bytes(),
            match parse_sub_tiles(
                old(cur).bytes(),
                sub_tiles_header_pointer as int,
                num_sub_tiles as nat,
            ) {
                Ok(sub_tiles) => r is Ok && sub_tile_models(r->Ok_0@) == sub_tiles,
                Err(e) => r == Err::<Vec<SubTile>, FormatError>(e),
            },
    {
        let ghost b = cur.bytes();
        let table: u64 = sub_tiles_header_pointer as u64;
        let len: u64 = cur.len() as u64;
        let mut sub_tiles: Vec<SubTile> = Vec::new();
        proof {
            assert(sub_tile_models(sub_tiles@) =~= Seq::<SubTileModel>::empty());
        }
        let mut n: u32 = 0;
        while n < num_sub_tiles
            invariant
                cur.bytes() == b,
                b == old(cur).bytes(),
                len == b.len(),
                table == sub_tiles_header_pointer,
                0 <= n <= num_sub_tiles,
                sub_tiles@.len() == n,
                parse_sub_tiles(b, table as int, n as nat) == Ok::<Seq<SubTileModel>, FormatError>(
                    sub_tile_models(sub_tiles@),
                ),
            decreases num_sub_tiles - n,
        {
            let ghost before = sub_tile_models(sub_tiles@);
            let sub_tile: SubTile = match Dt1::read_sub_tile(cur, sub_tiles_header_pointer, n) {
                Ok(t) => t,
                Err(e) => {
                    proof {
                        lemma_parse_sub_tiles_fails(
                            b,
                            table as int,
                            (n + 1) as nat,
                            num_sub_tiles as nat,
                        );
                    }
                    return Err(e);
                },
            };
            sub_tiles.push(sub_tile);
            proof {
                assert(sub_tile_models(sub_tiles@) =~= before.push(sub_tiles@[n as int]@));
            }
            n = n + 1;
        }
        Ok(sub_tiles)
    }

    /// Reads sub-tile `index` of the table at `table`.
    pub fn read_sub_tile(cur: &mut ByteCursor, table: u32, index: u32) -> (r: Result<
        SubTile,
        FormatError,
    >)
        ensures
            final(cur).bytes() == old(cur).bytes(),
            match parse_sub_tile(old(cur).bytes(), table as int, index as int) {
                Ok(sub_tile) => r is Ok && r->Ok_0@ == sub_tile,
                Err(e) => r == Err::<SubTile, FormatError>(e),
            },
    {
        let len: u64 = cur.len() as u64;
        let record: u64 = table as u64 + 20 * (index as u64);
        if record + 20 > len {
            return Err(FormatError::Truncated);
        }
        cur.seek(record as usize)?;
        let x: i16 = cur.read_i16()?;
        let y: i16 = cur.read_i16()?;
        cur.skip(2)?;
        let grid_x: u8 = cur.read_u8()?;
        let grid_y: u8 = cur.read_u8()?;
        let format: TileFormat = TileFormat::from_u16(cur.read_u16()?);
        let length: u32 = cur.read_u32()?;
        cur.skip(2)?;
        let file_offset: u32 = cur.read_u32()?;
        let at: u64 = table as u64 + file_offset as u64;
        let encoded_data: Vec<u8> = Dt1::read_block_data(cur, at, length)?;
        let decoded_pixels: Vec<SubTilePixel> = decode_pixels(format, encoded_data.as_slice())?;
        Ok(
            SubTile {
                x,
                y,
                grid_x,
                grid_y,
                format,
                length,
                file_offset,
                encoded_data,
                decoded_pixels,
            },
        )
    }

    /// Reads the `length` bytes of the block at `data_offset`.
    pub fn read_block_data(cur: &mut ByteCursor, data_offset: u64, length: u32) -> (r: Result<
        Vec<u8>,
        FormatError,
    >)
        ensures
            final(cur).bytes() == old(cur).bytes(),
            can_read(old(cur).bytes(), data_offset as int, length as int) ==> r is Ok && r->Ok_0@
                == old(cur).bytes().subrange(data_offset as int, data_offset + length),
            !can_read(old(cur).bytes(), data_offset as int, length as int) ==> r == Err::<
                Vec<u8>,
                FormatError,
            >(FormatError::Truncated),
    {
        let len: u64 = cur.len() as u64;
        if data_offset > len || length as u64 > len - data_offset {
            return Err(FormatError::Truncated);
        }
        cur.seek(data_offset as usize)?;
        cur.read_bytes(length as usize)
    }
}

} // verus!
