use vstd::prelude::*;
use crate::cursor::{can_read, i32_at, reads, u32_at, ByteCursor};
use crate::error::{fault_in, without_section, Fault, FormatError, Section};
use crate::grid::{filled, grid_fits, rect, Grid};

verus! {

/// The header of a DC6 sprite sheet.
#[derive(Clone, Copy, Debug, PartialEq, Eq, Structural)]
pub struct Dc6Header {
    /// The format version (6 in every known file).
    pub version: u32,
    /// Flags: 1 for a serialised cel file, 4 for 24-bit colour.
    pub flags: u32,
    /// The encoding (0 in every known file).
    pub encoding: u32,
    /// The termination code, usually `0xEEEEEEEE` or `0xCDCDCDCD`.
    pub termination: u32,
    /// The number of directions.
    pub directions: u32,
    /// The number of frames of each direction.
    pub frames: u32,
}

/// The header of one frame.
#[derive(Clone, Copy, Debug, PartialEq, Eq, Structural)]
pub struct Dc6FrameHeader {
    /// Zero where the rows are stored bottom row first, else top row first.
    pub flipped: u32,
    pub width: i32,
    pub height: i32,
    pub offset_x: i32,
    pub offset_y: i32,
    pub unknown: u32,
    pub next_block: i32,
    /// The length of the frame's opcode stream in bytes.
    pub length: u32,
}

/// One frame: its header and its pixels. The pixel in column `x` of row `y`
/// is the cell `(x, y)`, row 0 on top; `None` is a transparent pixel.
#[derive(Clone, Debug)]
pub struct Dc6Frame {
    pub header: Dc6FrameHeader,
    pub pixels: Grid<Option<u8>>,
}

/// What a [`Dc6Frame`] holds.
pub struct FrameModel {
    pub header: Dc6FrameHeader,
    pub pixels: Map<(int, int), Option<u8>>,
}

/// A decoded DC6 sprite sheet. Frame `f` of direction `d` is the frame at
/// index `d * header.frames + f`.
#[derive(Clone, Debug)]
pub struct Dc6 {
    pub header: Dc6Header,
    pub frames: Vec<Dc6Frame>,
}

/// What a [`Dc6`] holds.
pub struct Dc6Model {
    pub header: Dc6Header,
    pub frames: Seq<FrameModel>,
}

impl View for Dc6Frame {
    type V = FrameModel;

    open spec fn view(&self) -> FrameModel {
        FrameModel { header: self.header, pixels: self.pixels.cells() }
    }
}

/// What each frame of `frames` holds.
pub open spec fn frame_models(frames: Seq<Dc6Frame>) -> Seq<FrameModel> {
    Seq::new(frames.len(), |i: int| frames[i]@)
}

impl View for Dc6 {
    type V = Dc6Model;

    open spec fn view(&self) -> Dc6Model {
        Dc6Model { header: self.header, frames: frame_models(self.frames@) }
    }
}

/// The length of the sheet's header in bytes.
pub open spec fn sheet_header_len() -> int {
    24
}

/// The length of a frame's header in bytes.
pub open spec fn frame_header_len() -> int {
    32
}

/// The sheet header that starts at `p`.
pub open spec fn sheet_header_at(b: Seq<u8>, p: int) -> Dc6Header {
    Dc6Header {
        version: u32_at(b, p),
        flags: u32_at(b, p + 4),
        encoding: u32_at(b, p + 8),
        termination: u32_at(b, p + 12),
        directions: u32_at(b, p + 16),
        frames: u32_at(b, p + 20),
    }
}

/// The frame header that starts at `p`.
pub open spec fn frame_header_at(b: Seq<u8>, p: int) -> Dc6FrameHeader {
    Dc6FrameHeader {
        flipped: u32_at(b, p),
        width: i32_at(b, p + 4),
        height: i32_at(b, p + 8),
        offset_x: i32_at(b, p + 12),
        offset_y: i32_at(b, p + 16),
        unknown: u32_at(b, p + 20),
        next_block: i32_at(b, p + 24),
        length: u32_at(b, p + 28),
    }
}

/// The opcode that ends a row.
pub open spec fn end_of_row() -> u8 {
    0x80
}

/// Where the decoder of a frame's opcode stream stands.
pub struct RleState {
    /// The number of bytes of the stream consumed so far.
    pub consumed: int,
    /// The column of the next pixel.
    pub x: int,
    /// The row of the next pixel.
    pub y: int,
    /// The number of palette indices still owed by the last opcode.
    pub pending: int,
    /// The pixels written so far.
    pub pixels: Map<(int, int), Option<u8>>,
}

/// The state before the first byte: the left end of the bottom row, or of
/// the top row in a flipped frame, and every pixel transparent.
pub open spec fn rle_start(header: Dc6FrameHeader) -> RleState {
    RleState {
        consumed: 0,
        x: 0,
        y: if header.flipped == 0 {
            header.height - 1
        } else {
            0
        },
        pending: 0,
        pixels: filled(header.width as int, header.height as int, None),
    }
}

/// The row that follows row `y`: the one above, or the one below in a
/// flipped frame.
pub open spec fn next_row(header: Dc6FrameHeader, y: int) -> int {
    if header.flipped == 0 {
        y - 1
    } else {
        y + 1
    }
}

/// The state after the next byte of the stream that starts at `start`.
///
/// A byte owed by an explicit run is a palette index: it is stored at the
/// current place, which must lie inside the frame. Otherwise the byte is an
/// opcode. `0x80` ends the row, unless it is the last byte of the stream,
/// which only ends the stream. A byte above `0x80` is a run of that many
/// less `0x80` transparent pixels. A byte below `0x80` announces as many
/// palette indices, all of which must lie inside the stream: a run that
/// passes the stream's end is `Malformed` before any of its bytes is read,
/// also where the buffer ends there.
pub open spec fn rle_step(b: Seq<u8>, start: int, header: Dc6FrameHeader, s: RleState) -> Result<
    RleState,
    FormatError,
> {
    let at = start + s.consumed;
    if !can_read(b, at, 1) {
        Err(FormatError::Truncated)
    } else if s.pending > 0 {
        if rect(header.width as int, header.height as int).contains((s.x, s.y)) {
            Ok(
                RleState {
                    consumed: s.consumed + 1,
                    x: s.x + 1,
                    pending: s.pending - 1,
                    pixels: s.pixels.insert((s.x, s.y), Some(b[at])),
                    ..s
                },
            )
        } else {
            Err(FormatError::Malformed)
        }
    } else if b[at] == end_of_row() {
        if s.consumed + 1 == header.length {
            Ok(RleState { consumed: s.consumed + 1, ..s })
        } else {
            Ok(RleState { consumed: s.consumed + 1, x: 0, y: next_row(header, s.y), ..s })
        }
    } else if b[at] > end_of_row() {
        Ok(RleState { consumed: s.consumed + 1, x: s.x + (b[at] - end_of_row()), ..s })
    } else if s.consumed + 1 + b[at] > header.length {
        Err(FormatError::Malformed)
    } else {
        Ok(RleState { consumed: s.consumed + 1, pending: b[at] as int, ..s })
    }
}

/// The state at the end of the stream, reached from `s` byte by byte.
pub open spec fn rle_run(b: Seq<u8>, start: int, header: Dc6FrameHeader, s: RleState) -> Result<
    RleState,
    FormatError,
>
    decreases header.length - s.consumed,
{
    if s.consumed >= header.length {
        Ok(s)
    } else {
        match rle_step(b, start, header, s) {
            Err(e) => Err(e),
            Ok(next) => rle_run(b, start, header, next),
        }
    }
}

/// The pixels of the frame with header `header` whose opcode stream starts
/// at `start`. A frame of negative size, or too large to allocate, is
/// `Malformed`.
pub open spec fn decode_frame_pixels(b: Seq<u8>, start: int, header: Dc6FrameHeader) -> Result<
    Map<(int, int), Option<u8>>,
    FormatError,
> {
    if header.width < 0 || header.height < 0 {
        Err(FormatError::Malformed)
    } else if !grid_fits(header.width as int, header.height as int) {
        Err(FormatError::Malformed)
    } else {
        match rle_run(b, start, header, rle_start(header)) {
            Err(e) => Err(e),
            Ok(s) => Ok(s.pixels),
        }
    }
}

/// The frame at `p`: its header, then its opcode stream.
pub open spec fn parse_frame(b: Seq<u8>, p: int) -> Result<FrameModel, FormatError> {
    if !can_read(b, p, frame_header_len()) {
        Err(FormatError::Truncated)
    } else {
        let header = frame_header_at(b, p);
        match decode_frame_pixels(b, p + frame_header_len(), header) {
            Err(e) => Err(e),
            Ok(pixels) => Ok(FrameModel { header, pixels }),
        }
    }
}

/// The offset of frame `k`, from the table behind the sheet header.
pub open spec fn frame_offset(b: Seq<u8>, k: int) -> int {
    u32_at(b, sheet_header_len() + 4 * k) as int
}

/// The first `n` frames of the sheet, each at its offset from the table.
pub open spec fn parse_frames(b: Seq<u8>, n: nat) -> Result<Seq<FrameModel>, FormatError>
    decreases n,
{
    if n == 0 {
        Ok(Seq::empty())
    } else {
        match parse_frames(b, (n - 1) as nat) {
            Err(e) => Err(e),
            Ok(frames) => match parse_frame(b, frame_offset(b, n - 1)) {
                Err(e) => Err(e),
                Ok(frame) => Ok(frames.push(frame)),
            },
        }
    }
}

/// The sprite sheet that the file `b` holds: the header, a table with the
/// offset of every frame, and the frames, direction by direction; or the
/// error that its decoding meets and the section in which it meets it.
pub open spec fn parse_dc6_sections(b: Seq<u8>) -> Result<Dc6Model, Fault> {
    if !can_read(b, 0, sheet_header_len()) {
        Err(Fault { error: FormatError::Truncated, section: Section::Header })
    } else {
        let header = sheet_header_at(b, 0);
        let total = header.directions * header.frames;
        if !can_read(b, sheet_header_len(), 4 * total) {
            Err(Fault { error: FormatError::Truncated, section: Section::FrameOffsets })
        } else {
            match parse_frames(b, total as nat) {
                Err(e) => Err(Fault { error: e, section: Section::Frames }),
                Ok(frames) => Ok(Dc6Model { header, frames }),
            }
        }
    }
}

/// The sprite sheet that the file `b` holds, or the error that its decoding
/// meets.
pub open spec fn parse_dc6(b: Seq<u8>) -> Result<Dc6Model, FormatError> {
    without_section(parse_dc6_sections(b))
}

/// Once some prefix of the frames fails, every longer prefix fails alike.
pub proof fn lemma_parse_frames_fails(b: Seq<u8>, k: nat, n: nat)
    requires
        k <= n,
        parse_frames(b, k) is Err,
    ensures
        parse_frames(b, n) == parse_frames(b, k),
    decreases n,
{
    if k < n {
        lemma_parse_frames_fails(b, k, (n - 1) as nat);
    }
}

/// A state in which the bytes owed by the last opcode lie inside the stream.
pub open spec fn rle_within(header: Dc6FrameHeader, s: RleState) -> bool {
    0 <= s.consumed && 0 <= s.pending && s.consumed + s.pending <= header.length
}

/// A step keeps the owed bytes inside the stream and consumes one byte.
pub proof fn lemma_rle_step_within(b: Seq<u8>, start: int, header: Dc6FrameHeader, s: RleState)
    requires
        rle_within(header, s),
        s.consumed < header.length,
        rle_step(b, start, header, s) is Ok,
    ensures
        rle_within(header, rle_step(b, start, header, s)->Ok_0),
        rle_step(b, start, header, s)->Ok_0.consumed == s.consumed + 1,
{
}

/// A stream that decodes is consumed exactly: the decoder stops with as many
/// bytes consumed as the frame header announces, and owes none.
pub proof fn lemma_rle_consumes_block(b: Seq<u8>, start: int, header: Dc6FrameHeader, s: RleState)
    requires
        rle_within(header, s),
        rle_run(b, start, header, s) is Ok,
    ensures
        rle_run(b, start, header, s)->Ok_0.consumed == header.length,
        rle_run(b, start, header, s)->Ok_0.pending == 0,
    decreases header.length - s.consumed,
{
    if s.consumed < header.length {
        lemma_rle_step_within(b, start, header, s);
        lemma_rle_consumes_block(b, start, header, rle_step(b, start, header, s)->Ok_0);
    }
}

/// An end-of-row opcode that is not the last byte of the stream moves to the
/// left end of the next row and writes nothing.
pub proof fn lemma_end_of_row_advances(b: Seq<u8>, start: int, header: Dc6FrameHeader, s: RleState)
    requires
        can_read(b, start + s.consumed, 1),
        b[start + s.consumed] == end_of_row(),
        s.pending == 0,
        s.consumed + 1 != header.length,
    ensures
        rle_step(b, start, header, s) is Ok,
        rle_step(b, start, header, s)->Ok_0.x == 0,
        rle_step(b, start, header, s)->Ok_0.y == next_row(header, s.y),
        header.flipped == 0 ==> rle_step(b, start, header, s)->Ok_0.y == s.y - 1,
        header.flipped != 0 ==> rle_step(b, start, header, s)->Ok_0.y == s.y + 1,
        rle_step(b, start, header, s)->Ok_0.consumed == s.consumed + 1,
        rle_step(b, start, header, s)->Ok_0.pixels == s.pixels,
{
}

impl Dc6Header {
    /// Reads the sheet header.
    pub fn from(cur: &mut ByteCursor) -> (r: Result<Dc6Header, FormatError>)
        ensures
            reads(
                *old(cur),
                *final(cur),
                sheet_header_len(),
                sheet_header_at(old(cur).bytes(), old(cur).pos() as int),
                r,
            ),
    {
        if cur.remaining() < 24 {
            return Err(FormatError::Truncated);
        }
        let version: u32 = cur.read_u32()?;
        let flags: u32 = cur.read_u32()?;
        let encoding: u32 = cur.read_u32()?;
        let termination: u32 = cur.read_u32()?;
        let directions: u32 = cur.read_u32()?;
        let frames: u32 = cur.read_u32()?;
        Ok(Dc6Header { version, flags, encoding, termination, directions, frames })
    }
}

impl Dc6FrameHeader {
    /// Reads a frame header.
    pub fn from(cur: &mut ByteCursor) -> (r: Result<Dc6FrameHeader, FormatError>)
        ensures
            reads(
                *old(cur),
                *final(cur),
                frame_header_len(),
                frame_header_at(old(cur).bytes(), old(cur).pos() as int),
                r,
            ),
    {
        if cur.remaining() < 32 {
            return Err(FormatError::Truncated);
        }
        let flipped: u32 = cur.read_u32()?;
        let width: i32 = cur.read_i32()?;
        let height: i32 = cur.read_i32()?;
        let offset_x: i32 = cur.read_i32()?;
        let offset_y: i32 = cur.read_i32()?;
        let unknown: u32 = cur.read_u32()?;
        let next_block: i32 = cur.read_i32()?;
        let length: u32 = cur.read_u32()?;
        Ok(
            Dc6FrameHeader {
                flipped,
                width,
                height,
                offset_x,
                offset_y,
                unknown,
                next_block,
                length,
            },
        )
    }
}

impl Dc6Frame {
    /// The pixel grid has the size that the header states.
    pub open spec fn wf(self) -> bool {
        &&& self.header.width >= 0
        &&& self.header.height >= 0
        &&& self.pixels.has_shape(self.header.width as int, self.header.height as int)
    }

    /// Reads a frame: its header, then its pixels.
    pub fn from(cur: &mut ByteCursor) -> (r: Result<Dc6Frame, FormatError>)
        ensures
            final(cur).bytes() == old(cur).bytes(),
            match parse_frame(old(cur).bytes(), old(cur).pos() as int) {
                Ok(frame) => r is Ok && r->Ok_0@ == frame && r->Ok_0.wf() && final(cur).pos()
                    == old(cur).pos() + frame_header_len() + frame.header.length,
                Err(e) => r == Err::<Dc6Frame, FormatError>(e),
            },
    {
        let header: Dc6FrameHeader = Dc6FrameHeader::from(cur)?;
        let pixels: Grid<Option<u8>> = Dc6Frame::decode_pixels(cur, &header)?;
        Ok(Dc6Frame { header, pixels })
    }

    /// Decodes the opcode stream of a frame into its pixels.
    pub fn decode_pixels(cur: &mut ByteCursor, frame_header: &Dc6FrameHeader) -> (r: Result<
        Grid<Option<u8>>,
        FormatError,
    >)
        ensures
            final(cur).bytes() == old(cur).bytes(),
            match decode_frame_pixels(old(cur).bytes(), old(cur).pos() as int, *frame_header) {
                Ok(pixels) => r is Ok && r->Ok_0.cells() == pixels && r->Ok_0.has_shape(
                    frame_header.width as int,
                    frame_header.height as int,
                ) && final(cur).pos() == old(cur).pos() + frame_header.length,
                Err(e) => r == Err::<Grid<Option<u8>>, FormatError>(e),
            },
    {
        let ghost b = cur.bytes();
        let ghost start = cur.pos() as int;
        let header: Dc6FrameHeader = *frame_header;
        if header.width < 0 || header.height < 0 {
            return Err(FormatError::Malformed);
        }
        let width: usize = header.width as usize;
        let height: usize = header.height as usize;
        let mut pixels: Grid<Option<u8>> = match Grid::filled_with(width, height, None) {
            Some(g) => g,
            None => {
                return Err(FormatError::Malformed);
            },
        };
        let length: u64 = header.length as u64;
        let mut consumed: u64 = 0;
        let mut x: u64 = 0;
        let mut y: i64 = if header.flipped == 0 {
            header.height as i64 - 1
        } else {
            0
        };
        let mut pending: u64 = 0;
        let ghost first = rle_start(header);
        proof {
            assert(pixels.cells().dom() =~= rect(width as int, height as int));
        }
        while consumed < length
            invariant
                cur.bytes() == b,
                b == old(cur).bytes(),
                start == old(cur).pos(),
                header == *frame_header,
                length == header.length,
                width == header.width,
                height == header.height,
                0 <= header.width,
                0 <= header.height,
                grid_fits(header.width as int, header.height as int),
                first == rle_start(header),
                cur.pos() == start + consumed,
                pixels.has_shape(width as int, height as int),
                consumed + pending <= length,
                pending <= 0x7f,
                x <= 0x80 * consumed,
                -1 - consumed <= y <= header.height + consumed,
                rle_run(
                    b,
                    start,
                    header,
                    RleState {
                        consumed: consumed as int,
                        x: x as int,
                        y: y as int,
                        pending: pending as int,
                        pixels: pixels.cells(),
                    },
                ) == rle_run(b, start, header, first),
            decreases length - consumed,
        {
            let ghost s = RleState {
                consumed: consumed as int,
                x: x as int,
                y: y as int,
                pending: pending as int,
                pixels: pixels.cells(),
            };
            let byte: u8 = match cur.read_u8() {
                Ok(v) => v,
                Err(e) => {
                    proof {
                        assert(rle_step(b, start, header, s) == Err::<RleState, FormatError>(e));
                        assert(rle_run(b, start, header, s) == Err::<RleState, FormatError>(e));
                    }
                    return Err(e);
                },
            };
            if pending > 0 {
                if x < width as u64 && 0 <= y && y < height as i64 {
                    pixels.set(x as usize, y as usize, Some(byte));
                    x = x + 1;
                    pending = pending - 1;
                } else {
                    return Err(FormatError::Malformed);
                }
            } else if byte == 0x80 {
                if consumed + 1 != length {
                    x = 0;
                    if header.flipped == 0 {
                        y = y - 1;
                    } else {
                        y = y + 1;
                    }
                }
            } else if byte > 0x80 {
                x = x + (byte - 0x80) as u64;
            } else {
                if consumed + 1 + byte as u64 > length {
                    return Err(FormatError::Malformed);
                }
                pending = byte as u64;
            }
            consumed = consumed + 1;
            proof {
                assert(rle_step(b, start, header, s) == Ok::<RleState, FormatError>(
                    RleState {
                        consumed: consumed as int,
                        x: x as int,
                        y: y as int,
                        pending: pending as int,
                        pixels: pixels.cells(),
                    },
                ));
            }
        }
        Ok(pixels)
    }
}

impl Dc6 {
    /// Every frame's pixel grid has the size that its header states.
    pub open spec fn wf(self) -> bool {
        forall|i: int| 0 <= i < self.frames@.len() ==> (#[trigger] self.frames@[i]).wf()
    }

    /// Decodes a DC6 file.
    pub fn from(file_bytes: &[u8]) -> (r: Result<Dc6, FormatError>)
        ensures
            match parse_dc6(file_bytes@) {
                Ok(sheet) => r is Ok && r->Ok_0@ == sheet && r->Ok_0.wf(),
                Err(e) => r == Err::<Dc6, FormatError>(e),
            },
    {
        match Dc6::decode(file_bytes) {
            Ok(sheet) => Ok(sheet),
            Err(fault) => Err(fault.error),
        }
    }

    /// Decodes a DC6 file. An error comes with the section in which the
    /// decoder met it.
    pub fn decode(file_bytes: &[u8]) -> (r: Result<Dc6, Fault>)
        ensures
            match parse_dc6_sections(file_bytes@) {
                Ok(sheet) => r is Ok && r->Ok_0@ == sheet && r->Ok_0.wf(),
                Err(fault) => r == Err::<Dc6, Fault>(fault),
            },
    {
        let ghost b = file_bytes@;
        let mut cur = ByteCursor::new(file_bytes);
        let header: Dc6Header = fault_in(Dc6Header::from(&mut cur), Section::Header)?;
        assert(0 <= header.directions * header.frames <= 0xFFFF_FFFF * 0xFFFF_FFFF)
            by (nonlinear_arith)
            requires
                0 <= header.directions <= 0xFFFF_FFFF,
                0 <= header.frames <= 0xFFFF_FFFF,
        ;
        let total: u64 = (header.directions as u64) * (header.frames as u64);
        if total > (cur.remaining() / 4) as u64 {
            return Err(Fault { error: FormatError::Truncated, section: Section::FrameOffsets });
        }
        let mut offsets: Vec<u32> = Vec::new();
        let mut k: u64 = 0;
        while k < total
            invariant
                cur.bytes() == b,
                0 <= k <= total,
                can_read(b, sheet_header_len(), 4 * total),
                cur.pos() == sheet_header_len() + 4 * k,
                offsets@.len() == k,
                forall|i: int| 0 <= i < k ==> #[trigger] offsets@[i] == frame_offset(b, i),
            decreases total - k,
        {
            let offset: u32 = fault_in(cur.read_u32(), Section::FrameOffsets)?;
            offsets.push(offset);
            k = k + 1;
        }
        let mut frames: Vec<Dc6Frame> = Vec::new();
        let mut n: usize = 0;
        proof {
            assert(frame_models(frames@) =~= Seq::<FrameModel>::empty());
        }
        while n < offsets.len()
            invariant
                cur.bytes() == b,
                b == file_bytes@,
                can_read(b, 0, sheet_header_len()),
                header == sheet_header_at(b, 0),
                total == header.directions * header.frames,
                can_read(b, sheet_header_len(), 4 * total),
                offsets@.len() == total,
                forall|i: int| 0 <= i < total ==> #[trigger] offsets@[i] == frame_offset(b, i),
                0 <= n <= total,
                frames@.len() == n,
                forall|i: int| 0 <= i < n ==> (#[trigger] frames@[i]).wf(),
                parse_frames(b, n as nat) == Ok::<Seq<FrameModel>, FormatError>(
                    frame_models(frames@),
                ),
            decreases total - n,
        {
            let ghost before = frame_models(frames@);
            let offset: u32 = offsets[n];
            let frame: Dc6Frame = match Dc6::read_frame_at(&mut cur, offset) {
                Ok(f) => f,
                Err(e) => {
                    proof {
                        lemma_parse_frames_fails(b, (n + 1) as nat, total as nat);
                    }
                    return Err(Fault { error: e, section: Section::Frames });
                },
            };
            frames.push(frame);
            proof {
                assert(frame_models(frames@) =~= before.push(frames@[n as int]@));
            }
            n = n + 1;
        }
        Ok(Dc6 { header, frames })
    }

    /// Reads the frame that starts at `offset`.
    pub fn read_frame_at(cur: &mut ByteCursor, offset: u32) -> (r: Result<Dc6Frame, FormatError>)
        ensures
            final(cur).bytes() == old(cur).bytes(),
            match parse_frame(old(cur).bytes(), offset as int) {
                Ok(frame) => r is Ok && r->Ok_0@ == frame && r->Ok_0.wf(),
                Err(e) => r == Err::<Dc6Frame, FormatError>(e),
            },
    {
        cur.seek(offset as usize)?;
        Dc6Frame::from(cur)
    }

    /// Frame `frame` of direction `direction`, if the sheet has it.
    pub fn frame(&self, direction: u32, frame: u32) -> (r: Option<&Dc6Frame>)
        ensures
            r is Some <==> direction < self.header.directions && frame < self.header.frames
                && direction * self.header.frames + frame < self.frames@.len(),
            r is Some ==> *r->0 == self.frames@[direction * self.header.frames + frame],
    {
        if direction >= self.header.directions || frame >= self.header.frames {
            return None;
        }
        assert(0 <= direction * self.header.frames <= 0xFFFF_FFFF * 0xFFFF_FFFF)
            by (nonlinear_arith)
            requires
                0 <= direction <= 0xFFFF_FFFF,
                0 <= self.header.frames <= 0xFFFF_FFFF,
        ;
        let index: u64 = (direction as u64) * (self.header.frames as u64) + frame as u64;
        if index < self.frames.len() as u64 {
            Some(&self.frames[index as usize])
        } else {
            None
        }
    }
}

} // verus!
