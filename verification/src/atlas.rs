use vstd::prelude::*;
use crate::dc6::{Dc6, Dc6Frame};
use crate::dt1::{Dt1, SubTile, SubTilePixel, Tile};
use crate::palette::Palette;

verus! {

/// A colour with its opacity.
#[derive(Clone, Copy, Debug, PartialEq, Eq, Structural)]
pub struct Rgba {
    pub r: u8,
    pub g: u8,
    pub b: u8,
    pub a: u8,
}

/// The place of one sprite in a texture.
#[derive(Clone, Copy, Debug, PartialEq, Eq, Structural)]
pub struct SpriteRect {
    pub x: u32,
    pub y: u32,
    pub width: u32,
    pub height: u32,
}

/// A texture that holds the sprites of one file side by side.
#[derive(Clone, Debug, PartialEq, Eq)]
pub struct Atlas {
    pub width: u32,
    pub height: u32,
    /// The texels, row by row from the top, as red, green, blue and opacity.
    pub pixels: Vec<u8>,
    /// The place of each sprite, in the order of the file.
    pub sprites: Vec<SpriteRect>,
}

/// The colour of a pixel that is not there.
pub open spec fn transparent() -> Rgba {
    Rgba { r: 0, g: 0, b: 0, a: 0 }
}

/// The index of the first byte of texel `(x, y)` in a texture `width`
/// texels wide.
pub open spec fn texel_index(width: int, x: int, y: int) -> int {
    4 * (y * width + x)
}

/// The colour of texel `(x, y)` of the texture with the bytes `pixels`,
/// `width` texels wide.
pub open spec fn texel_of(pixels: Seq<u8>, width: int, x: int, y: int) -> Rgba {
    let i = texel_index(width, x, y);
    Rgba { r: pixels[i], g: pixels[i + 1], b: pixels[i + 2], a: pixels[i + 3] }
}

impl SpriteRect {
    /// Whether the texel `(x, y)` lies inside the sprite.
    pub open spec fn contains(self, x: int, y: int) -> bool {
        self.x <= x < self.x + self.width && self.y <= y < self.y + self.height
    }
}

impl Atlas {
    /// The texture holds four bytes for each of its texels.
    pub open spec fn wf(self) -> bool {
        self.pixels@.len() == 4 * (self.width * self.height)
    }

    /// The colour of texel `(x, y)`.
    pub open spec fn texel(self, x: int, y: int) -> Rgba {
        texel_of(self.pixels@, self.width as int, x, y)
    }

    /// The colour of texel `(x, y)`, or `None` outside the texture.
    pub fn get(&self, x: u32, y: u32) -> (r: Option<Rgba>)
        ensures
            self.wf() ==> r == if x < self.width && y < self.height {
                Some(self.texel(x as int, y as int))
            } else {
                None
            },
    {
        if x >= self.width || y >= self.height {
            return None;
        }
        assert(0 <= y * self.width <= 0xFFFF_FFFF * 0xFFFF_FFFF) by (nonlinear_arith)
            requires
                0 <= y <= 0xFFFF_FFFF,
                0 <= self.width <= 0xFFFF_FFFF,
        ;
        let first: u128 = 4 * ((y as u128) * (self.width as u128) + x as u128);
        if first + 4 > self.pixels.len() as u128 {
            proof {
                lemma_texel_in_texture(
                    self.width as int,
                    self.height as int,
                    x as int,
                    y as int,
                );
            }
            return None;
        }
        let i: usize = first as usize;
        Some(
            Rgba {
                r: self.pixels[i],
                g: self.pixels[i + 1],
                b: self.pixels[i + 2],
                a: self.pixels[i + 3],
            },
        )
    }
}

impl Palette {
    /// The colour that a pixel stands for: that of its palette index, fully
    /// opaque, and nothing for a transparent pixel. The palette stores blue
    /// first.
    pub open spec fn color_of(self, pixel: Option<u8>) -> Rgba {
        match pixel {
            None => transparent(),
            Some(index) => Rgba {
                r: self.colors@[index as int]@[2],
                g: self.colors@[index as int]@[1],
                b: self.colors@[index as int]@[0],
                a: 255,
            },
        }
    }

    /// The colour that a pixel stands for.
    pub fn rgba(&self, pixel: Option<u8>) -> (c: Rgba)
        ensures
            c == self.color_of(pixel),
    {
        match pixel {
            None => Rgba { r: 0, g: 0, b: 0, a: 0 },
            Some(index) => {
                let color: [u8; 3] = self.colors[index as usize];
                Rgba { r: color[2], g: color[1], b: color[0], a: 255 }
            },
        }
    }
}

/// The texels of a `width` by `height` texture lie one behind the other in
/// its bytes.
pub proof fn lemma_texel_in_texture(width: int, height: int, x: int, y: int)
    requires
        0 <= x < width,
        0 <= y < height,
    ensures
        0 <= y * width + x < width * height,
        0 <= texel_index(width, x, y),
        texel_index(width, x, y) + 4 <= 4 * (width * height),
{
    assert(0 <= y * width) by (nonlinear_arith)
        requires
            0 <= y,
            0 <= width,
    ;
    assert(y * width + width <= height * width) by (nonlinear_arith)
        requires
            y + 1 <= height,
            0 <= width,
    ;
    assert(height * width == width * height) by (nonlinear_arith);
}

/// Different texels of a texture have different places in its bytes.
pub proof fn lemma_texels_apart(width: int, x1: int, y1: int, x2: int, y2: int)
    requires
        0 <= x1 < width,
        0 <= x2 < width,
        0 <= y1,
        0 <= y2,
        x1 != x2 || y1 != y2,
    ensures
        y1 * width + x1 != y2 * width + x2,
{
    if y1 < y2 {
        assert(y1 * width + width <= y2 * width) by (nonlinear_arith)
            requires
                y1 + 1 <= y2,
                0 <= width,
        ;
    } else if y2 < y1 {
        assert(y2 * width + width <= y1 * width) by (nonlinear_arith)
            requires
                y2 + 1 <= y1,
                0 <= width,
        ;
    }
}

/// The width of the first `n` frames from `first` on, side by side.
pub open spec fn frames_width(frames: Seq<Dc6Frame>, first: int, n: nat) -> int
    decreases n,
{
    if n == 0 {
        0
    } else {
        frames_width(frames, first, (n - 1) as nat) + frames[first + n - 1].header.width
    }
}

/// The height of the tallest of the first `n` frames from `first` on.
pub open spec fn frames_height(frames: Seq<Dc6Frame>, first: int, n: nat) -> int
    decreases n,
{
    if n == 0 {
        0
    } else {
        let rest = frames_height(frames, first, (n - 1) as nat);
        let height = frames[first + n - 1].header.height as int;
        if height > rest {
            height
        } else {
            rest
        }
    }
}

/// The width of the widest of the first `rows` rows of `per_row` frames.
pub open spec fn rows_width(frames: Seq<Dc6Frame>, per_row: nat, rows: nat) -> int
    decreases rows,
{
    if rows == 0 {
        0
    } else {
        let rest = rows_width(frames, per_row, (rows - 1) as nat);
        let width = frames_width(frames, (rows - 1) * per_row, per_row);
        if width > rest {
            width
        } else {
            rest
        }
    }
}

/// The height of the first `rows` rows of `per_row` frames, one below the
/// other.
pub open spec fn rows_height(frames: Seq<Dc6Frame>, per_row: nat, rows: nat) -> int
    decreases rows,
{
    if rows == 0 {
        0
    } else {
        rows_height(frames, per_row, (rows - 1) as nat) + frames_height(
            frames,
            (rows - 1) * per_row,
            per_row,
        )
    }
}

/// The colour of pixel `(x, y)` of a frame; outside the frame there is
/// nothing.
pub open spec fn frame_color(frame: Dc6Frame, palette: Palette, x: int, y: int) -> Rgba {
    if frame.pixels.cells().dom().contains((x, y)) {
        palette.color_of(frame.pixels.cells()[(x, y)])
    } else {
        transparent()
    }
}

impl Dc6 {
    /// The number of frames that the header announces.
    pub open spec fn announced(self) -> int {
        self.header.directions * self.header.frames
    }

    /// The width of the texture: that of the widest direction.
    pub open spec fn atlas_width(self) -> int {
        rows_width(self.frames@, self.header.frames as nat, self.header.directions as nat)
    }

    /// The height of the texture: that of all directions, one below the
    /// other.
    pub open spec fn atlas_height(self) -> int {
        rows_height(self.frames@, self.header.frames as nat, self.header.directions as nat)
    }

    /// The place of frame `f` of direction `d` in the texture: each
    /// direction is a row as high as its tallest frame, and its frames stand
    /// side by side from the left.
    pub open spec fn sprite(self, d: int, f: int) -> SpriteRect {
        let per_row = self.header.frames as nat;
        let frame = self.frames@[d * per_row + f];
        SpriteRect {
            x: frames_width(self.frames@, d * per_row, f as nat) as u32,
            y: rows_height(self.frames@, per_row, d as nat) as u32,
            width: frame.header.width as u32,
            height: frame.header.height as u32,
        }
    }

    /// Whether the sheet can be laid out in a texture: it holds the frames
    /// that its header announces, none of negative size, and the texture's
    /// sides fit in 32 bits and its bytes in memory.
    pub open spec fn fits_atlas(self) -> bool {
        &&& self.frames@.len() == self.announced()
        &&& forall|k: int|
            0 <= k < self.frames@.len() ==> (#[trigger] self.frames@[k]).header.width >= 0
                && self.frames@[k].header.height >= 0
        &&& self.atlas_width() <= u32::MAX
        &&& self.atlas_height() <= u32::MAX
        &&& 4 * (self.atlas_width() * self.atlas_height()) <= usize::MAX
    }

    /// The colour of texel `(x, y)` once the directions before `d` and the
    /// first `f` frames of direction `d` are drawn, each over what was drawn
    /// before.
    pub open spec fn painted(self, palette: Palette, d: nat, f: nat, x: int, y: int) -> Rgba
        decreases d, f,
    {
        if f > 0 {
            let rect = self.sprite(d as int, f - 1);
            if rect.contains(x, y) {
                frame_color(
                    self.frames@[d * self.header.frames + f - 1],
                    palette,
                    x - rect.x,
                    y - rect.y,
                )
            } else {
                self.painted(palette, d, (f - 1) as nat, x, y)
            }
        } else if d > 0 {
            self.painted(palette, (d - 1) as nat, self.header.frames as nat, x, y)
        } else {
            transparent()
        }
    }
}

/// Frames of no negative width are no narrower together than fewer of them.
pub proof fn lemma_frames_width_grows(frames: Seq<Dc6Frame>, first: int, n: nat, m: nat)
    requires
        n <= m,
        0 <= first,
        first + m <= frames.len(),
        forall|k: int| 0 <= k < frames.len() ==> (#[trigger] frames[k]).header.width >= 0,
    ensures
        0 <= frames_width(frames, first, n) <= frames_width(frames, first, m),
    decreases m,
{
    if n < m {
        lemma_frames_width_grows(frames, first, n, (m - 1) as nat);
    } else if n > 0 {
        lemma_frames_width_grows(frames, first, (n - 1) as nat, (m - 1) as nat);
    }
}

/// The tallest of some frames is as tall as each of them.
pub proof fn lemma_frames_height_covers(frames: Seq<Dc6Frame>, first: int, n: nat, f: int)
    requires
        0 <= f < n,
    ensures
        0 <= frames_height(frames, first, n),
        frames[first + f].header.height <= frames_height(frames, first, n),
    decreases n,
{
    lemma_frames_height_nonnegative(frames, first, n);
    if f < n - 1 {
        lemma_frames_height_covers(frames, first, (n - 1) as nat, f);
    }
}

/// The tallest of some frames has no negative height.
pub proof fn lemma_frames_height_nonnegative(frames: Seq<Dc6Frame>, first: int, n: nat)
    ensures
        0 <= frames_height(frames, first, n),
    decreases n,
{
    if n > 0 {
        lemma_frames_height_nonnegative(frames, first, (n - 1) as nat);
    }
}

/// More rows are no narrower and no lower than fewer of them.
pub proof fn lemma_rows_grow(frames: Seq<Dc6Frame>, per_row: nat, n: nat, m: nat)
    requires
        n <= m,
    ensures
        0 <= rows_width(frames, per_row, n) <= rows_width(frames, per_row, m),
        0 <= rows_height(frames, per_row, n) <= rows_height(frames, per_row, m),
    decreases m,
{
    if n < m {
        lemma_rows_grow(frames, per_row, n, (m - 1) as nat);
        lemma_frames_height_nonnegative(frames, (m - 1) * per_row, per_row);
    } else if n > 0 {
        lemma_rows_grow(frames, per_row, (n - 1) as nat, (m - 1) as nat);
        lemma_frames_height_nonnegative(frames, (m - 1) * per_row, per_row);
    }
}

/// The frames of direction `d` lie inside the frames of all directions.
pub proof fn lemma_row_index(rows: int, per_row: int, d: int)
    requires
        0 <= d < rows,
        0 <= per_row,
    ensures
        0 <= d * per_row,
        d * per_row + per_row <= rows * per_row,
{
    assert(0 <= d * per_row) by (nonlinear_arith)
        requires
            0 <= d,
            0 <= per_row,
    ;
    assert(d * per_row + per_row <= rows * per_row) by (nonlinear_arith)
        requires
            d + 1 <= rows,
            0 <= per_row,
    ;
}

/// Frame `f` of direction `d` is the frame at index `d * per_row + f`, which
/// the sheet holds.
pub proof fn lemma_frame_index(rows: int, per_row: int, d: int, f: int)
    requires
        0 <= d < rows,
        0 <= f < per_row,
    ensures
        0 <= d * per_row,
        d * per_row + per_row <= rows * per_row,
        0 <= d * per_row + f < rows * per_row,
{
    assert(0 <= d * per_row) by (nonlinear_arith)
        requires
            0 <= d,
            0 <= per_row,
    ;
    assert(d * per_row + per_row <= rows * per_row) by (nonlinear_arith)
        requires
            d + 1 <= rows,
            0 <= per_row,
    ;
}

impl Dc6 {
    /// Every sprite lies inside the texture.
    pub proof fn lemma_sprite_inside(self, d: int, f: int)
        requires
            self.frames@.len() == self.announced(),
            forall|k: int|
                0 <= k < self.frames@.len() ==> (#[trigger] self.frames@[k]).header.width >= 0
                    && self.frames@[k].header.height >= 0,
            0 <= d < self.header.directions,
            0 <= f < self.header.frames,
        ensures
            0 <= frames_width(self.frames@, d * self.header.frames, f as nat),
            0 <= rows_height(self.frames@, self.header.frames as nat, d as nat),
            frames_width(self.frames@, d * self.header.frames, f as nat) + self.frames@[d
                * self.header.frames + f].header.width <= self.atlas_width(),
            rows_height(self.frames@, self.header.frames as nat, d as nat) + self.frames@[d
                * self.header.frames + f].header.height <= self.atlas_height(),
    {
        let frames = self.frames@;
        let per_row = self.header.frames as nat;
        let rows = self.header.directions as nat;
        lemma_frame_index(rows as int, per_row as int, d, f);
        lemma_frames_width_grows(frames, d * per_row, f as nat, (f + 1) as nat);
        lemma_frames_width_grows(frames, d * per_row, (f + 1) as nat, per_row);
        lemma_rows_grow(frames, per_row, (d + 1) as nat, rows);
        lemma_rows_grow(frames, per_row, d as nat, (d + 1) as nat);
        lemma_frames_height_covers(frames, d * per_row, per_row, f);
    }
}

impl Dc6 {
    /// No texel lies in two sprites: the sprites of one direction stand side
    /// by side, and those of different directions in different rows.
    pub proof fn lemma_sprites_apart(self, d1: int, f1: int, d2: int, f2: int, x: int, y: int)
        requires
            self.fits_atlas(),
            0 <= d1 < self.header.directions,
            0 <= d2 < self.header.directions,
            0 <= f1 < self.header.frames,
            0 <= f2 < self.header.frames,
            d1 != d2 || f1 != f2,
            self.sprite(d1, f1).contains(x, y),
        ensures
            !self.sprite(d2, f2).contains(x, y),
    {
        let frames = self.frames@;
        let per_row = self.header.frames as nat;
        let rows = self.header.directions as nat;
        self.lemma_sprite_inside(d1, f1);
        self.lemma_sprite_inside(d2, f2);
        lemma_frame_index(rows as int, per_row as int, d1, f1);
        lemma_frame_index(rows as int, per_row as int, d2, f2);
        if d1 < d2 {
            lemma_frames_height_covers(frames, d1 * per_row, per_row, f1);
            lemma_rows_grow(frames, per_row, (d1 + 1) as nat, d2 as nat);
        } else if d2 < d1 {
            lemma_frames_height_covers(frames, d2 * per_row, per_row, f2);
            lemma_rows_grow(frames, per_row, (d2 + 1) as nat, d1 as nat);
        } else if f1 < f2 {
            lemma_frames_width_grows(frames, d1 * per_row, (f1 + 1) as nat, f2 as nat);
        } else {
            lemma_frames_width_grows(frames, d1 * per_row, (f2 + 1) as nat, f1 as nat);
        }
    }
}

impl Dc6 {
    /// The colour of texel `(x, y)` while frame `f` of direction `d` is
    /// drawn, with `rows` of its rows and `columns` pixels of the next row
    /// done.
    pub open spec fn painting(
        self,
        palette: Palette,
        d: nat,
        f: nat,
        rows: int,
        columns: int,
        x: int,
        y: int,
    ) -> Rgba {
        let rect = self.sprite(d as int, f as int);
        if rect.contains(x, y) && (y - rect.y < rows || (y - rect.y == rows && x - rect.x
            < columns)) {
            frame_color(
                self.frames@[d * self.header.frames + f],
                palette,
                x - rect.x,
                y - rect.y,
            )
        } else {
            self.painted(palette, d, f, x, y)
        }
    }

    /// Whether the sheet holds the frames that its header announces, none of
    /// negative size.
    pub open spec fn has_its_frames(self) -> bool {
        &&& self.frames@.len() == self.announced()
        &&& forall|k: int|
            0 <= k < self.frames@.len() ==> (#[trigger] self.frames@[k]).header.width >= 0
                && self.frames@[k].header.height >= 0
    }

    /// Whether the sheet holds the frames that its header announces, none of
    /// negative size.
    pub fn check_frames(&self) -> (b: bool)
        ensures
            b == self.has_its_frames(),
    {
        assert(0 <= self.header.directions * self.header.frames <= 0xFFFF_FFFF * 0xFFFF_FFFF)
            by (nonlinear_arith)
            requires
                0 <= self.header.directions <= 0xFFFF_FFFF,
                0 <= self.header.frames <= 0xFFFF_FFFF,
        ;
        let total: u64 = (self.header.directions as u64) * (self.header.frames as u64);
        if self.frames.len() as u64 != total {
            return false;
        }
        let mut k: usize = 0;
        while k < self.frames.len()
            invariant
                0 <= k <= self.frames@.len(),
                self.frames@.len() == self.announced(),
                forall|i: int|
                    0 <= i < k ==> (#[trigger] self.frames@[i]).header.width >= 0
                        && self.frames@[i].header.height >= 0,
            decreases self.frames@.len() - k,
        {
            if self.frames[k].header.width < 0 || self.frames[k].header.height < 0 {
                return false;
            }
            k = k + 1;
        }
        true
    }

    /// The width and the height of direction `d`: its frames side by side.
    pub fn row_size(&self, d: u32) -> (size: (u64, u64))
        requires
            self.has_its_frames(),
            d < self.header.directions,
        ensures
            size.0 == frames_width(self.frames@, d * self.header.frames, self.header.frames as nat),
            size.1 == frames_height(
                self.frames@,
                d * self.header.frames,
                self.header.frames as nat,
            ),
            size.1 <= i32::MAX,
    {
        let per_row: u32 = self.header.frames;
        let total: usize = self.frames.len();
        proof {
            lemma_row_index(self.header.directions as int, per_row as int, d as int);
        }
        let first: usize = (d as usize) * (per_row as usize);
        let mut width: u64 = 0;
        let mut height: u64 = 0;
        let mut f: u32 = 0;
        while f < per_row
            invariant
                self.has_its_frames(),
                d < self.header.directions,
                per_row == self.header.frames,
                first == d * per_row,
                first + per_row <= self.frames@.len(),
                self.frames@.len() == total,
                0 <= f <= per_row,
                width == frames_width(self.frames@, first as int, f as nat),
                height == frames_height(self.frames@, first as int, f as nat),
                width <= f * 0x7FFF_FFFF,
                height <= 0x7FFF_FFFF,
            decreases per_row - f,
        {
            let frame: &Dc6Frame = &self.frames[first + f as usize];
            assert((f + 1) * 0x7FFF_FFFF <= 0xFFFF_FFFF * 0x7FFF_FFFF) by (nonlinear_arith)
                requires
                    f + 1 <= 0xFFFF_FFFF,
            ;
            width = width + frame.header.width as u64;
            if frame.header.height as u64 > height {
                height = frame.header.height as u64;
            }
            f = f + 1;
        }
        (width, height)
    }

    /// The size of the texture, where its sides fit in 32 bits.
    pub fn atlas_size(&self) -> (size: Option<(u32, u32)>)
        requires
            self.has_its_frames(),
        ensures
            match size {
                Some(sides) => sides.0 == self.atlas_width() && sides.1 == self.atlas_height(),
                None => self.atlas_width() > u32::MAX || self.atlas_height() > u32::MAX,
            },
    {
        let ghost frames = self.frames@;
        let ghost per_row = self.header.frames as nat;
        let rows: u32 = self.header.directions;
        let mut width: u32 = 0;
        let mut height: u32 = 0;
        let mut d: u32 = 0;
        while d < rows
            invariant
                self.has_its_frames(),
                frames == self.frames@,
                per_row == self.header.frames,
                rows == self.header.directions,
                0 <= d <= rows,
                width == rows_width(frames, per_row, d as nat),
                height == rows_height(frames, per_row, d as nat),
            decreases rows - d,
        {
            let (row_width, row_height) = self.row_size(d);
            proof {
                lemma_rows_grow(frames, per_row, (d + 1) as nat, rows as nat);
            }
            if row_width > u32::MAX as u64 {
                return None;
            }
            if row_width > width as u64 {
                width = row_width as u32;
            }
            if row_height > (u32::MAX - height) as u64 {
                return None;
            }
            height = height + row_height as u32;
            d = d + 1;
        }
        Some((width, height))
    }

    /// Lays the frames out in one texture and colours them with `palette`.
    ///
    /// Each direction is a row of the texture, as high as its tallest frame;
    /// the rows stand one below the other and the frames of a row side by
    /// side from the left. What no frame covers is transparent.
    pub fn to_atlas(&self, palette: &Palette) -> (r: Option<Atlas>)
        ensures
            r is Some <==> self.fits_atlas(),
            r is Some ==> r->0.wf(),
            r is Some ==> r->0.width == self.atlas_width() && r->0.height == self.atlas_height(),
            r is Some ==> r->0.sprites@.len() == self.announced(),
            r is Some ==> forall|d: int, f: int|
                0 <= d < self.header.directions && 0 <= f < self.header.frames
                    ==> r->0.sprites@[d * self.header.frames + f] == #[trigger] self.sprite(d, f),
            r is Some ==> forall|x: int, y: int|
                0 <= x < r->0.width && 0 <= y < r->0.height ==> #[trigger] r->0.texel(x, y)
                    == self.painted(*palette, self.header.directions as nat, 0, x, y),
    {
        if !self.check_frames() {
            return None;
        }
        let size: (u32, u32) = match self.atlas_size() {
            Some(size) => size,
            None => {
                return None;
            },
        };
        let width: u32 = size.0;
        let height: u32 = size.1;
        assert(0 <= width * height <= 0xFFFF_FFFF * 0xFFFF_FFFF) by (nonlinear_arith)
            requires
                0 <= width <= 0xFFFF_FFFF,
                0 <= height <= 0xFFFF_FFFF,
        ;
        let bytes: u128 = 4 * ((width as u128) * (height as u128));
        if bytes > usize::MAX as u128 {
            return None;
        }
        let mut pixels: Vec<u8> = vec![0u8; bytes as usize];
        let mut sprites: Vec<SpriteRect> = Vec::new();
        let ghost frames = self.frames@;
        let per_row: u32 = self.header.frames;
        let rows: u32 = self.header.directions;
        let mut top: u32 = 0;
        let mut d: u32 = 0;
        proof {
            assert forall|x: int, y: int| 0 <= x < width && 0 <= y < height implies texel_of(
                pixels@,
                width as int,
                x,
                y,
            ) == self.painted(*palette, 0, 0, x, y) by {
                lemma_texel_in_texture(width as int, height as int, x, y);
            }
        }
        while d < rows
            invariant
                self.fits_atlas(),
                self.has_its_frames(),
                frames == self.frames@,
                per_row == self.header.frames,
                rows == self.header.directions,
                width == self.atlas_width(),
                height == self.atlas_height(),
                pixels@.len() == 4 * (width * height),
                0 <= d <= rows,
                top == rows_height(frames, per_row as nat, d as nat),
                sprites@.len() == d * per_row,
                forall|i: int, j: int|
                    0 <= i < d && 0 <= j < per_row ==> sprites@[i * per_row + j]
                        == #[trigger] self.sprite(i, j),
                forall|x: int, y: int|
                    0 <= x < width && 0 <= y < height ==> #[trigger] texel_of(
                        pixels@,
                        width as int,
                        x,
                        y,
                    ) == self.painted(*palette, d as nat, 0, x, y),
            decreases rows - d,
        {
            let total: usize = self.frames.len();
            proof {
                lemma_row_index(rows as int, per_row as int, d as int);
            }
            let first: usize = (d as usize) * (per_row as usize);
            let mut left: u32 = 0;
            let mut tallest: u32 = 0;
            let mut f: u32 = 0;
            while f < per_row
                invariant
                    self.fits_atlas(),
                    self.has_its_frames(),
                    frames == self.frames@,
                    per_row == self.header.frames,
                    rows == self.header.directions,
                    width == self.atlas_width(),
                    height == self.atlas_height(),
                    pixels@.len() == 4 * (width * height),
                    0 <= d < rows,
                    0 <= f <= per_row,
                    first == d * per_row,
                    first + per_row <= frames.len(),
                    frames.len() == total,
                    top == rows_height(frames, per_row as nat, d as nat),
                    left == frames_width(frames, first as int, f as nat),
                    tallest == frames_height(frames, first as int, f as nat),
                    sprites@.len() == d * per_row + f,
                    forall|i: int, j: int|
                        0 <= i < d && 0 <= j < per_row ==> sprites@[i * per_row + j]
                            == #[trigger] self.sprite(i, j),
                    forall|j: int|
                        0 <= j < f ==> sprites@[d * per_row + j] == #[trigger] self.sprite(
                            d as int,
                            j,
                        ),
                    forall|x: int, y: int|
                        0 <= x < width && 0 <= y < height ==> #[trigger] texel_of(
                            pixels@,
                            width as int,
                            x,
                            y,
                        ) == self.painted(*palette, d as nat, f as nat, x, y),
                decreases per_row - f,
            {
                proof {
                    self.lemma_sprite_inside(d as int, f as int);
                }
                let frame: &Dc6Frame = &self.frames[first + f as usize];
                let frame_width: u32 = frame.header.width as u32;
                let frame_height: u32 = frame.header.height as u32;
                let rect = SpriteRect { x: left, y: top, width: frame_width, height: frame_height };
                assert(rect == self.sprite(d as int, f as int));
                let mut cy: u32 = 0;
                while cy < frame_height
                    invariant
                        self.fits_atlas(),
                        frames == self.frames@,
                        per_row == self.header.frames,
                        rows == self.header.directions,
                        width == self.atlas_width(),
                        height == self.atlas_height(),
                        pixels@.len() == 4 * (width * height),
                        0 <= d < rows,
                        0 <= f < per_row,
                        first == d * per_row,
                        first + f < frames.len(),
                        *frame == frames[first + f],
                        rect == self.sprite(d as int, f as int),
                        rect.x + rect.width <= width,
                        rect.y + rect.height <= height,
                        frame_width == rect.width,
                        frame_height == rect.height,
                        0 <= cy <= frame_height,
                        forall|x: int, y: int|
                            0 <= x < width && 0 <= y < height ==> #[trigger] texel_of(
                                pixels@,
                                width as int,
                                x,
                                y,
                            ) == self.painting(*palette, d as nat, f as nat, cy as int, 0, x, y),
                    decreases frame_height - cy,
                {
                    let mut cx: u32 = 0;
                    while cx < frame_width
                        invariant
                            self.fits_atlas(),
                            frames == self.frames@,
                            per_row == self.header.frames,
                            rows == self.header.directions,
                            width == self.atlas_width(),
                            height == self.atlas_height(),
                            pixels@.len() == 4 * (width * height),
                            0 <= d < rows,
                            0 <= f < per_row,
                            first == d * per_row,
                            first + f < frames.len(),
                            *frame == frames[first + f],
                            rect == self.sprite(d as int, f as int),
                            rect.x + rect.width <= width,
                            rect.y + rect.height <= height,
                            frame_width == rect.width,
                            frame_height == rect.height,
                            0 <= cy < frame_height,
                            0 <= cx <= frame_width,
                            forall|x: int, y: int|
                                0 <= x < width && 0 <= y < height ==> #[trigger] texel_of(
                                    pixels@,
                                    width as int,
                                    x,
                                    y,
                                ) == self.painting(
                                    *palette,
                                    d as nat,
                                    f as nat,
                                    cy as int,
                                    cx as int,
                                    x,
                                    y,
                                ),
                        decreases frame_width - cx,
                    {
                        let color: Rgba = match frame.pixels.get(cx as usize, cy as usize) {
                            Some(pixel) => palette.rgba(pixel),
                            None => Rgba { r: 0, g: 0, b: 0, a: 0 },
                        };
                        let tx: u32 = rect.x + cx;
                        let ty: u32 = rect.y + cy;
                        proof {
                            lemma_texel_in_texture(
                                width as int,
                                height as int,
                                tx as int,
                                ty as int,
                            );
                        }
                        let at: usize = 4 * ((ty as usize) * (width as usize) + tx as usize);
                        let ghost before = pixels@;
                        pixels[at] = color.r;
                        pixels[at + 1] = color.g;
                        pixels[at + 2] = color.b;
                        pixels[at + 3] = color.a;
                        proof {
                            assert forall|x: int, y: int|
                                0 <= x < width && 0 <= y < height implies #[trigger] texel_of(
                                pixels@,
                                width as int,
                                x,
                                y,
                            ) == self.painting(
                                *palette,
                                d as nat,
                                f as nat,
                                cy as int,
                                cx + 1,
                                x,
                                y,
                            ) by {
                                lemma_texel_in_texture(width as int, height as int, x, y);
                                if x == tx && y == ty {
                                } else {
                                    lemma_texels_apart(width as int, x, y, tx as int, ty as int);
                                    assert(texel_of(pixels@, width as int, x, y) == texel_of(
                                        before,
                                        width as int,
                                        x,
                                        y,
                                    ));
                                }
                            }
                        }
                        cx = cx + 1;
                    }
                    cy = cy + 1;
                }
                sprites.push(rect);
                proof {
                    assert forall|i: int, j: int| 0 <= i < d && 0 <= j < per_row implies sprites@[i
                        * per_row + j] == #[trigger] self.sprite(i, j) by {
                        lemma_frame_index(d as int, per_row as int, i, j);
                    }
                }
                left = left + frame_width;
                if frame_height > tallest {
                    tallest = frame_height;
                }
                f = f + 1;
            }
            proof {
                lemma_rows_grow(frames, per_row as nat, (d + 1) as nat, rows as nat);
                assert((d + 1) * per_row == d * per_row + per_row) by (nonlinear_arith);
                assert forall|i: int, j: int| 0 <= i < d + 1 && 0 <= j < per_row implies sprites@[i
                    * per_row + j] == #[trigger] self.sprite(i, j) by {
                    if i < d {
                        lemma_frame_index(d as int, per_row as int, i, j);
                    }
                }
            }
            top = top + tallest;
            d = d + 1;
        }
        Some(Atlas { width, height, pixels, sprites })
    }
}

/// The size of a stored height, whose sign only says from which edge the
/// tile is anchored.
pub open spec fn unsigned_height(height: i32) -> int {
    if height < 0 {
        -height
    } else {
        height as int
    }
}

/// The size of a stored offset.
pub open spec fn unsigned_offset(offset: i16) -> int {
    if offset < 0 {
        -offset
    } else {
        offset as int
    }
}

/// The width of the first `n` tiles, side by side.
pub open spec fn tiles_width(tiles: Seq<Tile>, n: nat) -> int
    decreases n,
{
    if n == 0 {
        0
    } else {
        tiles_width(tiles, (n - 1) as nat) + tiles[n - 1].width
    }
}

/// The height of the tallest of the first `n` tiles.
pub open spec fn tiles_height(tiles: Seq<Tile>, n: nat) -> int
    decreases n,
{
    if n == 0 {
        0
    } else {
        let rest = tiles_height(tiles, (n - 1) as nat);
        let height = unsigned_height(tiles[n - 1].height);
        if height > rest {
            height
        } else {
            rest
        }
    }
}

/// Whether `pixel` of the sub-tile `sub` of the tile at `rect` is the texel
/// `(x, y)`: the sub-tile lies at its offset inside the tile, and what falls
/// outside the tile is not drawn.
pub open spec fn pixel_at(rect: SpriteRect, sub: SubTile, pixel: SubTilePixel, x: int, y: int) -> bool {
    &&& rect.contains(x, y)
    &&& x == rect.x + sub.x + pixel.x
    &&& y == rect.y + unsigned_offset(sub.y) + pixel.y
}

/// The colour of texel `(x, y)` once the first `n` pixels of `sub` are drawn
/// over the colour `below`.
pub open spec fn sub_tile_painted(
    rect: SpriteRect,
    sub: SubTile,
    palette: Palette,
    n: nat,
    below: Rgba,
    x: int,
    y: int,
) -> Rgba
    decreases n,
{
    if n == 0 {
        below
    } else if pixel_at(rect, sub, sub.decoded_pixels@[n - 1], x, y) {
        palette.color_of(Some(sub.decoded_pixels@[n - 1].index))
    } else {
        sub_tile_painted(rect, sub, palette, (n - 1) as nat, below, x, y)
    }
}

/// The colour of texel `(x, y)` once the first `n` sub-tiles of `tile` are
/// drawn over the colour `below`.
pub open spec fn tile_painted(
    rect: SpriteRect,
    tile: Tile,
    palette: Palette,
    n: nat,
    below: Rgba,
    x: int,
    y: int,
) -> Rgba
    decreases n,
{
    if n == 0 {
        below
    } else {
        sub_tile_painted(
            rect,
            tile.sub_tiles@[n - 1],
            palette,
            tile.sub_tiles@[n - 1].decoded_pixels@.len(),
            tile_painted(rect, tile, palette, (n - 1) as nat, below, x, y),
            x,
            y,
        )
    }
}

/// Tiles of no negative width are no narrower together than fewer of them.
pub proof fn lemma_tiles_width_grows(tiles: Seq<Tile>, n: nat, m: nat)
    requires
        n <= m <= tiles.len(),
        forall|k: int| 0 <= k < tiles.len() ==> (#[trigger] tiles[k]).width >= 0,
    ensures
        0 <= tiles_width(tiles, n) <= tiles_width(tiles, m),
    decreases m,
{
    if n < m {
        lemma_tiles_width_grows(tiles, n, (m - 1) as nat);
    } else if n > 0 {
        lemma_tiles_width_grows(tiles, (n - 1) as nat, (m - 1) as nat);
    }
}

/// The tallest of some tiles is as tall as each of them, and no taller than
/// a stored height can be.
pub proof fn lemma_tiles_height_covers(tiles: Seq<Tile>, n: nat, k: int)
    requires
        0 <= k < n,
    ensures
        unsigned_height(tiles[k].height) <= tiles_height(tiles, n) <= 0x8000_0000,
    decreases n,
{
    lemma_tiles_height_bounds(tiles, n);
    if k < n - 1 {
        lemma_tiles_height_covers(tiles, (n - 1) as nat, k);
    }
}

/// The tallest of some tiles is no taller than a stored height can be.
pub proof fn lemma_tiles_height_bounds(tiles: Seq<Tile>, n: nat)
    ensures
        0 <= tiles_height(tiles, n) <= 0x8000_0000,
    decreases n,
{
    if n > 0 {
        lemma_tiles_height_bounds(tiles, (n - 1) as nat);
    }
}

/// More tiles are no lower than fewer of them.
pub proof fn lemma_tiles_height_grows(tiles: Seq<Tile>, n: nat, m: nat)
    requires
        n <= m,
    ensures
        tiles_height(tiles, n) <= tiles_height(tiles, m),
    decreases m,
{
    if n < m {
        lemma_tiles_height_grows(tiles, n, (m - 1) as nat);
    }
}

impl Dt1 {
    /// The width of the texture: that of all tiles side by side.
    pub open spec fn atlas_width(self) -> int {
        tiles_width(self.tiles@, self.tiles@.len())
    }

    /// The height of the texture: that of the tallest tile.
    pub open spec fn atlas_height(self) -> int {
        tiles_height(self.tiles@, self.tiles@.len())
    }

    /// The place of tile `k` in the texture: the tiles stand side by side
    /// from the left, each at the top.
    pub open spec fn sprite(self, k: int) -> SpriteRect {
        SpriteRect {
            x: tiles_width(self.tiles@, k as nat) as u32,
            y: 0,
            width: self.tiles@[k].width as u32,
            height: unsigned_height(self.tiles@[k].height) as u32,
        }
    }

    /// Whether no tile has a negative width.
    pub open spec fn has_widths(self) -> bool {
        forall|k: int| 0 <= k < self.tiles@.len() ==> (#[trigger] self.tiles@[k]).width >= 0
    }

    /// Whether the tile set can be laid out in a texture: no tile has a
    /// negative width, and the texture's width fits in 32 bits and its bytes
    /// in memory.
    pub open spec fn fits_atlas(self) -> bool {
        &&& self.has_widths()
        &&& self.atlas_width() <= u32::MAX
        &&& 4 * (self.atlas_width() * self.atlas_height()) <= usize::MAX
    }

    /// The colour of texel `(x, y)` once the first `n` tiles are drawn.
    pub open spec fn painted(self, palette: Palette, n: nat, x: int, y: int) -> Rgba
        decreases n,
    {
        if n == 0 {
            transparent()
        } else {
            tile_painted(
                self.sprite(n - 1),
                self.tiles@[n - 1],
                palette,
                self.tiles@[n - 1].sub_tiles@.len(),
                self.painted(palette, (n - 1) as nat, x, y),
                x,
                y,
            )
        }
    }

    /// The size of the texture, where its width fits in 32 bits and no tile
    /// has a negative width.
    pub fn atlas_size(&self) -> (size: Option<(u32, u32)>)
        ensures
            match size {
                Some(sides) => self.has_widths() && sides.0 == self.atlas_width() && sides.1
                    == self.atlas_height(),
                None => !self.has_widths() || self.atlas_width() > u32::MAX,
            },
    {
        let ghost tiles = self.tiles@;
        let total: usize = self.tiles.len();
        let mut k: usize = 0;
        while k < total
            invariant
                total == self.tiles@.len(),
                0 <= k <= total,
                forall|i: int| 0 <= i < k ==> (#[trigger] self.tiles@[i]).width >= 0,
            decreases total - k,
        {
            if self.tiles[k].width < 0 {
                return None;
            }
            k = k + 1;
        }
        let mut width: u32 = 0;
        let mut height: u32 = 0;
        let mut n: usize = 0;
        while n < total
            invariant
                tiles == self.tiles@,
                total == tiles.len(),
                self.has_widths(),
                0 <= n <= total,
                width == tiles_width(tiles, n as nat),
                height == tiles_height(tiles, n as nat),
            decreases total - n,
        {
            proof {
                lemma_tiles_width_grows(tiles, (n + 1) as nat, total as nat);
                lemma_tiles_height_bounds(tiles, (n + 1) as nat);
            }
            let tile: &Tile = &self.tiles[n];
            if tile.width as u32 > u32::MAX - width {
                return None;
            }
            width = width + tile.width as u32;
            let tall: u32 = if tile.height < 0 {
                (-(tile.height as i64)) as u32
            } else {
                tile.height as u32
            };
            if tall > height {
                height = tall;
            }
            n = n + 1;
        }
        Some((width, height))
    }

    /// Lays the tiles out in one texture and colours them with `palette`.
    ///
    /// The tiles stand side by side from the left, each at the top of the
    /// texture, which is as high as the tallest of them. The pixels of each
    /// sub-tile are drawn at the sub-tile's offset inside its tile, in the
    /// order of the file, later ones over earlier ones; what no pixel covers
    /// is transparent.
    pub fn to_atlas(&self, palette: &Palette) -> (r: Option<Atlas>)
        ensures
            r is Some <==> self.fits_atlas(),
            r is Some ==> r->0.wf(),
            r is Some ==> r->0.width == self.atlas_width() && r->0.height == self.atlas_height(),
            r is Some ==> r->0.sprites@.len() == self.tiles@.len(),
            r is Some ==> forall|k: int|
                0 <= k < self.tiles@.len() ==> r->0.sprites@[k] == #[trigger] self.sprite(k),
            r is Some ==> forall|x: int, y: int|
                0 <= x < r->0.width && 0 <= y < r->0.height ==> #[trigger] r->0.texel(x, y)
                    == self.painted(*palette, self.tiles@.len(), x, y),
    {
        let size: (u32, u32) = match self.atlas_size() {
            Some(size) => size,
            None => {
                return None;
            },
        };
        let width: u32 = size.0;
        let height: u32 = size.1;
        assert(0 <= width * height <= 0xFFFF_FFFF * 0xFFFF_FFFF) by (nonlinear_arith)
            requires
                0 <= width <= 0xFFFF_FFFF,
                0 <= height <= 0xFFFF_FFFF,
        ;
        let bytes: u128 = 4 * ((width as u128) * (height as u128));
        if bytes > usize::MAX as u128 {
            return None;
        }
        let mut pixels: Vec<u8> = vec![0u8; bytes as usize];
        let mut sprites: Vec<SpriteRect> = Vec::new();
        let ghost tiles = self.tiles@;
        let total: usize = self.tiles.len();
        let mut left: u32 = 0;
        let mut n: usize = 0;
        proof {
            assert forall|x: int, y: int| 0 <= x < width && 0 <= y < height implies texel_of(
                pixels@,
                width as int,
                x,
                y,
            ) == self.painted(*palette, 0, x, y) by {
                lemma_texel_in_texture(width as int, height as int, x, y);
            }
        }
        while n < total
            invariant
                self.fits_atlas(),
                tiles == self.tiles@,
                total == tiles.len(),
                width == self.atlas_width(),
                height == self.atlas_height(),
                pixels@.len() == 4 * (width * height),
                0 <= n <= total,
                left == tiles_width(tiles, n as nat),
                sprites@.len() == n,
                forall|k: int| 0 <= k < n ==> sprites@[k] == #[trigger] self.sprite(k),
                forall|x: int, y: int|
                    0 <= x < width && 0 <= y < height ==> #[trigger] texel_of(
                        pixels@,
                        width as int,
                        x,
                        y,
                    ) == self.painted(*palette, n as nat, x, y),
            decreases total - n,
        {
            proof {
                lemma_tiles_width_grows(tiles, (n + 1) as nat, total as nat);
                lemma_tiles_width_grows(tiles, n as nat, (n + 1) as nat);
                lemma_tiles_height_covers(tiles, total as nat, n as int);
            }
            let tile: &Tile = &self.tiles[n];
            let tall: u32 = if tile.height < 0 {
                (-(tile.height as i64)) as u32
            } else {
                tile.height as u32
            };
            let rect = SpriteRect { x: left, y: 0, width: tile.width as u32, height: tall };
            assert(rect == self.sprite(n as int));
            let subs: usize = tile.sub_tiles.len();
            let mut s: usize = 0;
            while s < subs
                invariant
                    self.fits_atlas(),
                    tiles == self.tiles@,
                    total == tiles.len(),
                    width == self.atlas_width(),
                    height == self.atlas_height(),
                    pixels@.len() == 4 * (width * height),
                    0 <= n < total,
                    *tile == tiles[n as int],
                    rect == self.sprite(n as int),
                    rect.x + rect.width <= width,
                    rect.y + rect.height <= height,
                    subs == tile.sub_tiles@.len(),
                    0 <= s <= subs,
                    forall|x: int, y: int|
                        0 <= x < width && 0 <= y < height ==> #[trigger] texel_of(
                            pixels@,
                            width as int,
                            x,
                            y,
                        ) == tile_painted(
                            rect,
                            *tile,
                            *palette,
                            s as nat,
                            self.painted(*palette, n as nat, x, y),
                            x,
                            y,
                        ),
                decreases subs - s,
            {
                let sub: &SubTile = &tile.sub_tiles[s];
                let count: usize = sub.decoded_pixels.len();
                let down: i128 = if sub.y < 0 {
                    -(sub.y as i128)
                } else {
                    sub.y as i128
                };
                let mut p: usize = 0;
                while p < count
                    invariant
                        self.fits_atlas(),
                        tiles == self.tiles@,
                        total == tiles.len(),
                        width == self.atlas_width(),
                        height == self.atlas_height(),
                        pixels@.len() == 4 * (width * height),
                        0 <= n < total,
                        *tile == tiles[n as int],
                        rect == self.sprite(n as int),
                        rect.x + rect.width <= width,
                        rect.y + rect.height <= height,
                        subs == tile.sub_tiles@.len(),
                        0 <= s < subs,
                        *sub == tile.sub_tiles@[s as int],
                        count == sub.decoded_pixels@.len(),
                        down == unsigned_offset(sub.y),
                        0 <= p <= count,
                        forall|x: int, y: int|
                            0 <= x < width && 0 <= y < height ==> #[trigger] texel_of(
                                pixels@,
                                width as int,
                                x,
                                y,
                            ) == sub_tile_painted(
                                rect,
                                *sub,
                                *palette,
                                p as nat,
                                tile_painted(
                                    rect,
                                    *tile,
                                    *palette,
                                    s as nat,
                                    self.painted(*palette, n as nat, x, y),
                                    x,
                                    y,
                                ),
                                x,
                                y,
                            ),
                    decreases count - p,
                {
                    let pixel: SubTilePixel = sub.decoded_pixels[p];
                    let tx: i128 = rect.x as i128 + sub.x as i128 + pixel.x as i128;
                    let ty: i128 = rect.y as i128 + down + pixel.y as i128;
                    if rect.x as i128 <= tx && tx < rect.x as i128 + rect.width as i128
                        && rect.y as i128 <= ty && ty < rect.y as i128 + rect.height as i128 {
                        let color: Rgba = palette.rgba(Some(pixel.index));
                        proof {
                            lemma_texel_in_texture(
                                width as int,
                                height as int,
                                tx as int,
                                ty as int,
                            );
                        }
                        let at: usize = 4 * ((ty as usize) * (width as usize) + tx as usize);
                        let ghost before = pixels@;
                        pixels[at] = color.r;
                        pixels[at + 1] = color.g;
                        pixels[at + 2] = color.b;
                        pixels[at + 3] = color.a;
                        proof {
                            assert forall|x: int, y: int|
                                0 <= x < width && 0 <= y < height implies #[trigger] texel_of(
                                pixels@,
                                width as int,
                                x,
                                y,
                            ) == sub_tile_painted(
                                rect,
                                *sub,
                                *palette,
                                (p + 1) as nat,
                                tile_painted(
                                    rect,
                                    *tile,
                                    *palette,
                                    s as nat,
                                    self.painted(*palette, n as nat, x, y),
                                    x,
                                    y,
                                ),
                                x,
                                y,
                            ) by {
                                lemma_texel_in_texture(width as int, height as int, x, y);
                                if x == tx && y == ty {
                                } else {
                                    lemma_texels_apart(width as int, x, y, tx as int, ty as int);
                                    assert(texel_of(pixels@, width as int, x, y) == texel_of(
                                        before,
                                        width as int,
                                        x,
                                        y,
                                    ));
                                }
                            }
                        }
                    }
                    p = p + 1;
                }
                s = s + 1;
            }
            sprites.push(rect);
            left = left + tile.width as u32;
            n = n + 1;
        }
        Some(Atlas { width, height, pixels, sprites })
    }
}

} // verus!
