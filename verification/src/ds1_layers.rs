use vstd::prelude::*;
use crate::cursor::{can_read, reads, u32_at, ByteCursor};
use crate::ds1::{
    has_wall_count, tag_layer_count, Ds1, Ds1Header, FloorCell, Layer, LayerModel, ShadowCell, TagCell,
    WallCell,
    layer_models, layers_wf,
};
use crate::error::FormatError;
use crate::grid::{filled, grid_fits, rect, Cell};

verus! {

/// The offset of the record of cell `(x, y)` in a block of four-byte records
/// that starts at `p` and holds a grid of `w` columns row by row.
pub open spec fn cell_offset(p: int, w: int, x: int, y: int) -> int {
    p + 4 * (y * w + x)
}

/// The length in bytes of one block of a `w` by `h` grid.
pub open spec fn block_len(w: int, h: int) -> int {
    4 * (w * h)
}

/// A cell kind that a layer block stores as one four-byte record per cell.
pub trait Record: Cell {
    /// The cell whose record starts at offset `c` of `b`.
    spec fn from_record(b: Seq<u8>, c: int) -> Self;

    /// Reads the record of one cell.
    fn read_record(cur: &mut ByteCursor) -> (r: Result<Self, FormatError>)
        ensures
            reads(
                *old(cur),
                *final(cur),
                4,
                Self::from_record(old(cur).bytes(), old(cur).pos() as int),
                r,
            ),
    ;
}

impl Record for FloorCell {
    open spec fn from_record(b: Seq<u8>, c: int) -> Self {
        FloorCell { prop1: b[c], prop2: b[c + 1], prop3: b[c + 2], prop4: b[c + 3] }
    }

    fn read_record(cur: &mut ByteCursor) -> (r: Result<Self, FormatError>) {
        if cur.remaining() < 4 {
            return Err(FormatError::Truncated);
        }
        let prop1: u8 = cur.read_u8()?;
        let prop2: u8 = cur.read_u8()?;
        let prop3: u8 = cur.read_u8()?;
        let prop4: u8 = cur.read_u8()?;
        Ok(FloorCell { prop1, prop2, prop3, prop4 })
    }
}

impl Record for ShadowCell {
    open spec fn from_record(b: Seq<u8>, c: int) -> Self {
        ShadowCell { prop1: b[c], prop2: b[c + 1], prop3: b[c + 2], prop4: b[c + 3] }
    }

    fn read_record(cur: &mut ByteCursor) -> (r: Result<Self, FormatError>) {
        if cur.remaining() < 4 {
            return Err(FormatError::Truncated);
        }
        let prop1: u8 = cur.read_u8()?;
        let prop2: u8 = cur.read_u8()?;
        let prop3: u8 = cur.read_u8()?;
        let prop4: u8 = cur.read_u8()?;
        Ok(ShadowCell { prop1, prop2, prop3, prop4 })
    }
}

impl Record for TagCell {
    open spec fn from_record(b: Seq<u8>, c: int) -> Self {
        TagCell { prop1: u32_at(b, c) }
    }

    fn read_record(cur: &mut ByteCursor) -> (r: Result<Self, FormatError>) {
        let prop1: u32 = cur.read_u32()?;
        Ok(TagCell { prop1 })
    }
}

/// The layer that the block of records at `p` holds.
pub open spec fn cell_block<T: Record>(b: Seq<u8>, p: int, w: int, h: int) -> Map<(int, int), T> {
    Map::new(
        |k: (int, int)| rect(w, h).contains(k),
        |k: (int, int)| T::from_record(b, cell_offset(p, w, k.0, k.1)),
    )
}

/// A cell inside a `w` by `h` grid has a record inside the grid's block.
pub proof fn lemma_cell_in_block(x: int, y: int, w: int, h: int)
    requires
        0 <= x < w,
        0 <= y < h,
    ensures
        0 <= y * w + x < w * h,
        4 * (y * w + x) + 4 <= block_len(w, h),
{
    assert(0 <= y * w) by (nonlinear_arith)
        requires
            0 <= y,
            0 <= w,
    ;
    assert(y * w + w <= h * w) by (nonlinear_arith)
        requires
            y + 1 <= h,
            0 <= w,
    ;
    assert(h * w == w * h) by (nonlinear_arith);
}

/// Whether `cells` four-byte records can still be read.
fn has_block(cur: &ByteCursor, width: u32, height: u32) -> (b: bool)
    ensures
        b == can_read(cur.bytes(), cur.pos() as int, block_len(width as int, height as int)),
        cur.pos() <= cur.bytes().len(),
{
    assert(0 <= width * height <= 0xFFFF_FFFF * 0xFFFF_FFFF) by (nonlinear_arith)
        requires
            0 <= width <= 0xFFFF_FFFF,
            0 <= height <= 0xFFFF_FFFF,
    ;
    let cells: u64 = (width as u64) * (height as u64);
    let left: usize = cur.remaining();
    cells <= (left / 4) as u64
}

/// Passes over one block of a `width` by `height` grid.
fn skip_block(cur: &mut ByteCursor, width: u32, height: u32) -> (r: Result<(), FormatError>)
    ensures
        reads(*old(cur), *final(cur), block_len(width as int, height as int), (), r),
{
    assert(0 <= width * height <= 0xFFFF_FFFF * 0xFFFF_FFFF) by (nonlinear_arith)
        requires
            0 <= width <= 0xFFFF_FFFF,
            0 <= height <= 0xFFFF_FFFF,
    ;
    let cells: u64 = (width as u64) * (height as u64);
    let left: usize = cur.remaining();
    if cells > (left / 4) as u64 {
        return Err(FormatError::Truncated);
    }
    cur.skip((cells as usize) * 4)
}

/// Fills `layer` from a block of records, row by row.
fn read_cells<T: Record>(cur: &mut ByteCursor, layer: &mut Layer<T>) -> (r: Result<(), FormatError>)
    requires
        old(layer).wf(),
    ensures
        final(layer).wf(),
        final(layer).width == old(layer).width,
        final(layer).height == old(layer).height,
        reads(
            *old(cur),
            *final(cur),
            block_len(old(layer).width as int, old(layer).height as int),
            (),
            r,
        ),
        r is Ok ==> final(layer)@.cells == cell_block::<T>(
            old(cur).bytes(),
            old(cur).pos() as int,
            old(layer).width as int,
            old(layer).height as int,
        ),
        r is Err ==> final(layer)@.cells == old(layer)@.cells,
{
    let ghost b = cur.bytes();
    let ghost p = cur.pos() as int;
    let w: u32 = layer.width;
    let h: u32 = layer.height;
    if !has_block(cur, w, h) {
        return Err(FormatError::Truncated);
    }
    let mut y: u32 = 0;
    while y < h
        invariant
            layer.wf(),
            layer.width == w,
            layer.height == h,
            cur.bytes() == b,
            can_read(b, p, block_len(w as int, h as int)),
            0 <= y <= h,
            cur.pos() == p + 4 * (y * w),
            forall|i: int, j: int|
                0 <= i < w && 0 <= j < y ==> #[trigger] layer@.cells[(i, j)] == T::from_record(
                    b,
                    cell_offset(p, w as int, i, j),
                ),
        decreases h - y,
    {
        let mut x: u32 = 0;
        while x < w
            invariant
                layer.wf(),
                layer.width == w,
                layer.height == h,
                cur.bytes() == b,
                can_read(b, p, block_len(w as int, h as int)),
                0 <= y < h,
                0 <= x <= w,
                cur.pos() == p + 4 * (y * w + x),
                forall|i: int, j: int|
                    0 <= i < w && (0 <= j < y || (j == y && i < x)) ==> #[trigger] layer@.cells[(i, j)]
                        == T::from_record(b, cell_offset(p, w as int, i, j)),
            decreases w - x,
        {
            proof {
                lemma_cell_in_block(x as int, y as int, w as int, h as int);
            }
            let cell: T = T::read_record(cur)?;
            let ghost before = layer@.cells;
            layer.cells.set(x as usize, y as usize, cell);
            proof {
                assert(rect(w as int, h as int).contains((x as int, y as int)));
                assert forall|i: int, j: int|
                    0 <= i < w && (0 <= j < y || (j == y && i < x + 1)) implies #[trigger] layer@.cells[(
                        i,
                        j,
                    )] == T::from_record(b, cell_offset(p, w as int, i, j)) by {
                    if i == x && j == y {
                    } else {
                        assert((i, j) != (x as int, y as int));
                        assert(layer@.cells[(i, j)] == before[(i, j)]);
                    }
                }
            }
            x = x + 1;
        }
        proof {
            assert(y * w + w == (y + 1) * w) by (nonlinear_arith);
        }
        y = y + 1;
    }
    proof {
        assert(h * w == w * h) by (nonlinear_arith);
        assert forall|k: (int, int)| rect(w as int, h as int).contains(k) implies layer@.cells[k]
            == T::from_record(b, cell_offset(p, w as int, k.0, k.1)) by {
            assert(k == (k.0, k.1));
        }
        assert(layer@.cells =~= cell_block::<T>(b, p, w as int, h as int));
    }
    Ok(())
}

/// The wall layer `cells` with the materials of the block at `p`: the four
/// bytes of each record, in their order. The orientations are those of
/// `cells`.
pub open spec fn with_materials(
    cells: Map<(int, int), WallCell>,
    b: Seq<u8>,
    p: int,
    w: int,
    h: int,
) -> Map<(int, int), WallCell> {
    Map::new(
        |k: (int, int)| rect(w, h).contains(k),
        |k: (int, int)|
            WallCell {
                prop1: b[cell_offset(p, w, k.0, k.1)],
                prop2: b[cell_offset(p, w, k.0, k.1) + 1],
                prop3: b[cell_offset(p, w, k.0, k.1) + 2],
                prop4: b[cell_offset(p, w, k.0, k.1) + 3],
                orientation: cells[k].orientation,
            },
    )
}

/// The orientation that each raw value below 25 stands for in files older
/// than version 7.
pub open spec fn orientation_table() -> Seq<u8> {
    seq![
        0x00u8, 0x01u8, 0x02u8, 0x01u8, 0x02u8, 0x03u8, 0x03u8, 0x05u8, 0x05u8, 0x06u8,
        0x06u8, 0x07u8, 0x07u8, 0x08u8, 0x09u8, 0x0Au8, 0x0Bu8, 0x0Cu8, 0x0Du8, 0x0Eu8,
        0x0Fu8, 0x10u8, 0x11u8, 0x12u8, 0x14u8,
    ]
}

/// Whether wall orientations go through the lookup table.
pub open spec fn remaps_orientation(version: u32) -> bool {
    version < 7
}

/// The orientation that the raw byte `raw` stands for: the table's entry
/// before version 7, the byte itself from then on. A raw value without an
/// entry stands for nothing.
pub open spec fn orientation_of(version: u32, raw: u8) -> Option<u8> {
    if !remaps_orientation(version) {
        Some(raw)
    } else if raw < 25 {
        Some(orientation_table()[raw as int])
    } else {
        None
    }
}

/// The orientation that the raw byte `raw` stands for at `version`.
pub fn map_orientation(version: u32, raw: u8) -> (r: Option<u8>)
    ensures
        r == orientation_of(version, raw),
{
    if !Ds1::remaps_orientation(version) {
        Some(raw)
    } else if raw < 25 {
        let table: [u8; 25] = [
            0x00, 0x01, 0x02, 0x01, 0x02, 0x03, 0x03, 0x05, 0x05, 0x06,
            0x06, 0x07, 0x07, 0x08, 0x09, 0x0A, 0x0B, 0x0C, 0x0D, 0x0E,
            0x0F, 0x10, 0x11, 0x12, 0x14,
        ];
        proof {
            assert(table@ =~= orientation_table());
        }
        Some(table[raw as usize])
    } else {
        None
    }
}

/// Whether record `k` of the orientation block at `p` starts inside the
/// buffer with a raw value that the lookup table has no entry for.
pub open spec fn bad_orientation_record(b: Seq<u8>, p: int, k: int) -> bool {
    p + 4 * k < b.len() && b[p + 4 * k] >= 25
}

/// Whether reading the first `cells` records of the orientation block at `p`
/// meets a raw value without a table entry. Such a record is met before any
/// shortage of bytes behind it.
pub open spec fn orientation_fault(b: Seq<u8>, p: int, cells: int, version: u32) -> bool {
    remaps_orientation(version) && exists|k: int|
        0 <= k < cells && #[trigger] bad_orientation_record(b, p, k)
}

/// How reading `cells` records of the orientation block at `p` ends: with
/// `Malformed` at a raw value without a table entry, else with `Truncated`
/// where the buffer ends inside the block.
pub open spec fn orientation_outcome(b: Seq<u8>, p: int, cells: int, version: u32) -> Result<
    (),
    FormatError,
> {
    if orientation_fault(b, p, cells, version) {
        Err(FormatError::Malformed)
    } else if !can_read(b, p, 4 * cells) {
        Err(FormatError::Truncated)
    } else {
        Ok(())
    }
}

/// The wall layer `cells` with the orientations of the block at `p`.
pub open spec fn oriented(
    cells: Map<(int, int), WallCell>,
    b: Seq<u8>,
    p: int,
    w: int,
    h: int,
    version: u32,
) -> Map<(int, int), WallCell> {
    Map::new(
        |k: (int, int)| rect(w, h).contains(k),
        |k: (int, int)|
            WallCell {
                orientation: orientation_of(version, b[cell_offset(p, w, k.0, k.1)]).unwrap(),
                ..cells[k]
            },
    )
}

/// Where the blocks of the layers lie in the file.
///
/// Every block holds one four-byte record for each cell of the map. Files
/// older than version 4 hold five blocks in a fixed order: wall cells, floor
/// cells, wall orientations, tag cells, shadow cells. Later files hold for
/// each wall layer its cells and then its orientations, then the cells of
/// each floor layer, then the shadow cells, then the tag cells if the map has
/// a tag layer.
pub struct LayerPlan {
    pub version: u32,
    pub width: u32,
    pub height: u32,
    pub walls: u32,
    pub floors: u32,
    pub tags: u32,
    /// The offset of the first block.
    pub base: int,
}

/// The cells of each kind of layer.
pub struct LayersModel {
    pub walls: Seq<LayerModel<WallCell>>,
    pub floors: Seq<LayerModel<FloorCell>>,
    pub shadows: Seq<LayerModel<ShadowCell>>,
    pub tags: Seq<LayerModel<TagCell>>,
}

impl LayerPlan {
    /// The number of cells of the map.
    pub open spec fn cells(self) -> int {
        self.width * self.height
    }

    /// Whether the blocks stand in the fixed order of old files.
    pub open spec fn legacy(self) -> bool {
        !has_wall_count(self.version)
    }

    /// An old file has one wall layer, one floor layer and no tag layer; no
    /// file has more than one tag layer.
    pub open spec fn wf(self) -> bool {
        &&& self.base >= 0
        &&& self.tags <= 1
        &&& self.legacy() ==> self.walls == 1 && self.floors == 1 && self.tags == 0
    }

    /// The offset of the cells of wall layer `i`.
    pub open spec fn wall_offset(self, i: int) -> int {
        if self.legacy() {
            self.base
        } else {
            self.base + 8 * (self.cells() * i)
        }
    }

    /// The offset of the orientations of wall layer `i`.
    pub open spec fn orientation_offset(self, i: int) -> int {
        if self.legacy() {
            self.base + 8 * self.cells()
        } else {
            self.base + 8 * (self.cells() * i) + 4 * self.cells()
        }
    }

    /// The offset of the cells of floor layer `j`.
    pub open spec fn floor_offset(self, j: int) -> int {
        if self.legacy() {
            self.base + 4 * self.cells()
        } else {
            self.base + 8 * (self.cells() * self.walls) + 4 * (self.cells() * j)
        }
    }

    /// The offset of the shadow cells.
    pub open spec fn shadow_offset(self) -> int {
        if self.legacy() {
            self.base + 16 * self.cells()
        } else {
            self.base + 8 * (self.cells() * self.walls) + 4 * (self.cells() * self.floors)
        }
    }

    /// The offset of the tag cells. An old file has the block and no layer
    /// for it: its records are passed over.
    pub open spec fn tag_offset(self) -> int {
        if self.legacy() {
            self.base + 12 * self.cells()
        } else {
            self.shadow_offset() + 4 * self.cells()
        }
    }

    /// The offset behind the last block.
    pub open spec fn end(self) -> int {
        if self.legacy() {
            self.base + 20 * self.cells()
        } else if self.tags != 0 {
            self.shadow_offset() + 8 * self.cells()
        } else {
            self.shadow_offset() + 4 * self.cells()
        }
    }

    /// Whether some orientation record inside the buffer holds a raw value
    /// that the lookup table has no entry for.
    pub open spec fn fault(self, b: Seq<u8>) -> bool {
        exists|i: int|
            0 <= i < self.walls && #[trigger] orientation_fault(
                b,
                self.orientation_offset(i),
                self.cells(),
                self.version,
            )
    }

    /// The cells of wall layer `i`.
    pub open spec fn wall_layer(self, b: Seq<u8>, i: int) -> LayerModel<WallCell> {
        LayerModel {
            width: self.width,
            height: self.height,
            cells: oriented(
                with_materials(
                    filled(self.width as int, self.height as int, WallCell::blank()),
                    b,
                    self.wall_offset(i),
                    self.width as int,
                    self.height as int,
                ),
                b,
                self.orientation_offset(i),
                self.width as int,
                self.height as int,
                self.version,
            ),
        }
    }

    /// The cells of floor layer `j`.
    pub open spec fn floor_layer(self, b: Seq<u8>, j: int) -> LayerModel<FloorCell> {
        LayerModel {
            width: self.width,
            height: self.height,
            cells: cell_block::<FloorCell>(b, self.floor_offset(j), self.width as int, self.height as int),
        }
    }

    /// The cells of the shadow layer.
    pub open spec fn shadow_layer(self, b: Seq<u8>) -> LayerModel<ShadowCell> {
        LayerModel {
            width: self.width,
            height: self.height,
            cells: cell_block::<ShadowCell>(b, self.shadow_offset(), self.width as int, self.height as int),
        }
    }

    /// The cells of the tag layer.
    pub open spec fn tag_layer(self, b: Seq<u8>) -> LayerModel<TagCell> {
        LayerModel {
            width: self.width,
            height: self.height,
            cells: cell_block::<TagCell>(b, self.tag_offset(), self.width as int, self.height as int),
        }
    }

    /// The layers that the blocks hold.
    pub open spec fn layers(self, b: Seq<u8>) -> LayersModel {
        LayersModel {
            walls: Seq::new(self.walls as nat, |i: int| self.wall_layer(b, i)),
            floors: Seq::new(self.floors as nat, |j: int| self.floor_layer(b, j)),
            shadows: seq![self.shadow_layer(b)],
            tags: if self.tags != 0 {
                seq![self.tag_layer(b)]
            } else {
                Seq::empty()
            },
        }
    }
}

/// One block of the layer section.
pub enum LayerBlock {
    /// The cells of the wall layer with the given index.
    WallCells(int),
    /// The orientations of the wall layer with the given index.
    WallOrientation(int),
    /// The cells of the floor layer with the given index.
    FloorCells(int),
    /// The cells of the shadow layer.
    ShadowCells,
    /// The cells of the tag layer.
    TagCells,
}

impl LayerPlan {
    /// The blocks in the order in which the file holds them.
    pub open spec fn read_order(self) -> Seq<LayerBlock> {
        if self.legacy() {
            seq![
                LayerBlock::WallCells(0),
                LayerBlock::FloorCells(0),
                LayerBlock::WallOrientation(0),
                LayerBlock::TagCells,
                LayerBlock::ShadowCells,
            ]
        } else {
            Seq::new(
                (2 * self.walls) as nat,
                |k: int|
                    if k % 2 == 0 {
                        LayerBlock::WallCells(k / 2)
                    } else {
                        LayerBlock::WallOrientation(k / 2)
                    },
            ) + Seq::new(self.floors as nat, |j: int| LayerBlock::FloorCells(j))
                + seq![LayerBlock::ShadowCells] + if self.tags != 0 {
                seq![LayerBlock::TagCells]
            } else {
                Seq::empty()
            }
        }
    }

    /// The offset of a block.
    pub open spec fn block_offset(self, block: LayerBlock) -> int {
        match block {
            LayerBlock::WallCells(i) => self.wall_offset(i),
            LayerBlock::WallOrientation(i) => self.orientation_offset(i),
            LayerBlock::FloorCells(j) => self.floor_offset(j),
            LayerBlock::ShadowCells => self.shadow_offset(),
            LayerBlock::TagCells => self.tag_offset(),
        }
    }

    /// The blocks lie one behind the other in their order, each as long as
    /// one record for every cell, and the section ends behind the last.
    pub proof fn lemma_blocks_follow_read_order(self, k: int)
        requires
            self.wf(),
            0 <= k < self.read_order().len(),
        ensures
            self.block_offset(self.read_order()[k]) == self.base + block_len(
                self.width as int,
                self.height as int,
            ) * k,
            self.end() == self.base + block_len(self.width as int, self.height as int)
                * self.read_order().len(),
    {
        let c = self.cells();
        let order = self.read_order();
        if self.legacy() {
            assert(order.len() == 5);
            assert(4 * c * 0 == 0) by (nonlinear_arith);
            assert(4 * c * 1 == 4 * c) by (nonlinear_arith);
            assert(4 * c * 2 == 8 * c) by (nonlinear_arith);
            assert(4 * c * 3 == 12 * c) by (nonlinear_arith);
            assert(4 * c * 4 == 16 * c) by (nonlinear_arith);
            assert(4 * c * 5 == 20 * c) by (nonlinear_arith);
        } else {
            let walls = self.walls as int;
            let floors = self.floors as int;
            let tags: int = if self.tags != 0 {
                1
            } else {
                0
            };
            assert(order.len() == 2 * walls + floors + 1 + tags);
            assert(4 * c * (2 * walls + floors + 1 + tags) == 8 * (c * walls) + 4 * (c * floors)
                + 4 * c + 4 * c * tags) by (nonlinear_arith);
            if k < 2 * walls {
                let i = k / 2;
                if k % 2 == 0 {
                    assert(order[k] == LayerBlock::WallCells(i));
                    assert(4 * c * k == 8 * (c * i)) by (nonlinear_arith)
                        requires
                            k == 2 * i,
                    ;
                } else {
                    assert(order[k] == LayerBlock::WallOrientation(i));
                    assert(4 * c * k == 8 * (c * i) + 4 * c) by (nonlinear_arith)
                        requires
                            k == 2 * i + 1,
                    ;
                }
            } else if k < 2 * walls + floors {
                let j = k - 2 * walls;
                assert(order[k] == LayerBlock::FloorCells(j));
                assert(4 * c * k == 8 * (c * walls) + 4 * (c * j)) by (nonlinear_arith)
                    requires
                        k == 2 * walls + j,
                ;
            } else if k == 2 * walls + floors {
                assert(order[k] == LayerBlock::ShadowCells);
                assert(4 * c * k == 8 * (c * walls) + 4 * (c * floors)) by (nonlinear_arith)
                    requires
                        k == 2 * walls + floors,
                ;
            } else {
                assert(order[k] == LayerBlock::TagCells);
                assert(4 * c * k == 8 * (c * walls) + 4 * (c * floors) + 4 * c) by (nonlinear_arith)
                    requires
                        k == 2 * walls + floors + 1,
                ;
            }
        }
    }
}

/// The plan of a file with the given header and layer counts whose first
/// block starts at `base`.
pub open spec fn layer_plan(header: Ds1Header, walls: u32, floors: u32, base: int) -> LayerPlan {
    LayerPlan {
        version: header.version,
        width: header.width,
        height: header.height,
        walls,
        floors,
        tags: tag_layer_count(header.version, header.tag_type),
        base,
    }
}

/// The layers of the file and the offset behind their blocks. The blocks are
/// read in file order, so a raw orientation without a table entry that lies
/// inside the buffer is met before the buffer's end: it is `Malformed`, and
/// only without one is a buffer that ends inside the blocks `Truncated`.
pub open spec fn parse_layers(b: Seq<u8>, plan: LayerPlan) -> Result<(LayersModel, int), FormatError> {
    if plan.fault(b) {
        Err(FormatError::Malformed)
    } else if plan.end() > b.len() {
        Err(FormatError::Truncated)
    } else {
        Ok((plan.layers(b), plan.end()))
    }
}

/// The layers that [`Ds1::read_layers`] hands back.
#[derive(Debug)]
pub struct Layers {
    pub walls: Vec<Layer<WallCell>>,
    pub floors: Vec<Layer<FloorCell>>,
    pub shadows: Vec<Layer<ShadowCell>>,
    pub tags: Vec<Layer<TagCell>>,
}

impl Layers {
    /// Every layer is a well-formed `width` by `height` grid.
    pub open spec fn wf(self, width: u32, height: u32) -> bool {
        &&& layers_wf(self.walls@, width, height)
        &&& layers_wf(self.floors@, width, height)
        &&& layers_wf(self.shadows@, width, height)
        &&& layers_wf(self.tags@, width, height)
    }
}

impl View for Layers {
    type V = LayersModel;

    open spec fn view(&self) -> LayersModel {
        LayersModel {
            walls: layer_models(self.walls@),
            floors: layer_models(self.floors@),
            shadows: layer_models(self.shadows@),
            tags: layer_models(self.tags@),
        }
    }
}

/// An orientation block that starts at or behind the end of the buffer has
/// no record inside it.
proof fn lemma_no_fault_outside(b: Seq<u8>, p: int, cells: int, version: u32)
    requires
        p >= b.len(),
    ensures
        !orientation_fault(b, p, cells, version),
{
}

/// In a file that is not old, the blocks of wall layer `k` lie behind those
/// of an earlier wall layer `i`, and all of them before the floor blocks.
proof fn lemma_wall_offsets(plan: LayerPlan, i: int, k: int)
    requires
        plan.wf(),
        !plan.legacy(),
        0 <= i <= k,
    ensures
        plan.wall_offset(i + 1) == plan.wall_offset(i) + 8 * plan.cells(),
        plan.orientation_offset(i) == plan.wall_offset(i) + 4 * plan.cells(),
        plan.wall_offset(i) <= plan.wall_offset(k),
        plan.orientation_offset(i) <= plan.orientation_offset(k),
        i < k ==> plan.wall_offset(i) + 8 * plan.cells() <= plan.wall_offset(k),
        k <= plan.walls ==> plan.wall_offset(k) <= plan.floor_offset(0),
        plan.wall_offset(plan.walls as int) == plan.floor_offset(0),
        plan.cells() >= 0,
{
    let c = plan.cells();
    assert(c >= 0) by (nonlinear_arith)
        requires
            c == plan.width * plan.height,
    ;
    assert(c * (i + 1) == c * i + c) by (nonlinear_arith);
    assert(c * i <= c * k) by (nonlinear_arith)
        requires
            c >= 0,
            i <= k,
    ;
    if i < k {
        assert(c * (i + 1) <= c * k) by (nonlinear_arith)
            requires
                c >= 0,
                i + 1 <= k,
        ;
    }
    if k <= plan.walls {
        assert(c * k <= c * plan.walls) by (nonlinear_arith)
            requires
                c >= 0,
                k <= plan.walls,
        ;
    }
    assert(c * 0 == 0) by (nonlinear_arith);
}

/// In a file that is not old, the block of floor layer `j` lies before the
/// shadow block.
proof fn lemma_floor_offsets(plan: LayerPlan, j: int)
    requires
        plan.wf(),
        !plan.legacy(),
        0 <= j,
    ensures
        plan.floor_offset(j + 1) == plan.floor_offset(j) + 4 * plan.cells(),
        j < plan.floors ==> plan.floor_offset(j) + 4 * plan.cells() <= plan.shadow_offset(),
        plan.floor_offset(plan.floors as int) == plan.shadow_offset(),
        plan.cells() >= 0,
{
    let c = plan.cells();
    assert(c >= 0) by (nonlinear_arith)
        requires
            c == plan.width * plan.height,
    ;
    assert(c * (j + 1) == c * j + c) by (nonlinear_arith);
    if j < plan.floors {
        assert(c * (j + 1) <= c * plan.floors) by (nonlinear_arith)
            requires
                c >= 0,
                j + 1 <= plan.floors,
        ;
    }
}

/// Where no record before `k` is bad and the buffer ends at or before record
/// `k`, no record is bad.
proof fn lemma_no_fault_behind(b: Seq<u8>, p: int, cells: int, version: u32, k: int)
    requires
        0 <= p,
        0 <= k,
        remaps_orientation(version) ==> forall|i: int|
            0 <= i < k ==> !#[trigger] bad_orientation_record(b, p, i),
        p + 4 * k >= b.len(),
    ensures
        !orientation_fault(b, p, cells, version),
        k < cells ==> !can_read(b, p, 4 * cells),
{
}

impl Ds1 {
    /// Sets the four materials of every cell of `layer` from a block of wall
    /// cells. The orientations stay as they are.
    pub fn read_wall_cells(cur: &mut ByteCursor, layer: &mut Layer<WallCell>) -> (r: Result<
        (),
        FormatError,
    >)
        requires
            old(layer).wf(),
        ensures
            final(layer).wf(),
            final(layer).width == old(layer).width,
            final(layer).height == old(layer).height,
            reads(
                *old(cur),
                *final(cur),
                block_len(old(layer).width as int, old(layer).height as int),
                (),
                r,
            ),
            r is Ok ==> final(layer)@.cells == with_materials(
                old(layer)@.cells,
                old(cur).bytes(),
                old(cur).pos() as int,
                old(layer).width as int,
                old(layer).height as int,
            ),
            r is Err ==> final(layer)@.cells == old(layer)@.cells,
    {
        let ghost b = cur.bytes();
        let ghost p = cur.pos() as int;
        let ghost initial = layer@.cells;
        let w: u32 = layer.width;
        let h: u32 = layer.height;
        if !has_block(cur, w, h) {
            return Err(FormatError::Truncated);
        }
        let mut y: u32 = 0;
        while y < h
            invariant
                layer.wf(),
                layer.width == w,
                layer.height == h,
                cur.bytes() == b,
                can_read(b, p, block_len(w as int, h as int)),
                0 <= y <= h,
                cur.pos() == p + 4 * (y * w),
                forall|i: int, j: int|
                    0 <= i < w && 0 <= j < h ==> #[trigger] layer@.cells[(i, j)] == if j < y {
                        with_materials(initial, b, p, w as int, h as int)[(i, j)]
                    } else {
                        initial[(i, j)]
                    },
            decreases h - y,
        {
            let mut x: u32 = 0;
            while x < w
                invariant
                    layer.wf(),
                    layer.width == w,
                    layer.height == h,
                    cur.bytes() == b,
                    can_read(b, p, block_len(w as int, h as int)),
                    0 <= y < h,
                    0 <= x <= w,
                    cur.pos() == p + 4 * (y * w + x),
                    forall|i: int, j: int|
                        0 <= i < w && 0 <= j < h ==> #[trigger] layer@.cells[(i, j)] == if j < y || (j
                            == y && i < x) {
                            with_materials(initial, b, p, w as int, h as int)[(i, j)]
                        } else {
                            initial[(i, j)]
                        },
                decreases w - x,
            {
                proof {
                    lemma_cell_in_block(x as int, y as int, w as int, h as int);
                    assert(rect(w as int, h as int).contains((x as int, y as int)));
                }
                let prop1: u8 = cur.read_u8()?;
                let prop2: u8 = cur.read_u8()?;
                let prop3: u8 = cur.read_u8()?;
                let prop4: u8 = cur.read_u8()?;
                let ghost before = layer@.cells;
                match layer.cells.get(x as usize, y as usize) {
                    Some(cell) => {
                        layer.cells.set(
                            x as usize,
                            y as usize,
                            WallCell { prop1, prop2, prop3, prop4, ..cell },
                        );
                    },
                    None => {},
                }
                proof {
                    assert forall|i: int, j: int| 0 <= i < w && 0 <= j < h implies #[trigger] layer@.cells[(
                        i,
                        j,
                    )] == if j < y || (j == y && i < x + 1) {
                        with_materials(initial, b, p, w as int, h as int)[(i, j)]
                    } else {
                        initial[(i, j)]
                    } by {
                        assert(rect(w as int, h as int).contains((i, j)));
                        if i == x && j == y {
                        } else {
                            assert((i, j) != (x as int, y as int));
                            assert(layer@.cells[(i, j)] == before[(i, j)]);
                        }
                    }
                }
                x = x + 1;
            }
            proof {
                assert(y * w + w == (y + 1) * w) by (nonlinear_arith);
            }
            y = y + 1;
        }
        proof {
            assert(h * w == w * h) by (nonlinear_arith);
            assert forall|k: (int, int)| rect(w as int, h as int).contains(k) implies layer@.cells[k]
                == with_materials(initial, b, p, w as int, h as int)[k] by {
                assert(k == (k.0, k.1));
            }
            assert(layer@.cells =~= with_materials(initial, b, p, w as int, h as int));
        }
        Ok(())
    }

    /// Reads the blocks of all layers of a map with the given header and
    /// layer counts.
    pub fn read_layers(cur: &mut ByteCursor, header: &Ds1Header, walls: u32, floors: u32) -> (r:
        Result<Layers, FormatError>)
        requires
            grid_fits(header.width as int, header.height as int),
            !has_wall_count(header.version) ==> walls == 1 && floors == 1,
        ensures
            final(cur).bytes() == old(cur).bytes(),
            match parse_layers(
                old(cur).bytes(),
                layer_plan(*header, walls, floors, old(cur).pos() as int),
            ) {
                Ok((layers, next)) => r is Ok && r->Ok_0@ == layers && r->Ok_0.wf(
                    header.width,
                    header.height,
                ) && final(cur).pos() == next,
                Err(e) => r == Err::<Layers, FormatError>(e),
            },
    {
        let ghost b = cur.bytes();
        let ghost plan = layer_plan(*header, walls, floors, cur.pos() as int);
        let ghost c = plan.cells();
        let version: u32 = header.version;
        let w: u32 = header.width;
        let h: u32 = header.height;
        let has_tags: bool = Ds1::has_tag_layer(version, header.tag_type);
        let mut wall_layers: Vec<Layer<WallCell>> = Vec::new();
        let mut floor_layers: Vec<Layer<FloorCell>> = Vec::new();
        let mut shadow_layers: Vec<Layer<ShadowCell>> = Vec::new();
        let mut tag_layers: Vec<Layer<TagCell>> = Vec::new();
        proof {
            assert(c >= 0) by (nonlinear_arith)
                requires
                    c == w * h,
            ;
        }
        if !Ds1::has_wall_count(version) {
            proof {
                assert(plan.fault(b) ==> orientation_fault(b, plan.orientation_offset(0), c, version));
            }
            if !has_block(cur, w, h) {
                proof {
                    lemma_no_fault_outside(b, plan.orientation_offset(0), c, version);
                }
                return Err(FormatError::Truncated);
            }
            let mut wall: Layer<WallCell> = Layer::new(w, h);
            Ds1::read_wall_cells(cur, &mut wall)?;
            if !has_block(cur, w, h) {
                proof {
                    lemma_no_fault_outside(b, plan.orientation_offset(0), c, version);
                }
                return Err(FormatError::Truncated);
            }
            let mut floor: Layer<FloorCell> = Layer::new(w, h);
            read_cells(cur, &mut floor)?;
            match Ds1::read_wall_cells_orientation(cur, &mut wall, version) {
                Ok(_) => {},
                Err(e) => {
                    proof {
                        let at = plan.orientation_offset(0);
                        assert(e == orientation_outcome(b, at, c, version)->Err_0);
                        if orientation_fault(b, at, c, version) {
                            assert(plan.fault(b));
                        } else {
                            assert(!plan.fault(b));
                            assert(!can_read(b, at, 4 * c));
                            assert(plan.end() > b.len());
                        }
                    }
                    return Err(e);
                },
            }
            proof {
                assert(!plan.fault(b));
            }
            skip_block(cur, w, h)?;
            if !has_block(cur, w, h) {
                return Err(FormatError::Truncated);
            }
            let mut shadow: Layer<ShadowCell> = Layer::new(w, h);
            read_cells(cur, &mut shadow)?;
            wall_layers.push(wall);
            floor_layers.push(floor);
            shadow_layers.push(shadow);
        } else {
            let mut i: u32 = 0;
            while i < walls
                invariant
                    cur.bytes() == b,
                    b == old(cur).bytes(),
                    plan == layer_plan(*header, walls, floors, old(cur).pos() as int),
                    plan.wf(),
                    !plan.legacy(),
                    c == plan.cells(),
                    c >= 0,
                    version == header.version,
                    w == header.width,
                    h == header.height,
                    grid_fits(w as int, h as int),
                    0 <= i <= walls,
                    cur.pos() == plan.wall_offset(i as int),
                    wall_layers@.len() == i,
                    layers_wf(wall_layers@, w, h),
                    forall|k: int|
                        0 <= k < i ==> (#[trigger] wall_layers@[k])@ == plan.wall_layer(b, k),
                    forall|k: int|
                        0 <= k < i ==> !#[trigger] orientation_fault(
                            b,
                            plan.orientation_offset(k),
                            c,
                            version,
                        ),
                decreases walls - i,
            {
                proof {
                    lemma_wall_offsets(plan, i as int, i as int);
                }
                if !has_block(cur, w, h) {
                    proof {
                        assert forall|k: int| 0 <= k < walls implies !#[trigger] orientation_fault(
                            b,
                            plan.orientation_offset(k),
                            c,
                            version,
                        ) by {
                            if k >= i {
                                lemma_wall_offsets(plan, i as int, k);
                                lemma_no_fault_outside(b, plan.orientation_offset(k), c, version);
                            }
                        }
                        lemma_wall_offsets(plan, i as int, walls as int);
                        lemma_floor_offsets(plan, 0);
                        lemma_floor_offsets(plan, floors as int);
                        if floors > 0 {
                            lemma_floor_offsets(plan, floors - 1);
                        }
                    }
                    return Err(FormatError::Truncated);
                }
                let mut wall: Layer<WallCell> = Layer::new(w, h);
                Ds1::read_wall_cells(cur, &mut wall)?;
                match Ds1::read_wall_cells_orientation(cur, &mut wall, version) {
                    Ok(_) => {},
                    Err(e) => {
                        proof {
                            if e == FormatError::Truncated {
                                assert forall|k: int|
                                    0 <= k < walls implies !#[trigger] orientation_fault(
                                    b,
                                    plan.orientation_offset(k),
                                    c,
                                    version,
                                ) by {
                                    if k > i {
                                        lemma_wall_offsets(plan, i as int, k);
                                        lemma_no_fault_outside(
                                            b,
                                            plan.orientation_offset(k),
                                            c,
                                            version,
                                        );
                                    }
                                }
                                lemma_wall_offsets(plan, i as int, walls as int);
                                lemma_floor_offsets(plan, 0);
                                lemma_floor_offsets(plan, floors as int);
                                if floors > 0 {
                                    lemma_floor_offsets(plan, floors - 1);
                                }
                            }
                        }
                        return Err(e);
                    },
                }
                wall_layers.push(wall);
                i = i + 1;
            }
            proof {
                lemma_wall_offsets(plan, 0, walls as int);
                assert(!plan.fault(b));
            }
            let mut j: u32 = 0;
            while j < floors
                invariant
                    cur.bytes() == b,
                    b == old(cur).bytes(),
                    plan == layer_plan(*header, walls, floors, old(cur).pos() as int),
                    plan.wf(),
                    !plan.legacy(),
                    !plan.fault(b),
                    c == plan.cells(),
                    c >= 0,
                    w == header.width,
                    h == header.height,
                    grid_fits(w as int, h as int),
                    0 <= j <= floors,
                    cur.pos() == plan.floor_offset(j as int),
                    floor_layers@.len() == j,
                    layers_wf(floor_layers@, w, h),
                    forall|k: int|
                        0 <= k < j ==> (#[trigger] floor_layers@[k])@ == plan.floor_layer(b, k),
                decreases floors - j,
            {
                proof {
                    lemma_floor_offsets(plan, j as int);
                }
                if !has_block(cur, w, h) {
                    return Err(FormatError::Truncated);
                }
                let mut floor: Layer<FloorCell> = Layer::new(w, h);
                read_cells(cur, &mut floor)?;
                floor_layers.push(floor);
                j = j + 1;
            }
            proof {
                lemma_floor_offsets(plan, floors as int);
            }
            if !has_block(cur, w, h) {
                return Err(FormatError::Truncated);
            }
            let mut shadow: Layer<ShadowCell> = Layer::new(w, h);
            read_cells(cur, &mut shadow)?;
            shadow_layers.push(shadow);
            if has_tags {
                if !has_block(cur, w, h) {
                    return Err(FormatError::Truncated);
                }
                let mut tag: Layer<TagCell> = Layer::new(w, h);
                read_cells(cur, &mut tag)?;
                tag_layers.push(tag);
            }
        }
        let layers = Layers {
            walls: wall_layers,
            floors: floor_layers,
            shadows: shadow_layers,
            tags: tag_layers,
        };
        proof {
            assert(layers@.walls =~= plan.layers(b).walls);
            assert(layers@.floors =~= plan.layers(b).floors);
            assert(layers@.shadows =~= plan.layers(b).shadows);
            assert(layers@.tags =~= plan.layers(b).tags);
        }
        Ok(layers)
    }

    /// Sets the orientation of every cell of `layer` from a block of
    /// orientation records: one raw byte, then three bytes that are passed
    /// over. Files older than version 7 store an index into a table of 25
    /// orientations; an index without an entry is `Malformed`.
    pub fn read_wall_cells_orientation(
        cur: &mut ByteCursor,
        layer: &mut Layer<WallCell>,
        version: u32,
    ) -> (r: Result<(), FormatError>)
        requires
            old(layer).wf(),
        ensures
            final(cur).bytes() == old(cur).bytes(),
            final(layer).wf(),
            final(layer).width == old(layer).width,
            final(layer).height == old(layer).height,
            r == orientation_outcome(
                old(cur).bytes(),
                old(cur).pos() as int,
                old(layer).width * old(layer).height,
                version,
            ),
            r is Ok ==> final(cur).pos() == old(cur).pos() + block_len(
                old(layer).width as int,
                old(layer).height as int,
            ),
            r is Ok ==> final(layer)@.cells == oriented(
                old(layer)@.cells,
                old(cur).bytes(),
                old(cur).pos() as int,
                old(layer).width as int,
                old(layer).height as int,
                version,
            ),
    {
        let ghost b = cur.bytes();
        let ghost p = cur.pos() as int;
        let ghost initial = layer@.cells;
        let w: u32 = layer.width;
        let h: u32 = layer.height;
        // Asking for the position also tells that it lies inside the buffer.
        let start: usize = cur.position();
        let mut y: u32 = 0;
        while y < h
            invariant
                layer.wf(),
                layer.width == w,
                layer.height == h,
                cur.bytes() == b,
                b == old(cur).bytes(),
                p == old(cur).pos(),
                w == old(layer).width,
                h == old(layer).height,
                initial == old(layer)@.cells,
                0 <= p <= b.len(),
                start == p,
                cur.pos() <= b.len(),
                0 <= y <= h,
                cur.pos() == p + 4 * (y * w),
                remaps_orientation(version) ==> forall|k: int|
                    0 <= k < y * w ==> !#[trigger] bad_orientation_record(b, p, k),
                forall|i: int, j: int|
                    0 <= i < w && 0 <= j < h ==> #[trigger] layer@.cells[(i, j)] == if j < y {
                        WallCell {
                            orientation: orientation_of(
                                version,
                                b[cell_offset(p, w as int, i, j)],
                            ).unwrap(),
                            ..initial[(i, j)]
                        }
                    } else {
                        initial[(i, j)]
                    },
            decreases h - y,
        {
            let mut x: u32 = 0;
            while x < w
                invariant
                    layer.wf(),
                    layer.width == w,
                    layer.height == h,
                    cur.bytes() == b,
                    b == old(cur).bytes(),
                    p == old(cur).pos(),
                    w == old(layer).width,
                    h == old(layer).height,
                    initial == old(layer)@.cells,
                    0 <= p <= b.len(),
                    start == p,
                    cur.pos() <= b.len(),
                    0 <= y < h,
                    0 <= x <= w,
                    cur.pos() == p + 4 * (y * w + x),
                    remaps_orientation(version) ==> forall|k: int|
                        0 <= k < y * w + x ==> !#[trigger] bad_orientation_record(b, p, k),
                    forall|i: int, j: int|
                        0 <= i < w && 0 <= j < h ==> #[trigger] layer@.cells[(i, j)] == if j < y || (j
                            == y && i < x) {
                            WallCell {
                                orientation: orientation_of(
                                    version,
                                    b[cell_offset(p, w as int, i, j)],
                                ).unwrap(),
                                ..initial[(i, j)]
                            }
                        } else {
                            initial[(i, j)]
                        },
                decreases w - x,
            {
                let ghost k = y * w + x;
                proof {
                    lemma_cell_in_block(x as int, y as int, w as int, h as int);
                }
                let raw: u8 = match cur.read_u8() {
                    Ok(v) => v,
                    Err(e) => {
                        proof {
                            lemma_no_fault_behind(b, p, w * h, version, k);
                        }
                        return Err(e);
                    },
                };
                let orientation: u8 = match map_orientation(version, raw) {
                    Some(v) => v,
                    None => {
                        proof {
                            assert(bad_orientation_record(b, p, k));
                        }
                        return Err(FormatError::Malformed);
                    },
                };
                match cur.skip(3) {
                    Ok(_) => {},
                    Err(e) => {
                        proof {
                            assert(remaps_orientation(version) ==> !bad_orientation_record(b, p, k));
                            lemma_no_fault_behind(b, p, w * h, version, k + 1);
                        }
                        return Err(e);
                    },
                }
                let ghost before = layer@.cells;
                match layer.cells.get(x as usize, y as usize) {
                    Some(cell) => {
                        layer.cells.set(x as usize, y as usize, WallCell { orientation, ..cell });
                    },
                    None => {
                        proof {
                            assert(rect(w as int, h as int).contains((x as int, y as int)));
                        }
                    },
                }
                proof {
                    assert(rect(w as int, h as int).contains((x as int, y as int)));
                    assert forall|i: int, j: int| 0 <= i < w && 0 <= j < h implies #[trigger] layer@.cells[(
                        i,
                        j,
                    )] == if j < y || (j == y && i < x + 1) {
                        WallCell {
                            orientation: orientation_of(
                                version,
                                b[cell_offset(p, w as int, i, j)],
                            ).unwrap(),
                            ..initial[(i, j)]
                        }
                    } else {
                        initial[(i, j)]
                    } by {
                        if i == x && j == y {
                        } else {
                            assert((i, j) != (x as int, y as int));
                            assert(layer@.cells[(i, j)] == before[(i, j)]);
                        }
                    }
                }
                x = x + 1;
            }
            proof {
                assert(y * w + w == (y + 1) * w) by (nonlinear_arith);
            }
            y = y + 1;
        }
        proof {
            assert(h * w == w * h) by (nonlinear_arith);
            assert forall|k: (int, int)| rect(w as int, h as int).contains(k) implies layer@.cells[k]
                == (WallCell {
                orientation: orientation_of(
                    version,
                    b[cell_offset(p, w as int, k.0, k.1)],
                ).unwrap(),
                ..initial[k]
            }) by {
                assert(k == (k.0, k.1));
            }
            assert(layer@.cells =~= oriented(initial, b, p, w as int, h as int, version));
        }
        Ok(())
    }
}

} // verus!
