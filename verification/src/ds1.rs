use vstd::prelude::*;
use crate::cursor::{can_read, u32_at, ByteCursor};
use crate::ds1_layers::{layer_plan, parse_layers, Layers, LayersModel};
use crate::ds1_layers::remaps_orientation;
use crate::ds1_objects::{
    has_node_action, has_object_flags, has_objects, has_tag_group_pad, has_tag_group_unknown,
    has_tag_groups, parse_objects, parse_paths, parse_tag_groups,
};
use crate::error::{fault_in, without_section, Fault, FormatError, Section};
use crate::grid::{filled, grid_fits, lemma_low_byte, Cell, Grid};
use crate::read_string::{zstring_at, ReadString};

verus! {

/// One cell of a wall layer.
#[derive(Clone, Copy, Debug, PartialEq, Eq, Structural)]
pub struct WallCell {
    pub prop1: u8,
    pub prop2: u8,
    pub prop3: u8,
    pub prop4: u8,
    pub orientation: u8,
}

/// One cell of a floor layer.
#[derive(Clone, Copy, Debug, PartialEq, Eq, Structural)]
pub struct FloorCell {
    pub prop1: u8,
    pub prop2: u8,
    pub prop3: u8,
    pub prop4: u8,
}

/// One cell of a tag layer.
#[derive(Clone, Copy, Debug, PartialEq, Eq, Structural)]
pub struct TagCell {
    pub prop1: u32,
}

/// One cell of a shadow layer.
#[derive(Clone, Copy, Debug, PartialEq, Eq, Structural)]
pub struct ShadowCell {
    pub prop1: u8,
    pub prop2: u8,
    pub prop3: u8,
    pub prop4: u8,
}

/// One step of the path an object walks.
#[derive(Clone, Copy, Debug, PartialEq, Eq, Structural)]
pub struct PathNode {
    pub x: u32,
    pub y: u32,
    pub action: u32,
}

/// An object placed on the map, with the path assigned to it.
#[derive(Clone, Debug, PartialEq, Eq)]
pub struct Object {
    pub type_: u32,
    pub id: u32,
    /// The position in sub-cell coordinates.
    pub x: u32,
    pub y: u32,
    pub flags: u32,
    pub path_nodes: Vec<PathNode>,
}

/// What an [`Object`] holds.
pub struct ObjectModel {
    pub type_: u32,
    pub id: u32,
    pub x: u32,
    pub y: u32,
    pub flags: u32,
    pub path_nodes: Seq<PathNode>,
}

impl View for Object {
    type V = ObjectModel;

    open spec fn view(&self) -> ObjectModel {
        ObjectModel {
            type_: self.type_,
            id: self.id,
            x: self.x,
            y: self.y,
            flags: self.flags,
            path_nodes: self.path_nodes@,
        }
    }
}

/// A rectangular region marker.
#[derive(Clone, Copy, Debug, PartialEq, Eq, Structural)]
pub struct TagGroup {
    pub tile_x: u32,
    pub tile_y: u32,
    pub width: u32,
    pub height: u32,
    pub unknown: u32,
}

/// A decoded DS1 tile map.
#[derive(Clone, Debug)]
pub struct Ds1 {
    /// The format version.
    pub version: u32,
    /// The number of tiles across.
    pub width: u32,
    /// The number of tiles down.
    pub height: u32,
    /// The act, which decides the palette: 1 to 5.
    pub act: u32,
    /// The kind of tag layer the map carries.
    pub tag_type: u32,
    /// The files the map refers to.
    pub file_names: Vec<String>,
    pub wall_layers: Vec<Layer<WallCell>>,
    pub floor_layers: Vec<Layer<FloorCell>>,
    pub shadow_layers: Vec<Layer<ShadowCell>>,
    pub tag_layers: Vec<Layer<TagCell>>,
    pub objects: Vec<Object>,
    pub tag_groups: Vec<TagGroup>,
}

/// What a [`Ds1`] holds.
pub struct Ds1Model {
    pub version: u32,
    pub width: u32,
    pub height: u32,
    pub act: u32,
    pub tag_type: u32,
    pub file_names: Seq<Seq<char>>,
    pub wall_layers: Seq<LayerModel<WallCell>>,
    pub floor_layers: Seq<LayerModel<FloorCell>>,
    pub shadow_layers: Seq<LayerModel<ShadowCell>>,
    pub tag_layers: Seq<LayerModel<TagCell>>,
    pub objects: Seq<ObjectModel>,
    pub tag_groups: Seq<TagGroup>,
}

/// What each layer of `layers` holds.
pub open spec fn layer_models<T: Cell>(layers: Seq<Layer<T>>) -> Seq<LayerModel<T>> {
    Seq::new(layers.len(), |i: int| layers[i]@)
}

/// Every layer of `layers` is a well-formed `width` by `height` grid.
pub open spec fn layers_wf<T: Cell>(layers: Seq<Layer<T>>, width: u32, height: u32) -> bool {
    forall|i: int|
        0 <= i < layers.len() ==> (#[trigger] layers[i]).wf() && layers[i].width == width
            && layers[i].height == height
}

/// What each object of `objects` holds.
pub open spec fn object_models(objects: Seq<Object>) -> Seq<ObjectModel> {
    Seq::new(objects.len(), |i: int| objects[i]@)
}

/// The characters of each string of `names`.
pub open spec fn name_models(names: Seq<String>) -> Seq<Seq<char>> {
    Seq::new(names.len(), |i: int| names[i]@)
}

impl View for Ds1 {
    type V = Ds1Model;

    open spec fn view(&self) -> Ds1Model {
        Ds1Model {
            version: self.version,
            width: self.width,
            height: self.height,
            act: self.act,
            tag_type: self.tag_type,
            file_names: name_models(self.file_names@),
            wall_layers: layer_models(self.wall_layers@),
            floor_layers: layer_models(self.floor_layers@),
            shadow_layers: layer_models(self.shadow_layers@),
            tag_layers: layer_models(self.tag_layers@),
            objects: object_models(self.objects@),
            tag_groups: self.tag_groups@,
        }
    }
}

impl Cell for WallCell {
    /// The four material bytes, the first in the lowest place, and above
    /// them the orientation.
    open spec fn pack(self) -> u64 {
        (self.prop1 + 0x100 * (self.prop2 + 0x100 * (self.prop3 + 0x100 * (self.prop4 + 0x100
            * self.orientation)))) as u64
    }

    open spec fn unpack(word: u64) -> Self {
        WallCell {
            prop1: (word % 0x100) as u8,
            prop2: (word / 0x100 % 0x100) as u8,
            prop3: (word / 0x100 / 0x100 % 0x100) as u8,
            prop4: (word / 0x100 / 0x100 / 0x100 % 0x100) as u8,
            orientation: (word / 0x100 / 0x100 / 0x100 / 0x100 % 0x100) as u8,
        }
    }

    open spec fn blank() -> Self {
        WallCell { prop1: 0, prop2: 0, prop3: 0, prop4: 0, orientation: 0 }
    }

    proof fn lemma_unpack_pack(self) {
        let top = self.prop4 + 0x100 * self.orientation;
        let upper = self.prop3 + 0x100 * top;
        let rest = self.prop2 + 0x100 * upper;
        lemma_low_byte(self.prop1 as int, rest);
        lemma_low_byte(self.prop2 as int, upper);
        lemma_low_byte(self.prop3 as int, top);
        lemma_low_byte(self.prop4 as int, self.orientation as int);
        lemma_low_byte(self.orientation as int, 0);
    }

    fn to_word(self) -> (word: u64) {
        self.prop1 as u64 + 0x100 * (self.prop2 as u64 + 0x100 * (self.prop3 as u64 + 0x100 * (
            self.prop4 as u64 + 0x100 * (self.orientation as u64))))
    }

    fn from_word(word: u64) -> (cell: Self) {
        WallCell {
            prop1: (word % 0x100) as u8,
            prop2: (word / 0x100 % 0x100) as u8,
            prop3: (word / 0x100 / 0x100 % 0x100) as u8,
            prop4: (word / 0x100 / 0x100 / 0x100 % 0x100) as u8,
            orientation: (word / 0x100 / 0x100 / 0x100 / 0x100 % 0x100) as u8,
        }
    }

    fn blank_cell() -> (cell: Self) {
        WallCell { prop1: 0, prop2: 0, prop3: 0, prop4: 0, orientation: 0 }
    }
}

impl Cell for FloorCell {
    /// The four material bytes, the first in the lowest place.
    open spec fn pack(self) -> u64 {
        (self.prop1 + 0x100 * (self.prop2 + 0x100 * (self.prop3 + 0x100 * self.prop4))) as u64
    }

    open spec fn unpack(word: u64) -> Self {
        FloorCell {
            prop1: (word % 0x100) as u8,
            prop2: (word / 0x100 % 0x100) as u8,
            prop3: (word / 0x100 / 0x100 % 0x100) as u8,
            prop4: (word / 0x100 / 0x100 / 0x100 % 0x100) as u8,
        }
    }

    open spec fn blank() -> Self {
        FloorCell { prop1: 0, prop2: 0, prop3: 0, prop4: 0 }
    }

    proof fn lemma_unpack_pack(self) {
        let upper = self.prop3 + 0x100 * self.prop4;
        let rest = self.prop2 + 0x100 * upper;
        lemma_low_byte(self.prop1 as int, rest);
        lemma_low_byte(self.prop2 as int, upper);
        lemma_low_byte(self.prop3 as int, self.prop4 as int);
        lemma_low_byte(self.prop4 as int, 0);
    }

    fn to_word(self) -> (word: u64) {
        self.prop1 as u64 + 0x100 * (self.prop2 as u64 + 0x100 * (self.prop3 as u64 + 0x100 * (
            self.prop4 as u64)))
    }

    fn from_word(word: u64) -> (cell: Self) {
        FloorCell {
            prop1: (word % 0x100) as u8,
            prop2: (word / 0x100 % 0x100) as u8,
            prop3: (word / 0x100 / 0x100 % 0x100) as u8,
            prop4: (word / 0x100 / 0x100 / 0x100 % 0x100) as u8,
        }
    }

    fn blank_cell() -> (cell: Self) {
        FloorCell { prop1: 0, prop2: 0, prop3: 0, prop4: 0 }
    }
}

impl Cell for ShadowCell {
    /// The four material bytes, the first in the lowest place.
    open spec fn pack(self) -> u64 {
        (self.prop1 + 0x100 * (self.prop2 + 0x100 * (self.prop3 + 0x100 * self.prop4))) as u64
    }

    open spec fn unpack(word: u64) -> Self {
        ShadowCell {
            prop1: (word % 0x100) as u8,
            prop2: (word / 0x100 % 0x100) as u8,
            prop3: (word / 0x100 / 0x100 % 0x100) as u8,
            prop4: (word / 0x100 / 0x100 / 0x100 % 0x100) as u8,
        }
    }

    open spec fn blank() -> Self {
        ShadowCell { prop1: 0, prop2: 0, prop3: 0, prop4: 0 }
    }

    proof fn lemma_unpack_pack(self) {
        let upper = self.prop3 + 0x100 * self.prop4;
        let rest = self.prop2 + 0x100 * upper;
        lemma_low_byte(self.prop1 as int, rest);
        lemma_low_byte(self.prop2 as int, upper);
        lemma_low_byte(self.prop3 as int, self.prop4 as int);
        lemma_low_byte(self.prop4 as int, 0);
    }

    fn to_word(self) -> (word: u64) {
        self.prop1 as u64 + 0x100 * (self.prop2 as u64 + 0x100 * (self.prop3 as u64 + 0x100 * (
            self.prop4 as u64)))
    }

    fn from_word(word: u64) -> (cell: Self) {
        ShadowCell {
            prop1: (word % 0x100) as u8,
            prop2: (word / 0x100 % 0x100) as u8,
            prop3: (word / 0x100 / 0x100 % 0x100) as u8,
            prop4: (word / 0x100 / 0x100 / 0x100 % 0x100) as u8,
        }
    }

    fn blank_cell() -> (cell: Self) {
        ShadowCell { prop1: 0, prop2: 0, prop3: 0, prop4: 0 }
    }
}

impl Cell for TagCell {
    /// The value itself.
    open spec fn pack(self) -> u64 {
        self.prop1 as u64
    }

    open spec fn unpack(word: u64) -> Self {
        TagCell { prop1: (word % 0x1_0000_0000) as u32 }
    }

    open spec fn blank() -> Self {
        TagCell { prop1: 0 }
    }

    proof fn lemma_unpack_pack(self) {
    }

    fn to_word(self) -> (word: u64) {
        self.prop1 as u64
    }

    fn from_word(word: u64) -> (cell: Self) {
        TagCell { prop1: (word % 0x1_0000_0000) as u32 }
    }

    fn blank_cell() -> (cell: Self) {
        TagCell { prop1: 0 }
    }
}

/// What a [`Layer`] holds: its size and its cells, by `(x, y)`.
#[verifier::reject_recursive_types(T)]
pub struct LayerModel<T> {
    pub width: u32,
    pub height: u32,
    pub cells: Map<(int, int), T>,
}

/// One full-map grid of one cell kind. Column `x` of row `y` is the cell
/// at `(x, y)`.
#[derive(Debug)]
#[verifier::reject_recursive_types(T)]
pub struct Layer<T> {
    pub width: u32,
    pub height: u32,
    pub cells: Grid<T>,
}

impl<T: Cell> Clone for Layer<T> {
    /// A layer of the same size that holds the same cells.
    fn clone(&self) -> (copy: Self)
        ensures
            copy.width == self.width,
            copy.height == self.height,
            copy@ == self@,
    {
        Layer { width: self.width, height: self.height, cells: self.cells.clone() }
    }
}

impl<T: Cell> Layer<T> {
    /// The grid has exactly `width` columns and `height` rows.
    pub open spec fn wf(self) -> bool {
        self.cells.has_shape(self.width as int, self.height as int)
    }

    /// The size of the layer and its cells.
    pub open spec fn view(self) -> LayerModel<T> {
        LayerModel { width: self.width, height: self.height, cells: self.cells.cells() }
    }

    /// A layer of blank cells.
    pub fn new(width: u32, height: u32) -> (layer: Self)
        requires
            grid_fits(width as int, height as int),
        ensures
            layer.wf(),
            layer.width == width,
            layer.height == height,
            layer@.cells == filled(width as int, height as int, T::blank()),
    {
        let cells = Grid::new(width as usize, height as usize, T::blank_cell());
        Layer { width, height, cells }
    }

    /// The cell in column `x` of row `y`, or `None` outside the layer.
    pub fn get(&self, x: u32, y: u32) -> (r: Option<T>)
        ensures
            r == if self@.cells.dom().contains((x as int, y as int)) {
                Some(self@.cells[(x as int, y as int)])
            } else {
                None
            },
            self.wf() ==> (r is Some <==> x < self.width && y < self.height),
    {
        self.cells.get(x as usize, y as usize)
    }
}

/// Whether the header stores the act.
pub open spec fn has_act(version: u32) -> bool {
    version >= 8
}

/// Whether the header stores the tag type.
pub open spec fn has_tag_type(version: u32) -> bool {
    version >= 10
}

/// Whether the file lists the files it refers to.
pub open spec fn has_file_references(version: u32) -> bool {
    version >= 3
}

/// Whether eight reserved bytes follow the file references.
pub open spec fn has_reserved_words(version: u32) -> bool {
    9 <= version <= 13
}

/// Whether the file stores the number of wall layers.
pub open spec fn has_wall_count(version: u32) -> bool {
    version >= 4
}

/// Whether the file stores the number of floor layers.
pub open spec fn has_floor_count(version: u32) -> bool {
    version >= 16
}

/// The number of tag layers: one where the tag type asks for it, else none.
pub open spec fn tag_layer_count(version: u32, tag_type: u32) -> u32 {
    if version >= 10 && (tag_type == 1 || tag_type == 2) {
        1
    } else {
        0
    }
}

/// What a version of the format has, as the decoder asks it.
impl Ds1 {
    /// Whether the header stores the act.
    pub fn has_act(version: u32) -> (b: bool)
        ensures
            b == has_act(version),
    {
        version >= 8
    }

    /// Whether the header stores the tag type.
    pub fn has_tag_type(version: u32) -> (b: bool)
        ensures
            b == has_tag_type(version),
    {
        version >= 10
    }

    /// Whether the file lists the files it refers to.
    pub fn has_file_references(version: u32) -> (b: bool)
        ensures
            b == has_file_references(version),
    {
        version >= 3
    }

    /// Whether eight reserved bytes follow the file references.
    pub fn has_reserved_words(version: u32) -> (b: bool)
        ensures
            b == has_reserved_words(version),
    {
        version >= 9 && version <= 13
    }

    /// Whether the file stores the number of wall layers.
    pub fn has_wall_count(version: u32) -> (b: bool)
        ensures
            b == has_wall_count(version),
    {
        version >= 4
    }

    /// Whether the file stores the number of floor layers.
    pub fn has_floor_count(version: u32) -> (b: bool)
        ensures
            b == has_floor_count(version),
    {
        version >= 16
    }

    /// Whether the map has a tag layer.
    pub fn has_tag_layer(version: u32, tag_type: u32) -> (b: bool)
        ensures
            b == (tag_layer_count(version, tag_type) == 1),
    {
        version >= 10 && (tag_type == 1 || tag_type == 2)
    }

    /// Whether wall orientations go through the lookup table.
    pub fn remaps_orientation(version: u32) -> (b: bool)
        ensures
            b == remaps_orientation(version),
    {
        version < 7
    }

    /// Whether the file lists objects.
    pub fn has_objects(version: u32) -> (b: bool)
        ensures
            b == has_objects(version),
    {
        version >= 2
    }

    /// Whether an object record stores flags.
    pub fn has_object_flags(version: u32) -> (b: bool)
        ensures
            b == has_object_flags(version),
    {
        version >= 5
    }

    /// Whether the file lists tag groups.
    pub fn has_tag_groups(version: u32, tag_type: u32) -> (b: bool)
        ensures
            b == has_tag_groups(version, tag_type),
    {
        version >= 12 && (tag_type == 1 || tag_type == 2)
    }

    /// Whether four reserved bytes stand before the tag groups.
    pub fn has_tag_group_pad(version: u32) -> (b: bool)
        ensures
            b == has_tag_group_pad(version),
    {
        version >= 18
    }

    /// Whether a tag group record stores its last, unexplained field.
    pub fn has_tag_group_unknown(version: u32) -> (b: bool)
        ensures
            b == has_tag_group_unknown(version),
    {
        version >= 13
    }

    /// Whether a path node stores its action.
    pub fn has_node_action(version: u32) -> (b: bool)
        ensures
            b == has_node_action(version),
    {
        version >= 15
    }
}

/// The fields at the start of the file.
#[derive(Clone, Copy, Debug, PartialEq, Eq, Structural)]
pub struct Ds1Header {
    pub version: u32,
    pub width: u32,
    pub height: u32,
    pub act: u32,
    pub tag_type: u32,
}

/// The length of the header in bytes.
pub open spec fn header_len(version: u32) -> int {
    12 + (if has_act(version) {
        4int
    } else {
        0int
    }) + (if has_tag_type(version) {
        4int
    } else {
        0int
    })
}

/// The act that the stored value `raw` stands for: `raw + 1`, capped at 5.
pub open spec fn act_of(raw: u32) -> u32 {
    if raw >= 4 {
        5
    } else {
        (raw + 1) as u32
    }
}

/// The header of the file `b` and the offset behind it.
///
/// Width and height are stored less one. A stored value of `u32::MAX` has
/// no successor in 32 bits, and a map too large to allocate cannot be held:
/// both are `Malformed`.
pub open spec fn parse_header(b: Seq<u8>) -> Result<(Ds1Header, int), FormatError> {
    if !can_read(b, 0, 8) {
        Err(FormatError::Truncated)
    } else if u32_at(b, 4) == u32::MAX {
        Err(FormatError::Malformed)
    } else if !can_read(b, 0, 12) {
        Err(FormatError::Truncated)
    } else if u32_at(b, 8) == u32::MAX {
        Err(FormatError::Malformed)
    } else if !grid_fits(u32_at(b, 4) + 1, u32_at(b, 8) + 1) {
        Err(FormatError::Malformed)
    } else if !can_read(b, 0, header_len(u32_at(b, 0))) {
        Err(FormatError::Truncated)
    } else {
        let version = u32_at(b, 0);
        Ok(
            (
                Ds1Header {
                    version,
                    width: (u32_at(b, 4) + 1) as u32,
                    height: (u32_at(b, 8) + 1) as u32,
                    act: if has_act(version) {
                        act_of(u32_at(b, 12))
                    } else {
                        1
                    },
                    tag_type: if has_tag_type(version) {
                        u32_at(b, 16)
                    } else {
                        0
                    },
                },
                header_len(version),
            ),
        )
    }
}

/// The first `n` zero-terminated strings from `p` on and the offset behind
/// the last of them.
pub open spec fn parse_strings(b: Seq<u8>, p: int, n: nat) -> Result<
    (Seq<Seq<char>>, int),
    FormatError,
>
    decreases n,
{
    if n == 0 {
        Ok((Seq::empty(), p))
    } else {
        match parse_strings(b, p, (n - 1) as nat) {
            Err(e) => Err(e),
            Ok((names, q)) => match zstring_at(b, q) {
                Err(e) => Err(e),
                Ok((name, next)) => Ok((names.push(name), next)),
            },
        }
    }
}

/// The file references at `p`: a count and that many strings, where the
/// version has them.
pub open spec fn parse_file_names(b: Seq<u8>, p: int, version: u32) -> Result<
    (Seq<Seq<char>>, int),
    FormatError,
> {
    if !has_file_references(version) {
        Ok((Seq::empty(), p))
    } else if !can_read(b, p, 4) {
        Err(FormatError::Truncated)
    } else {
        parse_strings(b, p + 4, u32_at(b, p) as nat)
    }
}

/// The offset behind the reserved bytes that follow the file references.
pub open spec fn parse_reserved(b: Seq<u8>, p: int, version: u32) -> Result<int, FormatError> {
    if !has_reserved_words(version) {
        Ok(p)
    } else if !can_read(b, p, 8) {
        Err(FormatError::Truncated)
    } else {
        Ok(p + 8)
    }
}

/// The numbers of wall and floor layers, stored at `p` where the version
/// stores them and one each where it does not, and the offset behind them.
pub open spec fn parse_layer_counts(b: Seq<u8>, p: int, version: u32) -> Result<
    ((u32, u32), int),
    FormatError,
> {
    if !has_wall_count(version) {
        Ok(((1, 1), p))
    } else if !can_read(b, p, 4) {
        Err(FormatError::Truncated)
    } else if !has_floor_count(version) {
        Ok(((u32_at(b, p), 1), p + 4))
    } else if !can_read(b, p, 8) {
        Err(FormatError::Truncated)
    } else {
        Ok(((u32_at(b, p), u32_at(b, p + 4)), p + 8))
    }
}

/// File references are there from version 3 on: an older file holds none
/// and spends no byte on them, a later one starts them with their count.
pub proof fn lemma_file_references_from_version_3(b: Seq<u8>, p: int, version: u32)
    ensures
        version < 3 ==> parse_file_names(b, p, version) == Ok::<
            (Seq<Seq<char>>, int),
            FormatError,
        >((Seq::empty(), p)),
        version >= 3 && can_read(b, p, 4) ==> parse_file_names(b, p, version) == parse_strings(
            b,
            p + 4,
            u32_at(b, p) as nat,
        ),
        version >= 3 && !can_read(b, p, 4) ==> parse_file_names(b, p, version) == Err::<
            (Seq<Seq<char>>, int),
            FormatError,
        >(FormatError::Truncated),
{
}

/// Exactly eight bytes are passed over behind the file references in
/// versions 9 to 13, and none in any other version.
pub proof fn lemma_reserved_bytes(b: Seq<u8>, p: int, version: u32)
    requires
        parse_reserved(b, p, version) is Ok,
    ensures
        parse_reserved(b, p, version)->Ok_0 - p == if 9 <= version <= 13 {
            8int
        } else {
            0int
        },
{
}

/// Once some prefix of the strings fails, every longer prefix fails alike.
pub proof fn lemma_parse_strings_fails(b: Seq<u8>, p: int, k: nat, n: nat)
    requires
        k <= n,
        parse_strings(b, p, k) is Err,
    ensures
        parse_strings(b, p, n) == parse_strings(b, p, k),
    decreases n,
{
    if k < n {
        lemma_parse_strings_fails(b, p, k, (n - 1) as nat);
    }
}

/// The tile map that the file `b` holds, or the error that its decoding
/// meets and the section in which it meets it.
///
/// The sections follow one another: header, file references, reserved
/// bytes, layer counts, layer blocks, objects, tag groups, paths. A file
/// that ends behind its tag groups, or inside them, has no paths; bytes
/// behind the paths are not looked at.
pub open spec fn parse_ds1_sections(b: Seq<u8>) -> Result<Ds1Model, Fault> {
    match parse_header(b) {
        Err(e) => Err(Fault { error: e, section: Section::Header }),
        Ok((header, names_at)) => match parse_file_names(b, names_at, header.version) {
            Err(e) => Err(Fault { error: e, section: Section::FileReferences }),
            Ok((file_names, reserved_at)) => match parse_reserved(b, reserved_at, header.version) {
                Err(e) => Err(Fault { error: e, section: Section::ReservedBytes }),
                Ok(counts_at) => match parse_layer_counts(b, counts_at, header.version) {
                    Err(e) => Err(Fault { error: e, section: Section::LayerCounts }),
                    Ok(((walls, floors), layers_at)) => match parse_layers(
                        b,
                        layer_plan(header, walls, floors, layers_at),
                    ) {
                        Err(e) => Err(Fault { error: e, section: Section::Layers }),
                        Ok((layers, objects_at)) => match parse_objects(
                            b,
                            objects_at,
                            header.version,
                        ) {
                            Err(e) => Err(Fault { error: e, section: Section::Objects }),
                            Ok((objects, groups_at)) => match parse_tag_groups(
                                b,
                                groups_at,
                                header.version,
                                header.tag_type,
                            ) {
                                Err(e) => Err(Fault { error: e, section: Section::TagGroups }),
                                Ok(section) => if section.cut_short || section.next == b.len() {
                                    Ok(
                                        ds1_model(
                                            header,
                                            file_names,
                                            layers,
                                            objects,
                                            section.groups,
                                        ),
                                    )
                                } else {
                                    match parse_paths(b, section.next, header.version, objects) {
                                        Err(e) => Err(Fault { error: e, section: Section::Paths }),
                                        Ok((assigned, end)) => Ok(
                                            ds1_model(
                                                header,
                                                file_names,
                                                layers,
                                                assigned,
                                                section.groups,
                                            ),
                                        ),
                                    }
                                },
                            },
                        },
                    },
                },
            },
        },
    }
}

/// The tile map that the file `b` holds, or the error that its decoding
/// meets.
pub open spec fn parse_ds1(b: Seq<u8>) -> Result<Ds1Model, FormatError> {
    without_section(parse_ds1_sections(b))
}

/// The tile map made of the given sections.
pub open spec fn ds1_model(
    header: Ds1Header,
    file_names: Seq<Seq<char>>,
    layers: LayersModel,
    objects: Seq<ObjectModel>,
    tag_groups: Seq<TagGroup>,
) -> Ds1Model {
    Ds1Model {
        version: header.version,
        width: header.width,
        height: header.height,
        act: header.act,
        tag_type: header.tag_type,
        file_names,
        wall_layers: layers.walls,
        floor_layers: layers.floors,
        shadow_layers: layers.shadows,
        tag_layers: layers.tags,
        objects,
        tag_groups,
    }
}

impl Ds1 {
    /// Every layer is a well-formed grid of the map's size.
    pub open spec fn wf(self) -> bool {
        &&& layers_wf(self.wall_layers@, self.width, self.height)
        &&& layers_wf(self.floor_layers@, self.width, self.height)
        &&& layers_wf(self.shadow_layers@, self.width, self.height)
        &&& layers_wf(self.tag_layers@, self.width, self.height)
    }

    /// Decodes a DS1 file. An error comes with the section in which the
    /// decoder met it.
    pub fn decode(file_bytes: &[u8]) -> (r: Result<Ds1, Fault>)
        ensures
            match parse_ds1_sections(file_bytes@) {
                Ok(map) => r is Ok && r->Ok_0@ == map && r->Ok_0.wf(),
                Err(fault) => r == Err::<Ds1, Fault>(fault),
            },
    {
        let mut cur = ByteCursor::new(file_bytes);
        let header: Ds1Header = fault_in(Ds1::read_header(&mut cur), Section::Header)?;
        let version: u32 = header.version;
        let file_names: Vec<String> = fault_in(
            Ds1::read_file_names(&mut cur, version),
            Section::FileReferences,
        )?;
        if Ds1::has_reserved_words(version) {
            fault_in(cur.skip(8), Section::ReservedBytes)?;
        }
        let mut walls: u32 = 1;
        let mut floors: u32 = 1;
        if Ds1::has_wall_count(version) {
            let left: usize = cur.remaining();
            if Ds1::has_floor_count(version) && left < 8 {
                return Err(Fault { error: FormatError::Truncated, section: Section::LayerCounts });
            }
            walls = fault_in(cur.read_u32(), Section::LayerCounts)?;
            if Ds1::has_floor_count(version) {
                floors = fault_in(cur.read_u32(), Section::LayerCounts)?;
            }
        }
        let layers: Layers = fault_in(
            Ds1::read_layers(&mut cur, &header, walls, floors),
            Section::Layers,
        )?;
        let mut objects: Vec<Object> = fault_in(
            Ds1::read_objects(&mut cur, version),
            Section::Objects,
        )?;
        let (tag_groups, cut_short) = fault_in(
            Ds1::read_tag_groups(&mut cur, version, header.tag_type),
            Section::TagGroups,
        )?;
        if !cut_short && !cur.is_at_end() {
            fault_in(Ds1::read_npc_paths(&mut cur, version, &mut objects), Section::Paths)?;
        }
        Ok(
            Ds1 {
                version,
                width: header.width,
                height: header.height,
                act: header.act,
                tag_type: header.tag_type,
                file_names,
                wall_layers: layers.walls,
                floor_layers: layers.floors,
                shadow_layers: layers.shadows,
                tag_layers: layers.tags,
                objects,
                tag_groups,
            },
        )
    }

    /// Decodes a DS1 file.
    pub fn from(file_bytes: &[u8]) -> (r: Result<Ds1, FormatError>)
        ensures
            match parse_ds1(file_bytes@) {
                Ok(map) => r is Ok && r->Ok_0@ == map && r->Ok_0.wf(),
                Err(e) => r == Err::<Ds1, FormatError>(e),
            },
    {
        match Ds1::decode(file_bytes) {
            Ok(map) => Ok(map),
            Err(fault) => Err(fault.error),
        }
    }

    /// Reads the header from the start of the file: version, size, and the
    /// act and tag type where the version stores them.
    fn read_header(cur: &mut ByteCursor) -> (r: Result<Ds1Header, FormatError>)
        requires
            old(cur).pos() == 0,
        ensures
            final(cur).bytes() == old(cur).bytes(),
            match parse_header(old(cur).bytes()) {
                Ok((header, next)) => r == Ok::<Ds1Header, FormatError>(header) && final(cur).pos() == next,
                Err(e) => r == Err::<Ds1Header, FormatError>(e),
            },
    {
        let version: u32 = cur.read_u32()?;
        let width_raw: u32 = cur.read_u32()?;
        if width_raw == u32::MAX {
            return Err(FormatError::Malformed);
        }
        let height_raw: u32 = cur.read_u32()?;
        if height_raw == u32::MAX {
            return Err(FormatError::Malformed);
        }
        let width: u32 = width_raw + 1;
        let height: u32 = height_raw + 1;
        if !Grid::<WallCell>::fits(width as usize, height as usize) {
            return Err(FormatError::Malformed);
        }
        let mut act: u32 = 1;
        if Ds1::has_act(version) {
            let raw: u32 = cur.read_u32()?;
            act = if raw >= 4 {
                5
            } else {
                raw + 1
            };
        }
        let mut tag_type: u32 = 0;
        if Ds1::has_tag_type(version) {
            tag_type = cur.read_u32()?;
        }
        Ok(Ds1Header { version, width, height, act, tag_type })
    }

    /// Reads the file references, where the version has them.
    pub fn read_file_names(cur: &mut ByteCursor, version: u32) -> (r: Result<
        Vec<String>,
        FormatError,
    >)
        ensures
            final(cur).bytes() == old(cur).bytes(),
            match parse_file_names(old(cur).bytes(), old(cur).pos() as int, version) {
                Ok((names, next)) => r is Ok && name_models(r->Ok_0@) == names && final(cur).pos() == next,
                Err(e) => r == Err::<Vec<String>, FormatError>(e),
            },
    {
        let ghost b = cur.bytes();
        let mut names: Vec<String> = Vec::new();
        if !Ds1::has_file_references(version) {
            proof {
                assert(name_models(names@) =~= Seq::<Seq<char>>::empty());
            }
            return Ok(names);
        }
        let count: u32 = cur.read_u32()?;
        let ghost first = cur.pos() as int;
        proof {
            assert(name_models(names@) =~= Seq::<Seq<char>>::empty());
        }
        let mut i: u32 = 0;
        while i < count
            invariant
                cur.bytes() == b,
                b == old(cur).bytes(),
                first == old(cur).pos() + 4,
                0 <= i <= count,
                parse_strings(b, first, i as nat) == Ok::<(Seq<Seq<char>>, int), FormatError>(
                    (name_models(names@), cur.pos() as int),
                ),
                has_file_references(version),
                can_read(b, old(cur).pos() as int, 4),
                count == u32_at(b, old(cur).pos() as int),
            decreases count - i,
        {
            let ghost before = name_models(names@);
            match cur.read_zstring() {
                Ok(name) => {
                    names.push(name);
                    proof {
                        assert(name_models(names@) =~= before.push(name@));
                    }
                },
                Err(e) => {
                    proof {
                        lemma_parse_strings_fails(b, first, (i + 1) as nat, count as nat);
                    }
                    return Err(e);
                },
            }
            i = i + 1;
        }
        Ok(names)
    }
}

} // verus!
