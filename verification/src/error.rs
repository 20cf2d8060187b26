use vstd::prelude::*;

verus! {

/// Why a decoder gave up on its input.
#[derive(Clone, Copy, Debug, PartialEq, Eq, Structural)]
pub enum FormatError {
    /// A read ran past the end of the buffer.
    Truncated,
    /// A value lies outside the range the format allows.
    Malformed,
    /// An isometric sub-tile block is not exactly 256 bytes long.
    UnexpectedBlockSize,
}

/// The part of a file that a decoder reads.
#[derive(Clone, Copy, Debug, PartialEq, Eq, Structural)]
pub enum Section {
    /// The fields at the start of the file.
    Header,
    /// The names of the files a tile map refers to.
    FileReferences,
    /// The reserved bytes behind the file references of a tile map.
    ReservedBytes,
    /// The numbers of wall and floor layers of a tile map.
    LayerCounts,
    /// The blocks of the layers of a tile map.
    Layers,
    /// The objects of a tile map.
    Objects,
    /// The tag groups of a tile map.
    TagGroups,
    /// The paths of the objects of a tile map.
    Paths,
    /// The table of frame offsets of a sprite sheet.
    FrameOffsets,
    /// The frames of a sprite sheet.
    Frames,
    /// The tiles of a tile set, with their sub-tiles.
    Tiles,
}

/// An error and the part of the file in which the decoder met it.
#[derive(Clone, Copy, Debug, PartialEq, Eq, Structural)]
pub struct Fault {
    pub error: FormatError,
    pub section: Section,
}

/// The outcome of reading one section, with the section named where it
/// failed.
pub open spec fn in_section<T>(r: Result<T, FormatError>, section: Section) -> Result<T, Fault> {
    match r {
        Ok(v) => Ok(v),
        Err(error) => Err(Fault { error, section }),
    }
}

/// The outcome of a decoder without the section in which it failed.
pub open spec fn without_section<T>(r: Result<T, Fault>) -> Result<T, FormatError> {
    match r {
        Ok(v) => Ok(v),
        Err(fault) => Err(fault.error),
    }
}

/// Names the section in which a read failed.
pub fn fault_in<T>(r: Result<T, FormatError>, section: Section) -> (located: Result<T, Fault>)
    ensures
        located == in_section(r, section),
{
    match r {
        Ok(v) => Ok(v),
        Err(error) => Err(Fault { error, section }),
    }
}

impl Section {
    /// The words that name the section.
    pub open spec fn text(self) -> Seq<char> {
        match self {
            Section::Header => "the header"@,
            Section::FileReferences => "the file references"@,
            Section::ReservedBytes => "the reserved bytes"@,
            Section::LayerCounts => "the layer counts"@,
            Section::Layers => "the layers"@,
            Section::Objects => "the objects"@,
            Section::TagGroups => "the tag groups"@,
            Section::Paths => "the paths"@,
            Section::FrameOffsets => "the frame offsets"@,
            Section::Frames => "the frames"@,
            Section::Tiles => "the tiles"@,
        }
    }

    /// The words that name the section.
    pub fn name(&self) -> (text: &'static str)
        ensures
            text@ == self.text(),
    {
        match self {
            Section::Header => "the header",
            Section::FileReferences => "the file references",
            Section::ReservedBytes => "the reserved bytes",
            Section::LayerCounts => "the layer counts",
            Section::Layers => "the layers",
            Section::Objects => "the objects",
            Section::TagGroups => "the tag groups",
            Section::Paths => "the paths",
            Section::FrameOffsets => "the frame offsets",
            Section::Frames => "the frames",
            Section::Tiles => "the tiles",
        }
    }
}

impl FormatError {
    /// The words that describe the error.
    pub open spec fn text(self) -> Seq<char> {
        match self {
            FormatError::Truncated => "the data ends before the format says it may"@,
            FormatError::Malformed => "a value lies outside the range the format allows"@,
            FormatError::UnexpectedBlockSize => "an isometric block is not 256 bytes long"@,
        }
    }

    /// The words that describe the error.
    pub fn message(&self) -> (text: &'static str)
        ensures
            text@ == self.text(),
    {
        match self {
            FormatError::Truncated => "the data ends before the format says it may",
            FormatError::Malformed => "a value lies outside the range the format allows",
            FormatError::UnexpectedBlockSize => "an isometric block is not 256 bytes long",
        }
    }
}

} // verus!
