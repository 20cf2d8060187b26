//! Decoders for the asset files of Diablo II.
//!
//! Each decoder takes the bytes of a file and hands back a typed document or
//! an error: `from` gives the [`error::FormatError`] alone, `decode` gives it
//! with the section of the file in which it was met. What a file holds is
//! stated as a specification function over its bytes, and the decoder is
//! proved to return exactly that:
//!
//! - [`ds1`]: tile maps, with their layers in [`ds1_layers`] and their
//!   objects, paths and tag groups in [`ds1_objects`];
//! - [`dc6`]: sprite sheets of run-length encoded frames;
//! - [`dt1`]: tile sets, with the pixels of their isometric and standard
//!   blocks;
//! - [`palette`]: palettes of 256 colours;
//! - [`d2s`]: character saves.
//!
//! [`cursor`] and [`read_string`] read integers, byte runs and strings from
//! a buffer, [`grid`] holds the two-dimensional data of maps and frames, and
//! [`atlas`] lays decoded sprites and tiles out in one texture.
//! [`animation`] has the rule by which an animation steps through its
//! sprites.

pub mod animation;
pub mod atlas;
pub mod cursor;
pub mod d2s;
pub mod dc6;
pub mod dcc;
pub mod ds1;
pub mod ds1_layers;
pub mod ds1_objects;
pub mod dt1;
pub mod error;
pub mod grid;
pub mod palette;
pub mod read_string;
