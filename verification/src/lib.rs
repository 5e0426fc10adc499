//! The Kitty graphics protocol, as a terminal multiplexer needs it.
//!
//! Applications transmit images inside APC sequences, `ESC _ G <keys> ; <payload>
//! ESC \`. This library stands between an application and the outer terminals:
//!
//! - [`parse`] classifies the body of a command, from the bytes behind the `G`,
//!   and reads its control keys; [`query`] answers support probes;
//! - [`upload`] reassembles images that come in several chunks, and [`image`]
//!   finds their pixel dimensions;
//! - [`grid`] keeps the images of one terminal grid and their placements, and
//!   [`viewport`] tells which part of them is visible;
//! - [`render`] writes the sequences that show them in the outer terminals.
//!
//! Every operation is described by spec functions over the views of the types.
//! The modules whose names end in `laws` prove what holds of several operations
//! together.
pub mod control_laws;
pub mod geometry;
pub mod grid;
pub mod grid_laws;
pub mod image;
mod pairs;
pub mod parse;
pub mod parse_laws;
pub mod protocol;
pub mod query;
pub mod render;
pub mod render_laws;
pub mod sequence_laws;
pub mod tables;
pub mod text;
pub mod upload;
pub mod viewport;
pub mod viewport_laws;

pub use crate::geometry::{PixelRect, SizeInPixels};
pub use crate::grid::{KittyGrid, KittyPlacement, PlacementRequest, StoredKittyImage};
pub use crate::image::{decode_payload, image_dimensions};
pub use crate::parse::{dispatch, parse_control, parse_keys};
pub use crate::protocol::{
    KittyAction, KittyCommand, KittyControl, KittyDelete, KittyFormat, KittyMedium, KittyOutcome,
    KittyQuery,
};
pub use crate::render::{KittyChunkSpec, KittyRenderState};
pub use crate::upload::{FinishedImage, PendingUpload};
pub use crate::viewport::KittyImageChunk;
