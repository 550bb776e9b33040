//! Assembles a numbered catalogue of emotes from a local image directory and a
//! remote streaming platform, assigns each a unique codepoint identifier, and
//! produces the name-to-identifier mapping and staged file names that a font
//! compiler consumes.

pub mod download;
pub mod naming;
pub mod records;
pub mod registry;
pub mod remote;
pub mod scan;
pub mod sequencer;
