//! A verified media-import pipeline core: a registry of imported media
//! files keyed by freshly generated identifiers, the lifecycle state
//! machine of each record, and the gateway logic around an external
//! probe/transcode tool -- command synthesis and report parsing.

pub mod ffmpeg;
pub mod media;
pub mod probe;
pub mod registry;
pub mod text;
