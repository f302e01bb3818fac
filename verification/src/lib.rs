//! Carta's decision engine: which streams of a video file are copied,
//! converted, extracted or dropped on the way to a TV-friendly MP4, the
//! ffmpeg arguments that carry those decisions out, the names of the files
//! written, and the clean-up of subtitles converted from ASS.

pub mod text;
pub mod styling;
pub mod naming;
pub mod plan;
pub mod ffmpeg;
pub mod probe;
