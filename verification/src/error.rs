//! Errors of the media player.

use vstd::prelude::*;

verus! {

/// What can go wrong while opening, decoding or showing media. Errors raised by
/// outside libraries are carried as their messages.
#[derive(Debug)]
pub enum Error {
    /// FFmpeg failed.
    Ffmpeg(String),
    /// A packet was decoded before the output size was set.
    ScalingNotSet,
    /// The input has no video stream.
    NoVideoStream,
    /// Reading or writing failed.
    Io(String),
    /// The image could not be decoded.
    Image(String),
    /// The interrupt handler could not be installed.
    Signal(String),
}

} // verus!
