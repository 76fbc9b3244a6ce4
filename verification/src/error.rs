//! The library's error type.

use vstd::prelude::*;
use bc_ur::Error as UrError;
use std::io::Error as IoError;

verus! {

/// An I/O failure, carried through unchanged.
#[verifier::external_type_specification]
#[verifier::external_body]
pub struct ExIoError(IoError);

/// A failure of the UR encoder, carried through unchanged.
#[verifier::external_type_specification]
#[verifier::external_body]
pub struct ExUrError(UrError);

#[derive(Debug)]
pub enum Error {
    QrEncode(String),
    ImageEncode(String),
    SvgRender(String),
    InvalidColor(String),
    InvalidParameter(String),
    GifEncode(String),
    FfmpegNotFound,
    FfmpegFailed(String),
    QrCodeTooDense { module_count: usize, max_modules: usize },
    InsufficientFrames { requested: usize, fragments: usize },
    Io(IoError),
    Ur(UrError),
}

} // verus!
