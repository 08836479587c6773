//! Errors that decoding a region or a chunk can produce.
use vstd::prelude::*;
use fastnbt::error::Error as TagError;
use std::io::Error as IoFailure;

verus! {

#[verifier::external_type_specification]
#[verifier::external_body]
pub struct ExDecompressError(miniz_oxide::inflate::DecompressError);

#[verifier::external_type_specification]
#[verifier::external_body]
pub struct ExTagError(TagError);

#[verifier::external_type_specification]
#[verifier::external_body]
pub struct ExIoFailure(IoFailure);

/// The general error type, which wraps the errors of the decoders it relies on.
#[derive(Debug)]
pub enum Error {
    /// The decompressed bytes of a chunk are not the expected tag tree.
    NbtError(TagError),
    /// The compressed stream of a chunk is malformed.
    DecompressError(miniz_oxide::inflate::DecompressError),
    /// Reading the bytes of a region failed.
    IoError(IoFailure),
    /// The buffer is shorter than the 8 KiB header.
    MissingHeader,
    /// A declared offset or length points past the end of the available bytes.
    UnexpectedEof,
    /// The compression tag of a chunk is unknown, or its codec is not implemented.
    UnsupportedCompression(u8),
    /// The packed palette data of a section does not match its palette.
    CorruptPalette,
    /// An error of an implementor of the traits of this crate.
    Custom(String),
}

} // verus!
