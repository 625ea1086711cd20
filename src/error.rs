use vstd::prelude::*;

use std::path::PathBuf;

verus! {

#[verifier::external_type_specification]
#[verifier::external_body]
pub struct ExIoError(std::io::Error);

#[verifier::external_type_specification]
#[verifier::external_body]
pub struct ExPathBuf(std::path::PathBuf);

#[verifier::external_type_specification]
#[verifier::external_body]
pub struct ExDecodingError(png::DecodingError);

#[verifier::external_type_specification]
#[verifier::external_body]
pub struct ExEncodingError(png::EncodingError);

/// The errors of this library.
#[derive(Debug)]
pub enum Error {
    /// Reading or writing a file failed.
    IoError(std::io::Error),
    /// A configured root is not a directory.
    NotDirectory(PathBuf),
    /// The file to load does not exist.
    FileNotFound(PathBuf),
    /// A decoded image is neither RGBA nor grey with alpha.
    ImageNotRgba,
    /// The file is an unresolved Git LFS pointer, not an image.
    LFSMissing,
    /// Any other failure, described in words.
    GenericError(String),
    /// The PNG decoder refused the data.
    PngDecoding(png::DecodingError),
    /// The PNG encoder refused the data.
    PngEncoding(png::EncodingError),
}

} // verus!
