use std::path::PathBuf;
use vstd::prelude::*;

verus! {

/// One media file: where it was found, and the file name that it keeps
/// when it is stored.
#[derive(Debug, PartialEq)]
pub struct Image {
    pub name: String,
    pub path: PathBuf,
}

impl Image {
    /// The media file at `path` that is to be stored under `name`.
    pub fn new(path: PathBuf, name: String) -> (image: Image)
        ensures
            image.path == path,
            image.name == name,
    {
        Image { path, name }
    }
}

} // verus!
