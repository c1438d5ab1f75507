//! Sorts media files into folders by the date at which they were taken.
//!
//! The files that a walk over the source directory has found are filed in
//! a [`tree::Tree`], in buckets by year and month, by year, or by month. A
//! file says when it was taken in its Exif attributes; a file that does
//! not say so goes to the bucket of the sentinel key. The tree hands out
//! its buckets in ascending order of their keys, as lines to print and as
//! the steps that store the files below a destination directory.
//!
//! The library computes; reading the files and carrying out the steps is
//! left to its caller.

pub mod arguments;
pub mod buckets;
pub mod discovery;
pub mod grouping;
pub mod image;
pub mod key;
pub mod layout;
pub mod metadata;
pub mod path;
pub mod report;
pub mod text;
pub mod tree;
