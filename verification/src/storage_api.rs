//! Where rootly keeps its files.
use vstd::prelude::*;

verus! {

/// A store of named files, implemented by the users of the library (a
/// directory on local disk, a network file system).
pub trait Storage {
    /// Writes `data` into the file, at `offset` or from the start.
    fn write(&self, file_name: &str, data: Vec<u8>, offset: Option<usize>);

    /// Reads `size` bytes, or up to the end, from `offset` or from the start.
    fn read(&self, file_name: &str, offset: Option<usize>, size: Option<usize>) -> Option<Vec<u8>>;

    /// Deletes the file.
    fn delete(&self, file_name: &str);

    /// Whether the file exists.
    fn is_file_exists(&self, file_name: &str) -> bool;
}

} // verus!
