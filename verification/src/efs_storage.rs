//! The files of rootly on an AWS Elastic File System mount.
use vstd::prelude::*;
use crate::path::{join_path, path_join};
use crate::text::push_str;

verus! {

/// Storage under the directory where the file system is mounted.  The file
/// operations themselves are performed by the program that uses it.
pub struct EfsStorage {
    mnt_path: String,
}

impl View for EfsStorage {
    type V = Seq<char>;

    /// The mount directory.
    closed spec fn view(&self) -> Seq<char> {
        self.mnt_path@
    }
}

impl EfsStorage {
    /// Storage under `/mnt/rootly`.
    pub fn new() -> (r: EfsStorage)
        ensures
            r@ == "/mnt/rootly"@,
    {
        let mut mnt_path = String::new();
        push_str(&mut mnt_path, "/mnt/rootly");
        EfsStorage { mnt_path }
    }

    /// The path of the file named `file_name` under the mount directory.
    pub fn get_file_path(&self, file_name: &str) -> (r: String)
        ensures
            r@ == path_join(self@, file_name@),
    {
        join_path(self.mnt_path.as_str(), file_name)
    }
}

} // verus!
