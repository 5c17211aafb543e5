//! Where tests keep their databases.

use crate::names::{fresh_name, path_in, path_text};
use vstd::prelude::*;
use vstd::string::StringExecFns;

verus! {

/// The directory under which tests create their databases, relative to the
/// directory that the tests run in.
pub fn test_dbs_folder() -> (folder: String)
    ensures
        folder@ == "target/tmp"@,
{
    String::from_str("target/tmp")
}

/// A path for a new database under the tests' directory, with a random last
/// component, so that tests that run side by side do not share files.
pub fn test_db() -> (path: String)
    ensures
        exists|name: Seq<char>| name.len() == 36 && path@ == path_text("target/tmp"@, name),
{
    let folder = test_dbs_folder();
    let name = fresh_name();
    path_in(folder.as_str(), name.as_str())
}

} // verus!
