//! Locations of the persisted state under the platform data directory.

use vstd::prelude::*;

verus! {

/// The application's directory under the platform data root.
pub fn storage_dir(data_base: &str) -> (r: String)
    ensures
        r@ == data_base@ + "/com.stickynotes.app"@,
{
    String::from_str(data_base).concat("/com.stickynotes.app")
}

/// The notes snapshot file.
pub fn storage_path(data_base: &str) -> (r: String)
    ensures
        r@ == data_base@ + "/com.stickynotes.app"@ + "/notes.json"@,
{
    let r = storage_dir(data_base).concat("/notes.json");
    r
}

/// The directory holding images referenced by note content.
pub fn media_dir(data_base: &str) -> (r: String)
    ensures
        r@ == data_base@ + "/com.stickynotes.app"@ + "/media"@,
{
    let r = storage_dir(data_base).concat("/media");
    r
}

/// The path of one stored media file.
pub fn media_file_path(data_base: &str, filename: &str) -> (r: String)
    ensures
        r@ == data_base@ + "/com.stickynotes.app"@ + "/media"@ + "/"@ + filename@,
{
    let r = media_dir(data_base).concat("/").concat(filename);
    r
}

} // verus!
