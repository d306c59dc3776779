//! Places in the file system.

use vstd::prelude::*;
use vstd::string::*;

verus! {

/// A name that is a single component of a path on every platform.
pub open spec fn is_plain_name(name: Seq<char>) -> bool {
    &&& name.len() > 0
    &&& name != "."@
    &&& name != ".."@
    &&& forall|i: int|
        0 <= i < name.len() ==> #[trigger] name[i] != '/' && name[i] != '\\' && name[i] != ':'
}

/// Whether a path is one that Windows takes letter by letter.
pub open spec fn is_verbatim(path: Seq<char>) -> bool {
    path.len() >= 4 && path[0] == '\\' && path[1] == '\\' && path[2] == '?' && path[3] == '\\'
}

/// Whether `path` is the place of `name` in `dir`: the two with a path separator between, which is
/// left out where `dir` is empty or ends in one. A colon may end a drive, and a backslash is a separator
/// on some platforms only; there either may be.
pub open spec fn is_joined(dir: Seq<char>, name: Seq<char>, path: Seq<char>) -> bool {
    if dir.len() == 0 || dir.last() == '/' {
        path == dir + name
    } else {
        ||| path == dir + seq!['/'] + name
        ||| path == dir + seq!['\\'] + name
        ||| (dir.last() == '\\' || dir.last() == ':') && path == dir + name
    }
}

/// Whether `path` starts with the mark of a path that Windows takes letter by letter, and ends in
/// `name`.
pub open spec fn is_verbatim_place(name: Seq<char>, path: Seq<char>) -> bool {
    &&& is_verbatim(path)
    &&& path.len() >= 4 + name.len()
    &&& path.skip(path.len() - name.len()) == name
}

/// Whether `path` is the place of `name` in `dir`. Of a directory that Windows takes letter by letter
/// the form of the result is left to the platform.
pub open spec fn is_place(dir: Seq<char>, name: Seq<char>, path: Seq<char>) -> bool {
    if is_verbatim(dir) {
        is_verbatim_place(name, path)
    } else {
        is_joined(dir, name, path)
    }
}

/// `Path::join`: the path of a name inside a directory. The platform decides which separator comes
/// between; none does where the directory is empty or ends in one. A path that Windows takes letter by
/// letter is put in its normal form: of it only the mark that it starts with and the name that it ends
/// in are stated.
#[verifier::external_body]
pub(crate) fn join_path(dir: &str, name: &str) -> (res: String)
    requires
        is_plain_name(name@),
    ensures
        is_place(dir@, name@, res@),
{
    std::path::Path::new(dir).join(name).to_string_lossy().into_owned()
}

/// The name of the file in which the settings are kept.
pub const SETTINGS_FILE: &'static str = "settings.json";

/// The file in which the settings are kept.
pub fn settings_path(data_dir: &str) -> (res: String)
    ensures
        is_place(data_dir@, "settings.json"@, res@),
{
    proof {
        reveal_strlit("settings.json");
        reveal_strlit(".");
        reveal_strlit("..");
    }
    join_path(data_dir, SETTINGS_FILE)
}

} // verus!
