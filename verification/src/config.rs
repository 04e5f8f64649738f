//! Resolution of the working directory used for the log file. The Azure
//! configuration (region, key, voice) travels through the voice token.

use vstd::prelude::*;

use crate::text::ends_with;

verus! {

/// Whether `name` is a single relative path component: not empty, neither
/// `.` nor `..`, with no separator or drive mark in it.
pub open spec fn plain_component(name: Seq<char>) -> bool {
    &&& name.len() > 0
    &&& name != seq!['.']
    &&& name != seq!['.', '.']
    &&& forall|i: int|
        0 <= i < name.len() ==> (#[trigger] name[i]) != '/' && name[i] != '\\' && name[i] != ':'
}

/// Whether `path` starts with the verbatim prefix `\\?\`, under which
/// joining also normalizes the rest of the path.
pub open spec fn is_verbatim(path: Seq<char>) -> bool {
    path.len() >= 4 && path.subrange(0, 4) == seq!['\\', '\\', '?', '\\']
}

/// `joined` is `base` extended by `name`: directly, or after one separator
/// (`\\` or `/`, whichever the platform uses).
pub open spec fn adjoined(base: Seq<char>, name: Seq<char>, joined: Seq<char>) -> bool {
    ||| joined == base + name
    ||| joined == base + seq!['\\'] + name
    ||| joined == base + seq!['/'] + name
}

/// `Path::join` of `base` and one plain component `name`, as a string. The
/// documentation of `PathBuf::push` says that a relative `name` extends
/// `base`; the contract states that the result is `base`, possibly one
/// separator, then `name`. Which separator, and whether one is inserted, is
/// the platform's and is not stated. Under a verbatim prefix the platform
/// also normalizes `base`, so only the ending is stated there.
#[verifier::external_body]
pub(crate) fn join_path(base: &str, name: &str) -> (r: String)
    requires
        plain_component(name@),
    ensures
        ends_with(r@, name@),
        !is_verbatim(base@) ==> adjoined(base@, name@, r@),
{
    std::path::Path::new(base).join(name).to_string_lossy().into_owned()
}

/// Whether a directory setting is present and not empty.
pub open spec fn given(setting: Option<String>) -> bool {
    setting matches Some(d) && d@.len() > 0
}

/// The folder the install directory goes under: the local application data
/// folder, or `.` when that is unknown.
pub open spec fn app_data_base(local_app_data: Option<String>) -> Seq<char> {
    match local_app_data {
        Some(l) => l@,
        None => seq!['.'],
    }
}

/// Name of the install directory under the local application data folder.
pub const APP_DIR_NAME: &'static str = "AzureSapi";

/// Directory for `engine.log` (and any future local state). Order: the value
/// from the voice token, then the `AZURE_SAPI_DIR` value, each only when not
/// empty; else `AzureSapi` under the local application data folder, or under
/// `.` when that is unknown.
pub fn assets_dir(from_token: Option<String>, env_dir: Option<String>, local_app_data: Option<String>) -> (r: String)
    ensures
        given(from_token) ==> r == from_token->0,
        !given(from_token) && given(env_dir) ==> r == env_dir->0,
        !given(from_token) && !given(env_dir) ==> ends_with(r@, "AzureSapi"@),
        !given(from_token) && !given(env_dir) && !is_verbatim(app_data_base(local_app_data))
            ==> adjoined(app_data_base(local_app_data), "AzureSapi"@, r@),
{
    if let Some(dir) = from_token {
        if !dir.as_str().is_empty() {
            return dir;
        }
    }
    if let Some(dir) = env_dir {
        if !dir.as_str().is_empty() {
            return dir;
        }
    }
    let local = match local_app_data {
        Some(l) => l,
        None => String::from_str("."),
    };
    proof {
        reveal_strlit("AzureSapi");
        reveal_strlit(".");
        assert("."@ =~= seq!['.']);
    }
    assert(local@ == app_data_base(local_app_data));
    join_path(local.as_str(), APP_DIR_NAME)
}

} // verus!
