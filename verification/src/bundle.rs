//! Whether the running executable sits inside a macOS application bundle
//! (`Something.app/Contents/MacOS/<executable>`).

use vstd::prelude::*;

use crate::composer::{path_extension, path_extension_of};
use crate::text;

verus! {

broadcast use vstd::string::group_string_axioms;

/// The parent of a path, as `std::path::Path::parent` reads it.
pub uninterp spec fn path_parent(path: Seq<char>) -> Option<Seq<char>>;

/// The final component of a path, as `std::path::Path::file_name` reads it.
pub uninterp spec fn path_file_name(path: Seq<char>) -> Option<Seq<char>>;

/// `Path::parent` of a path given as text.
#[verifier::external_body]
fn parent_of(path: &str) -> (r: Option<&str>)
    ensures
        text::str_opt(r) == path_parent(path@),
{
    std::path::Path::new(path).parent().and_then(|p| p.to_str())
}

/// `Path::file_name` of a path given as text.
#[verifier::external_body]
fn file_name_of(path: &str) -> (r: Option<&str>)
    ensures
        text::str_opt(r) == path_file_name(path@),
{
    std::path::Path::new(path).file_name().and_then(|n| n.to_str())
}

/// The executable's directory is named `MacOS` and the directory two
/// levels above it has the extension `app`.
pub open spec fn in_app_bundle(path: Seq<char>) -> bool {
    match path_parent(path) {
        None => false,
        Some(macos) => path_file_name(macos) == Some("MacOS"@) && match path_parent(macos) {
            None => false,
            Some(contents) => match path_parent(contents) {
                None => false,
                Some(app) => path_extension(app) == Some("app"@),
            },
        },
    }
}

/// Is the executable at `executable` inside an application bundle?
pub fn is_app_bundle_executable(executable: &str) -> (r: bool)
    ensures
        r == in_app_bundle(executable@),
{
    let macos = match parent_of(executable) {
        Some(m) => m,
        None => return false,
    };
    let named = match file_name_of(macos) {
        Some(n) => text::str_eq(n, "MacOS"),
        None => false,
    };
    if !named {
        return false;
    }
    let contents = match parent_of(macos) {
        Some(c) => c,
        None => return false,
    };
    let app = match parent_of(contents) {
        Some(a) => a,
        None => return false,
    };
    match path_extension_of(app) {
        Some(e) => text::str_eq(e, "app"),
        None => false,
    }
}

} // verus!
