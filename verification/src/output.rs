//! The name of the file that a compiled script is written to.

use vstd::prelude::*;
use vstd::string::StringExecFns;

verus! {

/// The extension of a file of the robot-control program, with its dot.
pub const EXTENSION: &'static str = ".java";

/// What `std::path::Path::file_stem` gives for the path written `path`: the
/// file name, which is the path's last component, without its extension;
/// `None` where the path has no file name. The path is read in the syntax of
/// the platform that the library is built for.
pub uninterp spec fn path_file_stem(path: Seq<char>) -> Option<Seq<char>>;

/// What the path written `path` becomes under
/// `std::path::PathBuf::set_file_name` with the name `name`: the path with its
/// file name replaced by `name`, or with `name` added where it has none.
pub uninterp spec fn path_with_file_name(path: Seq<char>, name: Seq<char>) -> Seq<char>;

/// The name of the program's file for a script whose file has the stem
/// `stem`.
pub open spec fn java_name(stem: Seq<char>) -> Seq<char> {
    stem + EXTENSION@
}

/// The path that the program of the script at `input` is written to when
/// none is asked for: beside the script, under the script's stem and the
/// program's extension. A path without a file name stays as it is.
pub open spec fn default_output_path(input: Seq<char>) -> Seq<char> {
    match path_file_stem(input) {
        Some(stem) => path_with_file_name(input, java_name(stem)),
        None => input,
    }
}

/// Calls `std::path::Path::file_stem` on the path written `path`. Trusted:
/// the result is `path_file_stem` of the path's text, the stem being text
/// too, since it is a part of `path`.
#[verifier::external_body]
fn file_stem(path: &str) -> (stem: Option<String>)
    ensures
        match stem {
            Some(text) => path_file_stem(path@) == Some(text@),
            None => path_file_stem(path@) is None,
        },
{
    match std::path::Path::new(path).file_stem() {
        Some(stem) => Some(stem.to_string_lossy().into_owned()),
        None => None,
    }
}

/// Calls `std::path::PathBuf::set_file_name` on the path written `path` with
/// the name `name`. Trusted: the result is `path_with_file_name` of the two
/// texts, the new path being text too, since it is made of parts of both.
#[verifier::external_body]
fn with_file_name(path: &str, name: &str) -> (renamed: String)
    ensures
        renamed@ == path_with_file_name(path@, name@),
{
    let mut renamed = std::path::PathBuf::from(path);
    renamed.set_file_name(name);
    renamed.to_string_lossy().into_owned()
}

/// The name of the program's file for a script whose file has the stem
/// `stem`.
pub fn java_file_name(stem: &str) -> (name: String)
    ensures
        name@ == java_name(stem@),
{
    String::from_str(stem).concat(EXTENSION)
}

/// The path that the program of the script at `input` is written to when
/// none is asked for.
pub fn default_output(input: &str) -> (output: String)
    ensures
        output@ == default_output_path(input@),
{
    match file_stem(input) {
        Some(stem) => {
            let name = java_file_name(stem.as_str());
            with_file_name(input, name.as_str())
        },
        None => input.to_owned(),
    }
}

} // verus!
