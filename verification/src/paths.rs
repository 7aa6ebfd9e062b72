//! Derivation of output and state file paths from the input document's
//! path. The path arithmetic itself is the standard library's; this
//! module decides which of target, automatic derivation or default wins.

use vstd::prelude::*;

verus! {

/// What `Path::parent` returns for a path, as text.
pub uninterp spec fn parent_of(p: Seq<char>) -> Option<Seq<char>>;

/// What `Path::file_stem` returns for a path, as text.
pub uninterp spec fn file_stem_of(p: Seq<char>) -> Option<Seq<char>>;

/// What `Path::join` returns, as text.
pub uninterp spec fn join_of(p: Seq<char>, q: Seq<char>) -> Seq<char>;

/// What `Path::with_extension` returns, as text.
pub uninterp spec fn with_ext_of(p: Seq<char>, ext: Seq<char>) -> Seq<char>;

/// Relies on `std::path::Path::parent`: the path without its final
/// component, a pure function of the path's text.
#[verifier::external_body]
fn path_parent(p: &str) -> (r: Option<String>)
    ensures
        match r {
            Some(s) => parent_of(p@) == Some(s@),
            None => parent_of(p@) is None,
        },
{
    std::path::Path::new(p).parent().map(|q| q.to_string_lossy().into_owned())
}

/// Relies on `std::path::Path::file_stem`: the final component with its
/// last extension removed, a pure function of the path's text.
#[verifier::external_body]
fn path_file_stem(p: &str) -> (r: Option<String>)
    ensures
        match r {
            Some(s) => file_stem_of(p@) == Some(s@),
            None => file_stem_of(p@) is None,
        },
{
    std::path::Path::new(p).file_stem().map(|q| q.to_string_lossy().into_owned())
}

/// Relies on `std::path::Path::join`: the paths joined with a separator
/// as needed, a pure function of both texts.
#[verifier::external_body]
fn path_join(p: &str, q: &str) -> (r: String)
    ensures
        r@ == join_of(p@, q@),
{
    std::path::Path::new(p).join(q).to_string_lossy().into_owned()
}

/// Relies on `std::path::Path::with_extension`: the path with its
/// extension replaced, a pure function of both texts.
#[verifier::external_body]
fn path_with_extension(p: &str, ext: &str) -> (r: String)
    ensures
        r@ == with_ext_of(p@, ext@),
{
    std::path::Path::new(p).with_extension(ext).to_string_lossy().into_owned()
}

/// Which path a result is written to: an explicit target always wins; with
/// nothing explicit, automatic derivation (when asked for) strips the two
/// extensions of the original's file name and applies the new extension
/// beside it, falling back to the default name for unusable originals.
pub open spec fn make_path_spec(
    orig: Seq<char>,
    target: Option<Seq<char>>,
    auto: bool,
    ext: Seq<char>,
    def: Seq<char>,
) -> Option<Seq<char>> {
    if target is Some {
        target
    } else if !auto {
        None
    } else if orig.len() == 0 || orig == "-"@ {
        Some(def)
    } else {
        let parent = match parent_of(orig) {
            Some(p) => p,
            None => Seq::<char>::empty(),
        };
        match file_stem_of(orig) {
            Some(s1) => match file_stem_of(s1) {
                Some(s2) => Some(with_ext_of(join_of(parent, s2), ext)),
                None => Some(join_of(parent, def)),
            },
            None => Some(join_of(parent, def)),
        }
    }
}

/// Derives the path a result file goes to, as `make_path_spec` decides.
pub fn make_path(
    original: &str,
    target: &Option<String>,
    auto: bool,
    extension: &str,
    default_name: &str,
) -> (r: Option<String>)
    ensures
        crate::config::view_opt_str(r) == make_path_spec(
            original@,
            crate::config::view_opt_str(*target),
            auto,
            extension@,
            default_name@,
        ),
{
    if let Some(t) = target {
        return Some(t.clone());
    }
    if !auto {
        return None;
    }
    if original.unicode_len() == 0 || crate::text::str_eq(original, "-") {
        return Some(default_name.to_owned());
    }
    let parent = match path_parent(original) {
        Some(p) => p,
        None => String::new(),
    };
    match path_file_stem(original) {
        Some(s1) => match path_file_stem(s1.as_str()) {
            Some(s2) => Some(path_with_extension(path_join(parent.as_str(), s2.as_str()).as_str(), extension)),
            None => Some(path_join(parent.as_str(), default_name)),
        },
        None => Some(path_join(parent.as_str(), default_name)),
    }
}

/// The state file's path: the explicit one, or `<stem>.state.json` beside
/// the input when state saving is on.
pub fn make_state_path(file: &str, state_file: &Option<String>, save_state: bool) -> (r: Option<
    String,
>)
    ensures
        crate::config::view_opt_str(r) == make_path_spec(
            file@,
            crate::config::view_opt_str(*state_file),
            save_state,
            "state.json"@,
            "state.json"@,
        ),
{
    make_path(file, state_file, save_state, "state.json", "state.json")
}

/// The output document's path: the explicit one, or `<stem>.md` beside
/// the input when output is on.
pub fn make_output_path(file: &str, output_file: &Option<String>, output: bool) -> (r: Option<
    String,
>)
    ensures
        crate::config::view_opt_str(r) == make_path_spec(
            file@,
            crate::config::view_opt_str(*output_file),
            output,
            "md"@,
            "output.md"@,
        ),
{
    make_path(file, output_file, output, "md", "output.md")
}

} // verus!
