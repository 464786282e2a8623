use vstd::prelude::*;

verus! {

/// The final component of a path, as `std::path::Path::file_name` gives it.
pub uninterp spec fn file_name_of(path: Seq<char>) -> Option<Seq<char>>;

/// The final component of a path, or the empty text where it has none.
pub open spec fn filename_or_empty(path: Seq<char>) -> Seq<char> {
    match file_name_of(path) {
        Some(f) => f,
        None => Seq::empty(),
    }
}

/// Relies on `std::path::Path::file_name`: the final component of the path,
/// if there is one; the result depends on the path alone.
#[verifier::external_body]
fn path_file_name(path: &str) -> (r: Option<String>)
    ensures
        match r {
            Some(f) => file_name_of(path@) == Some(f@),
            None => file_name_of(path@) is None,
        },
{
    match std::path::Path::new(path).file_name() {
        Some(f) => Some(f.to_string_lossy().into_owned()),
        None => None,
    }
}

/// From a full path, just the final component (the file name) as a `String`.
pub fn filename_from_path(path: &str) -> (r: Option<String>)
    ensures
        match r {
            Some(f) => file_name_of(path@) == Some(f@),
            None => file_name_of(path@) is None,
        },
{
    path_file_name(path)
}

/// The file name of a path, or an empty string where it has none.
pub fn filename_or_default(path: &str) -> (r: String)
    ensures
        r@ == filename_or_empty(path@),
{
    match path_file_name(path) {
        Some(f) => f,
        None => String::new(),
    }
}

} // verus!
