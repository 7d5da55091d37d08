use vstd::prelude::*;

verus! {

/// The final component of a path, as the standard library's
/// `Path::file_name` defines it for the platform the crate is built for;
/// `None` where the path has none.
pub uninterp spec fn file_name(path: Seq<char>) -> Option<Seq<char>>;

/// The path `base` with `part` joined to it, as the standard library's
/// `Path::join` defines it for the platform the crate is built for.
pub uninterp spec fn joined(base: Seq<char>, part: Seq<char>) -> Seq<char>;

/// Takes the final component of a path with `Path::file_name`. Trusted:
/// the result is taken to be `file_name` of the argument, which only names
/// what the standard library computes. The component of a path that is
/// valid text is valid text, so turning it into a `String` loses nothing.
#[verifier::external_body]
pub(crate) fn final_component(path: &str) -> (name: Option<String>)
    ensures
        name is Some == file_name(path@) is Some,
        name is Some ==> name->0@ == file_name(path@)->0,
{
    match std::path::Path::new(path).file_name() {
        Some(component) => Some(component.to_string_lossy().into_owned()),
        None => None,
    }
}

/// Joins `part` to `base` with `Path::join`. Trusted: the result is taken
/// to be `joined` of the arguments, which only names what the standard
/// library computes. Both arguments are valid text, and so is the joined
/// path, so turning it into a `String` loses nothing.
#[verifier::external_body]
pub(crate) fn join(base: &str, part: &str) -> (path: String)
    ensures
        path@ == joined(base@, part@),
{
    std::path::Path::new(base).join(part).to_string_lossy().into_owned()
}

} // verus!
