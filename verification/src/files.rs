//! File paths, and where the user's home directory is.

use std::path::PathBuf;

use vstd::prelude::*;

verus! {

/// `std::path::PathBuf`, a sequence of components.
#[verifier::external_type_specification]
#[verifier::external_body]
pub struct ExPathBuf(PathBuf);

/// The components that a path holds, as `Path::components` lists them, each
/// in its encoded bytes.
pub uninterp spec fn path_components(path: PathBuf) -> Seq<Seq<u8>>;

/// `PathBuf::clone` gives the same path.
pub assume_specification[ <PathBuf as Clone>::clone ](p: &PathBuf) -> (copy: PathBuf)
    ensures
        copy == *p,
;

/// A name that is one component of a path wherever it is put: not empty, not
/// a dot entry, and free of the characters that separate components or name a
/// drive.
pub open spec fn plain_component(name: Seq<char>) -> bool {
    &&& name.len() > 0
    &&& name != seq!['.']
    &&& name != seq!['.', '.']
    &&& forall|i: int|
        0 <= i < name.len() ==> #[trigger] name[i] != '/' && name[i] != '\\' && name[i] != ':'
}

/// Calls `Path::join` with a name that is a single component: the components
/// of the result are those of `base`, followed by that name.
#[verifier::external_body]
pub(crate) fn join_component(base: &PathBuf, name: &str) -> (joined: PathBuf)
    requires
        plain_component(name@),
    ensures
        path_components(joined) == path_components(*base).push(vstd::utf8::encode_utf8(name@)),
{
    base.join(name)
}

/// Calls `dirs::home_dir`: the home directory of the user, if there is one.
/// What it answers comes from the environment and the user database, so
/// nothing is claimed of it.
#[verifier::external_body]
pub(crate) fn home_dir() -> (home: Option<PathBuf>) {
    dirs::home_dir()
}

/// Whether `home` is an answer that `home_dir`, which asks the system, may give.
pub closed spec fn home_answers(home: Option<PathBuf>) -> bool {
    call_ensures(home_dir, (), home)
}

/// The answers meant are those of `home_dir`, and of nothing else.
pub(crate) proof fn law_home_answers(home: Option<PathBuf>)
    ensures
        home_answers(home) == call_ensures(home_dir, (), home),
{
}

/// Calls `lookup`, and hands on what it answers.
pub(crate) fn ask<F: Fn() -> Option<PathBuf>>(lookup: F) -> (answer: Option<PathBuf>)
    requires
        call_requires(lookup, ()),
    ensures
        call_ensures(lookup, (), answer),
{
    lookup()
}

} // verus!
