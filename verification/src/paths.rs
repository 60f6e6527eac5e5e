//! Paths of simulation folders and files, as UTF-8 text, and the few path
//! operations of `camino` that the library calls.
use vstd::prelude::*;
use camino::Utf8Path;

verus! {

/// What `Utf8Path::join` gives for `base` and `rel`.
pub uninterp spec fn joined_path(base: Seq<char>, rel: Seq<char>) -> Seq<char>;

/// What `Utf8Path::file_name` gives for `path`: its final component, if any.
pub uninterp spec fn final_component(path: Seq<char>) -> Option<Seq<char>>;

/// What `Utf8Path::extension` gives for `path`.
pub uninterp spec fn extension_of(path: Seq<char>) -> Option<Seq<char>>;

/// What `Utf8Path::with_extension` gives for `path` and `ext`.
pub uninterp spec fn with_extension_of(path: Seq<char>, ext: Seq<char>) -> Seq<char>;

/// What `Utf8Path::parent` gives for `path`.
pub uninterp spec fn parent_of(path: Seq<char>) -> Option<Seq<char>>;

/// A path that starts at the root.
pub open spec fn is_absolute(path: Seq<char>) -> bool {
    path.len() > 0 && path[0] == '/'
}

/// `Utf8Path::join`: `rel` adjoined to `base`. As camino documents, an
/// absolute `rel` replaces `base`; how a relative one is adjoined is
/// left to the name.
#[verifier::external_body]
pub(crate) fn path_join(base: &str, rel: &str) -> (r: String)
    ensures
        r@ == joined_path(base@, rel@),
        is_absolute(rel@) ==> r@ == rel@,
{
    Utf8Path::new(base).join(rel).into_string()
}

/// `Utf8Path::file_name`: the final component of `path`, if it has one.
/// Which component that is (after camino's normalisation) is left to the name.
#[verifier::external_body]
pub(crate) fn path_file_name(path: &str) -> (r: Option<String>)
    ensures
        r matches Some(s) ==> final_component(path@) == Some(s@),
        r is None ==> final_component(path@) is None,
{
    Utf8Path::new(path).file_name().map(String::from)
}

/// `Utf8Path::extension`: the extension of the final component of `path`.
#[verifier::external_body]
pub(crate) fn path_extension(path: &str) -> (r: Option<String>)
    ensures
        r matches Some(s) ==> extension_of(path@) == Some(s@),
        r is None ==> extension_of(path@) is None,
{
    Utf8Path::new(path).extension().map(String::from)
}

/// `Utf8Path::with_extension`: `path` with its extension replaced by `ext`.
/// The standard library panics on an extension that holds a path
/// separator (on Unix `/`), so such an extension is not admitted.
#[verifier::external_body]
pub(crate) fn path_with_extension(path: &str, ext: &str) -> (r: String)
    requires
        !ext@.contains('/'),
    ensures
        r@ == with_extension_of(path@, ext@),
{
    Utf8Path::new(path).with_extension(ext).into_string()
}

/// `Utf8Path::parent`: `path` without its final component, if it has one.
#[verifier::external_body]
pub(crate) fn path_parent(path: &str) -> (r: Option<String>)
    ensures
        r matches Some(s) ==> parent_of(path@) == Some(s@),
        r is None ==> parent_of(path@) is None,
{
    Utf8Path::new(path).parent().map(|p| p.as_str().to_string())
}

/// Whether `path` is absolute (on Unix: starts with a slash).
pub fn path_is_absolute(path: &str) -> (r: bool)
    ensures
        r == is_absolute(path@),
{
    let cs = crate::text::chars_of(path);
    cs.len() > 0 && cs[0] == '/'
}

} // verus!
