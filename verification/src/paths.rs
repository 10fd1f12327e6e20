use vstd::prelude::*;

verus! {

/// What `std::path::Path::extension` returns for the path written as `path`, by the path
/// rules of the target the crate is built for.
pub uninterp spec fn path_extension(path: Seq<char>) -> Option<Seq<char>>;

/// What `std::path::Path::strip_prefix` returns for `path` and `base`, as text, by the path
/// rules of the target the crate is built for.
pub uninterp spec fn path_strip_prefix(path: Seq<char>, base: Seq<char>) -> Option<Seq<char>>;

/// The text of `std::path::Path::join` of `base` and `tail`, by the path rules of the target
/// the crate is built for.
pub uninterp spec fn path_join(base: Seq<char>, tail: Seq<char>) -> Seq<char>;

/// The text of the path after `std::path::PathBuf::set_extension(ext)`, by the path rules of
/// the target the crate is built for.
pub uninterp spec fn path_with_extension(path: Seq<char>, ext: Seq<char>) -> Seq<char>;

/// The extension of the final component of `path`, as `std::path::Path::extension` finds it
/// (the part after the last `.` of the file name, unless the name starts with its only `.`).
/// The contract names the result without restating the path grammar of `std`.
#[verifier::external_body]
pub(crate) fn extension_of(path: &str) -> (r: Option<String>)
    ensures
        match r {
            Some(e) => path_extension(path@) == Some(e@),
            None => path_extension(path@) is None,
        },
{
    std::path::Path::new(path).extension().and_then(|e| e.to_str()).map(|e| e.to_owned())
}

/// `path` with the leading components `base` removed, as `std::path::Path::strip_prefix`
/// computes it component by component; `None` when `base` is not a prefix of `path`.
#[verifier::external_body]
pub(crate) fn strip_path_prefix(path: &str, base: &str) -> (r: Option<String>)
    ensures
        match r {
            Some(s) => path_strip_prefix(path@, base@) == Some(s@),
            None => path_strip_prefix(path@, base@) is None,
        },
{
    std::path::Path::new(path).strip_prefix(base).ok().map(|p| p.to_string_lossy().into_owned())
}

/// `base` joined with `tail` by `std::path::Path::join`.
#[verifier::external_body]
pub(crate) fn join_path(base: &str, tail: &str) -> (r: String)
    ensures
        r@ == path_join(base@, tail@),
{
    std::path::Path::new(base).join(tail).to_string_lossy().into_owned()
}

/// `path` after `std::path::PathBuf::set_extension(ext)`.  That call panics when `ext`
/// holds a path separator, so `ext` may hold neither `/` nor `\`.
#[verifier::external_body]
pub(crate) fn set_path_extension(path: &str, ext: &str) -> (r: String)
    requires
        !ext@.contains('/'),
        !ext@.contains('\\'),
    ensures
        r@ == path_with_extension(path@, ext@),
{
    let mut p = std::path::PathBuf::from(path);
    p.set_extension(ext);
    p.to_string_lossy().into_owned()
}

} // verus!

verus! {

/// What `std::path::Path::parent` returns for `path`, as text, by the path rules of the
/// target the crate is built for.
pub uninterp spec fn path_parent(path: Seq<char>) -> Option<Seq<char>>;

/// The path without its final component (`std::path::Path::parent`); `None` for a root or
/// an empty path.
#[verifier::external_body]
pub(crate) fn parent_of(path: &str) -> (r: Option<String>)
    ensures
        match r {
            Some(p) => path_parent(path@) == Some(p@),
            None => path_parent(path@) is None,
        },
{
    std::path::Path::new(path).parent().map(|p| p.to_string_lossy().into_owned())
}

} // verus!

verus! {

/// What `std::path::Path::starts_with` returns for `path` and `base`, by the path rules of
/// the target the crate is built for.
pub uninterp spec fn path_has_prefix(path: Seq<char>, base: Seq<char>) -> bool;

/// Whether the leading components of `path` are those of `base`
/// (`std::path::Path::starts_with`, which compares whole components).
#[verifier::external_body]
pub(crate) fn path_starts_with(path: &str, base: &str) -> (r: bool)
    ensures
        r == path_has_prefix(path@, base@),
{
    std::path::Path::new(path).starts_with(base)
}

} // verus!

verus! {

/// What `==` on `std::path::Path` returns for `a` and `b`, by the path rules of the target
/// the crate is built for.
pub uninterp spec fn path_same(a: Seq<char>, b: Seq<char>) -> bool;

/// Whether `a` and `b` are the same path (`==` on `std::path::Path`, which compares
/// components).
#[verifier::external_body]
pub(crate) fn paths_equal(a: &str, b: &str) -> (r: bool)
    ensures
        r == path_same(a@, b@),
{
    std::path::Path::new(a) == std::path::Path::new(b)
}

} // verus!

verus! {

/// The extensions that builds write, `js` and `css`, hold no path separator.
pub proof fn lemma_plain_extensions()
    ensures
        !"js"@.contains('/') && !"js"@.contains('\\'),
        !"css"@.contains('/') && !"css"@.contains('\\'),
{
    reveal_strlit("js");
    reveal_strlit("css");
    assert(!"js"@.contains('/') && !"js"@.contains('\\')) by {
        assert("js"@ =~= seq!['j', 's']);
    }
    assert(!"css"@.contains('/') && !"css"@.contains('\\')) by {
        assert("css"@ =~= seq!['c', 's', 's']);
    }
}

} // verus!

verus! {

/// The key under which `std::path::PathBuf` compares the path written as `path`: the text
/// of the path rebuilt from its components (`Path::components` collected into a
/// `PathBuf`), by the path rules of the target the crate is built for.  Paths are equal as
/// `PathBuf`s exactly when their components are, so `a//b`, `a/./b` and `a/b/` all have
/// the key `a/b`.
pub uninterp spec fn path_key(path: Seq<char>) -> Seq<char>;

/// The text of `path` rebuilt from its components: `std::path::Path::components` collected
/// into a `PathBuf`.  The contract names the result without restating the component rules
/// of `std`.
#[verifier::external_body]
pub(crate) fn path_key_of(path: &str) -> (r: String)
    ensures
        r@ == path_key(path@),
{
    std::path::Path::new(path).components().collect::<std::path::PathBuf>().to_string_lossy().into_owned()
}

} // verus!
