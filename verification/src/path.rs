//! Paths of module ids, taken apart and put together by the `nodejs_path`
//! crate in its POSIX form. What that crate computes is named here and not
//! proved; the functions of this library say what they do with it.

use vstd::prelude::*;

verus! {

/// The longest path that is handed to `nodejs_path`, which counts in `i32`.
pub const MAX_PATH_LEN: usize = 0x7fff_fff0;

/// What `nodejs_path::posix::dirname` returns for a path.
pub uninterp spec fn dirname_of(path: Seq<char>) -> Seq<char>;

/// What `nodejs_path::posix::extname` returns for a path.
pub uninterp spec fn extname_of(path: Seq<char>) -> Seq<char>;

/// What `nodejs_path::posix::basename_impl` returns for a path.
pub uninterp spec fn basename_of(path: Seq<char>) -> Seq<char>;

/// The field `name` of what `nodejs_path::posix::parse` returns for a path.
pub uninterp spec fn file_stem_of(path: Seq<char>) -> Seq<char>;

/// What `nodejs_path::posix::join_impl` returns for two segments.
pub uninterp spec fn join_of(base: Seq<char>, path: Seq<char>) -> Seq<char>;

/// What `nodejs_path::posix::resolve_impl` returns for two segments of which one is absolute.
pub uninterp spec fn resolve_of(base: Seq<char>, path: Seq<char>) -> Seq<char>;

/// What `nodejs_path::posix::relative` returns for two absolute paths.
pub uninterp spec fn relative_of(from: Seq<char>, to: Seq<char>) -> Seq<char>;

/// A path is absolute where it starts with a slash.
pub open spec fn is_absolute_path(path: Seq<char>) -> bool {
    path.len() > 0 && path[0] == '/'
}

/// `nodejs_path::posix::is_absolute`: whether the first byte of the path is a
/// slash, which in UTF-8 is so exactly where the first character is one.
#[verifier::external_body]
pub(crate) fn is_absolute(path: &str) -> (r: bool)
    ensures
        r == is_absolute_path(path@),
{
    nodejs_path::posix::is_absolute(path)
}

/// `nodejs_path::posix::dirname`: the result is a function of the path alone.
#[verifier::external_body]
pub(crate) fn dirname(path: &str) -> (r: String)
    requires
        path@.len() <= MAX_PATH_LEN,
    ensures
        r@ == dirname_of(path@),
{
    nodejs_path::posix::dirname(path)
}

/// `nodejs_path::posix::extname`: the result is a function of the path alone.
#[verifier::external_body]
pub(crate) fn extname(path: &str) -> (r: String)
    requires
        path@.len() <= MAX_PATH_LEN,
    ensures
        r@ == extname_of(path@),
{
    nodejs_path::posix::extname(path)
}

/// `nodejs_path::posix::basename_impl`: the result is a function of the path alone.
#[verifier::external_body]
pub(crate) fn basename(path: &str) -> (r: String)
    requires
        path@.len() <= MAX_PATH_LEN,
    ensures
        r@ == basename_of(path@),
{
    nodejs_path::posix::basename_impl(path)
}

/// `nodejs_path::posix::parse`, of which the field `name` is kept: it is a
/// function of the path alone.
#[verifier::external_body]
pub(crate) fn file_stem(path: &str) -> (r: String)
    requires
        path@.len() <= MAX_PATH_LEN,
    ensures
        r@ == file_stem_of(path@),
{
    nodejs_path::posix::parse(path).name
}

/// `nodejs_path::posix::join_impl` on two segments: the result is a function of the two.
#[verifier::external_body]
pub(crate) fn join_paths(base: &str, path: &str) -> (r: String)
    requires
        base@.len() + path@.len() <= MAX_PATH_LEN,
    ensures
        r@ == join_of(base@, path@),
{
    nodejs_path::posix::join_impl(&[base, path])
}

/// `nodejs_path::posix::resolve_impl` on two segments of which one is
/// absolute: the result is then a function of the two. Where none is, the
/// crate puts the working directory of the process in front, of which
/// neither the text nor the length is known here: such a call is left out.
#[verifier::external_body]
pub(crate) fn resolve_paths(base: &str, path: &str) -> (r: String)
    requires
        base@.len() + path@.len() <= MAX_PATH_LEN,
        is_absolute_path(base@) || is_absolute_path(path@),
    ensures
        r@ == resolve_of(base@, path@),
{
    nodejs_path::posix::resolve_impl(&[base, path])
}

/// `nodejs_path::posix::relative` on two absolute paths: the result is then
/// a function of the two. For any other path the crate puts the working
/// directory of the process in front: such a call is left out.
#[verifier::external_body]
pub(crate) fn relative_path(from: &str, to: &str) -> (r: String)
    requires
        from@.len() <= MAX_PATH_LEN,
        to@.len() <= MAX_PATH_LEN,
        is_absolute_path(from@),
        is_absolute_path(to@),
    ensures
        r@ == relative_of(from@, to@),
{
    nodejs_path::posix::relative(from, to)
}

} // verus!
