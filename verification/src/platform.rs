//! What the library asks of the platform: the clock, and the path rules of
//! the operating system it runs on. Nothing here is proved; each item
//! states what holds of every answer, which is often nothing.

use vstd::prelude::*;

verus! {

/// Milliseconds since the Unix epoch (`SystemTime::now`, 0 before the
/// epoch). The clock is read, so no clause can say which number comes back.
#[verifier::external_body]
pub(crate) fn now_ms() -> i64 {
    std::time::SystemTime::now().duration_since(std::time::UNIX_EPOCH).unwrap_or_default().as_millis() as i64
}

/// Whole seconds since the Unix epoch (`SystemTime::now`, 0 before the
/// epoch); the clock is read, so nothing is stated of the number.
#[verifier::external_body]
pub(crate) fn now_secs() -> u64 {
    std::time::SystemTime::now().duration_since(std::time::UNIX_EPOCH).unwrap_or_default().as_secs()
}

/// What `Path::starts_with` answers for two paths given as text: whether
/// the components of `root` begin those of `path`. The components are split
/// by the rules of the platform the crate is built for, which is why the
/// answer is named and not written out.
pub uninterp spec fn path_prefix(path: Seq<char>, root: Seq<char>) -> bool;

/// `Path::starts_with`: whether `root` is a prefix of `path`, comparing
/// whole components. The answer is the named `path_prefix` of the two texts.
#[verifier::external_body]
pub(crate) fn path_starts_with(path: &str, root: &str) -> (r: bool)
    ensures
        r == path_prefix(path@, root@),
{
    std::path::Path::new(path).starts_with(std::path::Path::new(root))
}

/// `Path::canonicalize`: the absolute form of `path` with every link
/// resolved, as text, or `None` where the file system refuses. It asks the
/// file system, so nothing is stated of the answer.
#[verifier::external_body]
pub(crate) fn canonical_path(path: &str) -> Option<String> {
    std::path::Path::new(path).canonicalize().ok().map(|resolved| resolved.to_string_lossy().into_owned())
}

/// What `Path::file_name` answers for a path given as text: its last
/// component, or `None` when the path ends in `..` or has no component.
/// Components are split by the rules of the platform the crate is built
/// for, which is why the answer is named and not written out.
pub uninterp spec fn path_file_name(path: Seq<char>) -> Option<Seq<char>>;

/// `Path::file_name`, as text (a name taken from a `&str` is valid UTF-8,
/// so `to_str` always succeeds). The answer is the named `path_file_name`.
#[verifier::external_body]
pub(crate) fn file_name_of(path: &str) -> (r: Option<String>)
    ensures
        match r {
            Some(name) => path_file_name(path@) == Some(name@),
            None => path_file_name(path@) is None,
        },
{
    std::path::Path::new(path).file_name().and_then(|name| name.to_str()).map(|name| name.to_string())
}

/// `Path::exists`: whether something exists at `path`. It asks the file
/// system, so nothing is stated of the answer.
#[verifier::external_body]
pub(crate) fn path_exists(path: &str) -> bool {
    std::path::Path::new(path).exists()
}

/// `Path::is_dir`: whether `path` names a directory. It asks the file
/// system, so nothing is stated of the answer.
#[verifier::external_body]
pub(crate) fn path_is_dir(path: &str) -> bool {
    std::path::Path::new(path).is_dir()
}

/// What `Path::join` gives for two paths given as text: `child` appended
/// to `base` with the platform's separator, or `child` alone when it is
/// absolute. The separator and what counts as absolute are those of the
/// platform the crate is built for, which is why the result is named.
pub uninterp spec fn path_join(base: Seq<char>, child: Seq<char>) -> Seq<char>;

/// `Path::join`, as text (joining two `&str` paths gives valid UTF-8, so
/// `to_string_lossy` changes nothing). The result is the named `path_join`.
#[verifier::external_body]
pub(crate) fn join_path(base: &str, child: &str) -> (r: String)
    ensures
        r@ == path_join(base@, child@),
{
    std::path::Path::new(base).join(child).to_string_lossy().into_owned()
}

} // verus!
