//! Joining a file name onto a directory, as `std::path` does it.
use vstd::prelude::*;

verus! {

/// A name that `Path::join` appends as it is: not empty, and holding no
/// separator or drive colon that would make it replace the directory.
pub open spec fn plain_name(name: Seq<char>) -> bool {
    name.len() > 0 && forall|k: int|
        0 <= k < name.len() ==> #[trigger] name[k] != '/' && name[k] != '\\' && name[k] != ':'
}

/// A directory that `Path::join` keeps as it is: not a Windows verbatim
/// path (`\\?\`), whose components a join would normalise.
pub open spec fn kept_dir(dir: Seq<char>) -> bool {
    !(dir.len() >= 4 && dir.take(4) == seq!['\\', '\\', '?', '\\'])
}

/// `joined` is `dir` with `name` after it. An empty `dir`, or one that
/// ends in `/`, takes the name directly. A `dir` that ends in any other
/// character than `\` or `:` takes one separator of the platform, `/` or
/// `\`, before the name. After a final `\` or `:` the platform decides
/// whether a separator goes between: `\` is one on Windows only, and `:`
/// ends a drive there.
pub open spec fn is_join(dir: Seq<char>, name: Seq<char>, joined: Seq<char>) -> bool {
    if dir.len() == 0 || dir.last() == '/' {
        joined == dir + name
    } else if dir.last() == '\\' || dir.last() == ':' {
        ||| joined == dir + name
        ||| joined == dir.push('/') + name
        ||| joined == dir.push('\\') + name
    } else {
        ||| joined == dir.push('/') + name
        ||| joined == dir.push('\\') + name
    }
}

/// `std::path::Path::join`, its result taken back as text: the name is put
/// after the directory, with a separator between where the directory does
/// not already end in one (see [`is_join`]). Which of the platform's
/// separators it is, `/` or `\`, the contract leaves open; of a verbatim
/// directory, which the join normalises, it says nothing.
#[verifier::external_body]
pub(crate) fn join_path(dir: &str, name: &str) -> (r: String)
    requires
        plain_name(name@),
    ensures
        kept_dir(dir@) ==> is_join(dir@, name@, r@),
{
    std::path::Path::new(dir).join(name).to_string_lossy().into_owned()
}

/// `r` is `dir` with `a` and then `b` joined on, through the middle path
/// `mid`.
pub open spec fn joined_twice(dir: Seq<char>, a: Seq<char>, b: Seq<char>, mid: Seq<char>, r: Seq<char>) -> bool {
    &&& kept_dir(dir) ==> is_join(dir, a, mid)
    &&& kept_dir(mid) ==> is_join(mid, b, r)
}

} // verus!
