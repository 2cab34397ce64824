//! How the standard library's `std::path` joins a relative component onto
//! a path on systems other than Windows, where only `/` separates.
use vstd::prelude::*;

verus! {

/// `base` joined with the relative component `name` (one without `/`): a
/// `/` goes between them unless `base` is empty or ends in `/`.
pub open spec fn unix_join(base: Seq<char>, name: Seq<char>) -> Seq<char> {
    if base.len() > 0 && base.last() != '/' {
        base + seq!['/'] + name
    } else {
        base + name
    }
}

/// `base` joined with the relative component `name`, as
/// `std::path::Path::join` gives it on systems other than Windows.
pub fn path_join_unix(base: &str, name: &str) -> (r: String)
    requires
        forall|i: int| 0 <= i < name@.len() ==> #[trigger] name@[i] != '/',
    ensures
        r@ == unix_join(base@, name@),
{
    let n = base.unicode_len();
    let need_sep = n > 0 && base.get_char(n - 1) != '/';
    let mut r = base.to_owned();
    if need_sep {
        r.append("/");
        proof {
            reveal_strlit("/");
        }
    }
    r.append(name);
    r
}

} // verus!
