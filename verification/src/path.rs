//! Paths as text, with `/` between their segments.

use vstd::prelude::*;
use vstd::string::*;
use crate::text::chars_of;

verus! {

/// Whether position `i` of `path` holds its last `/`.
pub open spec fn is_last_slash(path: Seq<char>, i: int) -> bool {
    &&& 0 <= i < path.len()
    &&& path[i] == '/'
    &&& forall|j: int| i < j < path.len() ==> path[j] != '/'
}

/// The directory that holds `path`: the text before its last `/`, the root
/// for a path directly under the root, and the empty path for a bare name.
pub open spec fn directory_of(path: Seq<char>) -> Seq<char> {
    if exists|i: int| is_last_slash(path, i) {
        let i = choose|i: int| is_last_slash(path, i);
        if i == 0 {
            path.subrange(0, 1)
        } else {
            path.subrange(0, i)
        }
    } else {
        Seq::empty()
    }
}

/// `request` as seen from `dir`: `request` itself where it starts at the
/// root, else `dir` and `request` with exactly one `/` between them (none
/// after an empty `dir`).
pub open spec fn path_join(dir: Seq<char>, request: Seq<char>) -> Seq<char> {
    if request.len() > 0 && request[0] == '/' {
        request
    } else if dir.len() == 0 || dir.last() == '/' {
        dir + request
    } else {
        dir + "/"@ + request
    }
}

/// The directory that holds `path`.
pub fn parent_directory(path: &str) -> (dir: String)
    ensures
        dir@ == directory_of(path@),
{
    let cs = chars_of(path);
    let n = cs.len();
    let mut j: usize = n;
    while j > 0
        invariant
            j <= n,
            n == cs.len(),
            cs@ == path@,
            forall|k: int| j <= k < n ==> cs@[k] != '/',
        decreases j,
    {
        j -= 1;
        if cs[j] == '/' {
            assert(is_last_slash(path@, j as int));
            assert forall|i: int| is_last_slash(path@, i) implies i == j by {
                if i < j {
                    assert(path@[j as int] == '/');
                } else if i > j {
                    assert(cs@[i] != '/');
                }
            }
            if j == 0 {
                return String::from_str(path.substring_char(0, 1));
            } else {
                return String::from_str(path.substring_char(0, j));
            }
        }
    }
    assert forall|i: int| !is_last_slash(path@, i) by {
        if is_last_slash(path@, i) {
            assert(cs@[i] != '/');
        }
    }
    String::new()
}

/// `request` as seen from `dir`.
pub fn join_path(dir: &str, request: &str) -> (joined: String)
    ensures
        joined@ == path_join(dir@, request@),
{
    let rs = chars_of(request);
    if rs.len() > 0 && rs[0] == '/' {
        return String::from_str(request);
    }
    let ds = chars_of(dir);
    let mut joined = String::from_str(dir);
    if ds.len() > 0 && ds[ds.len() - 1] != '/' {
        proof {
            reveal_strlit("/");
        }
        joined.append("/");
    }
    joined.append(request);
    joined
}

} // verus!
