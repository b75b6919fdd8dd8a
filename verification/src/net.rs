//! Where a document comes from.

use vstd::prelude::*;
use vstd::string::StrSliceExecFns;

verus! {

/// Whether `path` begins with `http`.
pub open spec fn remote(path: Seq<char>) -> bool {
    path.len() >= 4 && path.subrange(0, 4) == "http"@
}

/// Whether `path` names a document to fetch over the network: one that
/// begins with `http`.  Any other path names a file.
pub fn is_remote(path: &str) -> (yes: bool)
    ensures
        yes == remote(path@),
{
    proof {
        reveal_strlit("http");
    }
    if path.unicode_len() < 4 {
        false
    } else {
        let yes = path.get_char(0) == 'h' && path.get_char(1) == 't' && path.get_char(2) == 't'
            && path.get_char(3) == 'p';
        proof {
            let head = path@.subrange(0, 4);
            assert(head[0] == path@[0] && head[1] == path@[1] && head[2] == path@[2] && head[3]
                == path@[3]);
            if yes {
                assert(head =~= "http"@);
            }
        }
        yes
    }
}

} // verus!
