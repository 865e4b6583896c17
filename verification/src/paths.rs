//! The rule the blob store serves files under: a locator must stay inside
//! the sandboxed data directory. Only a relative path without
//! parent-directory components is accepted.

use vstd::prelude::*;
use vstd::string::StrSliceExecFns;

verus! {

/// A path separator, on either convention.
pub open spec fn spec_is_sep(c: char) -> bool {
    c == '/' || c == '\\'
}

/// A `..` component stands at position `i`: two dots alone between
/// separators or ends.
pub open spec fn parent_component_at(s: Seq<char>, i: int) -> bool {
    &&& i + 2 <= s.len()
    &&& s[i] == '.'
    &&& s[i + 1] == '.'
    &&& (i == 0 || spec_is_sep(s[i - 1]))
    &&& (i + 2 == s.len() || spec_is_sep(s[i + 2]))
}

/// The path climbs towards a parent directory somewhere.
pub open spec fn has_parent_component(s: Seq<char>) -> bool {
    exists|i: int| 0 <= i && #[trigger] parent_component_at(s, i)
}

/// A locator the blob store may serve: non-empty, relative (no leading
/// separator, no drive mark) and never climbing out of the sandbox.
pub open spec fn spec_path_sandboxed(s: Seq<char>) -> bool {
    &&& s.len() > 0
    &&& !spec_is_sep(s[0])
    &&& (forall|i: int| 0 <= i < s.len() ==> s[i] != ':')
    &&& !has_parent_component(s)
}

/// Decides whether a locator stays inside the sandbox.
pub fn path_is_sandboxed(s: &str) -> (r: bool)
    ensures
        r == spec_path_sandboxed(s@),
{
    let len = s.unicode_len();
    if len == 0 {
        return false;
    }
    let first = s.get_char(0);
    if first == '/' || first == '\\' {
        return false;
    }
    let mut j: usize = 0;
    while j < len
        invariant
            0 <= j <= len,
            len == s@.len(),
            forall|k: int| 0 <= k < j ==> s@[k] != ':',
            forall|k: int| 0 <= k < j ==> !parent_component_at(s@, k),
        decreases len - j,
    {
        let c = s.get_char(j);
        if c == ':' {
            return false;
        }
        if j < len - 1 {
            let d1 = s.get_char(j + 1);
            if c == '.' && d1 == '.' {
                let before_ok = if j == 0 {
                    true
                } else {
                    let b = s.get_char(j - 1);
                    b == '/' || b == '\\'
                };
                let after_ok = if j + 2 == len {
                    true
                } else {
                    let a = s.get_char(j + 2);
                    a == '/' || a == '\\'
                };
                if before_ok && after_ok {
                    proof {
                        assert(parent_component_at(s@, j as int));
                    }
                    return false;
                }
            }
        }
        proof {
            assert(!parent_component_at(s@, j as int));
        }
        j = j + 1;
    }
    proof {
        assert forall|k: int| 0 <= k implies !parent_component_at(s@, k) by {
            if k < s@.len() {
                assert(!parent_component_at(s@, k));
            }
        }
    }
    true
}

} // verus!
