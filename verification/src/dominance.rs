//! The dominance relation on paths, and the tracker that records classified
//! artifact roots so traversal can prune everything beneath them.

use vstd::prelude::*;
use vstd::seq_lib::*;
use crate::text::path_views;
use crate::text::str_eq;
use crate::text::str_starts_with;

verus! {

/// Path `p` lies strictly below root `r`: `r`, then a separator, then more.
pub open spec fn strictly_descends(p: Seq<char>, r: Seq<char>) -> bool {
    &&& p.len() > r.len()
    &&& r.is_prefix_of(p)
    &&& p[r.len() as int] == '/'
}

/// Path `p` descends from root `r`: it is `r` itself or lies strictly below.
pub open spec fn descends(p: Seq<char>, r: Seq<char>) -> bool {
    p == r || strictly_descends(p, r)
}

/// Path `p` descends from some root in `roots`.
pub open spec fn dominated(p: Seq<char>, roots: Seq<Seq<char>>) -> bool {
    exists|i: int| 0 <= i < roots.len() && descends(p, roots[i])
}

/// Decides `descends(p@, r@)`.
pub fn path_descends(p: &str, r: &str) -> (b: bool)
    ensures
        b == descends(p@, r@),
{
    if str_eq(p, r) {
        true
    } else if str_starts_with(p, r) {
        let rl = r.unicode_len();
        let pl = p.unicode_len();
        if rl < pl {
            p.get_char(rl) == '/'
        } else {
            assert(p@ =~= r@);
            false
        }
    } else {
        false
    }
}

/// The set of paths recorded as classified artifact roots during one scan.
pub struct DominanceTracker {
    pub roots: Vec<String>,
}

impl DominanceTracker {
    pub fn new() -> (t: DominanceTracker)
        ensures
            t.roots@.len() == 0,
    {
        DominanceTracker { roots: Vec::new() }
    }

    /// Records `root` as a classified artifact root.
    pub fn record(&mut self, root: String)
        ensures
            final(self).roots@ == old(self).roots@.push(root),
    {
        self.roots.push(root);
    }

    /// Forgets all recorded roots (start of a new scan).
    pub fn clear(&mut self)
        ensures
            final(self).roots@.len() == 0,
    {
        self.roots = Vec::new();
    }

    /// Decides whether `p` descends from any recorded root.
    pub fn is_dominated(&self, p: &str) -> (b: bool)
        ensures
            b == dominated(p@, path_views(self.roots@)),
    {
        let n = self.roots.len();
        let mut i: usize = 0;
        while i < n
            invariant
                0 <= i <= n,
                n == self.roots@.len(),
                forall|j: int| 0 <= j < i ==> !descends(p@, path_views(self.roots@)[j]),
            decreases n - i,
        {
            if path_descends(p, self.roots[i].as_str()) {
                assert(descends(p@, path_views(self.roots@)[i as int]));
                return true;
            }
            assert(!descends(p@, path_views(self.roots@)[i as int]));
            i += 1;
        }
        false
    }
}

} // verus!
