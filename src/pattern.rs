use vstd::prelude::*;
use vstd::string::StringExecFns;

use crate::order::chars_of;

verus! {

/// The wildcard marker of a pattern.
pub const MARKER: char = '*';

/// Whether `p` holds the marker at all.
pub open spec fn has_marker(p: Seq<char>) -> bool {
    exists|i: int| 0 <= i < p.len() && p[i] == MARKER
}

/// Whether `i` is the position of the first marker in `p`.
pub open spec fn first_marker(p: Seq<char>, i: int) -> bool {
    &&& 0 <= i < p.len()
    &&& p[i] == MARKER
    &&& forall|j: int| 0 <= j < i ==> p[j] != MARKER
}

/// The position of the first marker in `p`; meaningful where `has_marker(p)`.
pub open spec fn marker_index(p: Seq<char>) -> int {
    choose|i: int| first_marker(p, i)
}

/// The listing prefix of a pattern: everything before the first marker.
pub open spec fn pattern_prefix(p: Seq<char>) -> Seq<char> {
    p.subrange(0, marker_index(p))
}

/// The fixed suffix of a pattern. There is none when the marker ends the
/// pattern; otherwise it starts two characters past the marker, the marker
/// being followed by a separator that the listing already puts at the end
/// of each common prefix.
pub open spec fn pattern_suffix(p: Seq<char>) -> Option<Seq<char>> {
    let i = marker_index(p);
    if i + 1 >= p.len() {
        None
    } else {
        Some(p.subrange(i + 2, p.len() as int))
    }
}

/// The character view of an optional string.
pub open spec fn opt_view(o: Option<String>) -> Option<Seq<char>> {
    match o {
        Some(s) => Some(s@),
        None => None,
    }
}

/// A pattern split at its marker.
#[derive(Debug, Clone)]
pub struct DecomposedPattern {
    /// What the listing is scoped to.
    pub prefix: String,
    /// What is appended to each common prefix, if sub-prefixes are expanded.
    pub suffix: Option<String>,
}

impl DecomposedPattern {
    /// Whether this is the decomposition of `p`.
    pub open spec fn of(&self, p: Seq<char>) -> bool {
        &&& self.prefix@ == pattern_prefix(p)
        &&& opt_view(self.suffix) == pattern_suffix(p)
    }
}

/// The first marker's position is the one that `marker_index` names.
pub proof fn lemma_first_marker_unique(p: Seq<char>, i: int)
    requires
        first_marker(p, i),
    ensures
        marker_index(p) == i,
{
    let k = marker_index(p);
    assert(first_marker(p, k));
    if k < i {
        assert(p[k] != MARKER);
    } else if i < k {
        assert(p[i] != MARKER);
    }
}

/// Splits `pattern` at its first marker; `None` where it holds no marker.
pub fn decompose(pattern: &str) -> (r: Option<DecomposedPattern>)
    ensures
        r is Some <==> has_marker(pattern@),
        r matches Some(d) ==> d.of(pattern@),
{
    let cs = chars_of(pattern);
    let mut i: usize = 0;
    while i < cs.len()
        invariant
            cs@ == pattern@,
            i <= cs.len(),
            forall|j: int| 0 <= j < i ==> cs@[j] != MARKER,
        decreases cs.len() - i,
    {
        if cs[i] == MARKER {
            proof {
                lemma_first_marker_unique(pattern@, i as int);
            }
            let prefix = String::from_str(pattern.substring_char(0, i));
            let suffix = if i + 1 < cs.len() {
                Some(String::from_str(pattern.substring_char(i + 2, cs.len())))
            } else {
                None
            };
            return Some(DecomposedPattern { prefix, suffix });
        }
        i = i + 1;
    }
    None
}

} // verus!
