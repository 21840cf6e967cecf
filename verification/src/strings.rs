//! Small verified helpers on strings: equality, the path delimiter, and
//! joining path segments.
use vstd::prelude::*;

verus! {

/// The character that separates the labels of a namespace path.
pub open spec fn delimiter() -> char {
    ':'
}

/// Whether two strings hold the same characters.
pub fn str_eq(a: &str, b: &str) -> (r: bool)
    ensures
        r == (a@ == b@),
{
    let n = a.unicode_len();
    if n != b.unicode_len() {
        return false;
    }
    let mut i: usize = 0;
    while i < n
        invariant
            n == a@.len(),
            n == b@.len(),
            i <= n,
            forall|j: int| 0 <= j < i ==> a@[j] == b@[j],
        decreases n - i,
    {
        if a.get_char(i) != b.get_char(i) {
            return false;
        }
        i += 1;
    }
    proof {
        assert(a@ =~= b@);
    }
    true
}

/// Whether the string holds the path delimiter anywhere.
pub fn contains_delimiter(s: &str) -> (r: bool)
    ensures
        r == s@.contains(delimiter()),
{
    let n = s.unicode_len();
    let mut i: usize = 0;
    while i < n
        invariant
            n == s@.len(),
            i <= n,
            forall|j: int| 0 <= j < i ==> s@[j] != delimiter(),
        decreases n - i,
    {
        if s.get_char(i) == ':' {
            return true;
        }
        i += 1;
    }
    false
}

/// A path extended by one more label: the label alone at the root, and
/// otherwise the path, the delimiter, then the label.
pub open spec fn spec_join(base: Seq<char>, label: Seq<char>) -> Seq<char> {
    if base.len() == 0 {
        label
    } else {
        base + seq![delimiter()] + label
    }
}

/// Append one label to a path in string form.
pub fn join_path(base: &str, label: &str) -> (r: String)
    ensures
        r@ == spec_join(base@, label@),
{
    if base.unicode_len() == 0 {
        label.to_owned()
    } else {
        proof {
            reveal_strlit(":");
        }
        let r = base.to_owned().concat(":").concat(label);
        proof {
            assert(":"@ =~= seq![delimiter()]);
            assert(r@ =~= base@ + seq![delimiter()] + label@);
        }
        r
    }
}

} // verus!
