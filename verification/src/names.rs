//! Behavior identifiers and signatures, compared by what they spell.

use vstd::prelude::*;
use vstd::string::StrSliceExecFns;

verus! {

/// What each identifier of a signature spells.
pub open spec fn names(signature: Seq<&'static str>) -> Seq<Seq<char>> {
    Seq::new(signature.len(), |k: int| signature[k]@)
}

/// Whether two identifiers spell the same.
pub fn same_name(a: &str, b: &str) -> (same: bool)
    ensures
        same == (a@ == b@),
{
    let n = a.unicode_len();
    if n != b.unicode_len() {
        return false;
    }
    let mut i: usize = 0;
    while i < n
        invariant
            i <= n,
            n == a@.len(),
            n == b@.len(),
            forall|j: int| 0 <= j < i ==> a@[j] == b@[j],
        decreases n - i,
    {
        if a.get_char(i) != b.get_char(i) {
            return false;
        }
        i += 1;
    }
    assert(a@ =~= b@);
    true
}

/// Whether two signatures name the same behaviors in the same order.
pub fn same_signature(a: &Vec<&'static str>, b: &Vec<&'static str>) -> (same: bool)
    ensures
        same == (names(a@) == names(b@)),
{
    if a.len() != b.len() {
        assert(names(a@).len() != names(b@).len());
        return false;
    }
    let mut k: usize = 0;
    while k < a.len()
        invariant
            k <= a@.len(),
            a@.len() == b@.len(),
            forall|j: int| 0 <= j < k ==> a@[j]@ == b@[j]@,
        decreases a@.len() - k,
    {
        if !same_name(a[k], b[k]) {
            assert(names(a@)[k as int] != names(b@)[k as int]);
            return false;
        }
        k += 1;
    }
    assert(names(a@) =~= names(b@));
    true
}

} // verus!
