//! Facts about membership in sequences that the scanning loops rely on.

use vstd::prelude::*;

verus! {

/// Membership after a push: the old members and the pushed value.
pub proof fn lemma_push_contains<T>(s: Seq<T>, x: T, y: T)
    ensures
        s.push(x).contains(y) == (s.contains(y) || x == y),
{
    if s.contains(y) {
        let k = choose|k: int| 0 <= k < s.len() && s[k] == y;
        assert(s.push(x)[k] == y);
    }
    if x == y {
        assert(s.push(x)[s.len() as int] == y);
    }
    if s.push(x).contains(y) {
        let k = choose|k: int| 0 <= k < s.len() + 1 && s.push(x)[k] == y;
        if k < s.len() {
            assert(s[k] == y);
        }
    }
}

/// A member of a prefix is a member of the whole.
pub proof fn lemma_take_contains<T>(s: Seq<T>, n: int, y: T)
    requires
        0 <= n <= s.len(),
        s.take(n).contains(y),
    ensures
        s.contains(y),
{
    let k = choose|k: int| 0 <= k < n && s.take(n)[k] == y;
    assert(s[k] == y);
}

} // verus!
