//! Facts and notions about sequences of any kind.
use vstd::prelude::*;

verus! {

/// The last `n` entries.
pub open spec fn newest<T>(s: Seq<T>, n: int) -> Seq<T> {
    if s.len() > n {
        s.skip(s.len() - n)
    } else {
        s
    }
}

/// What is in a sequence after a further entry.
pub proof fn lemma_pushed<T>(s: Seq<T>, x: T, a: T)
    ensures
        s.push(x).contains(a) <==> s.contains(a) || a == x,
{
    if s.contains(a) {
        let i = choose|i: int| 0 <= i < s.len() && s[i] == a;
        assert(s.push(x)[i] == a);
    }
    assert(s.push(x)[s.len() as int] == x);
}

} // verus!
