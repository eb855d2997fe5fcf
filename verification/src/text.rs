//! Character-level string helpers shared by the classifier and the codec.

use vstd::prelude::*;

verus! {

/// True exactly when the two strings hold the same character sequence.
pub fn str_eq(a: &str, b: &str) -> (r: bool)
    ensures
        r == (a@ == b@),
{
    let alen = a.unicode_len();
    let blen = b.unicode_len();
    if alen != blen {
        return false;
    }
    let mut i: usize = 0;
    while i < alen
        invariant
            alen == a@.len(),
            alen == b@.len(),
            i <= alen,
            forall|j: int| 0 <= j < i ==> a@[j] == b@[j],
        decreases alen - i,
    {
        if a.get_char(i) != b.get_char(i) {
            return false;
        }
        i += 1;
    }
    proof {
        assert(a@ =~= b@);
    }
    true
}

/// Position just past the last occurrence of `c` in `s`, or 0 if `c`
/// never occurs.
pub open spec fn after_last(s: Seq<char>, c: char) -> int
    decreases s.len(),
{
    if s.len() == 0 {
        0
    } else if s[s.len() - 1] == c {
        s.len() as int
    } else {
        after_last(s.drop_last(), c)
    }
}

pub proof fn lemma_after_last_bounds(s: Seq<char>, c: char)
    ensures
        0 <= after_last(s, c) <= s.len(),
    decreases s.len(),
{
    if s.len() > 0 && s[s.len() - 1] != c {
        lemma_after_last_bounds(s.drop_last(), c);
    }
}

/// Exec counterpart of `after_last`.
pub fn after_last_exec(s: &str, c: char) -> (r: usize)
    ensures
        r as int == after_last(s@, c),
{
    let n = s.unicode_len();
    proof {
        assert(s@.take(n as int) =~= s@);
    }
    let mut i: usize = n;
    while i > 0
        invariant
            i <= n,
            n == s@.len(),
            after_last(s@, c) == after_last(s@.take(i as int), c),
        decreases i,
    {
        if s.get_char(i - 1) == c {
            proof {
                assert(s@.take(i as int).len() == i);
                assert(s@.take(i as int)[i - 1] == c);
            }
            return i;
        }
        proof {
            assert(s@.take(i as int)[i - 1] != c);
            assert(s@.take(i as int).drop_last() =~= s@.take(i as int - 1));
        }
        i -= 1;
    }
    proof {
        assert(s@.take(0) =~= Seq::<char>::empty());
    }
    0
}

} // verus!
