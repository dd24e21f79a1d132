//! Finding the first occurrence of a string in a sequence of strings.
use vstd::prelude::*;

verus! {

/// No string occurs twice.
pub open spec fn distinct(s: Seq<Seq<char>>) -> bool {
    forall|i: int, j: int| 0 <= i < j < s.len() ==> s[i] != s[j]
}

/// Appending a string that does not occur keeps the strings distinct.
pub proof fn lemma_distinct_push(s: Seq<Seq<char>>, x: Seq<char>)
    requires
        distinct(s),
        !s.contains(x),
    ensures
        distinct(s.push(x)),
{
    let t = s.push(x);
    assert forall|i: int, j: int| 0 <= i < j < t.len() implies t[i] != t[j] by {
        assert(t[i] == s[i]);
        if j == s.len() {
            assert(s.contains(s[i]));
        } else {
            assert(t[j] == s[j]);
        }
    }
}

/// The index of the first element of `s` equal to `x`.
pub open spec fn first_position(s: Seq<Seq<char>>, x: Seq<char>) -> Option<int>
    decreases s.len(),
{
    if s.len() == 0 {
        None
    } else if s[0] == x {
        Some(0)
    } else {
        match first_position(s.drop_first(), x) {
            Some(i) => Some(i + 1),
            None => None,
        }
    }
}

proof fn lemma_first_position_scan(s: Seq<Seq<char>>, x: Seq<char>, i: int)
    requires
        0 <= i <= s.len(),
        forall|k: int| 0 <= k < i ==> s[k] != x,
    ensures
        i < s.len() && s[i] == x ==> first_position(s, x) == Some(i),
        i == s.len() ==> first_position(s, x) is None,
    decreases i,
{
    if i > 0 {
        let tail = s.drop_first();
        assert forall|k: int| 0 <= k < i - 1 implies tail[k] != x by {
            assert(tail[k] == s[k + 1]);
        }
        lemma_first_position_scan(tail, x, i - 1);
    }
}

/// The index of the first string of `s` equal to `x`.
pub fn find_position(s: &Vec<String>, x: &String) -> (r: Option<usize>)
    ensures
        match r {
            Some(i) => first_position(s.deep_view(), x@) == Some(i as int) && i < s.len(),
            None => first_position(s.deep_view(), x@) is None,
        },
{
    let ghost h = s.deep_view();
    let mut i: usize = 0;
    while i < s.len()
        invariant
            i <= s.len(),
            h == s.deep_view(),
            forall|k: int| 0 <= k < i ==> h[k] != x@,
        decreases s.len() - i,
    {
        if s[i] == *x {
            proof {
                lemma_first_position_scan(h, x@, i as int);
            }
            return Some(i);
        }
        i = i + 1;
    }
    proof {
        lemma_first_position_scan(h, x@, i as int);
    }
    None
}

/// What the first position says: where it is, `x` stands and not before;
/// where there is none, `x` does not occur.
pub proof fn lemma_first_position(s: Seq<Seq<char>>, x: Seq<char>)
    ensures
        first_position(s, x) matches Some(i) ==> 0 <= i < s.len() && s[i] == x && forall|k: int|
            0 <= k < i ==> s[k] != x,
        first_position(s, x) is None ==> !s.contains(x),
    decreases s.len(),
{
    if s.len() > 0 {
        let tail = s.drop_first();
        lemma_first_position(tail, x);
        if s[0] != x {
            if let Some(j) = first_position(tail, x) {
                assert forall|k: int| 0 <= k < j + 1 implies s[k] != x by {
                    if k > 0 {
                        assert(s[k] == tail[k - 1]);
                    }
                }
            } else {
                assert forall|k: int| 0 <= k < s.len() implies s[k] != x by {
                    if k > 0 {
                        assert(s[k] == tail[k - 1]);
                    }
                }
            }
        }
    }
}

/// Appending a string that does not occur puts its first position last.
pub proof fn lemma_first_position_push(s: Seq<Seq<char>>, x: Seq<char>)
    requires
        first_position(s, x) is None,
    ensures
        first_position(s.push(x), x) == Some(s.len() as int),
{
    lemma_first_position(s, x);
    let t = s.push(x);
    assert forall|k: int| 0 <= k < s.len() implies t[k] != x by {
        assert(t[k] == s[k]);
        assert(s.contains(s[k]));
    }
    lemma_first_position_scan(t, x, s.len() as int);
}

} // verus!
