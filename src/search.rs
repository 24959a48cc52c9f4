//! Substring search over character sequences.

use vstd::prelude::*;

verus! {

/// `n` occurs in `h` starting at index `i`.
pub open spec fn matches_at(h: Seq<char>, n: Seq<char>, i: int) -> bool {
    0 <= i && i + n.len() <= h.len() && h.subrange(i, i + n.len()) == n
}

/// `n` occurs somewhere in `h`.
pub open spec fn occurs(h: Seq<char>, n: Seq<char>) -> bool {
    exists|i: int| matches_at(h, n, i)
}

/// The first index at or after `from` where `n` occurs in `h`.
pub open spec fn find_in(h: Seq<char>, n: Seq<char>, from: nat) -> Option<nat>
    decreases h.len() + 1 - from,
{
    if from + n.len() > h.len() {
        None
    } else if matches_at(h, n, from as int) {
        Some(from)
    } else {
        find_in(h, n, from + 1)
    }
}

/// What `find_in` returns is the first occurrence at or after `from`.
pub proof fn lemma_find_in(h: Seq<char>, n: Seq<char>, from: nat)
    ensures
        match find_in(h, n, from) {
            Some(k) => from <= k && matches_at(h, n, k as int) && forall|j: int|
                from <= j < k ==> !matches_at(h, n, j),
            None => forall|j: int| from <= j ==> !matches_at(h, n, j),
        },
    decreases h.len() + 1 - from,
{
    if from + n.len() > h.len() {
    } else if matches_at(h, n, from as int) {
    } else {
        lemma_find_in(h, n, from + 1);
    }
}

/// `n` occurs in `h` exactly when a search from the start finds it.
pub proof fn lemma_occurs_find(h: Seq<char>, n: Seq<char>)
    ensures
        occurs(h, n) <==> find_in(h, n, 0) is Some,
{
    lemma_find_in(h, n, 0);
    if let Some(k) = find_in(h, n, 0) {
        assert(matches_at(h, n, k as int));
    }
}

/// Whether `n` occurs in `h` at index `i`.
pub fn match_here(h: &Vec<char>, n: &Vec<char>, i: usize) -> (r: bool)
    requires
        i + n.len() <= h.len(),
    ensures
        r == matches_at(h@, n@, i as int),
{
    let mut j: usize = 0;
    while j < n.len()
        invariant
            i + n.len() <= h.len(),
            j <= n.len(),
            h@.subrange(i as int, i + j) == n@.subrange(0, j as int),
        decreases n.len() - j,
    {
        if h[i + j] != n[j] {
            assert(h@.subrange(i as int, i + n.len())[j as int] != n@[j as int]);
            return false;
        }
        j += 1;
        assert(h@.subrange(i as int, i + j) =~= n@.subrange(0, j as int));
    }
    assert(n@.subrange(0, j as int) =~= n@);
    true
}

/// The first index at or after `from` where `n` occurs in `h`.
pub fn find_from(h: &Vec<char>, n: &Vec<char>, from: usize) -> (r: Option<usize>)
    ensures
        match r {
            Some(k) => find_in(h@, n@, from as nat) == Some(k as nat),
            None => find_in(h@, n@, from as nat) is None,
        },
{
    if n.len() > h.len() {
        return None;
    }
    let last: usize = h.len() - n.len();
    let mut i: usize = from;
    while i <= last
        invariant
            last == h.len() - n.len(),
            from <= i,
            find_in(h@, n@, from as nat) == find_in(h@, n@, i as nat),
        decreases last + 1 - i,
    {
        if match_here(h, n, i) {
            return Some(i);
        }
        if i == last {
            assert(find_in(h@, n@, (i + 1) as nat) is None);
            return None;
        }
        i += 1;
    }
    None
}

/// Whether `n` occurs anywhere in `h`.
pub fn contains(h: &Vec<char>, n: &Vec<char>) -> (r: bool)
    ensures
        r == occurs(h@, n@),
{
    proof {
        lemma_occurs_find(h@, n@);
    }
    find_from(h, n, 0).is_some()
}

} // verus!
