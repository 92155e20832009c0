//! Leftmost-match search in byte sequences and non-overlapping splitting on
//! a literal delimiter token. This is the substring machinery that the
//! highlighter builds on.

use vstd::prelude::*;
use crate::classify::copy_range;
use crate::classify::copy_range_spec;

verus! {

/// True when the token `d` occurs in `s` starting at position `i`.
pub open spec fn is_match_at(s: Seq<u8>, d: Seq<u8>, i: int) -> bool {
    0 <= i && i + d.len() <= s.len() && s.subrange(i, i + d.len()) == d
}

/// The position of the leftmost occurrence of `d` in `s`, if there is one.
pub open spec fn find_first(s: Seq<u8>, d: Seq<u8>) -> Option<int>
    decreases s.len(),
    when 1 <= d.len()
{
    if s.len() < d.len() {
        None
    } else if s.subrange(0, d.len() as int) == d {
        Some(0)
    } else {
        match find_first(s.skip(1), d) {
            None => None,
            Some(i) => Some(i + 1),
        }
    }
}

/// An occurrence of `d` at position `k + i` of `s` is an occurrence at
/// position `i` of `s` with its first `k` bytes dropped, and conversely.
pub proof fn lemma_match_shift(s: Seq<u8>, d: Seq<u8>, k: int, i: int)
    requires
        0 <= k <= s.len(),
        0 <= i,
    ensures
        is_match_at(s, d, k + i) <==> is_match_at(s.skip(k), d, i),
{
    if k + i + d.len() <= s.len() {
        assert(s.skip(k).subrange(i, i + d.len()) =~= s.subrange(k + i, k + i + d.len()));
    }
}

/// `find_first` returns the leftmost occurrence of `d` in `s`: a position
/// where `d` occurs, with no occurrence before it; or nothing, when `d`
/// does not occur in `s` at all.
pub proof fn lemma_find_first_characterization(s: Seq<u8>, d: Seq<u8>)
    requires
        1 <= d.len(),
    ensures
        match find_first(s, d) {
            Option::None => forall|i: int| !is_match_at(s, d, i),
            Option::Some(i) => is_match_at(s, d, i) && forall|j: int|
                0 <= j < i ==> !is_match_at(s, d, j),
        },
    decreases s.len(),
{
    if s.len() < d.len() {
        assert forall|i: int| !is_match_at(s, d, i) by {}
    } else if s.subrange(0, d.len() as int) == d {
        assert(is_match_at(s, d, 0));
    } else {
        lemma_find_first_characterization(s.skip(1), d);
        assert(!is_match_at(s, d, 0));
        match find_first(s.skip(1), d) {
            Option::None => {
                assert forall|i: int| !is_match_at(s, d, i) by {
                    if i >= 1 {
                        lemma_match_shift(s, d, 1, i - 1);
                    }
                }
            },
            Option::Some(i) => {
                lemma_match_shift(s, d, 1, i);
                assert forall|j: int| 0 <= j < i + 1 implies !is_match_at(s, d, j) by {
                    if j >= 1 {
                        lemma_match_shift(s, d, 1, j - 1);
                    }
                }
            },
        }
    }
}

/// A found occurrence lies within `s`.
pub proof fn lemma_find_first_range(s: Seq<u8>, d: Seq<u8>)
    requires
        1 <= d.len(),
    ensures
        find_first(s, d) matches Option::Some(i) ==> 0 <= i && i + d.len() <= s.len(),
    decreases s.len(),
{
    if s.len() < d.len() {
    } else if s.subrange(0, d.len() as int) == d {
    } else {
        lemma_find_first_range(s.skip(1), d);
    }
}

/// Does the token `d` occur in `s` at position `i`?
#[verifier::loop_isolation(false)]
fn match_at(s: &[u8], d: &[u8], i: usize) -> (r: bool)
    requires
        i + d@.len() <= s@.len(),
    ensures
        r == is_match_at(s@, d@, i as int),
{
    let n = s.len();
    proof {
        assert(i + d@.len() <= n);
    }
    let mut j: usize = 0;
    while j < d.len()
        invariant
            0 <= j <= d@.len(),
            i + d@.len() <= s@.len(),
            forall|k: int| 0 <= k < j ==> s@[i + k] == d@[k],
        decreases d@.len() - j,
    {
        if s[i + j] != d[j] {
            proof {
                assert(s@.subrange(i as int, i + d@.len())[j as int] == s@[i + j]);
            }
            return false;
        }
        j = j + 1;
    }
    proof {
        assert(s@.subrange(i as int, i + d@.len()) =~= d@);
    }
    true
}

/// The position of the leftmost occurrence of `d` in `s` at or after
/// position `from`, if there is one.
#[verifier::loop_isolation(false)]
pub fn find_first_from(s: &[u8], d: &[u8], from: usize) -> (r: Option<usize>)
    requires
        1 <= d@.len(),
        from <= s@.len(),
    ensures
        match r {
            Option::None => find_first(s@.skip(from as int), d@) is None,
            Option::Some(i) => from <= i && i + d@.len() <= s@.len() && find_first(
                s@.skip(from as int),
                d@,
            ) == Option::Some(i - from),
        },
{
    proof {
        lemma_find_first_characterization(s@.skip(from as int), d@);
    }
    if s.len() - from < d.len() {
        proof {
            lemma_find_first_range(s@.skip(from as int), d@);
        }
        return None;
    }
    let bound = s.len() - d.len();
    let mut i: usize = from;
    while i <= bound
        invariant
            1 <= d@.len(),
            from <= i,
            bound == s@.len() - d@.len(),
            i <= bound + 1,
            forall|j: int| from <= j < i ==> !is_match_at(s@, d@, j),
        decreases bound + 1 - i,
    {
        if match_at(s, d, i) {
            proof {
                lemma_match_shift(s@, d@, from as int, i - from);
                assert forall|j: int| 0 <= j < i - from implies !is_match_at(
                    s@.skip(from as int),
                    d@,
                    j,
                ) by {
                    lemma_match_shift(s@, d@, from as int, j);
                }
                match find_first(s@.skip(from as int), d@) {
                    Option::None => {
                        assert(is_match_at(s@.skip(from as int), d@, i - from));
                        assert(false);
                    },
                    Option::Some(k) => {
                        if k < i - from {
                            assert(!is_match_at(s@.skip(from as int), d@, k));
                            assert(false);
                        }
                        if k > i - from {
                            assert(!is_match_at(s@.skip(from as int), d@, i - from));
                            assert(false);
                        }
                    },
                }
            }
            return Some(i);
        }
        i = i + 1;
    }
    proof {
        assert forall|j: int| !is_match_at(s@.skip(from as int), d@, j) by {
            if 0 <= j && from + j + d@.len() <= s@.len() {
                lemma_match_shift(s@, d@, from as int, j);
            }
        }
    }
    None
}

/// The fragments of `s` between consecutive, non-overlapping, leftmost
/// occurrences of the delimiter `d`: `n` occurrences give `n + 1`
/// (possibly empty) fragments, with every occurrence consumed.
pub open spec fn split_on(s: Seq<u8>, d: Seq<u8>) -> Seq<Seq<u8>>
    decreases s.len(),
    when 1 <= d.len()
    via split_on_decreases
{
    match find_first(s, d) {
        Option::None => seq![s],
        Option::Some(i) => seq![s.subrange(0, i)] + split_on(s.skip(i + d.len()), d),
    }
}

#[via_fn]
proof fn split_on_decreases(s: Seq<u8>, d: Seq<u8>) {
    lemma_find_first_range(s, d);
}

/// The number of non-overlapping, leftmost-first occurrences of `d` in `s`.
pub open spec fn count_matches(s: Seq<u8>, d: Seq<u8>) -> nat
    decreases s.len(),
    when 1 <= d.len()
    via count_matches_decreases
{
    match find_first(s, d) {
        Option::None => 0,
        Option::Some(i) => 1 + count_matches(s.skip(i + d.len()), d),
    }
}

#[via_fn]
proof fn count_matches_decreases(s: Seq<u8>, d: Seq<u8>) {
    lemma_find_first_range(s, d);
}

/// Splitting yields one fragment more than there are occurrences.
pub proof fn lemma_split_on_len(s: Seq<u8>, d: Seq<u8>)
    requires
        1 <= d.len(),
    ensures
        split_on(s, d).len() == count_matches(s, d) + 1,
    decreases s.len(),
{
    match find_first(s, d) {
        Option::None => {},
        Option::Some(i) => {
            lemma_find_first_range(s, d);
            lemma_split_on_len(s.skip(i + d.len()), d);
        },
    }
}

/// Split `s` on every occurrence of the delimiter `d`.
#[verifier::loop_isolation(false)]
pub fn split_on_exec(s: &[u8], d: &[u8]) -> (r: Vec<Vec<u8>>)
    requires
        1 <= d@.len(),
    ensures
        r@.map_values(|v: Vec<u8>| v@) == split_on(s@, d@),
{
    let n = s.len();
    let mut r: Vec<Vec<u8>> = Vec::new();
    let mut pos: usize = 0;
    proof {
        assert(n == s@.len());
        assert(s@.skip(0) =~= s@);
        assert(r@.map_values(|v: Vec<u8>| v@) =~= Seq::<Seq<u8>>::empty());
        assert(split_on(s@, d@) =~= r@.map_values(|v: Vec<u8>| v@) + split_on(s@.skip(0), d@));
    }
    loop
        invariant
            1 <= d@.len(),
            pos <= s@.len(),
            split_on(s@, d@) == r@.map_values(|v: Vec<u8>| v@) + split_on(
                s@.skip(pos as int),
                d@,
            ),
        decreases s@.len() - pos,
    {
        let ghost rest = s@.skip(pos as int);
        let ghost r0 = r@;
        match find_first_from(s, d, pos) {
            None => {
                let piece = copy_range(s, pos, s.len());
                r.push(piece);
                proof {
                    assert(split_on(rest, d@) =~= seq![rest]);
                    assert(copy_range_spec(s@, pos as int, s@.len() as int) =~= rest);
                    assert(r@.map_values(|v: Vec<u8>| v@) =~= r0.map_values(
                        |v: Vec<u8>| v@,
                    ).push(rest));
                    assert(r@.map_values(|v: Vec<u8>| v@) =~= split_on(s@, d@));
                }
                return r;
            },
            Some(i) => {
                let piece = copy_range(s, pos, i);
                r.push(piece);
                proof {
                    let rel = i - pos;
                    assert(rest.subrange(0, rel) =~= s@.subrange(pos as int, i as int));
                    assert(rest.skip(rel + d@.len()) =~= s@.skip(i + d@.len()));
                    assert(split_on(rest, d@) == seq![rest.subrange(0, rel)] + split_on(
                        rest.skip(rel + d@.len()),
                        d@,
                    ));
                    assert(r@.map_values(|v: Vec<u8>| v@) =~= r0.map_values(
                        |v: Vec<u8>| v@,
                    ).push(s@.subrange(pos as int, i as int)));
                    assert(split_on(s@, d@) =~= r@.map_values(|v: Vec<u8>| v@) + split_on(
                        s@.skip(i + d@.len()),
                        d@,
                    ));
                }
                proof {
                    assert(i + d@.len() <= n);
                }
                pos = i + d.len();
            },
        }
    }
}

} // verus!
