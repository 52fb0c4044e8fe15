//! The distinct values of a sequence, in the order of their first occurrence.

use vstd::prelude::*;
use itertools::Itertools;

verus! {

/// `s` with every value after its first occurrence left out.
pub open spec fn first_occurrences<T>(s: Seq<T>) -> Seq<T>
    decreases s.len(),
{
    if s.len() == 0 {
        Seq::empty()
    } else {
        let d = first_occurrences(s.drop_last());
        if d.contains(s.last()) {
            d
        } else {
            d.push(s.last())
        }
    }
}

/// The views of a sequence of strings.
pub open spec fn texts(s: Seq<String>) -> Seq<Seq<char>> {
    s.map_values(|x: String| x@)
}

/// The first occurrences hold exactly the values of `s`, each once.
pub proof fn lemma_first_occurrences<T>(s: Seq<T>)
    ensures
        first_occurrences(s).no_duplicates(),
        forall|x: T| #[trigger] first_occurrences(s).contains(x) <==> s.contains(x),
    decreases s.len(),
{
    if s.len() > 0 {
        let p = s.drop_last();
        lemma_first_occurrences(p);
        let d = first_occurrences(p);
        assert forall|x: T| #[trigger] first_occurrences(s).contains(x) <==> s.contains(x) by {
            if s.contains(x) {
                let i = choose|i: int| 0 <= i < s.len() && s[i] == x;
                if i < s.len() - 1 {
                    assert(p[i] == x);
                    assert(p.contains(x));
                    assert(d.contains(x));
                    if !d.contains(s.last()) {
                        let k = choose|k: int| 0 <= k < d.len() && d[k] == x;
                        assert(d.push(s.last())[k] == x);
                    }
                } else if !d.contains(s.last()) {
                    assert(d.push(s.last())[d.len() as int] == x);
                }
            }
            if first_occurrences(s).contains(x) {
                if d.contains(x) {
                    assert(p.contains(x));
                    let i = choose|i: int| 0 <= i < p.len() && p[i] == x;
                    assert(s[i] == x);
                } else {
                    let k = choose|k: int| 0 <= k < d.push(s.last()).len() && d.push(s.last())[k] == x;
                    assert(k == d.len() as int);
                    assert(x == s.last());
                    assert(s[s.len() - 1] == x);
                }
            }
        }
        if !d.contains(s.last()) {
            assert forall|i: int, j: int|
                0 <= i < d.push(s.last()).len() && 0 <= j < d.push(s.last()).len() && i != j
                implies d.push(s.last())[i] != d.push(s.last())[j] by {
                if i == d.len() as int {
                    assert(d[j] == d.push(s.last())[j]);
                } else if j == d.len() as int {
                    assert(d[i] == d.push(s.last())[i]);
                }
            }
        }
    }
}

/// Relies on `Itertools::unique`: it yields each distinct value once, in the
/// order of its first occurrence.
#[verifier::external_body]
pub(crate) fn distinct_keys(v: &Vec<i64>) -> (r: Vec<i64>)
    ensures
        r@ == first_occurrences(v@),
{
    v.iter().copied().unique().collect()
}

/// Relies on `Itertools::unique` on strings, compared by their text: it yields
/// each distinct text once, in the order of its first occurrence.
#[verifier::external_body]
pub(crate) fn distinct_texts(v: &Vec<String>) -> (r: Vec<String>)
    ensures
        texts(r@) == first_occurrences(texts(v@)),
{
    v.iter().unique().cloned().collect()
}

} // verus!
