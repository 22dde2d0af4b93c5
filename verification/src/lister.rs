//! Ordering of the entries a directory scan hands in.
//!
//! The surrounding process enumerates the configured directory and passes
//! the child paths here as plain strings; this module puts them in
//! ascending lexicographic order by full path, which fixes the numbering
//! the menu shows.

use crate::order::{lemma_lex_le_connected, lemma_lex_le_transitive, lemma_lex_leq_total_ordering,
    lex_le, lex_leq};
use vstd::multiset::Multiset;
use vstd::prelude::*;
use vstd::relations::sorted_by;
use vstd::seq_lib::group_to_multiset_ensures;
use vstd::seq_lib::lemma_multiset_commutative;
use vstd::seq_lib::lemma_sorted_unique;

verus! {

/// Inserting an element anywhere in a sequence adds exactly that element
/// to the sequence's multiset.
proof fn lemma_insert_to_multiset(s: Seq<Seq<char>>, p: int, x: Seq<char>)
    requires
        0 <= p <= s.len(),
    ensures
        s.insert(p, x).to_multiset() =~= s.to_multiset().insert(x),
{
    broadcast use group_to_multiset_ensures;

    let front = s.take(p);
    let back = s.skip(p);
    assert(s.insert(p, x) =~= front + (seq![x] + back));
    assert(s =~= front + back);
    lemma_multiset_commutative(front, seq![x] + back);
    lemma_multiset_commutative(seq![x], back);
    lemma_multiset_commutative(front, back);
    assert(seq![x] =~= Seq::<Seq<char>>::empty().push(x));
    assert(Seq::<Seq<char>>::empty().to_multiset() =~= Multiset::<Seq<char>>::empty());
    assert(seq![x].to_multiset() =~= Multiset::<Seq<char>>::empty().insert(x));
}

/// Returns the given paths in ascending lexicographic order.
///
/// The result is pinned exactly: it is `sort_by` of the input under the
/// lexicographic order, so it is sorted and holds the same paths with the
/// same multiplicities.
pub fn sort_paths(v: &Vec<String>) -> (out: Vec<String>)
    ensures
        out.deep_view() == v.deep_view().sort_by(lex_leq()),
        sorted_by(out.deep_view(), lex_leq()),
        out.deep_view().to_multiset() == v.deep_view().to_multiset(),
{
    proof {
        lemma_lex_leq_total_ordering();
    }
    let mut out: Vec<String> = Vec::new();
    let mut idx: usize = 0;
    proof {
        assert(out.deep_view() =~= Seq::<Seq<char>>::empty());
        assert(v.deep_view().take(0) =~= Seq::<Seq<char>>::empty());
    }
    while idx < v.len()
        invariant
            idx <= v.len(),
            out.len() == idx,
            sorted_by(out.deep_view(), lex_leq()),
            out.deep_view().to_multiset() == v.deep_view().take(idx as int).to_multiset(),
        decreases v.len() - idx,
    {
        let s: String = v[idx].clone();
        let ghost old_dv = out.deep_view();
        let mut p: usize = 0;
        loop
            invariant
                p <= out.len(),
                out.deep_view() == old_dv,
                forall|k: int| 0 <= k < p ==> lex_le(#[trigger] old_dv[k], s@),
            ensures
                p <= out.len(),
                forall|k: int| 0 <= k < p ==> lex_le(#[trigger] old_dv[k], s@),
                p < out.len() ==> !lex_le(old_dv[p as int], s@),
            decreases out.len() - p,
        {
            if p == out.len() {
                break ;
            }
            let cand: &String = &out[p];
            if !crate::order::str_le(cand.as_str(), s.as_str()) {
                break ;
            }
            p = p + 1;
        }
        proof {
            assert forall|k: int| p <= k < old_dv.len() implies lex_le(s@, #[trigger] old_dv[k]) by {
                lemma_lex_le_connected(old_dv[p as int], s@);
                if k > p {
                    assert(lex_leq()(old_dv[p as int], old_dv[k]));
                    lemma_lex_le_transitive(s@, old_dv[p as int], old_dv[k]);
                }
            }
        }
        out.insert(p, s);
        idx = idx + 1;
        proof {
            let new_dv = out.deep_view();
            assert(new_dv =~= old_dv.insert(p as int, s@));
            assert forall|i: int, j: int| 0 <= i < j < new_dv.len() implies lex_leq()(
                new_dv[i],
                new_dv[j],
            ) by {
                assert(old_dv.insert(p as int, s@)[i] == new_dv[i]);
                assert(old_dv.insert(p as int, s@)[j] == new_dv[j]);
            }
            lemma_insert_to_multiset(old_dv, p as int, s@);
            assert(v.deep_view().take(idx as int) =~= v.deep_view().take(idx as int - 1).push(
                v.deep_view()[idx as int - 1],
            ));
            broadcast use group_to_multiset_ensures;

            assert(s@ == v.deep_view()[idx as int - 1]);
        }
    }
    proof {
        assert(v.deep_view().take(v.len() as int) =~= v.deep_view());
        v.deep_view().lemma_sort_by_ensures(lex_leq());
        lemma_sorted_unique(out.deep_view(), v.deep_view().sort_by(lex_leq()), lex_leq());
        assert(out.deep_view() =~= v.deep_view().sort_by(lex_leq()));
    }
    out
}

} // verus!
