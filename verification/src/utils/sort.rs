//! Sorting strings in the order of Rust's `String` (code point by code point).
use vstd::prelude::*;
use vstd::relations::{sorted_by, total_ordering};
use crate::project::value::{key_less, key_lt, lemma_key_lt_irreflexive, lemma_key_lt_total, lemma_key_lt_transitive};
use crate::utils::strings::views;

verus! {

/// `a` comes no later than `b`.
pub open spec fn key_leq() -> spec_fn(Seq<char>, Seq<char>) -> bool {
    |a: Seq<char>, b: Seq<char>| !key_lt(b, a)
}

/// `key_leq` is a total order.
pub proof fn lemma_key_leq_total()
    ensures
        total_ordering(key_leq()),
{
    assert forall|x: Seq<char>| #[trigger] key_leq()(x, x) by {
        lemma_key_lt_irreflexive(x);
    }
    assert forall|x: Seq<char>, y: Seq<char>| #[trigger] key_leq()(x, y) && #[trigger] key_leq()(y, x) implies x == y by {
        lemma_key_lt_total(x, y);
    }
    assert forall|x: Seq<char>, y: Seq<char>, z: Seq<char>| #[trigger] key_leq()(x, y) && #[trigger] key_leq()(y, z) implies key_leq()(x, z) by {
        if key_lt(z, x) {
            lemma_key_lt_total(x, y);
            lemma_key_lt_total(y, z);
            if key_lt(x, y) {
                lemma_key_lt_transitive(z, x, y);
            } else if x == y {
            } else {
                lemma_key_lt_transitive(y, x, y);
                lemma_key_lt_irreflexive(y);
            }
        }
    }
    assert forall|x: Seq<char>, y: Seq<char>| #[trigger] key_leq()(x, y) || #[trigger] key_leq()(y, x) by {
        if key_lt(y, x) && key_lt(x, y) {
            lemma_key_lt_transitive(x, y, x);
            lemma_key_lt_irreflexive(x);
        }
    }
}

/// The strings in increasing order (`sort` on a `Vec<String>`).
pub fn sort_strings(v: Vec<String>) -> (r: Vec<String>)
    ensures
        views(r@) == views(v@).sort_by(key_leq()),
{
    broadcast use vstd::seq_lib::group_to_multiset_ensures;
    let mut out: Vec<String> = Vec::new();
    let mut i: usize = 0;
    proof { lemma_key_leq_total(); }
    while i < v.len()
        invariant
            i <= v@.len(),
            total_ordering(key_leq()),
            sorted_by(views(out@), key_leq()),
            views(out@).to_multiset() == views(v@).take(i as int).to_multiset(),
        decreases v@.len() - i,
    {
        let x = v[i].clone();
        let mut p: usize = 0;
        while p < out.len() && !key_less(x.as_str(), out[p].as_str())
            invariant
                p <= out@.len(),
                forall|j: int| 0 <= j < p ==> !key_lt(x@, #[trigger] views(out@)[j]),
            decreases out@.len() - p,
        {
            p = p + 1;
        }
        let ghost old_out = views(out@);
        proof {
            assert forall|j: int| 0 <= j < old_out.len() implies #[trigger] old_out[j] == out@[j]@ by {}
        }
        out.insert(p, x);
        proof {
            let nv = views(out@);
            assert(nv =~= old_out.insert(p as int, v@[i as int]@));
            assert(views(v@).take(i + 1) =~= views(v@).take(i as int).push(v@[i as int]@));
            vstd::seq_lib::to_multiset_insert(old_out, p as int, v@[i as int]@);
            vstd::seq_lib::to_multiset_build(views(v@).take(i as int), v@[i as int]@);
            assert forall|a: int, b: int| 0 <= a < b < nv.len() implies #[trigger] key_leq()(nv[a], nv[b]) by {
                if b < p {
                    assert(nv[a] == old_out[a] && nv[b] == old_out[b]);
                } else if a > p {
                    assert(nv[a] == old_out[a - 1] && nv[b] == old_out[b - 1]);
                } else if a == p {
                    // x is no later than everything that follows it
                    if p < old_out.len() {
                        assert(key_lt(x@, old_out[p as int]));
                        assert(key_leq()(old_out[p as int], nv[b]));
                        lemma_key_lt_total(x@, nv[b]);
                        if key_lt(nv[b], x@) {
                            lemma_key_lt_transitive(nv[b], x@, old_out[p as int]);
                        }
                    }
                } else {
                    assert(b == p || b > p);
                    if b == p {
                        assert(!key_lt(x@, old_out[a]));
                    } else {
                        assert(nv[a] == old_out[a] && nv[b] == old_out[b - 1]);
                    }
                }
            }
        }
        i = i + 1;
    }
    proof {
        assert(views(v@).take(i as int) =~= views(v@));
        views(v@).lemma_sort_by_ensures(key_leq());
        vstd::seq_lib::lemma_sorted_unique(views(out@), views(v@).sort_by(key_leq()), key_leq());
    }
    out
}

} // verus!
