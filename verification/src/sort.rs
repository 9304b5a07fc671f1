//! Sorting the whole collection by the version order.

use vstd::prelude::*;

use core::cmp::Ordering;

use crate::order::{lemma_cmp_totality, lemma_le_trans, version_cmp, version_le};
use crate::version::Version;

verus! {

broadcast use vstd::seq_lib::group_to_multiset_ensures;

/// The verbatim texts of a collection, in order.
pub open spec fn texts_of(vs: Seq<Version>) -> Seq<Seq<char>> {
    vs.map_values(|v: Version| v.s@)
}

/// Re-emitting after a permutation — sorting included — yields exactly the
/// original line texts: no line is added, dropped or altered, only their
/// order changes.
pub proof fn lemma_permutation_preserves_texts(a: Seq<Version>, b: Seq<Version>)
    requires
        a.to_multiset() == b.to_multiset(),
    ensures
        texts_of(a).to_multiset() == texts_of(b).to_multiset(),
    decreases a.len(),
{
    broadcast use vstd::multiset::group_multiset_axioms;

    if a.len() == 0 {
        assert(a.to_multiset().len() == 0);
        assert(b.to_multiset().len() == b.len());
        assert(b.len() == 0);
        assert(texts_of(a) =~= texts_of(b));
    } else {
        let x = a[0];
        assert(a.contains(x));
        assert(a.to_multiset().count(x) > 0);
        assert(b.contains(x));
        let i = choose|i: int| 0 <= i < b.len() && b[i] == x;
        let a1 = a.drop_first();
        let b1 = b.remove(i);
        assert(a.remove(0) =~= a1);
        assert(a1.to_multiset() == a.to_multiset().remove(x));
        assert(b1.to_multiset() == b.to_multiset().remove(x));
        lemma_permutation_preserves_texts(a1, b1);
        let ta = texts_of(a);
        let tb = texts_of(b);
        assert(texts_of(a1) =~= ta.remove(0));
        assert(texts_of(b1) =~= tb.remove(i));
        assert(ta.remove(0).to_multiset() == ta.to_multiset().remove(ta[0]));
        assert(tb.remove(i).to_multiset() == tb.to_multiset().remove(tb[i]));
        assert(ta[0] == x.s@);
        assert(tb[i] == x.s@);
        assert(ta.contains(ta[0]));
        assert(ta.to_multiset().count(x.s@) > 0);
        assert(tb.contains(tb[i]));
        assert(tb.to_multiset().count(x.s@) > 0);
        assert forall|y: Seq<char>|
            ta.to_multiset().count(y) == #[trigger] tb.to_multiset().count(y) by {
            assert(ta.to_multiset().remove(x.s@).count(y) == tb.to_multiset().remove(
                x.s@,
            ).count(y));
        }
        assert(ta.to_multiset() =~= tb.to_multiset());
    }
}

/// Ascending per the version order.
pub open spec fn sorted(vs: Seq<Version>) -> bool {
    forall|i: int, j: int|
        0 <= i < j < vs.len() ==> version_le(#[trigger] vs[i], #[trigger] vs[j])
}

/// Sorts the collection in place by the version comparator.  Afterwards it
/// holds exactly the versions it held before, in ascending order: sorting
/// reorders lines, it never adds, drops or alters one.  Versions that
/// compare equal may come out in either relative order.
pub fn sort_versions(versions: &mut Vec<Version>)
    ensures
        final(versions)@.len() == old(versions)@.len(),
        final(versions)@.to_multiset() == old(versions)@.to_multiset(),
        sorted(final(versions)@),
{
    let n = versions.len();
    if n <= 1 {
        return ;
    }
    let mut i: usize = 1;
    while i < n
        invariant
            1 <= i <= n,
            n == versions@.len(),
            versions@.to_multiset() == old(versions)@.to_multiset(),
            forall|a: int, b: int|
                0 <= a < b < i ==> version_le(#[trigger] versions@[a], #[trigger] versions@[b]),
        decreases n - i,
    {
        let ghost before = versions@;
        let x = versions.remove(i);
        let ghost s = versions@;
        proof {
            assert(x == before[i as int]);
            assert(before.contains(x));
            assert(s.to_multiset() == before.to_multiset().remove(x));
            assert forall|m: int| 0 <= m < i implies s[m] == before[m] by {}
        }
        let mut j: usize = i;
        let mut done: bool = false;
        while j > 0 && !done
            invariant
                j <= i,
                i < n,
                n - 1 == s.len(),
                s == versions@,
                forall|m: int|
                    j <= m < i ==> version_cmp(#[trigger] s[m].keys(), x.keys())
                        == Ordering::Greater,
                done ==> j >= 1 && version_le(s[j - 1], x),
            decreases j, (if done { 0int } else { 1int }),
        {
            let ord = versions[j - 1].cmp(&x);
            match ord {
                Ordering::Greater => {
                    j = j - 1;
                },
                _ => {
                    done = true;
                },
            }
        }
        versions.insert(j, x);
        proof {
            let t = versions@;
            assert(t == s.insert(j as int, x));
            assert(t.to_multiset() == s.to_multiset().insert(x));
            assert(before.to_multiset().count(x) > 0);
            assert(t.to_multiset() =~= before.to_multiset());
            // The prefix of length i + 1 is sorted again.
            assert forall|a: int, b: int| 0 <= a < b < i + 1 implies version_le(
                #[trigger] t[a],
                #[trigger] t[b],
            ) by {
                if b < j {
                    assert(t[a] == s[a] && t[b] == s[b]);
                } else if a < j && b == j {
                    assert(t[a] == s[a]);
                    assert(version_le(s[j - 1], x));
                    if a < j - 1 {
                        assert(version_le(s[a], s[j - 1]));
                        lemma_le_trans(s[a], s[j - 1], x);
                    }
                } else if a < j && b > j {
                    assert(t[a] == s[a] && t[b] == s[b - 1]);
                    assert(version_cmp(s[b - 1].keys(), x.keys()) == Ordering::Greater);
                    if a <= j - 1 && j - 1 <= b - 1 {
                        assert(version_le(s[a], s[b - 1]));
                    }
                } else if a == j {
                    assert(t[b] == s[b - 1]);
                    assert(version_cmp(s[b - 1].keys(), x.keys()) == Ordering::Greater);
                    lemma_cmp_totality(s[b - 1], x);
                } else {
                    assert(t[a] == s[a - 1] && t[b] == s[b - 1]);
                    assert(version_le(s[a - 1], s[b - 1]));
                }
            }
        }
        i = i + 1;
    }
}

} // verus!
