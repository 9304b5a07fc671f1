//! The total order over versions.
//!
//! Two segment sequences compare position by position; a position past a
//! sequence's end counts as the default segment.  The first unequal pair
//! decides.  When every compared position ties, the sequence with fewer
//! segments orders first: content equality alone does not make two
//! versions equal, their segment counts must match too.

use vstd::prelude::*;

use core::cmp::Ordering;

use crate::part::{
    default_seg, lemma_seg_cmp_eq, lemma_seg_cmp_flip, lemma_seg_cmp_trans, seg_cmp, Seg,
    VersionPart,
};
use crate::version::Version;

verus! {

/// The key at the front of a sequence, the default segment once the
/// sequence is exhausted.
pub open spec fn head_key(s: Seq<Seg>) -> Seg {
    if s.len() > 0 {
        s[0]
    } else {
        default_seg()
    }
}

/// What remains after the front position; an exhausted sequence stays
/// exhausted.
pub open spec fn rest(s: Seq<Seg>) -> Seq<Seg> {
    if s.len() == 0 {
        s
    } else {
        s.drop_first()
    }
}

/// Position-by-position comparison of two segment sequences, the shorter
/// one padded with default segments.
pub open spec fn content_cmp(a: Seq<Seg>, b: Seq<Seg>) -> Ordering
    decreases a.len() + b.len(),
{
    if a.len() == 0 && b.len() == 0 {
        Ordering::Equal
    } else {
        match seg_cmp(head_key(a), head_key(b)) {
            Ordering::Equal => content_cmp(rest(a), rest(b)),
            c => c,
        }
    }
}

/// Numeric comparison of two lengths.
pub open spec fn len_cmp(a: int, b: int) -> Ordering {
    if a < b {
        Ordering::Less
    } else if a > b {
        Ordering::Greater
    } else {
        Ordering::Equal
    }
}

/// The version order: the first unequal padded position decides; when all
/// positions tie, the sequence with fewer segments orders first.
pub open spec fn version_cmp(a: Seq<Seg>, b: Seq<Seg>) -> Ordering {
    match content_cmp(a, b) {
        Ordering::Equal => len_cmp(a.len() as int, b.len() as int),
        c => c,
    }
}

/// Non-strict version order, as the sort uses it.
pub open spec fn version_le(a: Version, b: Version) -> bool {
    version_cmp(a.keys(), b.keys()) != Ordering::Greater
}

proof fn lemma_content_cmp_refl(a: Seq<Seg>)
    ensures
        content_cmp(a, a) == Ordering::Equal,
    decreases a.len(),
{
    if a.len() > 0 {
        lemma_seg_cmp_eq(head_key(a), head_key(a));
        lemma_content_cmp_refl(rest(a));
    }
}

proof fn lemma_content_cmp_flip(a: Seq<Seg>, b: Seq<Seg>)
    ensures
        content_cmp(a, b) == Ordering::Less <==> content_cmp(b, a) == Ordering::Greater,
        content_cmp(a, b) == Ordering::Equal <==> content_cmp(b, a) == Ordering::Equal,
    decreases a.len() + b.len(),
{
    if !(a.len() == 0 && b.len() == 0) {
        lemma_seg_cmp_flip(head_key(a), head_key(b));
        lemma_content_cmp_flip(rest(a), rest(b));
    }
}

/// Content-equal sequences compare the same way against any third one.
proof fn lemma_content_cmp_congruence(a: Seq<Seg>, b: Seq<Seg>, c: Seq<Seg>)
    requires
        content_cmp(a, b) == Ordering::Equal,
    ensures
        content_cmp(a, c) == content_cmp(b, c),
    decreases a.len() + b.len() + c.len(),
{
    if a.len() == 0 && b.len() == 0 {
        assert(a =~= b);
    } else {
        lemma_seg_cmp_eq(head_key(a), head_key(b));
        if a.len() == 0 && c.len() == 0 {
            assert(c =~= a);
            lemma_content_cmp_flip(a, b);
        } else if b.len() == 0 && c.len() == 0 {
            assert(c =~= b);
        } else {
            match seg_cmp(head_key(a), head_key(c)) {
                Ordering::Equal => {
                    lemma_content_cmp_congruence(rest(a), rest(b), rest(c));
                },
                _ => {},
            }
        }
    }
}

/// Strict content order is transitive.
proof fn lemma_content_cmp_trans(a: Seq<Seg>, b: Seq<Seg>, c: Seq<Seg>)
    requires
        content_cmp(a, b) == Ordering::Less,
        content_cmp(b, c) == Ordering::Less,
    ensures
        content_cmp(a, c) == Ordering::Less,
    decreases a.len() + b.len() + c.len(),
{
    if a.len() == 0 && c.len() == 0 {
        assert(c =~= a);
        lemma_content_cmp_flip(b, c);
    } else {
        let ha = head_key(a);
        let hb = head_key(b);
        let hc = head_key(c);
        lemma_seg_cmp_eq(ha, hb);
        lemma_seg_cmp_eq(hb, hc);
        match (seg_cmp(ha, hb), seg_cmp(hb, hc)) {
            (Ordering::Less, Ordering::Less) => {
                lemma_seg_cmp_trans(ha, hb, hc);
            },
            (Ordering::Equal, Ordering::Equal) => {
                lemma_content_cmp_trans(rest(a), rest(b), rest(c));
            },
            _ => {},
        }
    }
}

/// Content-equal sequences of the same length are the same sequence.
proof fn lemma_content_cmp_same_len_eq(a: Seq<Seg>, b: Seq<Seg>)
    requires
        content_cmp(a, b) == Ordering::Equal,
        a.len() == b.len(),
    ensures
        a == b,
    decreases a.len(),
{
    if a.len() == 0 {
        assert(a =~= b);
    } else {
        lemma_seg_cmp_eq(head_key(a), head_key(b));
        lemma_content_cmp_same_len_eq(rest(a), rest(b));
        assert forall|i: int| 0 <= i < a.len() implies a[i] == b[i] by {
            if i > 0 {
                assert(a.drop_first()[i - 1] == b.drop_first()[i - 1]);
            }
        }
        assert(a =~= b);
    }
}

/// The order is total and antisymmetric: of `a < b`, `a == b` and `a > b`
/// exactly one holds for any two versions (the comparison is a single
/// `Ordering` value, and reversing the arguments reverses it), and two
/// versions compare equal exactly when their key sequences are identical.
pub proof fn lemma_cmp_totality(a: Version, b: Version)
    ensures
        version_cmp(a.keys(), b.keys()) == Ordering::Less <==> version_cmp(b.keys(), a.keys())
            == Ordering::Greater,
        version_cmp(a.keys(), b.keys()) == Ordering::Equal <==> version_cmp(b.keys(), a.keys())
            == Ordering::Equal,
        version_cmp(a.keys(), b.keys()) == Ordering::Equal <==> a.keys() == b.keys(),
{
    lemma_content_cmp_flip(a.keys(), b.keys());
    if version_cmp(a.keys(), b.keys()) == Ordering::Equal {
        lemma_content_cmp_same_len_eq(a.keys(), b.keys());
    }
    if a.keys() == b.keys() {
        lemma_content_cmp_refl(a.keys());
    }
}

/// The strict order is transitive: `a < b` and `b < c` give `a < c`.
pub proof fn lemma_cmp_transitive(a: Version, b: Version, c: Version)
    requires
        version_cmp(a.keys(), b.keys()) == Ordering::Less,
        version_cmp(b.keys(), c.keys()) == Ordering::Less,
    ensures
        version_cmp(a.keys(), c.keys()) == Ordering::Less,
{
    let ka = a.keys();
    let kb = b.keys();
    let kc = c.keys();
    match (content_cmp(ka, kb), content_cmp(kb, kc)) {
        (Ordering::Less, Ordering::Less) => {
            lemma_content_cmp_trans(ka, kb, kc);
        },
        (Ordering::Less, Ordering::Equal) => {
            lemma_content_cmp_congruence(kb, kc, ka);
            lemma_content_cmp_flip(kb, ka);
            lemma_content_cmp_flip(kc, ka);
        },
        (Ordering::Equal, Ordering::Less) => {
            lemma_content_cmp_congruence(ka, kb, kc);
        },
        (Ordering::Equal, Ordering::Equal) => {
            lemma_content_cmp_congruence(ka, kb, kc);
        },
        _ => {},
    }
}

/// Any two versions are comparable under the non-strict order.
pub proof fn lemma_le_total(a: Version, b: Version)
    ensures
        version_le(a, b) || version_le(b, a),
{
    lemma_cmp_totality(a, b);
}

/// The non-strict order is transitive.
pub proof fn lemma_le_trans(a: Version, b: Version, c: Version)
    requires
        version_le(a, b),
        version_le(b, c),
    ensures
        version_le(a, c),
{
    let ab = version_cmp(a.keys(), b.keys());
    let bc = version_cmp(b.keys(), c.keys());
    if ab == Ordering::Less && bc == Ordering::Less {
        lemma_cmp_transitive(a, b, c);
    } else if ab == Ordering::Equal {
        lemma_cmp_totality(a, b);
        assert(a.keys() == b.keys());
    } else if bc == Ordering::Equal {
        lemma_cmp_totality(b, c);
        assert(b.keys() == c.keys());
    }
}

/// Bounds an index by a sequence length: where the comparison loop stands
/// within one of the two sequences.
spec fn clip(i: int, l: int) -> int {
    if i <= l {
        i
    } else {
        l
    }
}

impl Version {
    /// Orders two versions: segments position by position with default
    /// padding, then the segment count as the final tie-break.
    pub fn cmp(&self, other: &Version) -> (r: Ordering)
        ensures
            r == version_cmp(self.keys(), other.keys()),
    {
        let la = self.parts.len();
        let lb = other.parts.len();
        let n = if la > lb {
            la
        } else {
            lb
        };
        let pad = VersionPart::default();
        let ghost ka = self.keys();
        let ghost kb = other.keys();
        let mut i: usize = 0;
        proof {
            assert(ka.skip(0) =~= ka);
            assert(kb.skip(0) =~= kb);
        }
        while i < n
            invariant
                i <= n,
                n == if la > lb { la as int } else { lb as int },
                la == self.parts@.len(),
                lb == other.parts@.len(),
                ka == self.keys(),
                kb == other.keys(),
                pad.key() == default_seg(),
                content_cmp(ka, kb) == content_cmp(
                    ka.skip(clip(i as int, la as int)),
                    kb.skip(clip(i as int, lb as int)),
                ),
            decreases n - i,
        {
            let pa = if i < la {
                &self.parts[i]
            } else {
                &pad
            };
            let pb = if i < lb {
                &other.parts[i]
            } else {
                &pad
            };
            let ghost sa = ka.skip(clip(i as int, la as int));
            let ghost sb = kb.skip(clip(i as int, lb as int));
            proof {
                if i < la {
                    assert(sa[0] == ka[i as int]);
                }
                if i < lb {
                    assert(sb[0] == kb[i as int]);
                }
                assert(pa.key() == head_key(sa));
                assert(pb.key() == head_key(sb));
            }
            let ord = pa.cmp(pb);
            match ord {
                Ordering::Equal => {
                    proof {
                        if i < la {
                            assert(rest(sa) =~= ka.skip(clip(i + 1, la as int)));
                        } else {
                            assert(rest(sa) =~= sa);
                            assert(sa =~= ka.skip(clip(i + 1, la as int)));
                        }
                        if i < lb {
                            assert(rest(sb) =~= kb.skip(clip(i + 1, lb as int)));
                        } else {
                            assert(rest(sb) =~= sb);
                            assert(sb =~= kb.skip(clip(i + 1, lb as int)));
                        }
                    }
                    i = i + 1;
                },
                c => {
                    return c;
                },
            }
        }
        proof {
            assert(ka.skip(clip(n as int, la as int)) =~= Seq::<Seg>::empty());
            assert(kb.skip(clip(n as int, lb as int)) =~= Seq::<Seg>::empty());
        }
        if la < lb {
            Ordering::Less
        } else if la > lb {
            Ordering::Greater
        } else {
            Ordering::Equal
        }
    }

    /// Whether two versions compare equal: same segment content and count.
    /// The verbatim text plays no role.
    pub fn eq(&self, other: &Version) -> (r: bool)
        ensures
            r == (version_cmp(self.keys(), other.keys()) == Ordering::Equal),
    {
        match self.cmp(other) {
            Ordering::Equal => true,
            _ => false,
        }
    }
}

} // verus!
