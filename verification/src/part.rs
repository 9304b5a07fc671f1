//! Segments: the atomic comparable units of a version, and their order.
//!
//! A segment carries a signed `rank` and a textual `label`.  A numeric
//! segment holds its parsed value as the rank with an empty label; a
//! qualifier segment holds a mapped priority and the lowercase qualifier
//! text; the default segment (`rank` 0, empty label) stands in wherever a
//! token contributes no qualifier or no numeric half, and pads a shorter
//! sequence during comparison.

use vstd::prelude::*;

use core::cmp::Ordering;

use crate::text::{chars_cmp, str_cmp, str_eq};
use crate::text::{lemma_chars_cmp_eq, lemma_chars_cmp_flip, lemma_chars_cmp_trans};

verus! {

/// The mathematical value of one segment: its comparison key.
#[verifier::ext_equal]
pub ghost struct Seg {
    pub rank: int,
    pub label: Seq<char>,
}

/// The neutral placeholder segment.
pub open spec fn default_seg() -> Seg {
    Seg { rank: 0, label: Seq::empty() }
}

/// The segment a parsed numeric value yields.
pub open spec fn number_seg(n: int) -> Seg {
    Seg { rank: n, label: Seq::empty() }
}

/// The priority a lowercase qualifier text maps to.  The five named
/// pre-release qualifiers rank in a fixed ladder below every numeric rank;
/// any other non-empty text is an unknown qualifier at the generic rank -1,
/// ordered among its peers only by the label tie-break.
pub open spec fn rank_of(q: Seq<char>) -> int {
    if q == "snapshot"@ {
        -5
    } else if q == "alpha"@ {
        -4
    } else if q == "beta"@ {
        -3
    } else if q == "rc"@ {
        -2
    } else if q == "cr"@ {
        -2
    } else {
        -1
    }
}

/// The segment a qualifier text yields.
pub open spec fn qualifier_seg(q: Seq<char>) -> Seg {
    Seg { rank: rank_of(q), label: q }
}

/// Segments order lexicographically on `(rank, label)`: numeric comparison
/// of the ranks first, the label text only as a tie-break.
pub open spec fn seg_cmp(a: Seg, b: Seg) -> Ordering {
    if a.rank < b.rank {
        Ordering::Less
    } else if a.rank > b.rank {
        Ordering::Greater
    } else {
        chars_cmp(a.label, b.label)
    }
}

/// Two segments compare equal exactly when they are the same segment.
pub proof fn lemma_seg_cmp_eq(a: Seg, b: Seg)
    ensures
        seg_cmp(a, b) == Ordering::Equal <==> a == b,
{
    lemma_chars_cmp_eq(a.label, b.label);
    if seg_cmp(a, b) == Ordering::Equal {
        assert(a =~= b);
    }
}

/// Swapping the arguments reverses the outcome.
pub proof fn lemma_seg_cmp_flip(a: Seg, b: Seg)
    ensures
        seg_cmp(a, b) == Ordering::Less <==> seg_cmp(b, a) == Ordering::Greater,
        seg_cmp(a, b) == Ordering::Equal <==> seg_cmp(b, a) == Ordering::Equal,
{
    lemma_chars_cmp_flip(a.label, b.label);
}

/// The strict segment order is transitive.
pub proof fn lemma_seg_cmp_trans(a: Seg, b: Seg, c: Seg)
    requires
        seg_cmp(a, b) == Ordering::Less,
        seg_cmp(b, c) == Ordering::Less,
    ensures
        seg_cmp(a, c) == Ordering::Less,
{
    if a.rank == b.rank && b.rank == c.rank {
        lemma_chars_cmp_trans(a.label, b.label, c.label);
    }
}

/// One comparable unit of a version string.  `n` is the rank (the literal
/// value for a numeric segment, a mapped priority for a qualifier), `q` the
/// lowercase qualifier text (empty for numeric and default segments).
pub struct VersionPart {
    pub n: i64,
    pub q: String,
}

impl VersionPart {
    /// The comparison key this part stands for.
    pub open spec fn key(&self) -> Seg {
        Seg { rank: self.n as int, label: self.q@ }
    }

    /// The neutral placeholder part.
    pub fn default() -> (r: VersionPart)
        ensures
            r.key() == default_seg(),
    {
        let r = VersionPart { n: 0, q: String::new() };
        proof {
            assert(r.key() =~= default_seg());
        }
        r
    }

    /// A purely numeric part: the parsed value, no label.
    pub fn new_number(n: i64) -> (r: VersionPart)
        ensures
            r.key() == number_seg(n as int),
    {
        let r = VersionPart { n, q: String::new() };
        proof {
            assert(r.key() =~= number_seg(n as int));
        }
        r
    }

    /// A qualifier part: the text is kept as the tie-break label and mapped
    /// to its priority rank.
    pub fn new_qualifier(q: String) -> (r: VersionPart)
        ensures
            r.key() == qualifier_seg(q@),
    {
        let n: i64 = if str_eq(q.as_str(), "snapshot") {
            -5
        } else if str_eq(q.as_str(), "alpha") {
            -4
        } else if str_eq(q.as_str(), "beta") {
            -3
        } else if str_eq(q.as_str(), "rc") {
            -2
        } else if str_eq(q.as_str(), "cr") {
            -2
        } else {
            -1
        };
        let r = VersionPart { n, q };
        proof {
            assert(r.key() =~= qualifier_seg(r.q@));
        }
        r
    }

    /// Orders two parts by `(rank, label)`.
    pub fn cmp(&self, other: &VersionPart) -> (r: Ordering)
        ensures
            r == seg_cmp(self.key(), other.key()),
    {
        if self.n < other.n {
            Ordering::Less
        } else if self.n > other.n {
            Ordering::Greater
        } else {
            str_cmp(self.q.as_str(), other.q.as_str())
        }
    }
}

} // verus!
