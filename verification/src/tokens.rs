//! What a lowercased version string parses to: tokens, digit suffixes, and
//! the segment sequence they yield.
//!
//! The string splits on `=`, `.` and `_` into tokens, empty tokens
//! included.  Each token contributes exactly two segments, a qualifier half
//! followed by a numeric half; a half a token does not contribute is the
//! default segment.  A token has a numeric half only when it consists of a
//! (possibly empty) run of non-digits followed by a non-empty run of digits
//! reaching its end; once digits and non-digits interleave, the whole token
//! is a single qualifier.

use vstd::prelude::*;

use crate::part::{default_seg, number_seg, qualifier_seg, Seg};
use crate::text::{digit_val, is_digit_char, is_sep};

verus! {

/// Index of the first separator in `s`, or `s.len()` if there is none.
pub open spec fn first_sep(s: Seq<char>) -> int
    decreases s.len(),
{
    if s.len() == 0 {
        0
    } else if is_sep(s[0]) {
        0
    } else {
        1 + first_sep(s.drop_first())
    }
}

/// `first_sep` points at the first separator: nothing before it is one.
pub proof fn lemma_first_sep_bounds(s: Seq<char>)
    ensures
        0 <= first_sep(s) <= s.len(),
        first_sep(s) < s.len() ==> is_sep(s[first_sep(s)]),
        forall|j: int| 0 <= j < first_sep(s) ==> !is_sep(s[j]),
    decreases s.len(),
{
    if s.len() > 0 && !is_sep(s[0]) {
        lemma_first_sep_bounds(s.drop_first());
        assert forall|j: int| 0 <= j < first_sep(s) implies !is_sep(s[j]) by {
            if j > 0 {
                assert(!is_sep(s.drop_first()[j - 1]));
            }
        }
    }
}

/// The index with no separator before it and one at it (or the end) is the
/// index `first_sep` computes.
pub proof fn lemma_first_sep_at(s: Seq<char>, i: int)
    requires
        0 <= i <= s.len(),
        forall|j: int| 0 <= j < i ==> !is_sep(s[j]),
        i < s.len() ==> is_sep(s[i]),
    ensures
        first_sep(s) == i,
    decreases s.len(),
{
    if i > 0 {
        lemma_first_sep_at(s.drop_first(), i - 1);
    }
}

/// The token `t` splits cleanly at `i`: only non-digits before `i`, only
/// digits from `i` to the end, at least one digit.
pub open spec fn clean_split_at(t: Seq<char>, i: int) -> bool {
    &&& 0 <= i < t.len()
    &&& forall|j: int| 0 <= j < i ==> !is_digit_char(t[j])
    &&& forall|j: int| i <= j < t.len() ==> is_digit_char(t[j])
}

/// Whether the token ends in a digit run that a clean split sets off.
pub open spec fn has_digit_suffix(t: Seq<char>) -> bool {
    exists|i: int| clean_split_at(t, i)
}

/// Where the digit suffix of the token begins.
pub open spec fn digit_suffix_start(t: Seq<char>) -> int {
    choose|i: int| clean_split_at(t, i)
}

/// A token splits cleanly in at most one place.
pub proof fn lemma_clean_split_unique(t: Seq<char>, i: int, j: int)
    requires
        clean_split_at(t, i),
        clean_split_at(t, j),
    ensures
        i == j,
{
    if i < j {
        assert(is_digit_char(t[i]));
        assert(!is_digit_char(t[i]));
    } else if j < i {
        assert(is_digit_char(t[j]));
        assert(!is_digit_char(t[j]));
    }
}

/// The base-10 value of a digit run, most significant digit first.
pub open spec fn digits_value(ds: Seq<char>) -> int
    decreases ds.len(),
{
    if ds.len() == 0 {
        0
    } else {
        10 * digits_value(ds.drop_last()) + digit_val(ds.last())
    }
}

/// A digit run has a non-negative value.
pub proof fn lemma_digits_value_nonneg(ds: Seq<char>)
    requires
        forall|j: int| 0 <= j < ds.len() ==> is_digit_char(ds[j]),
    ensures
        digits_value(ds) >= 0,
    decreases ds.len(),
{
    if ds.len() > 0 {
        lemma_digits_value_nonneg(ds.drop_last());
    }
}

/// Extending a digit run never shrinks its value.
pub proof fn lemma_digits_value_prefix(ds: Seq<char>, m: int)
    requires
        0 <= m <= ds.len(),
        forall|j: int| 0 <= j < ds.len() ==> is_digit_char(ds[j]),
    ensures
        digits_value(ds) >= digits_value(ds.take(m)),
    decreases ds.len() - m,
{
    if m == ds.len() {
        assert(ds.take(m) =~= ds);
    } else {
        let p = ds.take(m + 1);
        assert(p.drop_last() =~= ds.take(m));
        assert(forall|j: int| 0 <= j < p.len() ==> is_digit_char(#[trigger] p[j]));
        lemma_digits_value_nonneg(ds.take(m));
        assert(digits_value(p) >= digits_value(ds.take(m)));
        lemma_digits_value_prefix(ds, m + 1);
    }
}

/// The two segments one token contributes: its qualifier half, then its
/// numeric half.
pub open spec fn token_segs(t: Seq<char>) -> Seq<Seg> {
    if t.len() == 0 {
        seq![default_seg(), default_seg()]
    } else if has_digit_suffix(t) {
        let i = digit_suffix_start(t);
        let qual = if i == 0 {
            default_seg()
        } else {
            qualifier_seg(t.take(i))
        };
        seq![qual, number_seg(digits_value(t.skip(i)))]
    } else {
        seq![qualifier_seg(t), default_seg()]
    }
}

/// Whether the token's digit suffix exceeds the supported numeric range.
pub open spec fn token_overflows(t: Seq<char>) -> bool {
    &&& t.len() > 0
    &&& has_digit_suffix(t)
    &&& digits_value(t.skip(digit_suffix_start(t))) > i64::MAX
}

/// The full segment sequence of a lowercased version string: the
/// concatenated contributions of its tokens, in order.
pub open spec fn segs_of(s: Seq<char>) -> Seq<Seg>
    decreases s.len(),
{
    let i = first_sep(s);
    if 0 <= i < s.len() {
        token_segs(s.take(i)) + segs_of(s.skip(i + 1))
    } else {
        token_segs(s)
    }
}

/// Whether any token of the string overflows the numeric range.
pub open spec fn segs_overflow(s: Seq<char>) -> bool
    decreases s.len(),
{
    let i = first_sep(s);
    if 0 <= i < s.len() {
        token_overflows(s.take(i)) || segs_overflow(s.skip(i + 1))
    } else {
        token_overflows(s)
    }
}

/// Splitting off the first token at a known separator.
pub proof fn lemma_segs_of_split(s: Seq<char>, i: int)
    requires
        0 <= i < s.len(),
        is_sep(s[i]),
        forall|j: int| 0 <= j < i ==> !is_sep(s[j]),
    ensures
        segs_of(s) == token_segs(s.take(i)) + segs_of(s.skip(i + 1)),
        segs_overflow(s) == (token_overflows(s.take(i)) || segs_overflow(s.skip(i + 1))),
{
    lemma_first_sep_at(s, i);
}

/// A string without separators is a single token.
pub proof fn lemma_segs_of_whole(s: Seq<char>)
    requires
        forall|j: int| 0 <= j < s.len() ==> !is_sep(s[j]),
    ensures
        segs_of(s) == token_segs(s),
        segs_overflow(s) == token_overflows(s),
{
    lemma_first_sep_at(s, s.len() as int);
}

/// Every string yields at least one token, so at least two segments.
pub proof fn lemma_segs_of_len(s: Seq<char>)
    ensures
        segs_of(s).len() >= 2,
        segs_of(s).len() % 2 == 0,
    decreases s.len(),
{
    let i = first_sep(s);
    lemma_first_sep_bounds(s);
    if 0 <= i < s.len() {
        lemma_segs_of_len(s.skip(i + 1));
    }
}

} // verus!
