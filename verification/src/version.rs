//! A parsed version: the verbatim input line plus the segment sequence the
//! comparator orders.

use vstd::prelude::*;

use crate::casefold::{lower_of, lowercase};
use crate::part::{Seg, VersionPart};
use crate::text::{is_digit_char, is_sep};
use crate::tokens::{
    clean_split_at, digit_suffix_start, digits_value, has_digit_suffix, lemma_clean_split_unique,
    lemma_digits_value_prefix, lemma_segs_of_split, lemma_segs_of_whole, segs_of, segs_overflow,
    token_overflows, token_segs,
};

verus! {

/// The one way parsing can fail: a digit run that exceeds the supported
/// signed 64-bit range.
#[derive(Clone, Copy, Debug, PartialEq, Eq)]
pub enum ParseError {
    NumberOverflow,
}

/// The comparison keys of a part sequence, in order.
pub open spec fn keys_of(ps: Seq<VersionPart>) -> Seq<Seg> {
    ps.map_values(|p: VersionPart| p.key())
}

proof fn lemma_keys_of_push(ps: Seq<VersionPart>, p: VersionPart)
    ensures
        keys_of(ps.push(p)) == keys_of(ps).push(p.key()),
{
    assert(keys_of(ps.push(p)) =~= keys_of(ps).push(p.key()));
}

/// One input line: the verbatim text and the segments it parses to.
/// `s` is used only for output; `parts` alone decides the order.
pub struct Version {
    pub s: String,
    pub parts: Vec<VersionPart>,
}

impl Version {
    /// The comparison keys of this version's segments.
    pub open spec fn keys(&self) -> Seq<Seg> {
        keys_of(self.parts@)
    }

    /// Parses a single part of a version string.
    ///
    /// Version parts are separated by dots, underscores or equals signs.  A
    /// single part can be numeric (e.g. "1"), a qualifier (e.g. "beta"), or
    /// a combination (e.g. "alpha3").  A part is a combination only when it
    /// is an entirely non-digit prefix with a numeric suffix; if digits and
    /// non-digits mix more than once (e.g. "a1b2") the whole part is a
    /// qualifier without a numeric suffix.  An empty part contributes two
    /// default segments.  The only failure is a numeric suffix outside the
    /// signed 64-bit range.
    pub fn parse_part(part: String) -> (r: Result<(VersionPart, VersionPart), ParseError>)
        ensures
            match r {
                Ok(pair) => !token_overflows(part@) && seq![pair.0.key(), pair.1.key()]
                    == token_segs(part@),
                Err(_) => token_overflows(part@),
            },
    {
        let pstr = part.as_str();
        let len = pstr.unicode_len();
        if len == 0 {
            let q = VersionPart::default();
            let n = VersionPart::default();
            proof {
                assert(seq![q.key(), n.key()] =~= token_segs(part@));
            }
            return Ok((q, n));
        }
        // Find where a clean digit suffix would start: the index of the
        // first digit of the first digit run, kept only while that run is
        // uninterrupted.
        let mut suffix: Option<usize> = None;
        let mut interleaved: bool = false;
        let mut i: usize = 0;
        while i < len && !interleaved
            invariant
                i <= len,
                len == part@.len(),
                pstr@ == part@,
                interleaved ==> !has_digit_suffix(part@),
                !interleaved ==> match suffix {
                    None => forall|j: int| 0 <= j < i ==> !is_digit_char(part@[j]),
                    Some(k) => k < i && (forall|j: int| 0 <= j < k ==> !is_digit_char(part@[j]))
                        && (forall|j: int| k <= j < i ==> is_digit_char(part@[j])),
                },
            decreases len - i,
        {
            let c = pstr.get_char(i);
            let digit = (c as u32) >= 48 && (c as u32) <= 57;
            if digit {
                if suffix.is_none() {
                    suffix = Some(i);
                }
            } else {
                if let Some(k) = suffix {
                    proof {
                        assert forall|m: int| !clean_split_at(part@, m) by {
                            if clean_split_at(part@, m) {
                                if m <= i {
                                    assert(is_digit_char(part@[i as int]));
                                } else {
                                    assert(!is_digit_char(part@[k as int]));
                                }
                            }
                        }
                    }
                    suffix = None;
                    interleaved = true;
                }
            }
            i = i + 1;
        }
        if interleaved || suffix.is_none() {
            proof {
                if !interleaved {
                    assert forall|m: int| !clean_split_at(part@, m) by {
                        if clean_split_at(part@, m) {
                            assert(!is_digit_char(part@[m]));
                        }
                    }
                }
                assert(!has_digit_suffix(part@));
            }
            let q = VersionPart::new_qualifier(part);
            let n = VersionPart::default();
            proof {
                assert(seq![q.key(), n.key()] =~= token_segs(q.q@));
            }
            return Ok((q, n));
        }
        let k = suffix.unwrap();
        proof {
            assert(clean_split_at(part@, k as int));
            let m = digit_suffix_start(part@);
            assert(clean_split_at(part@, m));
            lemma_clean_split_unique(part@, k as int, m);
        }
        // Parse the digit suffix, failing on 64-bit overflow.
        let ghost ds = part@.skip(k as int);
        proof {
            assert(forall|j: int| 0 <= j < ds.len() ==> is_digit_char(#[trigger] ds[j]));
            assert(ds.take(0) =~= Seq::<char>::empty());
        }
        let mut acc: i64 = 0;
        let mut j: usize = k;
        while j < len
            invariant
                k <= j <= len,
                len == part@.len(),
                pstr@ == part@,
                clean_split_at(part@, k as int),
                ds == part@.skip(k as int),
                acc >= 0,
                acc == digits_value(ds.take(j - k)),
            decreases len - j,
        {
            let c = pstr.get_char(j);
            let d = ((c as u32) - 48) as i64;
            proof {
                assert(is_digit_char(part@[j as int]));
                assert(ds.take(j - k + 1).drop_last() =~= ds.take(j - k));
                assert(ds.take(j - k + 1).last() == part@[j as int]);
            }
            let next = match acc.checked_mul(10) {
                Some(m) => m.checked_add(d),
                None => None,
            };
            match next {
                Some(v) => {
                    acc = v;
                },
                None => {
                    proof {
                        assert(10 * acc + d > i64::MAX);
                        assert(digits_value(ds.take(j - k + 1)) > i64::MAX);
                        lemma_digits_value_prefix(ds, j - k + 1);
                        assert(digits_value(ds) > i64::MAX);
                        assert(has_digit_suffix(part@));
                        let m = digit_suffix_start(part@);
                        assert(clean_split_at(part@, m));
                        lemma_clean_split_unique(part@, k as int, m);
                        assert(token_overflows(part@));
                    }
                    return Err(ParseError::NumberOverflow);
                },
            }
            j = j + 1;
        }
        proof {
            assert(ds.take(len - k) =~= ds);
        }
        let num = VersionPart::new_number(acc);
        if k == 0 {
            let q = VersionPart::default();
            proof {
                assert(seq![q.key(), num.key()] =~= token_segs(part@));
            }
            Ok((q, num))
        } else {
            let qtext = pstr.substring_char(0, k).to_owned();
            proof {
                assert(qtext@ =~= part@.take(k as int));
            }
            let q = VersionPart::new_qualifier(qtext);
            proof {
                assert(seq![q.key(), num.key()] =~= token_segs(part@));
            }
            Ok((q, num))
        }
    }

    /// Builds a version from the verbatim line `s` and its already
    /// lowercased text `lower`: splits `lower` on the separators and
    /// appends each token's qualifier/numeric segment pair in order.
    pub fn from_lowered(s: String, lower: &str) -> (r: Result<Version, ParseError>)
        ensures
            match r {
                Ok(v) => v.s@ == s@ && v.keys() == segs_of(lower@) && v.parts@.len() >= 2
                    && !segs_overflow(lower@),
                Err(_) => segs_overflow(lower@),
            },
    {
        proof {
            crate::tokens::lemma_segs_of_len(lower@);
        }
        let len = lower.unicode_len();
        let mut parts: Vec<VersionPart> = Vec::new();
        let mut start: usize = 0;
        let mut i: usize = 0;
        proof {
            assert(lower@.skip(0) =~= lower@);
            assert(keys_of(parts@) =~= Seq::<Seg>::empty());
        }
        while i < len
            invariant
                start <= i <= len,
                len == lower@.len(),
                forall|j: int| start <= j < i ==> !is_sep(lower@[j]),
                keys_of(parts@) + segs_of(lower@.skip(start as int)) == segs_of(lower@),
                segs_overflow(lower@) == segs_overflow(lower@.skip(start as int)),
            decreases len - i,
        {
            let c = lower.get_char(i);
            if c == '=' || c == '.' || c == '_' {
                let ghost t = lower@.skip(start as int);
                proof {
                    assert(t[i - start] == lower@[i as int]);
                    assert forall|j: int| 0 <= j < i - start implies !is_sep(t[j]) by {
                        assert(t[j] == lower@[j + start]);
                    }
                    lemma_segs_of_split(t, i - start);
                    assert(t.take(i - start) =~= lower@.subrange(start as int, i as int));
                    assert(t.skip(i - start + 1) =~= lower@.skip(i + 1));
                }
                let tok = lower.substring_char(start, i).to_owned();
                match Version::parse_part(tok) {
                    Ok(pair) => {
                        let ghost before = parts@;
                        let (q, n) = pair;
                        parts.push(q);
                        parts.push(n);
                        proof {
                            lemma_keys_of_push(before, q);
                            lemma_keys_of_push(before.push(q), n);
                            assert(keys_of(parts@) + segs_of(lower@.skip(i + 1)) =~= segs_of(
                                lower@,
                            ));
                        }
                    },
                    Err(e) => {
                        return Err(e);
                    },
                }
                start = i + 1;
            }
            i = i + 1;
        }
        let ghost t = lower@.skip(start as int);
        proof {
            assert forall|j: int| 0 <= j < t.len() implies !is_sep(t[j]) by {
                assert(t[j] == lower@[j + start]);
            }
            lemma_segs_of_whole(t);
            assert(t =~= lower@.subrange(start as int, len as int));
        }
        let tok = lower.substring_char(start, len).to_owned();
        match Version::parse_part(tok) {
            Ok(pair) => {
                let ghost before = parts@;
                let (q, n) = pair;
                parts.push(q);
                parts.push(n);
                proof {
                    lemma_keys_of_push(before, q);
                    lemma_keys_of_push(before.push(q), n);
                    assert(keys_of(parts@) =~= segs_of(lower@));
                }
                Ok(Version { s, parts })
            },
            Err(e) => Err(e),
        }
    }

    /// Parses one raw input line: lowercases it for comparison, splits the
    /// lowercase text into tokens, and keeps the verbatim line for output.
    /// Every line yields a version with at least one token's segment pair;
    /// parsing fails exactly when some token's digit suffix exceeds the
    /// signed 64-bit range.
    pub fn parse(s: String) -> (r: Result<Version, ParseError>)
        ensures
            match r {
                Ok(v) => v.s@ == s@ && v.keys() == segs_of(lower_of(s@)) && v.parts@.len() >= 2
                    && !segs_overflow(lower_of(s@)),
                Err(_) => segs_overflow(lower_of(s@)),
            },
    {
        let lower = lowercase(s.as_str());
        Version::from_lowered(s, lower.as_str())
    }
}

} // verus!
