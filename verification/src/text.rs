//! Character classification and lexicographic comparison of character
//! sequences, the ground layer under segment parsing and ordering.

use vstd::prelude::*;

use core::cmp::Ordering;

verus! {

/// The characters that separate one token of a version string from the next.
/// A hyphen is deliberately not a separator: it stays inside its token as
/// ordinary qualifier text.
pub open spec fn is_sep(c: char) -> bool {
    c == '=' || c == '.' || c == '_'
}

/// ASCII decimal digits, the only characters that form a numeric suffix.
pub open spec fn is_digit_char(c: char) -> bool {
    48 <= c as u32 <= 57
}

/// Numeric value of an ASCII digit.
pub open spec fn digit_val(c: char) -> int {
    c as u32 - 48
}

/// Lexicographic comparison of two character sequences by code point:
/// the order `String` comparison gives the qualifier labels.
pub open spec fn chars_cmp(a: Seq<char>, b: Seq<char>) -> Ordering
    decreases a.len() + b.len(),
{
    if a.len() == 0 && b.len() == 0 {
        Ordering::Equal
    } else if a.len() == 0 {
        Ordering::Less
    } else if b.len() == 0 {
        Ordering::Greater
    } else if (a[0] as u32) < (b[0] as u32) {
        Ordering::Less
    } else if (a[0] as u32) > (b[0] as u32) {
        Ordering::Greater
    } else {
        chars_cmp(a.drop_first(), b.drop_first())
    }
}

/// A code point determines its character: casting to `u32` is injective.
proof fn lemma_char_inj(a: char, b: char)
    requires
        a as u32 == b as u32,
    ensures
        a == b,
{
    vstd::utf8::char_u32_cast(a, a as u32);
    vstd::utf8::char_u32_cast(b, b as u32);
}

/// Two sequences compare equal exactly when they are the same sequence.
pub proof fn lemma_chars_cmp_eq(a: Seq<char>, b: Seq<char>)
    ensures
        chars_cmp(a, b) == Ordering::Equal <==> a == b,
    decreases a.len() + b.len(),
{
    if a.len() == 0 && b.len() == 0 {
        assert(a =~= b);
    } else if a.len() == 0 || b.len() == 0 {
        assert(a != b);
    } else {
        lemma_chars_cmp_eq(a.drop_first(), b.drop_first());
        if chars_cmp(a, b) == Ordering::Equal {
            lemma_char_inj(a[0], b[0]);
            assert(a.len() == b.len());
            assert forall|i: int| 0 <= i < a.len() implies a[i] == b[i] by {
                if i > 0 {
                    assert(a.drop_first()[i - 1] == b.drop_first()[i - 1]);
                }
            }
            assert(a =~= b);
        }
        if a == b {
            assert(a.drop_first() =~= b.drop_first());
        }
    }
}

/// Swapping the arguments reverses the outcome.
pub proof fn lemma_chars_cmp_flip(a: Seq<char>, b: Seq<char>)
    ensures
        chars_cmp(a, b) == Ordering::Less <==> chars_cmp(b, a) == Ordering::Greater,
        chars_cmp(a, b) == Ordering::Equal <==> chars_cmp(b, a) == Ordering::Equal,
    decreases a.len() + b.len(),
{
    if a.len() != 0 && b.len() != 0 {
        lemma_chars_cmp_flip(a.drop_first(), b.drop_first());
    }
}

/// Strict lexicographic order is transitive.
pub proof fn lemma_chars_cmp_trans(a: Seq<char>, b: Seq<char>, c: Seq<char>)
    requires
        chars_cmp(a, b) == Ordering::Less,
        chars_cmp(b, c) == Ordering::Less,
    ensures
        chars_cmp(a, c) == Ordering::Less,
    decreases a.len() + b.len() + c.len(),
{
    if a.len() == 0 {
        assert(b.len() != 0);
        assert(c.len() != 0);
    } else {
        assert(b.len() != 0);
        assert(c.len() != 0);
        if a[0] as u32 == b[0] as u32 && b[0] as u32 == c[0] as u32 {
            lemma_chars_cmp_trans(a.drop_first(), b.drop_first(), c.drop_first());
        }
    }
}

/// Compares two strings character by character, the way the qualifier
/// labels of two segments are ordered.
pub fn str_cmp(a: &str, b: &str) -> (r: Ordering)
    ensures
        r == chars_cmp(a@, b@),
{
    let la = a.unicode_len();
    let lb = b.unicode_len();
    let mut i: usize = 0;
    proof {
        assert(a@.skip(0) =~= a@);
        assert(b@.skip(0) =~= b@);
    }
    while i < la && i < lb
        invariant
            i <= la,
            i <= lb,
            la == a@.len(),
            lb == b@.len(),
            chars_cmp(a@, b@) == chars_cmp(a@.skip(i as int), b@.skip(i as int)),
        decreases la - i,
    {
        let ca = a.get_char(i);
        let cb = b.get_char(i);
        proof {
            assert(a@.skip(i as int)[0] == a@[i as int]);
            assert(b@.skip(i as int)[0] == b@[i as int]);
        }
        if (ca as u32) < (cb as u32) {
            return Ordering::Less;
        } else if (ca as u32) > (cb as u32) {
            return Ordering::Greater;
        }
        proof {
            assert(a@.skip(i as int).drop_first() =~= a@.skip(i + 1));
            assert(b@.skip(i as int).drop_first() =~= b@.skip(i + 1));
        }
        i = i + 1;
    }
    proof {
        assert(a@.skip(i as int).len() == la - i);
        assert(b@.skip(i as int).len() == lb - i);
    }
    if la < lb {
        Ordering::Less
    } else if la > lb {
        Ordering::Greater
    } else {
        Ordering::Equal
    }
}

/// Whether two strings hold the same characters.
pub fn str_eq(a: &str, b: &str) -> (r: bool)
    ensures
        r == (a@ == b@),
{
    proof {
        lemma_chars_cmp_eq(a@, b@);
    }
    match str_cmp(a, b) {
        Ordering::Equal => true,
        _ => false,
    }
}

} // verus!
