//! Sorting of version-identifier strings.
//!
//! A raw version string such as `1.2.3-beta1` is parsed into an ordered
//! sequence of typed segments (numeric values and ranked qualifiers), and a
//! total order over those sequences drives a verified sort of the whole
//! collection.  The original string is kept verbatim for output.

mod casefold;
mod order;
mod part;
mod sort;
mod text;
mod tokens;
mod version;

pub use casefold::lower_of;
pub use order::{
    content_cmp, head_key, lemma_cmp_totality, lemma_cmp_transitive, lemma_le_total,
    lemma_le_trans, len_cmp, version_cmp, version_le,
};
pub use part::{
    default_seg, number_seg, qualifier_seg, rank_of, seg_cmp, Seg, VersionPart,
};
pub use sort::{lemma_permutation_preserves_texts, sort_versions, sorted, texts_of};
pub use text::{chars_cmp, is_digit_char, is_sep, str_cmp, str_eq};
pub use tokens::{
    clean_split_at, digit_suffix_start, digits_value, first_sep, has_digit_suffix,
    lemma_segs_of_len, segs_of, segs_overflow, token_overflows, token_segs,
};
pub use version::{keys_of, ParseError, Version};
