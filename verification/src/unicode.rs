//! The Unicode algorithms that the library takes from elsewhere: case
//! conversion from the standard library, normalization from the crate
//! `unicode-normalization`.
//!
//! Nothing here is proved. Each function below names the text that the
//! outside function returns and claims no more than that the same text
//! goes in and the named text comes out.

use vstd::prelude::*;
use unicode_normalization::UnicodeNormalization;

verus! {

/// The lowercase equivalent of `text` by the default, locale-independent
/// case conversion of Unicode.
pub uninterp spec fn lowercase_of(text: Seq<char>) -> Seq<char>;

/// The uppercase equivalent of `text` by the default, locale-independent
/// case conversion of Unicode.
pub uninterp spec fn uppercase_of(text: Seq<char>) -> Seq<char>;

/// `text` in Normalization Form C.
pub uninterp spec fn nfc_of(text: Seq<char>) -> Seq<char>;

/// `text` in Normalization Form D.
pub uninterp spec fn nfd_of(text: Seq<char>) -> Seq<char>;

/// `text` in Normalization Form KC.
pub uninterp spec fn nfkc_of(text: Seq<char>) -> Seq<char>;

/// `text` in Normalization Form KD.
pub uninterp spec fn nfkd_of(text: Seq<char>) -> Seq<char>;

/// `str::to_lowercase` of the standard library, on the string made of the
/// characters of `text`. The conversion depends on the characters alone;
/// the contract gives its result the name `lowercase_of` and says nothing
/// else about it.
#[verifier::external_body]
pub(crate) fn lowercase(text: &Vec<char>) -> (r: Vec<char>)
    ensures
        r@ == lowercase_of(text@),
{
    let text: std::string::String = text.iter().collect();
    text.to_lowercase().chars().collect()
}

/// `str::to_uppercase` of the standard library, on the string made of the
/// characters of `text`. The conversion depends on the characters alone;
/// the contract gives its result the name `uppercase_of` and says nothing
/// else about it.
#[verifier::external_body]
pub(crate) fn uppercase(text: &Vec<char>) -> (r: Vec<char>)
    ensures
        r@ == uppercase_of(text@),
{
    let text: std::string::String = text.iter().collect();
    text.to_uppercase().chars().collect()
}

/// `UnicodeNormalization::nfc` of `unicode-normalization`, on the
/// characters of `text`, with all that its iterator yields. The contract
/// gives that result the name `nfc_of` and says nothing else about it.
#[verifier::external_body]
pub(crate) fn nfc(text: &Vec<char>) -> (r: Vec<char>)
    ensures
        r@ == nfc_of(text@),
{
    text.iter().copied().nfc().collect()
}

/// `UnicodeNormalization::nfd` of `unicode-normalization`, on the
/// characters of `text`, with all that its iterator yields. The contract
/// gives that result the name `nfd_of` and says nothing else about it.
#[verifier::external_body]
pub(crate) fn nfd(text: &Vec<char>) -> (r: Vec<char>)
    ensures
        r@ == nfd_of(text@),
{
    text.iter().copied().nfd().collect()
}

/// `UnicodeNormalization::nfkc` of `unicode-normalization`, on the
/// characters of `text`, with all that its iterator yields. The contract
/// gives that result the name `nfkc_of` and says nothing else about it.
#[verifier::external_body]
pub(crate) fn nfkc(text: &Vec<char>) -> (r: Vec<char>)
    ensures
        r@ == nfkc_of(text@),
{
    text.iter().copied().nfkc().collect()
}

/// `UnicodeNormalization::nfkd` of `unicode-normalization`, on the
/// characters of `text`, with all that its iterator yields. The contract
/// gives that result the name `nfkd_of` and says nothing else about it.
#[verifier::external_body]
pub(crate) fn nfkd(text: &Vec<char>) -> (r: Vec<char>)
    ensures
        r@ == nfkd_of(text@),
{
    text.iter().copied().nfkd().collect()
}

} // verus!
