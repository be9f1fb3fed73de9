//! What the crate uses of `std`'s strings beyond what vstd specifies.

use vstd::prelude::*;
use vstd::string::StringExecFns;
use vstd::utf8::{decode_utf8, encode_utf8, valid_utf8};

verus! {

/// `String::push` of std: the character goes behind the text.
pub assume_specification[ String::push ](text: &mut String, c: char)
    ensures
        final(text)@ == old(text)@.push(c),
;

/// `std::str::from_utf8`: the text that the bytes encode, where they are valid UTF-8.
#[verifier::external_body]
pub(crate) fn utf8_text(bytes: &[u8]) -> (result: Option<&str>)
    ensures
        result is Some <==> valid_utf8(bytes@),
        result matches Some(text) ==> text@ == decode_utf8(bytes@),
{
    std::str::from_utf8(bytes).ok()
}

/// The second text behind the first.
pub(crate) fn prefixed(prefix: &str, text: &str) -> (result: String)
    ensures
        result@ == prefix@ + text@,
{
    let mut result = prefix.to_owned();
    result.append(text);
    result
}

/// The bytes of two texts in a row are the bytes of the one and then those of the other.
pub proof fn lemma_encode_concat(first: Seq<char>, second: Seq<char>)
    ensures
        encode_utf8(first + second) == encode_utf8(first) + encode_utf8(second),
    decreases first.len(),
{
    if first.len() == 0 {
        assert(first + second == second);
    } else {
        lemma_encode_concat(first.drop_first(), second);
        assert((first + second).drop_first() == first.drop_first() + second);
    }
}

} // verus!
