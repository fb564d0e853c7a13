use vstd::prelude::*;

use percent_encoding::utf8_percent_encode;
use percent_encoding::NON_ALPHANUMERIC;

use crate::text::chars_of;
use crate::text::concat_str;
use crate::types::card::hex_of;
use crate::types::card::CardHash;

verus! {

/// Is `b` an ASCII letter or digit?
pub open spec fn is_ascii_alnum(b: u8) -> bool {
    (0x30 <= b && b <= 0x39) || (0x41 <= b && b <= 0x5a) || (0x61 <= b && b <= 0x7a)
}

/// The uppercase hexadecimal digit of `d`.
pub open spec fn upper_hex(d: nat) -> char {
    if d < 10 {
        ('0' as nat + d) as char
    } else {
        ('A' as nat + d - 10) as char
    }
}

/// How one byte is percent-encoded with `NON_ALPHANUMERIC`: letters and
/// digits as themselves, any other byte as `%XX`.
pub open spec fn percent_byte(b: u8) -> Seq<char> {
    if is_ascii_alnum(b) {
        seq![b as char]
    } else {
        seq!['%', upper_hex((b / 16) as nat), upper_hex((b % 16) as nat)]
    }
}

/// The percent-encoding of a byte string with `NON_ALPHANUMERIC`.
pub open spec fn percent_encoded(bs: Seq<u8>) -> Seq<char>
    decreases bs.len(),
{
    if bs.len() == 0 {
        seq![]
    } else {
        percent_encoded(bs.drop_last()) + percent_byte(bs.last())
    }
}

/// `percent_encoding::utf8_percent_encode` with `NON_ALPHANUMERIC`: every
/// byte of the UTF-8 encoding of `s` that is not an ASCII letter or digit
/// becomes `%` and two uppercase hexadecimal digits.
#[verifier::external_body]
pub(crate) fn percent_encode(s: &str) -> (r: String)
    ensures
        r@ == percent_encoded(vstd::utf8::encode_utf8(s@)),
{
    utf8_percent_encode(s, NON_ALPHANUMERIC).to_string()
}

/// The URL of a deck.
pub open spec fn deck_url_of(name: Seq<char>) -> Seq<char> {
    "/deck/"@ + percent_encoded(vstd::utf8::encode_utf8(name))
}

/// Generate the URL of a deck from its name.
pub fn deck_url(name: &str) -> (r: String)
    ensures
        r@ == deck_url_of(name@),
{
    let encoded = percent_encode(name);
    concat_str("/deck/", encoded.as_str())
}

/// The URL of a basic card.
pub open spec fn basic_card_url_of(hash: CardHash) -> Seq<char> {
    "/card/basic/"@ + hex_of(hash.value as nat, 16)
}

/// The URL of a cloze family.
pub open spec fn cloze_family_url_of(family: CardHash) -> Seq<char> {
    "/card/cloze/"@ + hex_of(family.value as nat, 16)
}

/// The URL of a basic card.
pub fn basic_card_url(hash: CardHash) -> (r: String)
    ensures
        r@ == basic_card_url_of(hash),
{
    let hex = hash.to_hex();
    concat_str("/card/basic/", hex.as_str())
}

/// The URL of a cloze card's family.
pub fn cloze_family_url(family: CardHash) -> (r: String)
    ensures
        r@ == cloze_family_url_of(family),
{
    let hex = family.to_hex();
    concat_str("/card/cloze/", hex.as_str())
}

} // verus!
