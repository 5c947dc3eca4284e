//! UUIDs: how they are read, written and made.

use crate::wire::be_value;
use uuid::Uuid;
use vstd::prelude::*;
use vstd::string::*;
use vstd::utf8::*;

verus! {

/// What a hexadecimal digit is worth.
pub open spec fn hex_value(c: u8) -> Option<u8> {
    if 48 <= c <= 57 {
        Some((c - 48) as u8)
    } else if 65 <= c <= 70 {
        Some((c - 55) as u8)
    } else if 97 <= c <= 102 {
        Some((c - 87) as u8)
    } else {
        None
    }
}

/// The sixteen bytes that thirty-two hexadecimal digits spell.
pub open spec fn hex_bytes(s: Seq<u8>) -> Option<Seq<u8>> {
    if s.len() == 32 && forall|i: int| 0 <= i < 32 ==> hex_value(#[trigger] s[i]) is Some {
        Some(
            Seq::new(
                16,
                |i: int| (hex_value(s[2 * i])->0 * 16 + hex_value(s[2 * i + 1])->0) as u8,
            ),
        )
    } else {
        None
    }
}

/// The sixteen bytes that five groups of digits spell, with hyphens between them.
pub open spec fn hyphenated_bytes(s: Seq<u8>) -> Option<Seq<u8>> {
    if s.len() == 36 && s[8] == 45 && s[13] == 45 && s[18] == 45 && s[23] == 45 {
        hex_bytes(
            s.subrange(0, 8) + s.subrange(9, 13) + s.subrange(14, 18) + s.subrange(19, 23)
                + s.subrange(24, 36),
        )
    } else {
        None
    }
}

/// An ASCII letter in lower case; other bytes as they are.
pub open spec fn lower_case(c: u8) -> u8 {
    if 65 <= c <= 90 {
        (c + 32) as u8
    } else {
        c
    }
}

/// The prefix `urn:uuid:`.
pub open spec fn urn_prefix() -> Seq<u8> {
    seq![117, 114, 110, 58, 117, 117, 105, 100, 58]
}

/// The UUID that a text spells: digits alone, five groups with hyphens, the same in braces,
/// or the same behind `urn:uuid:` in either case.
pub open spec fn uuid_of_text(text: Seq<char>) -> Option<Seq<u8>> {
    let s = encode_utf8(text);
    if s.len() == 32 {
        hex_bytes(s)
    } else if s.len() == 36 {
        hyphenated_bytes(s)
    } else if s.len() == 38 && s[0] == 123 && s[37] == 125 {
        hyphenated_bytes(s.subrange(1, 37))
    } else if s.len() == 45 && s.take(9).map_values(|c: u8| lower_case(c)) == urn_prefix() {
        hyphenated_bytes(s.skip(9))
    } else {
        None
    }
}

/// The lower-case digit of a value below sixteen.
pub open spec fn hex_char(d: nat) -> char {
    if d < 10 {
        (48 + d) as char
    } else {
        (87 + d) as char
    }
}

/// The last `width` hexadecimal digits of a number.
pub open spec fn hex_text(n: nat, width: nat) -> Seq<char>
    decreases width,
{
    if width == 0 {
        Seq::empty()
    } else {
        hex_text(n / 16, (width - 1) as nat).push(hex_char(n % 16))
    }
}

/// A UUID as five groups of lower-case digits with hyphens between them.
pub open spec fn uuid_text(id: u128) -> Seq<char> {
    let h = hex_text(id as nat, 32);
    h.subrange(0, 8).push('-') + h.subrange(8, 12).push('-') + h.subrange(12, 16).push('-')
        + h.subrange(16, 20).push('-') + h.subrange(20, 32)
}

/// Whether an identifier has the marks of a random UUID: version 4, variant 10.
pub open spec fn is_random_id(id: u128) -> bool {
    &&& id / 0x1000_0000_0000_0000_0000 % 16 == 4
    &&& id / 0x4000_0000_0000_0000 % 4 == 2
}

/// The words in which the error of `Uuid::parse_str` says why a text is no UUID.
pub uninterp spec fn uuid_error(text: Seq<char>) -> Seq<char>;

/// `Uuid::parse_str`: the bytes of the UUID that a text spells. For other texts, the error in
/// the words of the crate, which depend on the text alone; what they are is left unsaid.
#[verifier::external_body]
pub(crate) fn parse_uuid(s: &str) -> (r: Result<[u8; 16], String>)
    ensures
        r is Ok == uuid_of_text(s@) is Some,
        r matches Ok(b) ==> uuid_of_text(s@) == Some(b@),
        r matches Err(e) ==> e@ == uuid_error(s@),
{
    match Uuid::parse_str(s) {
        Ok(u) => Ok(u.into_bytes()),
        Err(e) => Err(e.to_string()),
    }
}

/// `Uuid::new_v4`: a fresh random UUID. All that is known of it are the bits that mark it as
/// random; it panics when the system has no randomness to give.
#[verifier::external_body]
pub(crate) fn random_uuid() -> (r: u128)
    ensures
        is_random_id(r),
{
    Uuid::new_v4().as_u128()
}

/// `Uuid::to_string`: the text of a UUID.
#[verifier::external_body]
pub(crate) fn format_uuid(id: u128) -> (r: String)
    ensures
        r@ == uuid_text(id),
{
    Uuid::from_u128(id).to_string()
}

/// A fresh identifier for a connection. Which one it is depends on chance.
pub fn new_connection_id() -> (r: u128)
    ensures
        is_random_id(r),
{
    random_uuid()
}

/// The number that the sixteen bytes of a UUID spell.
pub fn uuid_key(id: &[u8; 16]) -> (r: u128)
    ensures
        r == be_value(id@),
{
    let mut key: u128 = 0;
    let mut i: usize = 0;
    while i < 16
        invariant
            i <= 16,
            id@.len() == 16,
            key == be_value(id@.take(i as int)),
        decreases 16 - i,
    {
        proof {
            lemma_be_value_bound(id@.take(i as int), 15);
            assert(id@.take(i + 1).drop_last() =~= id@.take(i as int));
        }
        key = key * 256 + id[i] as u128;
        i = i + 1;
    }
    assert(id@.take(16) =~= id@);
    key
}

/// The power of 256 that `n` bytes can spell numbers below.
pub open spec fn byte_power(n: nat) -> nat
    decreases n,
{
    if n == 0 {
        1
    } else {
        byte_power((n - 1) as nat) * 256
    }
}

/// Few bytes spell a small number.
pub proof fn lemma_be_value_bound(s: Seq<u8>, n: nat)
    requires
        s.len() <= n <= 15,
    ensures
        be_value(s) < byte_power(n) <= 0x1_0000_0000_0000_0000_0000_0000_0000_00,
    decreases s.len(), n,
{
    reveal_with_fuel(byte_power, 16);
    if s.len() > 0 {
        lemma_be_value_bound(s.drop_last(), (n - 1) as nat);
    }
}

/// Different bytes of the same number spell different numbers.
pub proof fn lemma_be_value_injective(a: Seq<u8>, b: Seq<u8>)
    requires
        a.len() == b.len(),
        be_value(a) == be_value(b),
    ensures
        a == b,
    decreases a.len(),
{
    if a.len() > 0 {
        lemma_be_value_injective(a.drop_last(), b.drop_last());
        assert(a =~= a.drop_last().push(a.last()));
        assert(b =~= b.drop_last().push(b.last()));
    } else {
        assert(a =~= b);
    }
}

} // verus!
