//! Bytes as text: base64 for headers, checksums for uploads.
use vstd::prelude::*;

verus! {

/// The character that stands for six bits in the standard base64 alphabet.
pub open spec fn base64_char(v: int) -> char {
    if v < 26 {
        ('A' as u32 + v) as char
    } else if v < 52 {
        ('a' as u32 + v - 26) as char
    } else if v < 62 {
        ('0' as u32 + v - 52) as char
    } else if v == 62 {
        '+'
    } else {
        '/'
    }
}

/// Bytes in the standard base64 encoding, with padding: four characters for each three bytes.
pub open spec fn base64_of(b: Seq<u8>) -> Seq<char>
    decreases b.len(),
{
    if b.len() == 0 {
        Seq::empty()
    } else if b.len() == 1 {
        seq![base64_char(b[0] as int / 4), base64_char(b[0] as int % 4 * 16), '=', '=']
    } else if b.len() == 2 {
        seq![
            base64_char(b[0] as int / 4),
            base64_char(b[0] as int % 4 * 16 + b[1] as int / 16),
            base64_char(b[1] as int % 16 * 4),
            '=',
        ]
    } else {
        seq![
            base64_char(b[0] as int / 4),
            base64_char(b[0] as int % 4 * 16 + b[1] as int / 16),
            base64_char(b[1] as int % 16 * 4 + b[2] as int / 64),
            base64_char(b[2] as int % 64),
        ] + base64_of(b.skip(3))
    }
}

/// Whether the base64 encoding of so many bytes can be held in memory.
pub open spec fn base64_fits(len: nat) -> bool {
    (len + 2) / 3 * 4 <= isize::MAX
}

/// `encode` of the engine `base64::engine::general_purpose::STANDARD`: the encoding that RFC 4648
/// calls base64. It panics where the result cannot be held in memory.
#[verifier::external_body]
pub(crate) fn base64_text(bytes: &[u8]) -> (r: String)
    requires
        base64_fits(bytes@.len()),
    ensures
        r@ == base64_of(bytes@),
{
    base64::Engine::encode(&base64::engine::general_purpose::STANDARD, bytes)
}

/// Whether so many bytes can be encoded.
pub fn can_encode(len: usize) -> (r: bool)
    ensures
        r == base64_fits(len as nat),
{
    (len as u128 + 2) / 3 * 4 <= isize::MAX as u128
}

/// The MD5 checksum of some bytes, as `md5::compute` gives it, in lower-case hexadecimal.
pub uninterp spec fn md5_hex(bytes: Seq<u8>) -> Seq<char>;

/// A digit of lower-case hexadecimal.
pub open spec fn is_lower_hex(c: char) -> bool {
    '0' <= c <= '9' || 'a' <= c <= 'f'
}

/// `md5::compute` and the lower-case hexadecimal text of the digest: two digits for each of its
/// sixteen bytes.
#[verifier::external_body]
pub(crate) fn md5_text(bytes: &[u8]) -> (r: String)
    ensures
        r@ == md5_hex(bytes@),
        r@.len() == 32,
        forall|i: int| 0 <= i < 32 ==> is_lower_hex(#[trigger] r@[i]),
{
    format!("{:x}", md5::compute(bytes))
}

/// A character that may stand in the value of an HTTP header.
pub open spec fn is_header_char(c: char) -> bool {
    ' ' <= c <= '~'
}

/// Encoded bytes can be sent in a header: they are four characters for each three bytes begun, all of
/// them printable ASCII.
pub proof fn base64_is_header_text(b: Seq<u8>)
    ensures
        base64_of(b).len() == (b.len() + 2) / 3 * 4,
        forall|i: int| 0 <= i < base64_of(b).len() ==> is_header_char(#[trigger] base64_of(b)[i]),
    decreases b.len(),
{
    if b.len() > 2 {
        base64_is_header_text(b.skip(3));
        let rest = base64_of(b.skip(3));
        assert forall|i: int| 0 <= i < base64_of(b).len() implies is_header_char(
            #[trigger] base64_of(b)[i],
        ) by {
            if i >= 4 {
                assert(base64_of(b)[i] == rest[i - 4]);
            }
        }
    }
}

} // verus!
