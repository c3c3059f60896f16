//! Percent-encoding of the original path in a `.trashinfo` file, done by the
//! `urlencoding` crate.
use vstd::prelude::*;

verus! {

/// Bytes that percent-encoding keeps as they are: ASCII letters and digits
/// and `-`, `.`, `_`, `~`.
pub open spec fn is_unreserved(b: u8) -> bool {
    (48 <= b <= 57) || (65 <= b <= 90) || (97 <= b <= 122) || b == 45 || b == 46 || b == 95
        || b == 126
}

/// The upper-case hexadecimal digit for `d` (below 16).
pub open spec fn hex_upper(d: u8) -> u8 {
    if d < 10 {
        (48 + d) as u8
    } else {
        (55 + d) as u8
    }
}

/// The value of a hexadecimal digit of either case.
pub open spec fn hex_value(b: u8) -> Option<u8> {
    if 48 <= b <= 57 {
        Some((b - 48) as u8)
    } else if 65 <= b <= 70 {
        Some((b - 55) as u8)
    } else if 97 <= b <= 102 {
        Some((b - 87) as u8)
    } else {
        None
    }
}

/// The encoding of one byte: itself, or `%` and two upper-case hex digits.
pub open spec fn encoded_byte(b: u8) -> Seq<u8> {
    if is_unreserved(b) {
        seq![b]
    } else {
        seq![37u8, hex_upper(b >> 4u8), hex_upper(b & 15u8)]
    }
}

/// What `urlencoding::encode_binary` gives for `s`.
pub open spec fn percent_encoded(s: Seq<u8>) -> Seq<u8>
    decreases s.len(),
{
    if s.len() == 0 {
        seq![]
    } else {
        encoded_byte(s[0]) + percent_encoded(s.drop_first())
    }
}

/// What `urlencoding::decode_binary` gives for `s`: `%` and two hex digits
/// become the byte they spell; everything else stays as it is.
pub open spec fn percent_decoded(s: Seq<u8>) -> Seq<u8>
    decreases s.len(),
{
    if s.len() == 0 {
        seq![]
    } else if s[0] != 37u8 {
        seq![s[0]] + percent_decoded(s.drop_first())
    } else if s.len() < 3 {
        s
    } else {
        match (hex_value(s[1]), hex_value(s[2])) {
            (Some(h), Some(l)) => seq![(h * 16 + l) as u8] + percent_decoded(s.skip(3)),
            (Some(_), None) => seq![37u8, s[1]] + percent_decoded(s.skip(2)),
            _ => seq![37u8] + percent_decoded(s.drop_first()),
        }
    }
}

/// Calls `urlencoding::encode_binary`. Claimed: the result is
/// `percent_encoded` of the input (every byte but ASCII letters, digits and
/// `-._~` written as `%` and two upper-case hex digits).
#[verifier::external_body]
pub(crate) fn url_encode(data: &[u8]) -> (r: Vec<u8>)
    ensures
        r@ == percent_encoded(data@),
{
    urlencoding::encode_binary(data).into_owned().into_bytes()
}

/// Calls `urlencoding::decode_binary`. Claimed: the result is
/// `percent_decoded` of the input.
#[verifier::external_body]
pub(crate) fn url_decode(data: &[u8]) -> (r: Vec<u8>)
    ensures
        r@ == percent_decoded(data@),
{
    urlencoding::decode_binary(data).into_owned()
}

proof fn lemma_hex_roundtrip(b: u8)
    ensures
        hex_value(hex_upper(b >> 4u8)) == Some(b >> 4u8),
        hex_value(hex_upper(b & 15u8)) == Some(b & 15u8),
        ((b >> 4u8) * 16 + (b & 15u8)) as u8 == b,
        hex_upper(b >> 4u8) != 37u8,
{
    assert(b >> 4u8 < 16u8) by (bit_vector);
    assert(b & 15u8 < 16u8) by (bit_vector);
    assert(((b >> 4u8) * 16 + (b & 15u8)) as u8 == b) by (bit_vector);
}

/// Decoding gives back what encoding was given.
pub proof fn lemma_decode_encode(s: Seq<u8>)
    ensures
        percent_decoded(percent_encoded(s)) == s,
    decreases s.len(),
{
    if s.len() > 0 {
        let rest = s.drop_first();
        lemma_decode_encode(rest);
        let e = percent_encoded(s);
        let er = percent_encoded(rest);
        let b = s[0];
        assert(e == encoded_byte(b) + er);
        if is_unreserved(b) {
            assert(e.drop_first() =~= er);
        } else {
            lemma_hex_roundtrip(b);
            assert(e.skip(3) =~= er);
            assert(e[1] == hex_upper(b >> 4u8));
            assert(e[2] == hex_upper(b & 15u8));
        }
        assert(seq![s[0]] + rest =~= s);
    }
}

/// An encoded text is made of unreserved bytes, `%` and hex digits only: it
/// holds no line break, carriage return or `=`.
pub proof fn lemma_encoded_bytes(s: Seq<u8>)
    ensures
        forall|i: int|
            0 <= i < percent_encoded(s).len() ==> {
                let c = #[trigger] percent_encoded(s)[i];
                c != 10u8 && c != 13u8 && c != 61u8
            },
    decreases s.len(),
{
    if s.len() > 0 {
        lemma_encoded_bytes(s.drop_first());
        let b = s[0];
        let hb = encoded_byte(b);
        let e = percent_encoded(s);
        assert(b >> 4u8 < 16u8) by (bit_vector);
        assert(b & 15u8 < 16u8) by (bit_vector);
        assert forall|i: int| 0 <= i < e.len() implies {
            let c = #[trigger] e[i];
            c != 10u8 && c != 13u8 && c != 61u8
        } by {
            if i >= hb.len() {
                assert(e[i] == percent_encoded(s.drop_first())[i - hb.len()]);
            }
        }
    }
}

} // verus!
