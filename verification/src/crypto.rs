//! Hashing, message authentication and hex coding, from the `sha2`, `hmac`
//! and `hex` crates.
use hmac::{Hmac, Mac};
use sha2::{Digest, Sha256};
use vstd::prelude::*;
use vstd::utf8::{encode_utf8, is_ascii_chars, is_ascii_chars_encode_utf8};

verus! {

/// The SHA-256 digest of a byte string.
pub uninterp spec fn spec_sha256(data: Seq<u8>) -> Seq<u8>;

/// The HMAC-SHA256 tag of `message` under `key`.
pub uninterp spec fn spec_hmac_sha256(key: Seq<u8>, message: Seq<u8>) -> Seq<u8>;

/// Trusted: `sha2::Sha256::digest` (from `digest::Digest`). Its result is the
/// SHA-256 digest of `data`, named `spec_sha256`; nothing more is claimed.
#[verifier::external_body]
pub(crate) fn sha256_digest(data: &[u8]) -> (r: Vec<u8>)
    ensures
        r@ == spec_sha256(data@),
{
    Sha256::digest(data).to_vec()
}

/// Trusted: keys an `hmac::Hmac<Sha256>` with `key`
/// (`Mac::new_from_slice`, which takes keys of any length), feeds it
/// `message` and checks `tag` with `Mac::verify_slice`, which accepts exactly
/// a tag of the full output length equal to the computed one (compared in
/// constant time). Claimed: the answer is whether `tag` is the HMAC-SHA256
/// tag named `spec_hmac_sha256(key, message)`.
#[verifier::external_body]
pub(crate) fn hmac_sha256_matches(key: &[u8], message: &[u8], tag: &[u8]) -> (r: bool)
    ensures
        r == (tag@ == spec_hmac_sha256(key@, message@)),
{
    match <Hmac<Sha256> as Mac>::new_from_slice(key) {
        Ok(mut mac) => {
            mac.update(message);
            mac.verify_slice(tag).is_ok()
        },
        Err(_) => false,
    }
}

/// Lower-case hex digit for a value below 16.
pub open spec fn hex_digit_lower(d: int) -> char {
    if d < 10 {
        ((d + 48) as u32) as char
    } else {
        ((d - 10 + 97) as u32) as char
    }
}

/// Lower-case hex text of a byte string, two digits per byte, high nibble first.
pub open spec fn spec_hex_lower(data: Seq<u8>) -> Seq<char>
    decreases data.len(),
{
    if data.len() == 0 {
        seq![]
    } else {
        seq![hex_digit_lower(data[0] as int / 16), hex_digit_lower(data[0] as int % 16)] + spec_hex_lower(
            data.drop_first(),
        )
    }
}

/// The value of a hex digit byte (either case), if it is one.
pub open spec fn hex_value(b: u8) -> Option<int> {
    if 48 <= b <= 57 {
        Some(b - 48)
    } else if 65 <= b <= 70 {
        Some(b - 65 + 10)
    } else if 97 <= b <= 102 {
        Some(b - 97 + 10)
    } else {
        None
    }
}

/// Hex decoding: even length, hex digits only, two digits per byte.
pub open spec fn spec_hex_decode(text: Seq<u8>) -> Option<Seq<u8>> {
    if text.len() % 2 != 0 {
        None
    } else if exists|i: int| 0 <= i < text.len() && hex_value(#[trigger] text[i]) is None {
        None
    } else {
        Some(
            Seq::new(
                (text.len() / 2) as nat,
                |i: int| (hex_value(text[2 * i])->0 * 16 + hex_value(text[2 * i + 1])->0) as u8,
            ),
        )
    }
}

/// Trusted: `hex::encode`, which writes each byte as two lower-case hex
/// digits, high nibble first (`spec_hex_lower`).
#[verifier::external_body]
pub(crate) fn hex_encode(data: &[u8]) -> (r: String)
    ensures
        r@ == spec_hex_lower(data@),
{
    hex::encode(data)
}

/// Trusted: `hex::decode`, which fails on odd length or on a byte that is no
/// hex digit of either case, and otherwise turns each pair of digits into a
/// byte (`spec_hex_decode`).
#[verifier::external_body]
pub(crate) fn hex_decode(text: &[u8]) -> (r: Option<Vec<u8>>)
    ensures
        match r {
            Some(v) => spec_hex_decode(text@) == Some(v@),
            None => spec_hex_decode(text@) is None,
        },
{
    match hex::decode(text) {
        Ok(v) => Some(v),
        Err(_) => None,
    }
}

proof fn lemma_hex_lower_shape(data: Seq<u8>)
    ensures
        spec_hex_lower(data).len() == 2 * data.len(),
        forall|i: int|
            0 <= i < data.len() ==> spec_hex_lower(data)[2 * i] == hex_digit_lower(
                #[trigger] data[i] as int / 16,
            ) && spec_hex_lower(data)[2 * i + 1] == hex_digit_lower(data[i] as int % 16),
    decreases data.len(),
{
    if data.len() > 0 {
        let rest = data.drop_first();
        lemma_hex_lower_shape(rest);
        let h = spec_hex_lower(data);
        let t = spec_hex_lower(rest);
        assert forall|i: int| 0 <= i < data.len() implies h[2 * i] == hex_digit_lower(
            #[trigger] data[i] as int / 16,
        ) && h[2 * i + 1] == hex_digit_lower(data[i] as int % 16) by {
            if i > 0 {
                assert(data[i] == rest[i - 1]);
                assert(h[2 * i] == t[2 * (i - 1)]);
                assert(h[2 * i + 1] == t[2 * (i - 1) + 1]);
            }
        }
    }
}

proof fn lemma_hex_digit(d: int)
    requires
        0 <= d < 16,
    ensures
        '\0' <= hex_digit_lower(d) <= '\u{7f}',
        hex_value(hex_digit_lower(d) as u8) == Some(d),
        ('0' <= hex_digit_lower(d) && hex_digit_lower(d) <= '9') || ('a' <= hex_digit_lower(d)
            && hex_digit_lower(d) <= 'f'),
{
    assert('0' as u32 == 48);
    assert('9' as u32 == 57);
    assert('a' as u32 == 97);
    assert('f' as u32 == 102);
}

/// Hex text is written with lower-case digits only.
pub proof fn law_hex_lower_digits(data: Seq<u8>)
    ensures
        forall|i: int|
            0 <= i < spec_hex_lower(data).len() ==> ('0' <= #[trigger] spec_hex_lower(data)[i]
                && spec_hex_lower(data)[i] <= '9') || ('a' <= spec_hex_lower(data)[i]
                && spec_hex_lower(data)[i] <= 'f'),
{
    lemma_hex_lower_shape(data);
    let h = spec_hex_lower(data);
    assert forall|i: int| 0 <= i < h.len() implies ('0' <= #[trigger] h[i] && h[i] <= '9') || (
    'a' <= h[i] && h[i] <= 'f') by {
        let k = i / 2;
        assert(0 <= k < data.len());
        lemma_hex_digit(data[k] as int / 16);
        lemma_hex_digit(data[k] as int % 16);
        if i % 2 == 0 {
            assert(i == 2 * k);
        } else {
            assert(i == 2 * k + 1);
        }
    }
}

/// Decoding written hex gives the bytes back.
pub proof fn law_hex_roundtrip(data: Seq<u8>)
    ensures
        spec_hex_decode(encode_utf8(spec_hex_lower(data))) == Some(data),
{
    lemma_hex_lower_shape(data);
    let h = spec_hex_lower(data);
    assert forall|i: int| 0 <= i < h.len() implies '\0' <= #[trigger] h[i] <= '\u{7f}'
        && hex_value(h[i] as u8) is Some by {
        let k = i / 2;
        lemma_hex_digit(data[k] as int / 16);
        lemma_hex_digit(data[k] as int % 16);
        if i % 2 == 0 {
            assert(i == 2 * k);
        } else {
            assert(i == 2 * k + 1);
        }
    }
    assert(is_ascii_chars(h));
    is_ascii_chars_encode_utf8(h);
    let b = encode_utf8(h);
    assert(b.len() % 2 == 0);
    assert(!(exists|i: int| 0 <= i < b.len() && hex_value(#[trigger] b[i]) is None)) by {
        assert forall|i: int| 0 <= i < b.len() implies hex_value(#[trigger] b[i]) is Some by {
            assert(b[i] == h[i] as u8);
        }
    }
    let decoded = Seq::new(
        (b.len() / 2) as nat,
        |i: int| (hex_value(b[2 * i])->0 * 16 + hex_value(b[2 * i + 1])->0) as u8,
    );
    assert forall|i: int| 0 <= i < data.len() implies decoded[i] == data[i] by {
        lemma_hex_digit(data[i] as int / 16);
        lemma_hex_digit(data[i] as int % 16);
        assert(b[2 * i] == h[2 * i] as u8);
        assert(b[2 * i + 1] == h[2 * i + 1] as u8);
        assert((data[i] as int / 16) * 16 + data[i] as int % 16 == data[i] as int);
    }
    assert(decoded =~= data);
}

} // verus!
