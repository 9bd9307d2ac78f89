//! Content hashes: SHA-256 in hexadecimal.

use crate::text::Text;
use sha2::{Digest, Sha256};
use vstd::prelude::*;

verus! {

/// The SHA-256 digest of some bytes.
pub uninterp spec fn sha256(b: Seq<u8>) -> Seq<u8>;

/// `sha2::Sha256::digest`: 32 bytes, which depend on the input alone.
#[verifier::external_body]
fn sha256_digest(bytes: &Vec<u8>) -> (r: Vec<u8>)
    ensures
        r@ == sha256(bytes@),
        r@.len() == 32,
{
    Sha256::digest(bytes).to_vec()
}

/// The hexadecimal digit with the value `d`.
pub open spec fn hex_digit(d: int) -> char {
    crate::numtext::digit_char(d)
}

/// Bytes in hexadecimal, two digits each.
pub open spec fn hex_text(b: Seq<u8>) -> Text
    decreases b.len(),
{
    if b.len() == 0 {
        Seq::empty()
    } else {
        hex_text(b.drop_last()).push(hex_digit(b.last() as int / 16)).push(
            hex_digit(b.last() as int % 16),
        )
    }
}

/// The hexadecimal digit with the value `d`.
fn hex_char(d: u8) -> (r: char)
    requires
        d < 16,
    ensures
        r == hex_digit(d as int),
{
    if d < 10 {
        (d + 48) as char
    } else {
        (d + 87) as char
    }
}

/// Write bytes in hexadecimal.
pub fn hex(b: &Vec<u8>) -> (r: String)
    ensures
        r@ == hex_text(b@),
{
    let mut out = String::new();
    let mut i: usize = 0;
    assert(out@ =~= hex_text(b@.take(0)));
    while i < b.len()
        invariant
            i <= b@.len(),
            out@ == hex_text(b@.take(i as int)),
        decreases b@.len() - i,
    {
        assert(b@.take(i + 1).drop_last() =~= b@.take(i as int));
        out.push(hex_char(b[i] / 16));
        out.push(hex_char(b[i] % 16));
        i += 1;
    }
    assert(b@.take(i as int) =~= b@);
    out
}

/// The content hash of some bytes.
pub fn hash_bytes(bytes: &Vec<u8>) -> (r: String)
    ensures
        r@ == hex_text(sha256(bytes@)),
{
    hex(&sha256_digest(bytes))
}

/// Hexadecimal takes two digits a byte.
pub proof fn law_hex_length(b: Seq<u8>)
    ensures
        hex_text(b).len() == 2 * b.len(),
    decreases b.len(),
{
    if b.len() > 0 {
        law_hex_length(b.drop_last());
    }
}

/// The text of bytes has two digits of base sixteen for each, in order.
pub proof fn law_bytes_as_digits(b: Seq<u8>, i: int)
    requires
        0 <= i < b.len(),
    ensures
        hex_text(b).len() == 2 * b.len(),
        crate::numtext::digits_value(hex_text(b).subrange(2 * i, 2 * i + 2), 16) == Some(
            b[i] as nat,
        ),
    decreases b.len(),
{
    let d = b.drop_last();
    let h = hex_text(d);
    lemma_hex_len(d);
    if i < d.len() {
        law_bytes_as_digits(d, i);
        assert(hex_text(b).subrange(2 * i, 2 * i + 2) =~= h.subrange(2 * i, 2 * i + 2));
    } else {
        let x = b[i] as int / 16;
        let y = b[i] as int % 16;
        let s = hex_text(b).subrange(2 * i, 2 * i + 2);
        assert(s =~= seq![hex_digit(x), hex_digit(y)]);
        assert(s.drop_last() =~= seq![hex_digit(x)]);
        assert(s.drop_last().drop_last() =~= Seq::empty());
        reveal_with_fuel(crate::numtext::digits_value, 3);
        assert(crate::numtext::digit_value(hex_digit(x), 16) == Some(x as nat));
        assert(crate::numtext::digit_value(hex_digit(y), 16) == Some(y as nat));
    }
}

proof fn lemma_hex_len(b: Seq<u8>)
    ensures
        hex_text(b).len() == 2 * b.len(),
    decreases b.len(),
{
    if b.len() > 0 {
        lemma_hex_len(b.drop_last());
    }
}

} // verus!
