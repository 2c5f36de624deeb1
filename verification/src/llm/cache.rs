//! Keys of the persistent model-response cache: the hex SHA-256 of the
//! model, the prompt version and the payload. The cache table itself
//! lives outside the library.

use vstd::prelude::*;
use vstd::string::StringSliceAdditionalSpecFns;

verus! {

/// The SHA-256 digest of `data`.
pub uninterp spec fn sha256_of(data: Seq<u8>) -> Seq<u8>;

/// `<Sha256 as Digest>::digest` from `sha2`: the SHA-256 digest of
/// `data`, which is 32 bytes long.
#[verifier::external_body]
fn sha256(data: &[u8]) -> (r: Vec<u8>)
    ensures
        r@ == sha256_of(data@),
        r@.len() == 32,
{
    <sha2::Sha256 as sha2::Digest>::digest(data).to_vec()
}

/// The lowercase hexadecimal digit of `d < 16`.
pub open spec fn hex_digit(d: int) -> char {
    if d < 10 {
        (('0' as int) + d) as char
    } else {
        (('a' as int) + d - 10) as char
    }
}

/// Lowercase hex of `b`: two digits per byte, high nibble first.
pub open spec fn hex_text(b: Seq<u8>) -> Seq<char>
    decreases b.len(),
{
    if b.len() == 0 {
        Seq::empty()
    } else {
        hex_text(b.drop_last()) + seq![hex_digit(b.last() as int / 16), hex_digit(b.last() as int % 16)]
    }
}

/// `hex::encode`: each byte as two lowercase hex digits, high nibble
/// first (the crate's `HEX_CHARS_LOWER` table, indexed by `byte >> 4`
/// then `byte & 0x0F`).
#[verifier::external_body]
pub(crate) fn hex_encode(data: &[u8]) -> (r: String)
    ensures
        r@ == hex_text(data@),
{
    hex::encode(data)
}

/// A lowercase hex digit.
pub open spec fn is_hex_digit(c: char) -> bool {
    ('0' <= c && c <= '9') || ('a' <= c && c <= 'f')
}

/// Hex text has two digits per byte, all lowercase hex digits.
pub proof fn lemma_hex_text(b: Seq<u8>)
    ensures
        hex_text(b).len() == 2 * b.len(),
        forall|i: int| 0 <= i < hex_text(b).len() ==> is_hex_digit(#[trigger] hex_text(b)[i]),
    decreases b.len(),
{
    if b.len() > 0 {
        lemma_hex_text(b.drop_last());
        let h = hex_text(b.drop_last());
        let x = b.last() as int / 16;
        let y = b.last() as int % 16;
        assert(0 <= x < 16 && 0 <= y < 16);
        assert(is_hex_digit(hex_digit(x)) && is_hex_digit(hex_digit(y)));
        assert forall|i: int| 0 <= i < hex_text(b).len() implies is_hex_digit(#[trigger] hex_text(b)[i]) by {
            if i < h.len() {
                assert(hex_text(b)[i] == h[i]);
            }
        }
    }
}

/// The bytes hashed for a cache key: model, prompt version and payload
/// separated by `|`.
pub open spec fn key_bytes(model: Seq<u8>, version: Seq<u8>, payload: Seq<u8>) -> Seq<u8> {
    model + seq![124u8] + version + seq![124u8] + payload
}

fn push_bytes(out: &mut Vec<u8>, b: &[u8])
    ensures
        final(out)@ == old(out)@ + b@,
{
    let ghost start = out@;
    let mut i: usize = 0;
    while i < b.len()
        invariant
            i <= b@.len(),
            out@ == start + b@.take(i as int),
        decreases b@.len() - i,
    {
        out.push(b[i]);
        i = i + 1;
        assert(out@ =~= start + b@.take(i as int));
    }
    assert(b@.take(b@.len() as int) =~= b@);
}

/// The cache key of a request: lowercase hex SHA-256 of
/// `model|prompt_version|payload` (UTF-8), 64 characters long.
pub fn hash_key(model: &str, prompt_version: &str, payload: &str) -> (r: String)
    ensures
        r@ == hex_text(
            sha256_of(key_bytes(model.spec_bytes(), prompt_version.spec_bytes(), payload.spec_bytes())),
        ),
        r@.len() == 64,
        forall|i: int| 0 <= i < r@.len() ==> is_hex_digit(#[trigger] r@[i]),
{
    let mut bytes: Vec<u8> = Vec::new();
    push_bytes(&mut bytes, model.as_bytes());
    bytes.push(124u8);
    push_bytes(&mut bytes, prompt_version.as_bytes());
    bytes.push(124u8);
    push_bytes(&mut bytes, payload.as_bytes());
    assert(bytes@ =~= key_bytes(model.spec_bytes(), prompt_version.spec_bytes(), payload.spec_bytes()));
    let digest = sha256(bytes.as_slice());
    proof {
        lemma_hex_text(digest@);
    }
    hex_encode(digest.as_slice())
}

} // verus!
