//! Content digests (SHA-256 written in lower-case hex) and base64 decoding of
//! the payloads that arrive over the network.
use vstd::prelude::*;
use vstd::string::*;

use base64::Engine;
use sha2::Digest;

verus! {

/// The SHA-256 digest of `data` as `sha2::Sha256` computes it.
pub uninterp spec fn sha256_of(data: Seq<u8>) -> Seq<u8>;

/// What `base64::engine::general_purpose::STANDARD.decode` gives for the
/// text `input`: the decoded bytes, or the `Display` text of its error.
pub uninterp spec fn base64_standard_decode(input: Seq<char>) -> Result<Seq<u8>, Seq<char>>;

/// `sha2::Sha256::digest`: the 32-byte SHA-256 digest of `data`. The contract
/// names the result and states its length, which the crate's output type
/// (`GenericArray<u8, U32>`) fixes.
#[verifier::external_body]
fn sha256_bytes(data: &[u8]) -> (r: Vec<u8>)
    ensures
        r@ == sha256_of(data@),
        r@.len() == 32,
{
    sha2::Sha256::digest(data).to_vec()
}

/// `STANDARD.decode` of base64 text (standard alphabet, with padding); an
/// error is handed back as its `Display` text. The contract names the result.
#[verifier::external_body]
fn base64_decode_standard(input: &str) -> (r: Result<Vec<u8>, String>)
    ensures
        match r {
            Ok(v) => base64_standard_decode(input@) == Ok::<Seq<u8>, Seq<char>>(v@),
            Err(e) => base64_standard_decode(input@) == Err::<Seq<u8>, Seq<char>>(e@),
        },
{
    match base64::engine::general_purpose::STANDARD.decode(input) {
        Ok(v) => Ok(v),
        Err(e) => Err(e.to_string()),
    }
}

/// What `base64::engine::general_purpose::STANDARD.encode` gives for the
/// bytes `bytes`.
pub uninterp spec fn base64_standard_encode(bytes: Seq<u8>) -> Seq<char>;

/// `STANDARD.encode` of bytes (standard alphabet, with padding). The
/// contract names the result; that decoding it gives the bytes back is left
/// unstated.
#[verifier::external_body]
fn base64_encode_standard(bytes: &[u8]) -> (r: String)
    ensures
        r@ == base64_standard_encode(bytes@),
{
    base64::engine::general_purpose::STANDARD.encode(bytes)
}

/// The lower-case hexadecimal digit of `n` (0 to 15).
pub open spec fn hex_char(n: int) -> char {
    "0123456789abcdef"@[n]
}

/// The lower-case hexadecimal text of `bytes`, two digits per byte.
pub open spec fn hex_lower(bytes: Seq<u8>) -> Seq<char>
    decreases bytes.len(),
{
    if bytes.len() == 0 {
        Seq::empty()
    } else {
        hex_lower(bytes.drop_last()) + seq![
            hex_char(bytes.last() as int / 16),
            hex_char(bytes.last() as int % 16),
        ]
    }
}

/// The lower-case hex digest of SHA-256 over `data`.
pub open spec fn sha256_hex_spec(data: Seq<u8>) -> Seq<char> {
    hex_lower(sha256_of(data))
}

fn hex_digit(n: u8) -> (r: &'static str)
    requires
        n < 16,
    ensures
        r@ == seq![hex_char(n as int)],
{
    proof {
        reveal_strlit("0123456789abcdef");
    }
    let digits = "0123456789abcdef";
    let r = digits.substring_char(n as usize, n as usize + 1);
    assert(r@ =~= seq![hex_char(n as int)]);
    r
}

/// Encode bytes as lower-case hexadecimal text.
pub fn hex_encode(bytes: &[u8]) -> (r: String)
    ensures
        r@ == hex_lower(bytes@),
{
    let mut out = String::new();
    let mut i: usize = 0;
    while i < bytes.len()
        invariant
            i <= bytes@.len(),
            out@ == hex_lower(bytes@.take(i as int)),
        decreases bytes.len() - i,
    {
        let b = bytes[i];
        out.append(hex_digit(b / 16));
        out.append(hex_digit(b % 16));
        proof {
            let t = bytes@.take(i + 1);
            assert(t.drop_last() =~= bytes@.take(i as int));
            assert(t.last() == b);
        }
        i = i + 1;
    }
    assert(bytes@.take(bytes@.len() as int) =~= bytes@);
    out
}

/// The SHA-256 digest of `data` in lower-case hex, as artifacts are named.
pub fn sha256_hex(data: &[u8]) -> (r: String)
    ensures
        r@ == sha256_hex_spec(data@),
        r@.len() == 64,
        forall|i: int| 0 <= i < r@.len() ==> #[trigger] r@[i] <= '\u{7f}',
{
    let d = sha256_bytes(data);
    proof {
        lemma_hex_lower_ascii(d@);
    }
    hex_encode(d.as_slice())
}

/// Hex text has two ASCII digits per byte.
pub proof fn lemma_hex_lower_ascii(bytes: Seq<u8>)
    ensures
        hex_lower(bytes).len() == 2 * bytes.len(),
        forall|i: int| 0 <= i < hex_lower(bytes).len() ==> #[trigger] hex_lower(bytes)[i] <= '\u{7f}',
    decreases bytes.len(),
{
    reveal_strlit("0123456789abcdef");
    if bytes.len() > 0 {
        lemma_hex_lower_ascii(bytes.drop_last());
        let h = hex_lower(bytes.drop_last());
        let b = bytes.last() as int;
        assert(0 <= b / 16 < 16);
        assert(0 <= b % 16 < 16);
        assert forall|i: int| 0 <= i < hex_lower(bytes).len() implies #[trigger] hex_lower(bytes)[i] <= '\u{7f}' by {
            if i >= h.len() {
                assert(hex_lower(bytes)[i] == hex_char(if i == h.len() { b / 16 } else { b % 16 }));
            } else {
                assert(hex_lower(bytes)[i] == h[i]);
            }
        }
    }
}

/// Decode standard base64 text.
pub fn decode_base64(input: &str) -> (r: Result<Vec<u8>, String>)
    ensures
        match r {
            Ok(v) => base64_standard_decode(input@) == Ok::<Seq<u8>, Seq<char>>(v@),
            Err(e) => base64_standard_decode(input@) == Err::<Seq<u8>, Seq<char>>(e@),
        },
{
    base64_decode_standard(input)
}

/// Encode bytes as standard base64 text.
pub fn encode_base64(bytes: &[u8]) -> (r: String)
    ensures
        r@ == base64_standard_encode(bytes@),
{
    base64_encode_standard(bytes)
}

} // verus!
