//! BLAKE3 digests and the identity of a plan file.
use vstd::prelude::*;

use crate::text;

verus! {

/// The BLAKE3 digest of a byte string.
pub uninterp spec fn blake3_digest(input: Seq<u8>) -> [u8; 32];

/// Calls `blake3::hash` and takes the bytes of its result: the digest depends
/// on the bytes of `input` alone.
#[verifier::external_body]
pub(crate) fn blake3_hash(input: &[u8]) -> (digest: [u8; 32])
    ensures
        digest == blake3_digest(input@),
{
    *blake3::hash(input).as_bytes()
}

/// Two lower-case hexadecimal digits for each byte, in order.
pub open spec fn hex_text(bytes: Seq<u8>) -> Seq<char> {
    Seq::new(
        2 * bytes.len(),
        |i: int|
            if i % 2 == 0 {
                text::digit((bytes[i / 2] / 16) as nat)
            } else {
                text::digit((bytes[i / 2] % 16) as nat)
            },
    )
}

/// Calls `blake3::Hash::from_bytes` and `blake3::Hash::to_hex`: the text holds
/// two lower-case hexadecimal digits for each byte, high digit first.
#[verifier::external_body]
fn blake3_hex(bytes: [u8; 32]) -> (text: String)
    ensures
        text@ == hex_text(bytes@),
{
    blake3::Hash::from_bytes(bytes).to_hex().to_string()
}

/// BLAKE3 identity of the complete canonical numeric-plan file.
#[derive(Clone, Copy, Debug, PartialEq, Eq)]
pub struct CanonicalNumericPlanIdentity {
    digest: [u8; 32],
}

impl CanonicalNumericPlanIdentity {
    /// The thirty-two bytes of the identity.
    pub closed spec fn digest(self) -> [u8; 32] {
        self.digest
    }

    /// The identity of the file that holds `bytes`.
    pub fn for_bytes(bytes: &[u8]) -> (identity: Self)
        ensures
            identity.digest() == blake3_digest(bytes@),
    {
        CanonicalNumericPlanIdentity { digest: blake3_hash(bytes) }
    }

    pub fn as_bytes(&self) -> (bytes: &[u8; 32])
        ensures
            *bytes == self.digest(),
    {
        &self.digest
    }

    /// The identity in lower-case hexadecimal.
    pub fn to_text(&self) -> (text: String)
        ensures
            text@ == hex_text(self.digest()@),
            text@.len() == 64,
    {
        blake3_hex(self.digest)
    }
}

/// An identity is its thirty-two bytes: two identities are the same exactly where
/// their bytes are.
pub proof fn law_identity_is_its_bytes(
    first: CanonicalNumericPlanIdentity,
    second: CanonicalNumericPlanIdentity,
)
    ensures
        first == second <==> first.digest() == second.digest(),
        first == second <==> first.digest()@ == second.digest()@,
{
    if first.digest()@ == second.digest()@ {
        assert(first.digest =~= second.digest);
    }
}

/// The digest of `domain` followed by `bytes`.
pub fn domain_digest(domain: &str, json: &[u8]) -> (digest: [u8; 32])
    ensures
        digest == blake3_digest(vstd::utf8::encode_utf8(domain@) + json@),
{
    let mut input: Vec<u8> = Vec::new();
    put_bytes(&mut input, domain.as_bytes());
    put_bytes(&mut input, json);
    proof {
        assert(input@ =~= vstd::utf8::encode_utf8(domain@) + json@);
    }
    blake3_hash(input.as_slice())
}

/// Appends `tail` to `output`.
pub(crate) fn put_bytes(output: &mut Vec<u8>, tail: &[u8])
    ensures
        final(output)@ == old(output)@ + tail@,
{
    let ghost before = output@;
    output.extend_from_slice(tail);
    proof {
        assert(output@ =~= before + tail@);
    }
}

} // verus!
