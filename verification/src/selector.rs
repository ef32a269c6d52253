use vstd::prelude::*;

verus! {

/// The Keccak-256 digest (32 bytes) of the UTF-8 form of a string;
/// a fixed function of the characters alone.
pub uninterp spec fn keccak256_of(s: Seq<char>) -> Seq<u8>;

/// The 4-byte ABI selector of a canonical signature string: the first
/// four bytes of its Keccak-256 digest.
pub open spec fn spec_selector(sig: Seq<char>) -> Seq<u8> {
    keccak256_of(sig).take(4)
}

/// Law: selector derivation is deterministic — equal signature
/// strings always yield the same selector, so recomputation is
/// idempotent and no caching is needed.
pub proof fn lemma_selector_deterministic(s1: Seq<char>, s2: Seq<char>)
    requires
        s1 == s2,
    ensures
        spec_selector(s1) == spec_selector(s2),
{
}

/// Relies on `ethers::utils::keccak256`: hashes the UTF-8 bytes of
/// the string and returns the 32-byte digest, a function of the input
/// alone.
#[verifier::external_body]
fn keccak256_str(s: &str) -> (r: Vec<u8>)
    ensures
        r@ == keccak256_of(s@),
        r@.len() == 32,
{
    ethers::utils::keccak256(s.as_bytes()).to_vec()
}

/// Derives the 4-byte function selector of a canonical signature
/// string (no whitespace, no parameter names).  Deterministic: the
/// result is pinned to the digest of the signature characters.
pub fn derive_selector(signature: &str) -> (r: Vec<u8>)
    ensures
        r@ == spec_selector(signature@),
        r@.len() == 4,
{
    let h = keccak256_str(signature);
    let mut r: Vec<u8> = Vec::new();
    r.push(h[0]);
    r.push(h[1]);
    r.push(h[2]);
    r.push(h[3]);
    proof {
        assert(r@ =~= keccak256_of(signature@).take(4));
    }
    r
}

} // verus!
