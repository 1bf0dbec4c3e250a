//! Trusted wrappers around the hashing and signing primitives, and the
//! verified check that keeps the verifier inside its safe domain.
//!
//! The wrappers are `external_body`: their contracts name what the outside
//! calls return, and the rest of the crate is verified against those
//! names.  `check_point_text` and its spec are ordinary verified code.

use vstd::prelude::*;

verus! {

/// The SHA-256 digest of a byte string.
pub uninterp spec fn sha256_of(data: Seq<u8>) -> Seq<u8>;

/// Whether a Schnorr P-256 signature over `msg` by the key behind `id`
/// checks out.  `id` and `sig` are the JSON texts of the public key and the
/// signature; a text that does not decode never verifies.
pub uninterp spec fn schnorr_verifies(id: Seq<u8>, msg: Seq<u8>, sig: Seq<u8>) -> bool;

/// Whether a byte string decodes as the JSON text of a P-256 public key.
pub uninterp spec fn identity_decodes(id: Seq<u8>) -> bool;

/// Whether a byte string decodes as the JSON text of a P-256 signing key.
pub uninterp spec fn secret_decodes(sk: Seq<u8>) -> bool;

/// Whether the two texts are a matching P-256 keypair as `generate_keys`
/// writes them: the signing key and the public key it determines, each in
/// its canonical text.
pub uninterp spec fn keypair_of(sk: Seq<u8>, id: Seq<u8>) -> bool;

/// Whether byte string `a` is below `b`, both read as little-endian
/// integers of one length: decided by the most significant differing byte.
pub open spec fn lt_bytes_le(a: Seq<u8>, b: Seq<u8>) -> bool
    decreases a.len(),
{
    if a.len() == 0 {
        false
    } else if a.last() != b.last() {
        a.last() < b.last()
    } else {
        lt_bytes_le(a.drop_last(), b.drop_last())
    }
}

/// The field prime of the P-256 curve, in little-endian bytes.
pub open spec fn p256_field_le() -> Seq<u8> {
    seq![
        255u8, 255, 255, 255, 255, 255, 255, 255, 255, 255, 255, 255, 0, 0, 0, 0, 0, 0, 0, 0, 0,
        0, 0, 0, 1, 0, 0, 0, 255, 255, 255, 255,
    ]
}

/// Whether an identity text is one this library hands to the verifier:
/// the canonical compact JSON of a 64-byte point encoding whose two
/// coordinates are reduced below the field prime.  The point arithmetic of
/// the outside verifier is partial on unreduced coordinates, so texts
/// outside this set never reach it and verify as false.
pub open spec fn accepted_point_text(id: Seq<u8>) -> bool {
    match crate::json::parse_bytes(id) {
        Option::Some((b, k)) => k == id.len() && b.len() == 64 && lt_bytes_le(
            b.take(32),
            p256_field_le(),
        ) && lt_bytes_le(b.skip(32), p256_field_le()),
        Option::None => false,
    }
}

/// Whether the 32 bytes of `a` from `a_at` on, read little-endian, are
/// below the 32-byte value `b`.
fn lt_le_at(a: &Vec<u8>, a_at: usize, b: &Vec<u8>) -> (r: bool)
    requires
        a_at + 32 <= a.len(),
        b@.len() == 32,
    ensures
        r == lt_bytes_le(a@.subrange(a_at as int, a_at + 32), b@),
{
    let mut i: usize = 32;
    assert(b@.take(32) =~= b@);
    while i > 0
        invariant
            i <= 32,
            a_at + 32 <= a.len(),
            b@.len() == 32,
            forall|j: int| i <= j < 32 ==> a@[a_at + j] == b@[j],
            lt_bytes_le(a@.subrange(a_at as int, a_at + 32), b@) == lt_bytes_le(
                a@.subrange(a_at as int, a_at + i),
                b@.take(i as int),
            ),
        decreases i,
    {
        i = i - 1;
        let ghost pa = a@.subrange(a_at as int, a_at + i + 1);
        let ghost pb = b@.take(i + 1);
        assert(pa.last() == a@[a_at + i] && pb.last() == b@[i as int]);
        assert(pa.drop_last() =~= a@.subrange(a_at as int, a_at + i));
        assert(pb.drop_last() =~= b@.take(i as int));
        if a[a_at + i] != b[i] {
            return a[a_at + i] < b[i];
        }
    }
    assert(a@.subrange(a_at as int, a_at as int).len() == 0);
    false
}

/// Whether an identity text is one this library hands to the verifier, as
/// `accepted_point_text` describes.
pub fn check_point_text(id: &Vec<u8>) -> (r: bool)
    ensures
        r == accepted_point_text(id@),
{
    let (b, k) = match crate::json::read_bytes(id, 0) {
        Option::Some(p) => p,
        Option::None => {
            assert(id@.skip(0) =~= id@);
            return false;
        },
    };
    assert(id@.skip(0) =~= id@);
    if k != id.len() || b.len() != 64 {
        return false;
    }
    let mut prime: Vec<u8> = Vec::new();
    push_p256_field(&mut prime);
    assert(b@.subrange(0, 32) =~= b@.take(32));
    assert(b@.subrange(32, 64) =~= b@.skip(32));
    lt_le_at(&b, 0, &prime) && lt_le_at(&b, 32, &prime)
}

/// The field prime's bytes, appended to `out`.
fn push_p256_field(out: &mut Vec<u8>)
    requires
        old(out)@.len() == 0,
    ensures
        final(out)@ == p256_field_le(),
{
    let mut i: usize = 0;
    while i < 12
        invariant
            i <= 12,
            out@ =~= p256_field_le().take(i as int),
        decreases 12 - i,
    {
        out.push(255);
        assert(out@ =~= p256_field_le().take(i + 1));
        i = i + 1;
    }
    while i < 24
        invariant
            12 <= i <= 24,
            out@ =~= p256_field_le().take(i as int),
        decreases 24 - i,
    {
        out.push(0);
        assert(out@ =~= p256_field_le().take(i + 1));
        i = i + 1;
    }
    out.push(1);
    out.push(0);
    out.push(0);
    out.push(0);
    out.push(255);
    out.push(255);
    out.push(255);
    out.push(255);
    assert(out@ =~= p256_field_le());
}

/// Relies on sha2::Sha256::digest: a 32-byte digest, a function of the
/// input bytes alone.
#[verifier::external_body]
pub(crate) fn sha256(data: &Vec<u8>) -> (r: Vec<u8>)
    ensures
        r@ == sha256_of(data@),
        r@.len() == 32,
{
    <sha2::Sha256 as sha2::Digest>::digest(data.as_slice()).to_vec()
}

/// Relies on schnorr_rs::SignatureScheme::verify over P-256 with SHA-256,
/// which is deterministic in the key, message and signature, and on
/// serde_json::from_slice to decode them; a key or signature text that
/// does not decode verifies as false.  The `requires` keeps the call
/// total: an accepted identity text carries reduced coordinates, on which
/// the verifier's point arithmetic is defined everywhere, while an
/// unreduced encoding can pass its curve check and then make a
/// subtraction in its point addition panic.  Callers test
/// `check_point_text` first and treat everything else as failed
/// verification.
#[verifier::external_body]
pub(crate) fn schnorr_verify(id: &Vec<u8>, msg: &Vec<u8>, sig: &Vec<u8>) -> (r: bool)
    requires
        accepted_point_text(id@),
    ensures
        r == schnorr_verifies(id@, msg@, sig@),
{
    let signature: schnorr_rs::Signature<schnorr_rs::SchnorrP256Group> =
        match serde_json::from_slice(sig.as_slice()) {
            Ok(s) => s,
            Err(_) => return false,
        };
    let public_key: schnorr_rs::PublicKey<schnorr_rs::SchnorrP256Group> =
        match serde_json::from_slice(id.as_slice()) {
            Ok(k) => k,
            Err(_) => return false,
        };
    let scheme = schnorr_rs::signature_scheme_p256::<sha2::Sha256>();
    scheme.verify(&public_key, msg.as_slice(), &signature)
}

/// Relies on schnorr_rs::SignatureScheme::sign over P-256 with SHA-256 and
/// rand::thread_rng.  The signature is randomized, so nothing is said of
/// its bytes; what holds of every draw is that under a matching keypair it
/// verifies over the same message bytes — verify recomputes
/// a^s·p^e = a^k and hashes the same data, and the scalar texts
/// round-trip through schnorr_rs's serializers.  Relies on
/// serde_json::from_slice to decode the two keys — the only failure — and
/// on serde_json::to_vec for the result, which on a signature (a JSON
/// array of numbers) cannot fail.
#[verifier::external_body]
pub(crate) fn schnorr_sign(id: &Vec<u8>, sk: &Vec<u8>, msg: &Vec<u8>) -> (r: Option<Vec<u8>>)
    ensures
        (r is Some) == (identity_decodes(id@) && secret_decodes(sk@)),
        keypair_of(sk@, id@) ==> (r matches Some(s) ==> accepted_point_text(id@)
            && schnorr_verifies(id@, msg@, s@)),
{
    let private_key: schnorr_rs::SigningKey<schnorr_rs::SchnorrP256Group> =
        match serde_json::from_slice(sk.as_slice()) {
            Ok(k) => k,
            Err(_) => return None,
        };
    let public_key: schnorr_rs::PublicKey<schnorr_rs::SchnorrP256Group> =
        match serde_json::from_slice(id.as_slice()) {
            Ok(k) => k,
            Err(_) => return None,
        };
    let scheme = schnorr_rs::signature_scheme_p256::<sha2::Sha256>();
    let signature = scheme.sign(&mut rand::thread_rng(), &private_key, &public_key, msg.as_slice());
    serde_json::to_vec(&signature).ok()
}

} // verus!
