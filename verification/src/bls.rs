//! The signature collaborator: verification and aggregation of BLS12-381
//! (min-pk) signatures over blob commitments. The elliptic-curve work
//! passes through to a cryptographic library; this module validates and
//! shapes the inputs, maps failures to typed errors, and pins every
//! result to a named function of the input bytes.

use vstd::prelude::*;
use fastcrypto::bls12381::min_pk::{
    BLS12381AggregateSignature, BLS12381PublicKey, BLS12381Signature,
};

verus! {

/// Errors of the signature collaborator.
#[derive(Clone, Copy, Debug, PartialEq, Eq, Structural)]
pub enum SignatureError {
    /// A public key did not deserialize.
    MalformedKey,
    /// A signature did not deserialize.
    MalformedSignature,
    /// An aggregate over zero signatures was requested.
    EmptyInput,
}

/// The byte strings of a list of byte vectors.
pub open spec fn byte_views(s: Seq<Vec<u8>>) -> Seq<Seq<u8>> {
    s.map_values(|v: Vec<u8>| v@)
}

/// Whether a byte string deserializes as a min-pk BLS signature.
pub uninterp spec fn is_bls_sig(bytes: Seq<u8>) -> bool;

/// Whether a byte string deserializes as a min-pk BLS public key.
pub uninterp spec fn is_bls_pk(bytes: Seq<u8>) -> bool;

/// Whether a byte string deserializes as a min-pk BLS aggregate signature.
pub uninterp spec fn is_bls_agg(bytes: Seq<u8>) -> bool;

/// The verdict of verifying one signature over a message under one key.
pub uninterp spec fn bls_verdict(sig: Seq<u8>, pk: Seq<u8>, msg: Seq<u8>) -> bool;

/// The serialized aggregate of a list of signatures.
pub uninterp spec fn agg_bytes_of(sigs: Seq<Seq<u8>>) -> Seq<u8>;

/// The verdict of verifying an aggregate signature over one message under
/// a list of keys.
pub uninterp spec fn agg_verdict(pks: Seq<Seq<u8>>, msg: Seq<u8>, agg: Seq<u8>) -> bool;

/// Relies on fastcrypto's BLS12381Signature::from_bytes: success depends
/// on the bytes alone (length, header bits and point decoding).
#[verifier::external_body]
fn sig_parses(b: &[u8]) -> (r: bool)
    ensures
        r == is_bls_sig(b@),
{
    <BLS12381Signature as fastcrypto::traits::ToFromBytes>::from_bytes(b).is_ok()
}

/// Relies on fastcrypto's BLS12381PublicKey::from_bytes: success depends
/// on the bytes alone.
#[verifier::external_body]
fn pk_parses(b: &[u8]) -> (r: bool)
    ensures
        r == is_bls_pk(b@),
{
    <BLS12381PublicKey as fastcrypto::traits::ToFromBytes>::from_bytes(b).is_ok()
}

/// Relies on fastcrypto's BLS12381AggregateSignature::from_bytes: success
/// depends on the bytes alone.
#[verifier::external_body]
fn agg_parses(b: &[u8]) -> (r: bool)
    ensures
        r == is_bls_agg(b@),
{
    <BLS12381AggregateSignature as fastcrypto::traits::ToFromBytes>::from_bytes(b).is_ok()
}

/// Relies on fastcrypto's VerifyingKey::verify (min_pk): the verdict is
/// deterministic in the signature, key and message bytes alone.
#[verifier::external_body]
fn verify_one(sig: &[u8], pk: &[u8], msg: &[u8]) -> (r: bool)
    requires
        is_bls_sig(sig@),
        is_bls_pk(pk@),
    ensures
        r == bls_verdict(sig@, pk@, msg@),
{
    let s = <BLS12381Signature as fastcrypto::traits::ToFromBytes>::from_bytes(sig).unwrap();
    let p = <BLS12381PublicKey as fastcrypto::traits::ToFromBytes>::from_bytes(pk).unwrap();
    fastcrypto::traits::VerifyingKey::verify(&p, msg, &s).is_ok()
}

/// Relies on fastcrypto's AggregateAuthenticator::aggregate (min_pk),
/// which fails only on an empty list: on a nonempty list of parsed
/// signatures it returns the 96-byte compressed aggregate point, a
/// function of the signature bytes alone, and that serialization parses
/// back as an aggregate signature.
#[verifier::external_body]
fn aggregate_sigs(sigs: &Vec<Vec<u8>>) -> (r: Vec<u8>)
    requires
        sigs@.len() > 0,
        forall|i: int| 0 <= i < sigs@.len() ==> is_bls_sig(sigs@[i]@),
    ensures
        r@ == agg_bytes_of(byte_views(sigs@)),
        r@.len() == 96,
        is_bls_agg(r@),
{
    let parsed: Vec<BLS12381Signature> = sigs
        .iter()
        .map(|b| {
            <BLS12381Signature as fastcrypto::traits::ToFromBytes>::from_bytes(b).unwrap()
        })
        .collect();
    let agg = <BLS12381AggregateSignature as fastcrypto::traits::AggregateAuthenticator>::aggregate(
        &parsed,
    ).unwrap();
    fastcrypto::traits::ToFromBytes::as_bytes(&agg).to_vec()
}

/// Relies on fastcrypto's AggregateAuthenticator::verify (min_pk): the
/// verdict is deterministic in the key, message and aggregate bytes alone
/// (an empty key list verifies nothing and yields false).
#[verifier::external_body]
fn verify_agg(pks: &Vec<Vec<u8>>, msg: &[u8], agg: &[u8]) -> (r: bool)
    requires
        forall|i: int| 0 <= i < pks@.len() ==> is_bls_pk(pks@[i]@),
        is_bls_agg(agg@),
    ensures
        r == agg_verdict(byte_views(pks@), msg@, agg@),
{
    let keys: Vec<BLS12381PublicKey> = pks
        .iter()
        .map(|b| {
            <BLS12381PublicKey as fastcrypto::traits::ToFromBytes>::from_bytes(b).unwrap()
        })
        .collect();
    let a = <BLS12381AggregateSignature as fastcrypto::traits::ToFromBytes>::from_bytes(
        agg,
    ).unwrap();
    fastcrypto::traits::AggregateAuthenticator::verify(&a, keys.as_slice(), msg).is_ok()
}

/// Verify a single signature over a message under a public key. Returns
/// the library's verdict exactly when both byte strings deserialize; a bad
/// signature is reported before a bad key.
pub fn bls12381_min_pk_verify(signature: &[u8], public_key: &[u8], msg: &[u8]) -> (r: Result<
    bool,
    SignatureError,
>)
    ensures
        r is Ok <==> is_bls_sig(signature@) && is_bls_pk(public_key@),
        !is_bls_sig(signature@) ==> r == Result::<bool, SignatureError>::Err(
            SignatureError::MalformedSignature,
        ),
        is_bls_sig(signature@) && !is_bls_pk(public_key@) ==> r == Result::<
            bool,
            SignatureError,
        >::Err(SignatureError::MalformedKey),
        r matches Ok(b) ==> b == bls_verdict(signature@, public_key@, msg@),
{
    if !sig_parses(signature) {
        return Err(SignatureError::MalformedSignature);
    }
    if !pk_parses(public_key) {
        return Err(SignatureError::MalformedKey);
    }
    Ok(verify_one(signature, public_key, msg))
}

/// Aggregate a list of serialized signatures. Zero signatures is
/// `EmptyInput` and any signature that does not deserialize is
/// `MalformedSignature`; otherwise the call succeeds and returns the
/// 96-byte serialized aggregate, a function of the input list alone,
/// which itself deserializes as an aggregate signature.
pub fn bls12381_min_pk_aggregate(signatures: &Vec<Vec<u8>>) -> (r: Result<Vec<u8>, SignatureError>)
    ensures
        r is Ok <==> signatures@.len() > 0 && (forall|i: int|
            0 <= i < signatures@.len() ==> is_bls_sig(#[trigger] signatures@[i]@)),
        signatures@.len() == 0 <==> r == Result::<Vec<u8>, SignatureError>::Err(
            SignatureError::EmptyInput,
        ),
        signatures@.len() > 0 && (exists|i: int|
            0 <= i < signatures@.len() && !is_bls_sig(#[trigger] signatures@[i]@)) ==> r
            == Result::<Vec<u8>, SignatureError>::Err(SignatureError::MalformedSignature),
        r matches Ok(v) ==> v@ == agg_bytes_of(byte_views(signatures@)) && v@.len() == 96
            && is_bls_agg(v@),
{
    if signatures.len() == 0 {
        return Err(SignatureError::EmptyInput);
    }
    let mut i: usize = 0;
    while i < signatures.len()
        invariant
            signatures@.len() > 0,
            i <= signatures@.len(),
            forall|m: int| 0 <= m < i ==> is_bls_sig(#[trigger] signatures@[m]@),
        decreases signatures@.len() - i,
    {
        if !sig_parses(signatures[i].as_slice()) {
            return Err(SignatureError::MalformedSignature);
        }
        i = i + 1;
    }
    Ok(aggregate_sigs(signatures))
}

/// Verify an aggregate signature over one message under a list of public
/// keys. Returns the library's verdict exactly when every key and the
/// aggregate deserialize; a bad key is reported before a bad aggregate.
pub fn bls12381_min_pk_verify_aggregate(
    public_keys: &Vec<Vec<u8>>,
    msg: &[u8],
    signature: &[u8],
) -> (r: Result<bool, SignatureError>)
    ensures
        r is Ok <==> (forall|i: int|
            0 <= i < public_keys@.len() ==> is_bls_pk(#[trigger] public_keys@[i]@)) && is_bls_agg(
            signature@,
        ),
        (exists|i: int| 0 <= i < public_keys@.len() && !is_bls_pk(#[trigger] public_keys@[i]@))
            ==> r == Result::<bool, SignatureError>::Err(SignatureError::MalformedKey),
        (forall|i: int| 0 <= i < public_keys@.len() ==> is_bls_pk(#[trigger] public_keys@[i]@))
            && !is_bls_agg(signature@) ==> r == Result::<bool, SignatureError>::Err(
            SignatureError::MalformedSignature,
        ),
        r matches Ok(b) ==> b == agg_verdict(byte_views(public_keys@), msg@, signature@),
{
    let mut i: usize = 0;
    while i < public_keys.len()
        invariant
            i <= public_keys@.len(),
            forall|m: int| 0 <= m < i ==> is_bls_pk(#[trigger] public_keys@[m]@),
        decreases public_keys@.len() - i,
    {
        if !pk_parses(public_keys[i].as_slice()) {
            return Err(SignatureError::MalformedKey);
        }
        i = i + 1;
    }
    if !agg_parses(signature) {
        return Err(SignatureError::MalformedSignature);
    }
    Ok(verify_agg(public_keys, msg, signature))
}

} // verus!
