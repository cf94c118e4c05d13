//! The identity of a device, whose private half only its TPM can use.
use vstd::prelude::*;

use crate::auth_protocol::{self, AuthError, Claims, EnrollChallenge, Proof, TpmPublic};
use crate::auth_protocol::{
    claimed, fails_with, headers_error, message_error, p256_der, p256_verifies, proof_json,
    signing_error,
};
use crate::auth_protocol::{claims_message, fresh};
use crate::catalog::digest_ok;
use crate::digest::{
    base64url, hash_text, hex_bytes, hex_decode, hex_encode, hex_text, law_hex_round_trip,
};
use crate::text::same_text;
use vstd::utf8::*;

verus! {

/// The private material is wrapped by the TPM and of no use on another one.
pub struct Identity {
    pub device: String,
    pub public: String,
    pub private: String,
    pub ek_kind: String,
    pub tcti: String,
}

/// An identity as plain values.
pub struct Held {
    pub device: Seq<char>,
    pub public: Seq<char>,
    pub private: Seq<char>,
    pub ek_kind: Seq<char>,
    pub tcti: Seq<char>,
}

impl View for Identity {
    type V = Held;

    open spec fn view(&self) -> Held {
        Held {
            device: self.device@,
            public: self.public@,
            private: self.private@,
            ek_kind: self.ek_kind@,
            tcti: self.tcti@,
        }
    }
}

/// Why the TPM cannot be used as asked.
#[derive(Clone, Copy, Debug, PartialEq, Eq, Structural)]
pub enum TpmError {
    UnsupportedAlgorithm,
    InvalidHex,
    UnexpectedSignature,
    InvalidComponent,
    NoCertificate,
    InvalidCertificate,
    CertificateMismatch,
}

pub open spec fn tpm_message(error: TpmError) -> Seq<char> {
    match error {
        TpmError::UnsupportedAlgorithm => "unsupported EK algorithm"@,
        TpmError::InvalidHex => "invalid hexadecimal text"@,
        TpmError::UnexpectedSignature => "TPM returned an unexpected signature"@,
        TpmError::InvalidComponent => "invalid ECDSA component"@,
        TpmError::NoCertificate => "TPM has no readable manufacturer EK certificate"@,
        TpmError::InvalidCertificate => "invalid EK certificate"@,
        TpmError::CertificateMismatch => "EK certificate does not match this TPM"@,
    }
}

impl TpmError {
    /// What the user reads.
    pub fn message(&self) -> (text: &'static str)
        ensures
            text@ == tpm_message(*self),
    {
        match self {
            TpmError::UnsupportedAlgorithm => "unsupported EK algorithm",
            TpmError::InvalidHex => "invalid hexadecimal text",
            TpmError::UnexpectedSignature => "TPM returned an unexpected signature",
            TpmError::InvalidComponent => "invalid ECDSA component",
            TpmError::NoCertificate => "TPM has no readable manufacturer EK certificate",
            TpmError::InvalidCertificate => "invalid EK certificate",
            TpmError::CertificateMismatch => "EK certificate does not match this TPM",
        }
    }
}

pub open spec fn tpm_fails<T>(result: Result<T, TpmError>, error: Option<TpmError>) -> bool {
    match result {
        Ok(_) => error is None,
        Err(e) => error == Some(e),
    }
}

/// The kinds of endorsement key that are used.
#[derive(Clone, Copy, Debug, PartialEq, Eq, Structural)]
pub enum EkAlgorithm {
    Rsa2048,
    P256,
}

/// The endorsement key that a kind names.
pub open spec fn algorithm_of(kind: Seq<char>) -> Option<EkAlgorithm> {
    if kind == "rsa"@ {
        Some(EkAlgorithm::Rsa2048)
    } else if kind == "ecc"@ {
        Some(EkAlgorithm::P256)
    } else {
        None
    }
}

/// The endorsement key that a kind names.
pub fn algorithm(kind: &str) -> (result: Result<EkAlgorithm, TpmError>)
    ensures
        match result {
            Ok(a) => algorithm_of(kind@) == Some(a),
            Err(e) => algorithm_of(kind@) is None && e == TpmError::UnsupportedAlgorithm,
        },
{
    proof {
        reveal_strlit("rsa");
        reveal_strlit("ecc");
        assert("rsa"@[0] != "ecc"@[0]);
    }
    if same_text(kind, "rsa") {
        Ok(EkAlgorithm::Rsa2048)
    } else if same_text(kind, "ecc") {
        Ok(EkAlgorithm::P256)
    } else {
        Err(TpmError::UnsupportedAlgorithm)
    }
}

impl EkAlgorithm {
    /// The kind that names this endorsement key.
    pub fn name(&self) -> (kind: &'static str)
        ensures
            algorithm_of(kind@) == Some(*self),
    {
        proof {
            reveal_strlit("rsa");
            reveal_strlit("ecc");
            assert("rsa"@[0] != "ecc"@[0]);
        }
        match self {
            EkAlgorithm::Rsa2048 => "rsa",
            EkAlgorithm::P256 => "ecc",
        }
    }
}

/// How the TPM is reached where nothing else is said.
pub fn default_tcti() -> (tcti: String)
    ensures
        tcti@ == "device:/dev/tpmrm0"@,
{
    "device:/dev/tpmrm0".to_owned()
}

/// A number of at most 32 bytes, filled up with leading zeros.
pub open spec fn padded(value: Seq<u8>) -> Seq<u8> {
    Seq::new((32 - value.len()) as nat, |i: int| 0u8) + value
}

/// The fixed form of a signature.
pub open spec fn raw_signature(r: Seq<u8>, s: Seq<u8>) -> Seq<u8> {
    padded(r) + padded(s)
}

/// Writes a number with leading zeros.
pub(crate) fn pad(out: &mut Vec<u8>, value: &[u8])
    requires
        value@.len() <= 32,
    ensures
        final(out)@ == old(out)@ + padded(value@),
{
    let ghost before = out@;
    let zeros: usize = 32 - value.len();
    let mut i: usize = 0;
    assert(out@ =~= before + Seq::new(0, |k: int| 0u8));
    while i < zeros
        invariant
            i <= zeros,
            out@ == before + Seq::new(i as nat, |k: int| 0u8),
        decreases zeros - i,
    {
        out.push(0);
        i += 1;
        assert(out@ =~= before + Seq::new(i as nat, |k: int| 0u8));
    }
    out.extend_from_slice(value);
    assert(out@ =~= before + padded(value@));
}

/// What the TPM needs to load a device's key.
pub struct KeyBlobs {
    pub algorithm: EkAlgorithm,
    pub private: Vec<u8>,
    pub public: Vec<u8>,
}

/// What the TPM needs to answer a challenge.
pub struct CredentialBlobs {
    pub credential: Vec<u8>,
    pub secret: Vec<u8>,
}

/// Reads the two halves of a challenge.
pub fn challenge_blobs(challenge: &EnrollChallenge) -> (result: Result<CredentialBlobs, TpmError>)
    ensures
        tpm_fails(
            result,
            if hex_bytes(challenge.credential@) is None || hex_bytes(challenge.secret@) is None {
                Some(TpmError::InvalidHex)
            } else {
                None
            },
        ),
        result matches Ok(blobs) ==> Some(blobs.credential@) == hex_bytes(challenge.credential@)
            && Some(blobs.secret@) == hex_bytes(challenge.secret@),
{
    let credential = match hex_decode(challenge.credential.as_str()) {
        Some(bytes) => bytes,
        None => return Err(TpmError::InvalidHex),
    };
    let secret = match hex_decode(challenge.secret.as_str()) {
        Some(bytes) => bytes,
        None => return Err(TpmError::InvalidHex),
    };
    Ok(CredentialBlobs { credential, secret })
}

/// The answer to a challenge, as it is sent.
pub fn activation(credential: &[u8]) -> (text: String)
    ensures
        text@ == hex_text(credential@),
{
    hex_encode(credential)
}

impl Identity {
    /// The identity of a key that the TPM has just made, not yet enrolled.
    pub fn created(tcti: &str, kind: &str, public: &[u8], private: &[u8]) -> (identity: Self)
        ensures
            identity.device@ == Seq::<char>::empty(),
            identity.public@ == hex_text(public@),
            identity.private@ == hex_text(private@),
            identity.ek_kind@ == kind@,
            identity.tcti@ == tcti@,
    {
        proof {
            reveal_strlit("");
        }
        let device = "".to_owned();
        assert(device@ =~= Seq::<char>::empty());
        Identity {
            device,
            public: hex_encode(public),
            private: hex_encode(private),
            ek_kind: kind.to_owned(),
            tcti: tcti.to_owned(),
        }
    }

    /// A copy.
    pub fn copy(&self) -> (identity: Self)
        ensures
            identity@ == self@,
    {
        Identity {
            device: self.device.as_str().to_owned(),
            public: self.public.as_str().to_owned(),
            private: self.private.as_str().to_owned(),
            ek_kind: self.ek_kind.as_str().to_owned(),
            tcti: self.tcti.as_str().to_owned(),
        }
    }

    /// What the TPM needs to load this key.
    pub fn blobs(&self) -> (result: Result<KeyBlobs, TpmError>)
        ensures
            tpm_fails(
                result,
                if algorithm_of(self.ek_kind@) is None {
                    Some(TpmError::UnsupportedAlgorithm)
                } else if hex_bytes(self.private@) is None || hex_bytes(self.public@) is None {
                    Some(TpmError::InvalidHex)
                } else {
                    None
                },
            ),
            result matches Ok(blobs) ==> Some(blobs.algorithm) == algorithm_of(self.ek_kind@)
                && Some(blobs.private@) == hex_bytes(self.private@) && Some(blobs.public@)
                == hex_bytes(self.public@),
    {
        let algorithm = algorithm(self.ek_kind.as_str())?;
        let private = match hex_decode(self.private.as_str()) {
            Some(bytes) => bytes,
            None => return Err(TpmError::InvalidHex),
        };
        let public = match hex_decode(self.public.as_str()) {
            Some(bytes) => bytes,
            None => return Err(TpmError::InvalidHex),
        };
        Ok(KeyBlobs { algorithm, private, public })
    }

    /// The proof header for claims that the TPM has signed. `signature` holds the two
    /// numbers of an ECDSA signature, where the TPM made one.
    pub fn request_proof(&self, claims: Claims, signature: Option<(Vec<u8>, Vec<u8>)>) -> (result: Result<
        String,
        TpmError,
    >)
        ensures
            tpm_fails(result, proof_error(signature)),
            result matches Ok(text) ==> signature matches Some((r, s)) && text@ == base64url(
                encode_utf8(proof_json(claims@, hex_text(raw_signature(r@, s@)))),
            ),
    {
        match signature {
            None => Err(TpmError::UnexpectedSignature),
            Some((r, s)) => {
                if r.len() > 32 || s.len() > 32 {
                    return Err(TpmError::InvalidComponent);
                }
                let mut bytes: Vec<u8> = Vec::new();
                pad(&mut bytes, r.as_slice());
                pad(&mut bytes, s.as_slice());
                assert(bytes@ =~= raw_signature(r@, s@));
                let signed = Proof { claims, signature: hex_encode(bytes.as_slice()) };
                Ok(signed.encode())
            },
        }
    }

    /// What a person compares before the device is approved.
    pub fn fingerprint(&self, decoded: &Option<TpmPublic>) -> (result: Result<String, AuthError>)
        ensures
            fails_with(result, signing_error(self.public@, *decoded)),
            result matches Ok(text) ==> text@ == hash_text(
                p256_der(decoded->0.x@, decoded->0.y@)->0,
            ) && text@.len() == 64,
    {
        auth_protocol::fingerprint(self.public.as_str(), decoded)
    }
}

/// Why a signature of the TPM makes no proof.
pub open spec fn proof_error(signature: Option<(Vec<u8>, Vec<u8>)>) -> Option<TpmError> {
    match signature {
        None => Some(TpmError::UnexpectedSignature),
        Some((r, s)) => if r@.len() > 32 || s@.len() > 32 {
            Some(TpmError::InvalidComponent)
        } else {
            None
        },
    }
}

/// A request whose claims the device's key has signed is authenticated: the server accepts
/// the headers of the same request, with the same session, while the claims are fresh.
pub proof fn law_signed_request_is_accepted(
    device: Seq<char>,
    method: Seq<char>,
    url: Seq<char>,
    body: Seq<u8>,
    token: Seq<char>,
    nonce: Seq<char>,
    issued_at: int,
    time: int,
    public: Seq<char>,
    decoded: Option<TpmPublic>,
    r: Seq<u8>,
    s: Seq<u8>,
)
    requires
        fresh(issued_at, time),
        digest_ok(nonce),
        signing_error(public, decoded) is None,
        r.len() <= 32,
        s.len() <= 32,
        ({
            let c = claimed(device, method, url, body, token, nonce, issued_at);
            &&& message_error(c) is None
            &&& p256_verifies(
                p256_der(decoded->0.x@, decoded->0.y@)->0,
                raw_signature(r, s),
                claims_message(c),
            ) == Some(true)
        }),
    ensures
        headers_error(
            claimed(device, method, url, body, token, nonce, issued_at),
            hex_text(raw_signature(r, s)),
            public,
            decoded,
            method,
            url,
            token,
            time,
        ) is None,
{
    law_hex_round_trip(raw_signature(r, s));
    assert(raw_signature(r, s).len() == 64);
}

/// The two kinds of endorsement keys are told by their names, and there is no third.
pub proof fn law_two_kinds_of_keys(kind: Seq<char>)
    ensures
        algorithm_of(kind) == Some(EkAlgorithm::Rsa2048) <==> kind == "rsa"@,
        algorithm_of(kind) == Some(EkAlgorithm::P256) <==> kind == "ecc"@,
        algorithm_of(kind) is None <==> kind != "rsa"@ && kind != "ecc"@,
{
    reveal_strlit("rsa");
    reveal_strlit("ecc");
    assert("rsa"@[0] != "ecc"@[0]);
}

/// A signature takes 64 bytes: each of its numbers in 32, with zeros before it.
pub proof fn law_signature_takes_64_bytes(r: Seq<u8>, s: Seq<u8>, i: int)
    requires
        r.len() <= 32,
        s.len() <= 32,
    ensures
        raw_signature(r, s).len() == 64,
        0 <= i < 32 - r.len() ==> raw_signature(r, s)[i] == 0,
        0 <= i < r.len() ==> raw_signature(r, s)[32 - r.len() + i] == r[i],
        0 <= i < 32 - s.len() ==> raw_signature(r, s)[32 + i] == 0,
        0 <= i < s.len() ==> raw_signature(r, s)[64 - s.len() + i] == s[i],
{
}

/// A signature is usable exactly where the chip gave one whose numbers take 32 bytes at most.
pub proof fn law_short_signature_is_usable(signature: Option<(Vec<u8>, Vec<u8>)>)
    ensures
        proof_error(signature) is None <==> (signature matches Some((r, s)) && r@.len() <= 32
            && s@.len() <= 32),
        signature is None ==> proof_error(signature) == Some(TpmError::UnexpectedSignature),
{
}

} // verus!
