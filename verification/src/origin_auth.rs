//! Authenticity of responses, whoever carries them. The server signs each response
//! together with the digest of the whole request proof. That proof holds a fresh
//! nonce, so a response fits one request and no other.
use vstd::prelude::*;
use vstd::utf8::*;

use crate::auth_protocol::random_secret;
use crate::digest::{
    base64_decode, base64_encode, base64url, base64url_bytes, hash, hash_text, hex_bytes,
    hex_decode, hex_encode, hex_text, is_hex_of, json_quote, json_string, law_hex_round_trip,
};
use crate::keys::{
    ed25519_decodes, ed25519_public, ed25519_signature, ed25519_verifies, ed25519_weak,
    key_decodes, key_is_weak, public_of, signature_of, signature_verifies,
};
use crate::text::{decimal, decimal_u64, joined, opt_text, same_text, trim_white, trimmed};

verus! {

/// The response header that carries a response proof.
pub const RESPONSE_HEADER: &'static str = "x-mysync-origin";

/// Largest response body that is signed.
pub const MAX_JSON_BYTES: usize = 33554432;

/// Largest request proof that a response is bound to.
pub const MAX_REQUEST_PROOF_BYTES: usize = 4096;

/// Largest response proof that is read.
pub const MAX_RESPONSE_PROOF_BYTES: usize = 2048;

/// Why a response, or a server key, is not accepted.
#[derive(Clone, Copy, Debug, PartialEq, Eq, Structural)]
pub enum OriginError {
    InvalidHex,
    PublicKeyLength,
    InvalidPublicKey,
    WeakPublicKey,
    StoredKey,
    RandomSource,
    ProofMissing,
    ProofTooLarge,
    Undecodable,
    BindingMismatch,
    SignatureMismatch,
    BodyMismatch,
}

impl OriginError {
    /// What the user reads.
    pub fn message(&self) -> (text: &'static str)
        ensures
            text@ == origin_message(*self),
    {
        match self {
            OriginError::InvalidHex => "invalid hexadecimal text",
            OriginError::PublicKeyLength => "server public key must contain 32 bytes",
            OriginError::InvalidPublicKey => "invalid server public key",
            OriginError::WeakPublicKey => "weak server public key",
            OriginError::StoredKey => "invalid stored origin key",
            OriginError::RandomSource => "random generation failed",
            OriginError::ProofMissing => "origin response proof missing",
            OriginError::ProofTooLarge => "origin response proof too large",
            OriginError::Undecodable => "origin response proof cannot be decoded",
            OriginError::BindingMismatch => "origin response request binding mismatch",
            OriginError::SignatureMismatch => "origin response signature verification failed",
            OriginError::BodyMismatch => "origin response body integrity check failed",
        }
    }
}

pub open spec fn origin_message(error: OriginError) -> Seq<char> {
    match error {
        OriginError::InvalidHex => "invalid hexadecimal text"@,
        OriginError::PublicKeyLength => "server public key must contain 32 bytes"@,
        OriginError::InvalidPublicKey => "invalid server public key"@,
        OriginError::WeakPublicKey => "weak server public key"@,
        OriginError::StoredKey => "invalid stored origin key"@,
        OriginError::RandomSource => "random generation failed"@,
        OriginError::ProofMissing => "origin response proof missing"@,
        OriginError::ProofTooLarge => "origin response proof too large"@,
        OriginError::Undecodable => "origin response proof cannot be decoded"@,
        OriginError::BindingMismatch => "origin response request binding mismatch"@,
        OriginError::SignatureMismatch => "origin response signature verification failed"@,
        OriginError::BodyMismatch => "origin response body integrity check failed"@,
    }
}

/// A call that ends as `error` says.
pub open spec fn stops_with<T>(result: Result<T, OriginError>, error: Option<OriginError>) -> bool {
    match result {
        Ok(_) => error is None,
        Err(e) => error == Some(e),
    }
}

/// Why a text does not pin a server.
pub open spec fn pin_error(encoded: Seq<char>) -> Option<OriginError> {
    let key = hex_bytes(trim_white(encoded));
    if key is None {
        Some(OriginError::InvalidHex)
    } else if key->0.len() != 32 {
        Some(OriginError::PublicKeyLength)
    } else if !ed25519_decodes(key->0) {
        Some(OriginError::InvalidPublicKey)
    } else if ed25519_weak(key->0) {
        Some(OriginError::WeakPublicKey)
    } else {
        None
    }
}

/// The server key that a text pins.
pub fn public_key(encoded: &str) -> (result: Result<Vec<u8>, OriginError>)
    ensures
        stops_with(result, pin_error(encoded@)),
        result matches Ok(key) ==> Some(key@) == hex_bytes(trim_white(encoded@)) && key@.len() == 32
            && ed25519_decodes(key@),
{
    let key = match hex_decode(trimmed(encoded).as_str()) {
        Some(key) => key,
        None => return Err(OriginError::InvalidHex),
    };
    if key.len() != 32 {
        return Err(OriginError::PublicKeyLength);
    }
    if !key_decodes(key.as_slice()) {
        return Err(OriginError::InvalidPublicKey);
    }
    if key_is_weak(key.as_slice()) {
        return Err(OriginError::WeakPublicKey);
    }
    Ok(key)
}

/// Reads the signing key that the database holds.
pub fn stored_key(value: &str) -> (result: Result<Vec<u8>, OriginError>)
    ensures
        stops_with(
            result,
            if hex_bytes(value@) is None {
                Some(OriginError::InvalidHex)
            } else if hex_bytes(value@)->0.len() != 32 {
                Some(OriginError::StoredKey)
            } else {
                None
            },
        ),
        result matches Ok(secret) ==> Some(secret@) == hex_bytes(value@) && secret@.len() == 32,
{
    match hex_decode(value) {
        None => Err(OriginError::InvalidHex),
        Some(secret) => if secret.len() != 32 {
            Err(OriginError::StoredKey)
        } else {
            Ok(secret)
        },
    }
}

/// A stored value for a signing key: the one that is there already, else a fresh one.
pub fn load_key(stored: Option<String>) -> (result: Result<String, OriginError>)
    ensures
        match result {
            Ok(value) => match stored {
                Some(old) => value@ == old@,
                None => is_hex_of(value@, 32),
            },
            Err(e) => stored is None && e == OriginError::RandomSource,
        },
{
    match stored {
        Some(value) => Ok(value),
        None => match random_secret() {
            Ok(value) => Ok(value),
            Err(_) => Err(OriginError::RandomSource),
        },
    }
}

/// The public key of the server, as an administrator hands it out.
pub fn public_key_text(secret: &[u8]) -> (text: String)
    requires
        secret@.len() == 32,
    ensures
        text@ == hex_text(ed25519_public(secret@)),
        ed25519_public(secret@).len() == 32,
        ed25519_decodes(ed25519_public(secret@)),
{
    hex_encode(public_of(secret).as_slice())
}

/// What the server signs of a response. A body digest is missing only for file
/// contents, which are checked against the manifest instead.
pub struct ResponseProof {
    pub request_sha256: String,
    pub status: u16,
    pub body_sha256: Option<String>,
    pub signature: String,
}

/// A JSON string, or `null`.
pub open spec fn json_opt(text: Option<Seq<char>>) -> Seq<char> {
    match text {
        Some(t) => json_string(t),
        None => "null"@,
    }
}

/// The bytes that the server signs.
pub open spec fn response_message(
    request_sha256: Seq<char>,
    status: int,
    body_sha256: Option<Seq<char>>,
) -> Seq<u8> {
    encode_utf8(
        "mysync/origin-response/v1\n"@ + "["@ + json_string(request_sha256) + ","@ + decimal(status)
            + ","@ + json_opt(body_sha256) + "]"@,
    )
}

/// The JSON form of a response proof.
pub open spec fn response_json(
    request_sha256: Seq<char>,
    status: int,
    body_sha256: Option<Seq<char>>,
    signature: Seq<char>,
) -> Seq<char> {
    "{\"request_sha256\":"@ + json_string(request_sha256) + ",\"status\":"@ + decimal(status)
        + ",\"body_sha256\":"@ + json_opt(body_sha256) + ",\"signature\":"@ + json_string(signature)
        + "}"@
}

/// The digest of an optional body.
pub open spec fn body_digest(body: Option<Seq<u8>>) -> Option<Seq<char>> {
    match body {
        Some(bytes) => Some(hash_text(bytes)),
        None => None,
    }
}

/// The signature of a response.
pub open spec fn response_signature(
    secret: Seq<u8>,
    request_proof: Seq<char>,
    status: int,
    body: Option<Seq<u8>>,
) -> Seq<char> {
    hex_text(
        ed25519_signature(
            secret,
            response_message(
                hash_text(encode_utf8(request_proof)),
                status,
                body_digest(body),
            ),
        ),
    )
}

/// Why a response proof is not accepted for a request and a status.
pub open spec fn response_error(
    request_sha256: Seq<char>,
    status: int,
    body_sha256: Option<Seq<char>>,
    signature: Seq<char>,
    key: Seq<u8>,
    request_proof: Seq<char>,
    received: int,
) -> Option<OriginError> {
    let raw = hex_bytes(signature);
    if request_sha256 != hash_text(encode_utf8(request_proof)) || status != received {
        Some(OriginError::BindingMismatch)
    } else if raw is None || raw->0.len() != 64 {
        Some(OriginError::Undecodable)
    } else if !ed25519_verifies(
        key,
        response_message(request_sha256, status, body_sha256),
        raw->0,
    ) {
        Some(OriginError::SignatureMismatch)
    } else {
        None
    }
}

fn json_quote_opt(text: &Option<String>) -> (json: String)
    ensures
        json@ == json_opt(opt_text(*text)),
{
    match text {
        Some(t) => json_quote(t.as_str()),
        None => "null".to_owned(),
    }
}

impl ResponseProof {
    fn message(&self) -> (bytes: Vec<u8>)
        ensures
            bytes@ == response_message(
                self.request_sha256@,
                self.status as int,
                opt_text(self.body_sha256),
            ),
    {
        let mut text = joined("mysync/origin-response/v1\n", "[");
        text.append(json_quote(self.request_sha256.as_str()).as_str());
        text.append(",");
        text.append(decimal_u64(self.status as u64).as_str());
        text.append(",");
        text.append(json_quote_opt(&self.body_sha256).as_str());
        text.append("]");
        text.as_str().as_bytes_vec()
    }

    /// The header of a response: who it answers, with what status and body.
    pub fn sign(secret: &[u8], request_proof: &str, status: u16, body: Option<&[u8]>) -> (text:
        String)
        requires
            secret@.len() == 32,
        ensures
            ({
                let bytes = match body {
                    Some(b) => Some(b@),
                    None => None,
                };
                let json = encode_utf8(
                    response_json(
                        hash_text(encode_utf8(request_proof@)),
                        status as int,
                        body_digest(bytes),
                        response_signature(secret@, request_proof@, status as int, bytes),
                    ),
                );
                &&& text@ == base64url(json)
                &&& base64url_bytes(text@) == Some(json)
            }),
    {
        let body_sha256 = match body {
            Some(bytes) => Some(hash(bytes)),
            None => None,
        };
        let unsigned = ResponseProof {
            request_sha256: hash(request_proof.as_bytes()),
            status,
            body_sha256,
            signature: String::new(),
        };
        let signature = hex_encode(signature_of(secret, unsigned.message().as_slice()).as_slice());
        let mut json = joined(
            "{\"request_sha256\":",
            json_quote(unsigned.request_sha256.as_str()).as_str(),
        );
        json.append(",\"status\":");
        json.append(decimal_u64(unsigned.status as u64).as_str());
        json.append(",\"body_sha256\":");
        json.append(json_quote_opt(&unsigned.body_sha256).as_str());
        json.append(",\"signature\":");
        json.append(json_quote(signature.as_str()).as_str());
        json.append("}");
        base64_encode(json.as_str().as_bytes())
    }

    /// The JSON inside a response header.
    pub fn decode(encoded: &str) -> (result: Result<Vec<u8>, OriginError>)
        ensures
            stops_with(
                result,
                if encode_utf8(encoded@).len() > MAX_RESPONSE_PROOF_BYTES {
                    Some(OriginError::ProofTooLarge)
                } else if base64url_bytes(encoded@) is None {
                    Some(OriginError::Undecodable)
                } else {
                    None
                },
            ),
            result matches Ok(json) ==> Some(json@) == base64url_bytes(encoded@),
    {
        if encoded.as_bytes().len() > MAX_RESPONSE_PROOF_BYTES {
            return Err(OriginError::ProofTooLarge);
        }
        match base64_decode(encoded) {
            Some(json) => Ok(json),
            None => Err(OriginError::Undecodable),
        }
    }

    /// Checks that a response with this status answers this request, and that the
    /// pinned server said so.
    pub fn verify(&self, key: &[u8], request_proof: &str, status: u16) -> (result: Result<
        (),
        OriginError,
    >)
        requires
            key@.len() == 32,
            ed25519_decodes(key@),
        ensures
            stops_with(
                result,
                response_error(
                    self.request_sha256@,
                    self.status as int,
                    opt_text(self.body_sha256),
                    self.signature@,
                    key@,
                    request_proof@,
                    status as int,
                ),
            ),
    {
        if !same_text(self.request_sha256.as_str(), hash(request_proof.as_bytes()).as_str())
            || self.status != status {
            return Err(OriginError::BindingMismatch);
        }
        let signature = match hex_decode(self.signature.as_str()) {
            Some(signature) => signature,
            None => return Err(OriginError::Undecodable),
        };
        if signature.len() != 64 {
            return Err(OriginError::Undecodable);
        }
        if signature_verifies(key, self.message().as_slice(), signature.as_slice()) {
            Ok(())
        } else {
            Err(OriginError::SignatureMismatch)
        }
    }

    /// Checks the body of a response that was verified. Only file contents come
    /// without a digest; `file` says that they were asked for.
    pub fn verify_body(&self, body: &[u8], file: bool) -> (result: Result<(), OriginError>)
        ensures
            stops_with(
                result,
                if opt_text(self.body_sha256) == Some(hash_text(body@)) || (file
                    && self.body_sha256 is None) {
                    None
                } else {
                    Some(OriginError::BodyMismatch)
                },
            ),
    {
        match &self.body_sha256 {
            Some(digest) => if same_text(digest.as_str(), hash(body).as_str()) {
                Ok(())
            } else {
                Err(OriginError::BodyMismatch)
            },
            None => if file {
                Ok(())
            } else {
                Err(OriginError::BodyMismatch)
            },
        }
    }
}

/// The pin that a client holds, checked again each time it is used.
pub fn verify_pinned(pin: &str, response: &ResponseProof, request_proof: &str, status: u16) -> (result:
    Result<(), OriginError>)
    ensures
        stops_with(
            result,
            match pin_error(pin@) {
                Some(e) => Some(e),
                None => response_error(
                    response.request_sha256@,
                    response.status as int,
                    opt_text(response.body_sha256),
                    response.signature@,
                    hex_bytes(trim_white(pin@))->0,
                    request_proof@,
                    status as int,
                ),
            },
        ),
{
    let key = public_key(pin)?;
    response.verify(key.as_slice(), request_proof, status)
}

/// The request proof that a response is bound to: empty where the request had none.
/// `None` where it is too long, and the request is turned down.
pub fn request_proof(header: Option<&str>) -> (bound: Option<String>)
    ensures
        ({
            let text = match header {
                Some(h) => h@,
                None => Seq::empty(),
            };
            match bound {
                Some(p) => p@ == text && encode_utf8(text).len() <= MAX_REQUEST_PROOF_BYTES,
                None => encode_utf8(text).len() > MAX_REQUEST_PROOF_BYTES,
            }
        }),
{
    match header {
        Some(h) => if h.as_bytes().len() > MAX_REQUEST_PROOF_BYTES {
            None
        } else {
            Some(h.to_owned())
        },
        None => {
            assert(encode_utf8(Seq::empty()).len() == 0);
            Some(String::new())
        },
    }
}

/// Whether a response is a stream of file contents, which is signed without a digest.
pub fn is_file_stream(method: &str, path: &str, status: u16) -> (yes: bool)
    ensures
        yes == (method@ == "GET"@ && path@ == "/v1/file"@ && status == 200),
{
    same_text(method, "GET") && same_text(path, "/v1/file") && status == 200
}

/// A response that is ready to go out. `body` is missing where the body is a stream.
pub struct Sealed {
    pub status: u16,
    pub body: Option<Vec<u8>>,
    pub header: String,
}

/// What stands in for a body that is too large to sign.
pub open spec fn oversized_body() -> Seq<u8> {
    encode_utf8("{\"error\":\"origin response exceeds limit\"}"@)
}

/// Signs a response whose body was read. `body` is missing where it went over the
/// limit; then the client gets an internal error.
pub fn seal(secret: &[u8], request_proof: &str, status: u16, body: Option<Vec<u8>>) -> (sealed:
    Sealed)
    requires
        secret@.len() == 32,
    ensures
        ({
            let bytes = match body {
                Some(b) => b@,
                None => oversized_body(),
            };
            &&& sealed.status == (if body is Some {
                status
            } else {
                500
            })
            &&& sealed.body matches Some(b) && b@ == bytes
            &&& sealed.header@ == base64url(
                encode_utf8(
                    response_json(
                        hash_text(encode_utf8(request_proof@)),
                        sealed.status as int,
                        Some(hash_text(bytes)),
                        response_signature(
                            secret@,
                            request_proof@,
                            sealed.status as int,
                            Some(bytes),
                        ),
                    ),
                ),
            )
        }),
{
    let status: u16 = match &body {
        Some(_) => status,
        None => 500,
    };
    let bytes = match body {
        Some(b) => b,
        None => "{\"error\":\"origin response exceeds limit\"}".as_bytes_vec(),
    };
    let header = ResponseProof::sign(secret, request_proof, status, Some(bytes.as_slice()));
    Sealed { status, body: Some(bytes), header }
}

/// Signs a stream of file contents.
pub fn seal_stream(secret: &[u8], request_proof: &str) -> (sealed: Sealed)
    requires
        secret@.len() == 32,
    ensures
        sealed.status == 200,
        sealed.body is None,
        sealed.header@ == base64url(
            encode_utf8(
                response_json(
                    hash_text(encode_utf8(request_proof@)),
                    200,
                    None,
                    response_signature(secret@, request_proof@, 200, None),
                ),
            ),
        ),
{
    Sealed {
        status: 200,
        body: None,
        header: ResponseProof::sign(secret, request_proof, 200, None),
    }
}

/// What the server signed, a client that pinned the server accepts for the same request
/// and status, as long as the key accepts its own signature.
pub proof fn law_signed_response_is_accepted(
    secret: Seq<u8>,
    request_proof: Seq<char>,
    status: int,
    body: Option<Seq<u8>>,
)
    requires
        ({
            let message = response_message(
                hash_text(encode_utf8(request_proof)),
                status,
                body_digest(body),
            );
            let signature = ed25519_signature(secret, message);
            signature.len() == 64 && ed25519_verifies(ed25519_public(secret), message, signature)
        }),
    ensures
        response_error(
            hash_text(encode_utf8(request_proof)),
            status,
            body_digest(body),
            response_signature(secret, request_proof, status, body),
            ed25519_public(secret),
            request_proof,
            status,
        ) is None,
{
    law_hex_round_trip(
        ed25519_signature(
            secret,
            response_message(
                hash_text(encode_utf8(request_proof)),
                status,
                body_digest(body),
            ),
        ),
    );
}

/// A response made for one request is refused for another, and under another status,
/// whatever its signature. Two requests differ in their proofs' digests.
pub proof fn law_replayed_response_is_refused(
    request_sha256: Seq<char>,
    status: int,
    body_sha256: Option<Seq<char>>,
    signature: Seq<char>,
    key: Seq<u8>,
    other_proof: Seq<char>,
    received: int,
)
    requires
        request_sha256 != hash_text(encode_utf8(other_proof)) || status != received,
    ensures
        response_error(
            request_sha256,
            status,
            body_sha256,
            signature,
            key,
            other_proof,
            received,
        ) == Some(OriginError::BindingMismatch),
{
}

/// A response is believed exactly where it answers this very request, carries the status that
/// was received, and the key of the server signed both together with the digest of its body.
pub proof fn law_own_response_is_believed(
    request_sha256: Seq<char>,
    status: int,
    body_sha256: Option<Seq<char>>,
    signature: Seq<char>,
    key: Seq<u8>,
    request_proof: Seq<char>,
    received: int,
)
    ensures
        response_error(
            request_sha256,
            status,
            body_sha256,
            signature,
            key,
            request_proof,
            received,
        ) is None <==> request_sha256 == hash_text(encode_utf8(request_proof)) && status == received
            && hex_bytes(signature) is Some && hex_bytes(signature)->0.len() == 64
            && ed25519_verifies(
            key,
            response_message(request_sha256, status, body_sha256),
            hex_bytes(signature)->0,
        ),
{
}

/// A server key is accepted exactly where it is 32 bytes in hexadecimal, with white space around
/// it or not, that decode to a point and are not weak.
pub proof fn law_strong_key_is_accepted(encoded: Seq<char>)
    ensures
        pin_error(encoded) is None <==> hex_bytes(trim_white(encoded)) is Some && hex_bytes(
            trim_white(encoded),
        )->0.len() == 32 && ed25519_decodes(hex_bytes(trim_white(encoded))->0) && !ed25519_weak(
            hex_bytes(trim_white(encoded))->0,
        ),
{
}

/// A response speaks of the digest of its body exactly where it has one, empty or not.
pub proof fn law_body_has_its_digest(body: Option<Seq<u8>>)
    ensures
        body is None <==> body_digest(body) is None,
        body matches Some(bytes) ==> body_digest(body) == Some(hash_text(bytes)),
{
}

} // verus!
