//! Proof of possession: each request carries claims that a key inside the device's
//! TPM signed. The claims bind method, URL, body and session, and a fresh nonce.
//! What is signed starts with words of its own, so that no signature made for
//! another purpose fits.
use vstd::prelude::*;
use vstd::utf8::*;

use crate::catalog::digest_ok;
use crate::digest::{
    base64_decode, base64_encode, base64url, base64url_bytes, hash_text, hex_bytes, hex_decode,
    hex_encode, hex_text, is_hex_of, json_quote, json_string, lemma_hex_of, opt_bytes,
    random_bytes, sha256, sha256_of, unix_seconds,
};
use crate::endorsement::OPENSSL_LIMIT;
use crate::text::{decimal, decimal_i64, decimal_u64, joined, same_bytes, same_text};
use crate::uploads::valid_digest;

pub use crate::digest::hash;

verus! {

/// How long a session lasts.
pub const SESSION_SECONDS: i64 = 900;

/// The request header that carries a proof.
pub const PROOF_HEADER: &'static str = "x-mysync-proof";

/// How long a used nonce is remembered.
pub const NONCE_SECONDS: i64 = 120;

/// Largest message that the TPM signs.
pub const MAX_MESSAGE_BYTES: usize = 1024;

/// Largest proof that is read.
pub const MAX_PROOF_BYTES: usize = 4096;

/// Why a proof or a key is not accepted.
#[derive(Clone, Copy, Debug, PartialEq, Eq, Structural)]
pub enum AuthError {
    RandomSource,
    MessageTooLarge,
    ProofTooLarge,
    Undecodable,
    ExpiredProof,
    InvalidNonce,
    BindingMismatch,
    InvalidHex,
    SignatureSize,
    InvalidSignature,
    BodyMismatch,
    PublicAreaTooLarge,
    MalformedPublicArea,
    NoncanonicalPublicArea,
    NotARestrictedSigningKey,
    P256KeyRequired,
    InvalidKey,
    Sha256NameRequired,
}

impl AuthError {
    /// What the log shows.
    pub fn message(&self) -> (text: &'static str)
        ensures
            text@ == auth_message(*self),
    {
        match self {
            AuthError::RandomSource => "random generation failed",
            AuthError::MessageTooLarge => "proof is too large for TPM hashing",
            AuthError::ProofTooLarge => "proof too large",
            AuthError::Undecodable => "proof cannot be decoded",
            AuthError::ExpiredProof => "expired proof",
            AuthError::InvalidNonce => "invalid nonce",
            AuthError::BindingMismatch => "proof request binding mismatch",
            AuthError::InvalidHex => "invalid hexadecimal text",
            AuthError::SignatureSize => "invalid signature size",
            AuthError::InvalidSignature => "invalid signature",
            AuthError::BodyMismatch => "proof body mismatch",
            AuthError::PublicAreaTooLarge => "TPM public area too large",
            AuthError::MalformedPublicArea => "malformed TPM public area",
            AuthError::NoncanonicalPublicArea => "noncanonical TPM public area",
            AuthError::NotARestrictedSigningKey => "key is not a restricted TPM signing key",
            AuthError::P256KeyRequired => "P-256 signing key required",
            AuthError::InvalidKey => "invalid P-256 key",
            AuthError::Sha256NameRequired => "SHA256 TPM name required",
        }
    }
}

pub open spec fn auth_message(error: AuthError) -> Seq<char> {
    match error {
        AuthError::RandomSource => "random generation failed"@,
        AuthError::MessageTooLarge => "proof is too large for TPM hashing"@,
        AuthError::ProofTooLarge => "proof too large"@,
        AuthError::Undecodable => "proof cannot be decoded"@,
        AuthError::ExpiredProof => "expired proof"@,
        AuthError::InvalidNonce => "invalid nonce"@,
        AuthError::BindingMismatch => "proof request binding mismatch"@,
        AuthError::InvalidHex => "invalid hexadecimal text"@,
        AuthError::SignatureSize => "invalid signature size"@,
        AuthError::InvalidSignature => "invalid signature"@,
        AuthError::BodyMismatch => "proof body mismatch"@,
        AuthError::PublicAreaTooLarge => "TPM public area too large"@,
        AuthError::MalformedPublicArea => "malformed TPM public area"@,
        AuthError::NoncanonicalPublicArea => "noncanonical TPM public area"@,
        AuthError::NotARestrictedSigningKey => "key is not a restricted TPM signing key"@,
        AuthError::P256KeyRequired => "P-256 signing key required"@,
        AuthError::InvalidKey => "invalid P-256 key"@,
        AuthError::Sha256NameRequired => "SHA256 TPM name required"@,
    }
}

/// A call that ends as `error` says.
pub open spec fn fails_with<T>(result: Result<T, AuthError>, error: Option<AuthError>) -> bool {
    match result {
        Ok(_) => error is None,
        Err(e) => error == Some(e),
    }
}

/// The seconds since 1970, by the machine's clock. Whatever it shows, the time is not negative.
pub fn now() -> (seconds: i64)
    ensures
        seconds >= 0,
{
    seconds_of(unix_seconds())
}

/// The time for a clock that is `elapsed` seconds past the beginning of 1970, `None` where it
/// stands before that: such a clock counts as 0, and one beyond the largest signed number of
/// seconds counts as that number.
pub open spec fn shown(elapsed: Option<u64>) -> int {
    match elapsed {
        None => 0,
        Some(s) => if s <= i64::MAX {
            s as int
        } else {
            i64::MAX as int
        },
    }
}

/// Turns what a clock gives into the signed seconds of the protocol.
pub fn seconds_of(elapsed: Option<u64>) -> (seconds: i64)
    ensures
        seconds == shown(elapsed),
{
    match elapsed {
        None => 0,
        Some(s) => if s <= i64::MAX as u64 {
            s as i64
        } else {
            i64::MAX
        },
    }
}

/// 32 random bytes in hexadecimal.
pub fn random_secret() -> (result: Result<String, AuthError>)
    ensures
        match result {
            Ok(secret) => is_hex_of(secret@, 32) && digest_ok(secret@),
            Err(e) => e == AuthError::RandomSource,
        },
{
    match random_bytes(32) {
        Some(bytes) => {
            let secret = hex_encode(bytes.as_slice());
            proof {
                assert(secret@ == hex_text(bytes@));
                lemma_hex_of(secret@, 32);
            }
            Ok(secret)
        },
        None => Err(AuthError::RandomSource),
    }
}

/// What a device claims of one request.
pub struct Claims {
    pub version: u8,
    pub device: String,
    pub nonce: String,
    pub issued_at: i64,
    pub method: String,
    pub url_sha256: String,
    pub body_sha256: String,
    pub session_sha256: String,
}

/// Claims as plain values.
pub struct Claimed {
    pub version: int,
    pub device: Seq<char>,
    pub nonce: Seq<char>,
    pub issued_at: int,
    pub method: Seq<char>,
    pub url_sha256: Seq<char>,
    pub body_sha256: Seq<char>,
    pub session_sha256: Seq<char>,
}

impl View for Claims {
    type V = Claimed;

    open spec fn view(&self) -> Claimed {
        Claimed {
            version: self.version as int,
            device: self.device@,
            nonce: self.nonce@,
            issued_at: self.issued_at as int,
            method: self.method@,
            url_sha256: self.url_sha256@,
            body_sha256: self.body_sha256@,
            session_sha256: self.session_sha256@,
        }
    }
}

/// The claims of a request.
pub open spec fn claimed(
    device: Seq<char>,
    method: Seq<char>,
    url: Seq<char>,
    body: Seq<u8>,
    token: Seq<char>,
    nonce: Seq<char>,
    issued_at: int,
) -> Claimed {
    Claimed {
        version: 1,
        device,
        nonce,
        issued_at,
        method,
        url_sha256: hash_text(encode_utf8(url)),
        body_sha256: hash_text(body),
        session_sha256: hash_text(encode_utf8(token)),
    }
}

/// The JSON form of claims.
pub open spec fn claims_json(c: Claimed) -> Seq<char> {
    "{\"version\":"@ + decimal(c.version) + ",\"device\":"@ + json_string(c.device)
        + ",\"nonce\":"@ + json_string(c.nonce) + ",\"issued_at\":"@ + decimal(c.issued_at)
        + ",\"method\":"@ + json_string(c.method) + ",\"url_sha256\":"@ + json_string(c.url_sha256)
        + ",\"body_sha256\":"@ + json_string(c.body_sha256) + ",\"session_sha256\":"@ + json_string(
        c.session_sha256,
    ) + "}"@
}

/// The bytes that the TPM signs for claims.
pub open spec fn claims_message(c: Claimed) -> Seq<u8> {
    encode_utf8("mysync/request/v1\n"@ + claims_json(c))
}

impl Claims {
    /// The claims of a request, with a nonce and a time that are given.
    pub fn bind(
        device: &str,
        method: &str,
        url: &str,
        body: &[u8],
        token: &str,
        nonce: String,
        issued_at: i64,
    ) -> (claims: Self)
        ensures
            claims@ == claimed(device@, method@, url@, body@, token@, nonce@, issued_at as int),
    {
        Claims {
            version: 1,
            device: device.to_owned(),
            nonce,
            issued_at,
            method: method.to_owned(),
            url_sha256: hash(url.as_bytes()),
            body_sha256: hash(body),
            session_sha256: hash(token.as_bytes()),
        }
    }

    /// Fresh claims of a request: a random nonce, issued now.
    pub fn new(device: &str, method: &str, url: &str, body: &[u8], token: &str) -> (result: Result<
        Self,
        AuthError,
    >)
        ensures
            match result {
                Ok(claims) => is_hex_of(claims@.nonce, 32) && digest_ok(claims@.nonce)
                    && claims@.issued_at >= 0 && claims@ == claimed(
                    device@,
                    method@,
                    url@,
                    body@,
                    token@,
                    claims@.nonce,
                    claims@.issued_at,
                ),
                Err(e) => e == AuthError::RandomSource,
            },
    {
        let nonce = random_secret()?;
        Ok(Self::bind(device, method, url, body, token, nonce, now()))
    }

    fn json(&self) -> (json: String)
        ensures
            json@ == claims_json(self@),
    {
        let mut json = joined("{\"version\":", decimal_u64(self.version as u64).as_str());
        json.append(",\"device\":");
        json.append(json_quote(self.device.as_str()).as_str());
        json.append(",\"nonce\":");
        json.append(json_quote(self.nonce.as_str()).as_str());
        json.append(",\"issued_at\":");
        json.append(decimal_i64(self.issued_at).as_str());
        json.append(",\"method\":");
        json.append(json_quote(self.method.as_str()).as_str());
        json.append(",\"url_sha256\":");
        json.append(json_quote(self.url_sha256.as_str()).as_str());
        json.append(",\"body_sha256\":");
        json.append(json_quote(self.body_sha256.as_str()).as_str());
        json.append(",\"session_sha256\":");
        json.append(json_quote(self.session_sha256.as_str()).as_str());
        json.append("}");
        json
    }

    /// The bytes to sign; too long a message does not fit the TPM.
    pub fn message(&self) -> (result: Result<Vec<u8>, AuthError>)
        ensures
            fails_with(result, message_error(self@)),
            result matches Ok(message) ==> message@ == claims_message(self@),
    {
        let message = joined("mysync/request/v1\n", self.json().as_str()).as_str().as_bytes_vec();
        if message.len() > MAX_MESSAGE_BYTES {
            return Err(AuthError::MessageTooLarge);
        }
        Ok(message)
    }
}

pub open spec fn message_error(c: Claimed) -> Option<AuthError> {
    if claims_message(c).len() > MAX_MESSAGE_BYTES {
        Some(AuthError::MessageTooLarge)
    } else {
        None
    }
}

/// Signed claims.
pub struct Proof {
    pub claims: Claims,
    pub signature: String,
}

/// The JSON form of a proof.
pub open spec fn proof_json(c: Claimed, signature: Seq<char>) -> Seq<char> {
    "{\"claims\":"@ + claims_json(c) + ",\"signature\":"@ + json_string(signature) + "}"@
}

/// Whether claims made at one time are still fresh at another.
pub open spec fn fresh(issued_at: int, time: int) -> bool {
    time - 60 <= issued_at <= time + 30
}

/// What the TPM library reads out of the public area of a key.
pub struct TpmPublic {
    /// The area as the library writes it again.
    pub canonical: Vec<u8>,
    pub fixed_tpm: bool,
    pub fixed_parent: bool,
    pub sensitive_data_origin: bool,
    pub restricted: bool,
    pub sign_encrypt: bool,
    pub decrypt: bool,
    /// The key's name is made with SHA-256.
    pub sha256_name: bool,
    /// The key is an elliptic-curve key on P-256; then `x` and `y` are its point.
    pub p256: bool,
    pub x: Vec<u8>,
    pub y: Vec<u8>,
}

/// The DER form of the P-256 public key at a point. `None` where there is no such key.
pub uninterp spec fn p256_der(x: Seq<u8>, y: Seq<u8>) -> Option<Seq<u8>>;

/// Whether a raw ECDSA signature over SHA-256 is good under a public key in DER form.
/// `None` where the key or the signature cannot be used at all.
pub uninterp spec fn p256_verifies(
    key_der: Seq<u8>,
    signature: Seq<u8>,
    message: Seq<u8>,
) -> Option<bool>;

/// Calls openssl: `EcPoint::set_affine_coordinates_gfp` on the curve prime256v1, then
/// `EcKey::from_public_key`, `check_key` and `public_key_to_der`. Any failure of one of
/// them is `None`. The numbers must not be longer than openssl takes.
#[verifier::external_body]
fn p256_public_der(x: &[u8], y: &[u8]) -> (der: Option<Vec<u8>>)
    requires
        x@.len() <= OPENSSL_LIMIT,
        y@.len() <= OPENSSL_LIMIT,
    ensures
        opt_bytes(der) == p256_der(x@, y@),
{
    let group = openssl::ec::EcGroup::from_curve_name(openssl::nid::Nid::X9_62_PRIME256V1).ok()?;
    let mut context = openssl::bn::BigNumContext::new().ok()?;
    let mut point = openssl::ec::EcPoint::new(&group).ok()?;
    let x = openssl::bn::BigNum::from_slice(x).ok()?;
    let y = openssl::bn::BigNum::from_slice(y).ok()?;
    point.set_affine_coordinates_gfp(&group, &x, &y, &mut context).ok()?;
    let key = openssl::ec::EcKey::from_public_key(&group, &point).ok()?;
    key.check_key().ok()?;
    openssl::pkey::PKey::from_ec_key(key).ok()?.public_key_to_der().ok()
}

/// Calls openssl: `PKey::public_key_from_der`, `EcdsaSig::from_private_components` with
/// the two halves of the signature, and `Verifier::verify_oneshot` over SHA-256. Any
/// failure of one of them is `None`.
#[verifier::external_body]
fn p256_verify(key_der: &[u8], signature: &[u8], message: &[u8]) -> (good: Option<bool>)
    requires
        signature@.len() == 64,
    ensures
        good == p256_verifies(key_der@, signature@, message@),
{
    let key = openssl::pkey::PKey::public_key_from_der(key_der).ok()?;
    let r = openssl::bn::BigNum::from_slice(&signature[..32]).ok()?;
    let s = openssl::bn::BigNum::from_slice(&signature[32..]).ok()?;
    let der = openssl::ecdsa::EcdsaSig::from_private_components(r, s).ok()?.to_der().ok()?;
    let digest = openssl::hash::MessageDigest::sha256();
    let mut verifier = openssl::sign::Verifier::new(digest, &key).ok()?;
    verifier.verify_oneshot(&der, message).ok()
}

/// Why a public area is not accepted.
pub open spec fn area_error(encoded: Seq<char>, decoded: Option<TpmPublic>) -> Option<AuthError> {
    if encode_utf8(encoded).len() > 4096 {
        Some(AuthError::PublicAreaTooLarge)
    } else if hex_bytes(encoded) is None {
        Some(AuthError::InvalidHex)
    } else if decoded is None {
        Some(AuthError::MalformedPublicArea)
    } else if decoded->0.canonical@ != hex_bytes(encoded)->0 {
        Some(AuthError::NoncanonicalPublicArea)
    } else {
        None
    }
}

/// The bytes of a public area, for the TPM library to read.
pub fn public_area_bytes(encoded: &str) -> (result: Result<Vec<u8>, AuthError>)
    ensures
        fails_with(
            result,
            if encode_utf8(encoded@).len() > 4096 {
                Some(AuthError::PublicAreaTooLarge)
            } else if hex_bytes(encoded@) is None {
                Some(AuthError::InvalidHex)
            } else {
                None
            },
        ),
        result matches Ok(bytes) ==> Some(bytes@) == hex_bytes(encoded@),
{
    if encoded.as_bytes().len() > 4096 {
        return Err(AuthError::PublicAreaTooLarge);
    }
    match hex_decode(encoded) {
        Some(bytes) => Ok(bytes),
        None => Err(AuthError::InvalidHex),
    }
}

/// Checks that a public area is what the TPM library would write for what it read.
pub fn public_area<'a>(encoded: &str, decoded: &'a Option<TpmPublic>) -> (result: Result<
    &'a TpmPublic,
    AuthError,
>)
    ensures
        fails_with(result, area_error(encoded@, *decoded)),
        result matches Ok(area) ==> *decoded == Some(*area),
{
    let bytes = public_area_bytes(encoded)?;
    match decoded {
        None => Err(AuthError::MalformedPublicArea),
        Some(area) => if same_bytes(area.canonical.as_slice(), bytes.as_slice()) {
            Ok(area)
        } else {
            Err(AuthError::NoncanonicalPublicArea)
        },
    }
}

/// A key that never leaves its TPM and signs nothing but what the TPM hashed.
pub open spec fn restricted_signing(area: TpmPublic) -> bool {
    &&& area.fixed_tpm
    &&& area.fixed_parent
    &&& area.sensitive_data_origin
    &&& area.restricted
    &&& area.sign_encrypt
    &&& !area.decrypt
    &&& area.sha256_name
}

/// Why a public area is not one of a device key.
pub open spec fn signing_error(encoded: Seq<char>, decoded: Option<TpmPublic>) -> Option<
    AuthError,
> {
    if area_error(encoded, decoded) is Some {
        area_error(encoded, decoded)
    } else if !restricted_signing(decoded->0) {
        Some(AuthError::NotARestrictedSigningKey)
    } else if !decoded->0.p256 {
        Some(AuthError::P256KeyRequired)
    } else if decoded->0.x@.len() > OPENSSL_LIMIT || decoded->0.y@.len() > OPENSSL_LIMIT || p256_der(
        decoded->0.x@,
        decoded->0.y@,
    ) is None {
        Some(AuthError::InvalidKey)
    } else {
        None
    }
}

/// The device key in a public area, in DER form.
pub fn signing_public(encoded: &str, decoded: &Option<TpmPublic>) -> (result: Result<
    Vec<u8>,
    AuthError,
>)
    ensures
        fails_with(result, signing_error(encoded@, *decoded)),
        result matches Ok(der) ==> Some(der@) == p256_der(decoded->0.x@, decoded->0.y@),
{
    let area = public_area(encoded, decoded)?;
    if !(area.fixed_tpm && area.fixed_parent && area.sensitive_data_origin && area.restricted
        && area.sign_encrypt && !area.decrypt && area.sha256_name) {
        return Err(AuthError::NotARestrictedSigningKey);
    }
    if !area.p256 {
        return Err(AuthError::P256KeyRequired);
    }
    if area.x.len() > OPENSSL_LIMIT || area.y.len() > OPENSSL_LIMIT {
        return Err(AuthError::InvalidKey);
    }
    match p256_public_der(area.x.as_slice(), area.y.as_slice()) {
        Some(der) => Ok(der),
        None => Err(AuthError::InvalidKey),
    }
}

/// The TPM name of a key: the algorithm, then the digest of its public area.
pub fn key_name(encoded: &str, decoded: &Option<TpmPublic>) -> (result: Result<Vec<u8>, AuthError>)
    ensures
        fails_with(
            result,
            if area_error(encoded@, *decoded) is Some {
                area_error(encoded@, *decoded)
            } else if !decoded->0.sha256_name {
                Some(AuthError::Sha256NameRequired)
            } else {
                None
            },
        ),
        result matches Ok(name) ==> name@ == seq![0u8, 0x0bu8] + sha256(decoded->0.canonical@),
{
    let area = public_area(encoded, decoded)?;
    if !area.sha256_name {
        return Err(AuthError::Sha256NameRequired);
    }
    let mut name: Vec<u8> = Vec::new();
    name.push(0);
    name.push(0x0b);
    let digest = sha256_of(area.canonical.as_slice());
    name.extend_from_slice(digest.as_slice());
    assert(name@ =~= seq![0u8, 0x0bu8] + sha256(area.canonical@));
    Ok(name)
}

/// What a person compares before a device is approved.
pub fn fingerprint(public: &str, decoded: &Option<TpmPublic>) -> (result: Result<String, AuthError>)
    ensures
        fails_with(result, signing_error(public@, *decoded)),
        result matches Ok(text) ==> text@ == hash_text(
            p256_der(decoded->0.x@, decoded->0.y@)->0,
        ) && text@.len() == 64,
{
    let der = signing_public(public, decoded)?;
    Ok(hash(der.as_slice()))
}

/// Why a proof does not authenticate the headers of a request.
pub open spec fn headers_error(
    c: Claimed,
    signature: Seq<char>,
    public: Seq<char>,
    decoded: Option<TpmPublic>,
    method: Seq<char>,
    url: Seq<char>,
    token: Seq<char>,
    time: int,
) -> Option<AuthError> {
    let raw = hex_bytes(signature);
    let good = p256_verifies(
        p256_der(decoded->0.x@, decoded->0.y@)->0,
        raw->0,
        claims_message(c),
    );
    if c.version != 1 || !fresh(c.issued_at, time) {
        Some(AuthError::ExpiredProof)
    } else if !digest_ok(c.nonce) {
        Some(AuthError::InvalidNonce)
    } else if c.method != method || c.url_sha256 != hash_text(encode_utf8(url)) || c.session_sha256
        != hash_text(encode_utf8(token)) {
        Some(AuthError::BindingMismatch)
    } else if signing_error(public, decoded) is Some {
        signing_error(public, decoded)
    } else if raw is None {
        Some(AuthError::InvalidHex)
    } else if raw->0.len() != 64 {
        Some(AuthError::SignatureSize)
    } else if message_error(c) is Some {
        message_error(c)
    } else if good == Some(true) {
        None
    } else {
        Some(AuthError::InvalidSignature)
    }
}

/// Why a whole request is not authentic at a time: its headers, or else its body.
pub open spec fn request_error(
    c: Claimed,
    signature: Seq<char>,
    public: Seq<char>,
    decoded: Option<TpmPublic>,
    method: Seq<char>,
    url: Seq<char>,
    body: Seq<u8>,
    token: Seq<char>,
    time: int,
) -> Option<AuthError> {
    match headers_error(c, signature, public, decoded, method, url, token, time) {
        Some(e) => Some(e),
        None => if c.body_sha256 == hash_text(body) {
            None
        } else {
            Some(AuthError::BodyMismatch)
        },
    }
}

/// Why the text of a proof header is not read.
pub open spec fn header_error(text: Seq<char>) -> Option<AuthError> {
    if encode_utf8(text).len() > MAX_PROOF_BYTES {
        Some(AuthError::ProofTooLarge)
    } else if base64url_bytes(text) is None {
        Some(AuthError::Undecodable)
    } else {
        None
    }
}

impl Proof {
    /// The text of the proof header. `decode` gives back the JSON that was written, unless
    /// the text is longer than a header may be.
    pub fn encode(&self) -> (text: String)
        ensures
            header_error(text@) == if text@.len() > MAX_PROOF_BYTES {
                Some(AuthError::ProofTooLarge)
            } else {
                None
            },
            text@ == base64url(encode_utf8(proof_json(self.claims@, self.signature@))),
            base64url_bytes(text@) == Some(
                encode_utf8(proof_json(self.claims@, self.signature@)),
            ),
            text@.len() == (4 * encode_utf8(proof_json(self.claims@, self.signature@)).len() + 2)
                / 3,
            is_ascii_chars(text@),
    {
        let mut json = joined("{\"claims\":", self.claims.json().as_str());
        json.append(",\"signature\":");
        json.append(json_quote(self.signature.as_str()).as_str());
        json.append("}");
        let text = base64_encode(json.as_str().as_bytes());
        proof {
            is_ascii_chars_encode_utf8(text@);
        }
        text
    }

    /// The JSON inside a proof header.
    pub fn decode(text: &str) -> (result: Result<Vec<u8>, AuthError>)
        ensures
            fails_with(result, header_error(text@)),
            result matches Ok(json) ==> Some(json@) == base64url_bytes(text@),
    {
        if text.as_bytes().len() > MAX_PROOF_BYTES {
            return Err(AuthError::ProofTooLarge);
        }
        match base64_decode(text) {
            Some(json) => Ok(json),
            None => Err(AuthError::Undecodable),
        }
    }

    /// Authenticates the headers of a request at a given time, body digest included,
    /// before any of the body is read.
    pub fn verify_headers_at(
        &self,
        public: &str,
        decoded: &Option<TpmPublic>,
        method: &str,
        url: &str,
        token: &str,
        time: i64,
    ) -> (result: Result<(), AuthError>)
        ensures
            fails_with(
                result,
                headers_error(
                    self.claims@,
                    self.signature@,
                    public@,
                    *decoded,
                    method@,
                    url@,
                    token@,
                    time as int,
                ),
            ),
    {
        let c = &self.claims;
        let age: i128 = time as i128 - c.issued_at as i128;
        if c.version != 1 || age > 60 || age < -30 {
            return Err(AuthError::ExpiredProof);
        }
        if !valid_digest(c.nonce.as_str()) {
            return Err(AuthError::InvalidNonce);
        }
        if !same_text(c.method.as_str(), method) || !same_text(
            c.url_sha256.as_str(),
            hash(url.as_bytes()).as_str(),
        ) || !same_text(c.session_sha256.as_str(), hash(token.as_bytes()).as_str()) {
            return Err(AuthError::BindingMismatch);
        }
        let key = signing_public(public, decoded)?;
        let signature = match hex_decode(self.signature.as_str()) {
            Some(signature) => signature,
            None => return Err(AuthError::InvalidHex),
        };
        if signature.len() != 64 {
            return Err(AuthError::SignatureSize);
        }
        let message = c.message()?;
        match p256_verify(key.as_slice(), signature.as_slice(), message.as_slice()) {
            Some(true) => Ok(()),
            _ => Err(AuthError::InvalidSignature),
        }
    }

    /// Authenticates the headers of a request by the machine's clock.
    pub fn verify_headers(
        &self,
        public: &str,
        decoded: &Option<TpmPublic>,
        method: &str,
        url: &str,
        token: &str,
    ) -> (result: Result<(), AuthError>)
        ensures
            exists|time: int|
                0 <= time <= i64::MAX && fails_with(
                    result,
                    #[trigger] headers_error(
                        self.claims@,
                        self.signature@,
                        public@,
                        *decoded,
                        method@,
                        url@,
                        token@,
                        time,
                    ),
                ),
    {
        let time = now();
        let result = self.verify_headers_at(public, decoded, method, url, token, time);
        assert(fails_with(
            result,
            headers_error(
                self.claims@,
                self.signature@,
                public@,
                *decoded,
                method@,
                url@,
                token@,
                time as int,
            ),
        ));
        result
    }

    /// Checks the body that followed the headers.
    pub fn verify_body(&self, body: &[u8]) -> (result: Result<(), AuthError>)
        ensures
            fails_with(
                result,
                if self.claims@.body_sha256 == hash_text(body@) {
                    None
                } else {
                    Some(AuthError::BodyMismatch)
                },
            ),
    {
        if same_text(self.claims.body_sha256.as_str(), hash(body).as_str()) {
            Ok(())
        } else {
            Err(AuthError::BodyMismatch)
        }
    }

    /// Authenticates a whole request at a given time.
    pub fn verify_at(
        &self,
        public: &str,
        decoded: &Option<TpmPublic>,
        method: &str,
        url: &str,
        body: &[u8],
        token: &str,
        time: i64,
    ) -> (result: Result<(), AuthError>)
        ensures
            fails_with(
                result,
                request_error(
                    self.claims@,
                    self.signature@,
                    public@,
                    *decoded,
                    method@,
                    url@,
                    body@,
                    token@,
                    time as int,
                ),
            ),
    {
        self.verify_headers_at(public, decoded, method, url, token, time)?;
        self.verify_body(body)
    }

    /// Authenticates a whole request by the machine's clock.
    pub fn verify(
        &self,
        public: &str,
        decoded: &Option<TpmPublic>,
        method: &str,
        url: &str,
        body: &[u8],
        token: &str,
    ) -> (result: Result<(), AuthError>)
        ensures
            exists|time: int|
                0 <= time <= i64::MAX && fails_with(
                    result,
                    #[trigger] request_error(
                        self.claims@,
                        self.signature@,
                        public@,
                        *decoded,
                        method@,
                        url@,
                        body@,
                        token@,
                        time,
                    ),
                ),
    {
        let time = now();
        let result = self.verify_at(public, decoded, method, url, body, token, time);
        assert(fails_with(
            result,
            request_error(
                self.claims@,
                self.signature@,
                public@,
                *decoded,
                method@,
                url@,
                body@,
                token@,
                time as int,
            ),
        ));
        result
    }
}

/// A device's request to be enrolled: its key, and the certificates of its TPM.
pub struct EnrollStart {
    pub invitation: String,
    pub public: String,
    pub ek_chain: Vec<String>,
}

/// What only the TPM of the certificate can answer for only that key.
pub struct EnrollChallenge {
    pub id: String,
    pub credential: String,
    pub secret: String,
}

/// The answer to a challenge.
pub struct EnrollFinish {
    pub id: String,
    pub activation: String,
}

/// An enrollment as the device sees it.
pub struct Enrollment {
    pub id: String,
    pub fingerprint: String,
    pub status: String,
}

/// A session that requests of one device are bound to.
pub struct Session {
    pub token: String,
    pub expires_at: i64,
}

/// A proof that was accepted once cannot be accepted again after its nonce was
/// forgotten: by then it has expired.
pub proof fn law_nonce_outlives_proof(issued_at: int, accepted: int, later: int)
    requires
        fresh(issued_at, accepted),
        later >= accepted + NONCE_SECONDS,
    ensures
        !fresh(issued_at, later),
{
}

/// A proof whose headers were accepted speaks of this very request: its method, the
/// digests of its URL and of its session, and nothing older than a minute.
pub proof fn law_accepted_proof_binds_request(
    c: Claimed,
    signature: Seq<char>,
    public: Seq<char>,
    decoded: Option<TpmPublic>,
    method: Seq<char>,
    url: Seq<char>,
    token: Seq<char>,
    time: int,
)
    requires
        headers_error(c, signature, public, decoded, method, url, token, time) is None,
    ensures
        c.method == method,
        c.url_sha256 == hash_text(encode_utf8(url)),
        c.session_sha256 == hash_text(encode_utf8(token)),
        fresh(c.issued_at, time),
        restricted_signing(decoded->0),
        p256_verifies(
            p256_der(decoded->0.x@, decoded->0.y@)->0,
            hex_bytes(signature)->0,
            claims_message(c),
        ) == Some(true),
{
}

/// A proof that is good for a request at some second is good at that second for the same
/// method, URL, body and session token, by their digests, and for no other.
pub proof fn law_proof_serves_one_request(
    c: Claimed,
    signature: Seq<char>,
    public: Seq<char>,
    decoded: Option<TpmPublic>,
    method: Seq<char>,
    url: Seq<char>,
    body: Seq<u8>,
    token: Seq<char>,
    other_method: Seq<char>,
    other_url: Seq<char>,
    other_body: Seq<u8>,
    other_token: Seq<char>,
    time: int,
)
    requires
        request_error(c, signature, public, decoded, method, url, body, token, time) is None,
    ensures
        request_error(
            c,
            signature,
            public,
            decoded,
            other_method,
            other_url,
            other_body,
            other_token,
            time,
        ) is None <==> other_method == method && hash_text(encode_utf8(other_url)) == hash_text(
            encode_utf8(url),
        ) && hash_text(other_body) == hash_text(body) && hash_text(encode_utf8(other_token))
            == hash_text(encode_utf8(token)),
{
}

/// A key area is usable exactly where its text is short enough and hexadecimal, it was decoded,
/// and the decoder would write the very same bytes.
pub proof fn law_canonical_area_is_usable(encoded: Seq<char>, decoded: Option<TpmPublic>)
    ensures
        area_error(encoded, decoded) is None <==> encode_utf8(encoded).len() <= 4096 && hex_bytes(
            encoded,
        ) is Some && decoded is Some && decoded->0.canonical@ == hex_bytes(encoded)->0,
        encode_utf8(encoded).len() > 4096 <==> area_error(encoded, decoded) == Some(
            AuthError::PublicAreaTooLarge,
        ),
{
}

/// A key may sign requests exactly where its area is usable, it is bound to the chip that made
/// it, signs only what the chip hashed, does not decrypt, is named by SHA-256, and is a point of
/// the curve P-256.
pub proof fn law_chip_bound_key_may_sign(encoded: Seq<char>, decoded: Option<TpmPublic>)
    ensures
        signing_error(encoded, decoded) is None <==> area_error(encoded, decoded) is None && ({
            let area = decoded->0;
            &&& area.fixed_tpm && area.fixed_parent && area.sensitive_data_origin
            &&& area.restricted && area.sign_encrypt && !area.decrypt
            &&& area.sha256_name && area.p256
            &&& area.x@.len() <= OPENSSL_LIMIT && area.y@.len() <= OPENSSL_LIMIT
            &&& p256_der(area.x@, area.y@) is Some
        }),
        area_error(encoded, decoded) is None && !(decoded->0.fixed_tpm && decoded->0.fixed_parent
            && decoded->0.sensitive_data_origin && decoded->0.restricted && decoded->0.sign_encrypt
            && !decoded->0.decrypt && decoded->0.sha256_name) ==> signing_error(encoded, decoded)
            == Some(AuthError::NotARestrictedSigningKey),
{
}

/// A proof is right for a request exactly where it is of this version and not older than a
/// minute nor more than half a minute ahead, its nonce is 32 bytes in hexadecimal, it was made
/// for this method, address and token, its key may sign, and its signature of 64 bytes verifies
/// on the message of the claims.
pub proof fn law_proof_is_right_for_its_request(
    c: Claimed,
    signature: Seq<char>,
    public: Seq<char>,
    decoded: Option<TpmPublic>,
    method: Seq<char>,
    url: Seq<char>,
    token: Seq<char>,
    time: int,
)
    ensures
        ({
            let error = headers_error(c, signature, public, decoded, method, url, token, time);
            let timely = c.version == 1 && time - 60 <= c.issued_at && c.issued_at <= time + 30;
            let ours = c.method == method && c.url_sha256 == hash_text(encode_utf8(url))
                && c.session_sha256 == hash_text(encode_utf8(token));
            &&& error is None <==> timely && digest_ok(c.nonce) && ours && signing_error(
                public,
                decoded,
            ) is None && hex_bytes(signature) is Some && hex_bytes(signature)->0.len() == 64
                && claims_message(c).len() <= 1024 && p256_verifies(
                p256_der(decoded->0.x@, decoded->0.y@)->0,
                hex_bytes(signature)->0,
                claims_message(c),
            ) == Some(true)
            &&& !timely <==> error == Some(AuthError::ExpiredProof)
            &&& timely && !digest_ok(c.nonce) <==> error == Some(AuthError::InvalidNonce)
            &&& timely && digest_ok(c.nonce) && !ours <==> error == Some(AuthError::BindingMismatch)
        }),
{
}

/// A whole request is right exactly where its headers are and its body is the one that was
/// signed, whatever the body is.
pub proof fn law_whole_request_is_right(
    c: Claimed,
    signature: Seq<char>,
    public: Seq<char>,
    decoded: Option<TpmPublic>,
    method: Seq<char>,
    url: Seq<char>,
    body: Seq<u8>,
    token: Seq<char>,
    time: int,
)
    ensures
        request_error(c, signature, public, decoded, method, url, body, token, time) is None
            <==> headers_error(c, signature, public, decoded, method, url, token, time) is None
            && c.body_sha256 == hash_text(body),
        headers_error(c, signature, public, decoded, method, url, token, time) is None
            && c.body_sha256 != hash_text(body) ==> request_error(
            c,
            signature,
            public,
            decoded,
            method,
            url,
            body,
            token,
            time,
        ) == Some(AuthError::BodyMismatch),
{
}

/// What a device claims of its own request is right for that request, from half a minute before
/// until a minute after it was signed.
pub proof fn law_own_claims_are_right(
    device: Seq<char>,
    method: Seq<char>,
    url: Seq<char>,
    body: Seq<u8>,
    token: Seq<char>,
    nonce: Seq<char>,
    issued_at: int,
    signature: Seq<char>,
    public: Seq<char>,
    decoded: Option<TpmPublic>,
    time: int,
)
    requires
        digest_ok(nonce),
        signing_error(public, decoded) is None,
        hex_bytes(signature) is Some,
        hex_bytes(signature)->0.len() == 64,
        ({
            let message = claims_message(
                claimed(device, method, url, body, token, nonce, issued_at),
            );
            message.len() <= 1024 && p256_verifies(
                p256_der(decoded->0.x@, decoded->0.y@)->0,
                hex_bytes(signature)->0,
                message,
            ) == Some(true)
        }),
    ensures
        request_error(
            claimed(device, method, url, body, token, nonce, issued_at),
            signature,
            public,
            decoded,
            method,
            url,
            body,
            token,
            time,
        ) is None <==> issued_at - 30 <= time <= issued_at + 60,
        claimed(device, method, url, body, token, nonce, issued_at).device == device,
        claimed(device, method, url, body, token, nonce, issued_at).nonce == nonce,
{
}

/// A header is read exactly where it takes 4096 bytes at most and is text of the right alphabet;
/// a message is signed where it takes 1024 bytes at most.
pub proof fn law_short_proofs_are_read(text: Seq<char>, c: Claimed)
    ensures
        header_error(text) is None <==> encode_utf8(text).len() <= 4096 && base64url_bytes(
            text,
        ) is Some,
        message_error(c) is None <==> claims_message(c).len() <= 1024,
{
}

/// The clock is shown as it stands; one before its beginning is shown as zero.
pub proof fn law_clock_is_shown_as_it_stands(elapsed: Option<u64>)
    ensures
        elapsed is None ==> shown(elapsed) == 0,
        elapsed is Some && elapsed->0 <= i64::MAX ==> shown(elapsed) == elapsed->0,
        elapsed is Some && elapsed->0 > i64::MAX ==> shown(elapsed) == i64::MAX,
{
}

} // verus!
