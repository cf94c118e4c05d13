use mysyncfiles::access::{list_devices, revoke_device, SignedRequest};
use mysyncfiles::admission::{allow_pair_check, PairChecks};
use mysyncfiles::auth_protocol::{
    fingerprint, hash, key_name, now, random_secret, seconds_of, AuthError, Claims,
    EnrollChallenge, EnrollStart, Proof, TpmPublic, NONCE_SECONDS, SESSION_SECONDS,
};
use mysyncfiles::console::{approves, pair_progress, PairError};
use mysyncfiles::device_auth::{
    check_database, fresh_id, normalize_pairing_code, pairing_code, AuthState, DeviceEnrollment,
    PairReadyRequest,
};
use mysyncfiles::certified::{check_certificate, doctor, judge_numbers, EkPublic, KeyNumbers};
use mysyncfiles::endorsement::{
    judge_chain, judge_leaf, parse_credential, read_chain, read_ek_certificate, read_ek_chain,
    verify_ek, verify_ek_at, EkKey, LeafUsage, PRIME256V1,
};
use mysyncfiles::origin_auth::{
    is_file_stream, load_key, public_key, public_key_text, request_proof, seal, seal_stream,
    stored_key, verify_pinned, OriginError, ResponseProof,
};
use mysyncfiles::pairing::pairing_code_of;
use mysyncfiles::registry::{DeviceError, APPROVAL_SECONDS, INVITATION_SECONDS};
use mysyncfiles::tpm::{algorithm, challenge_blobs, EkAlgorithm, Identity, TpmError};
use openssl::asn1::Asn1Time;
use openssl::bn::{BigNum, BigNumContext};
use openssl::ec::{EcGroup, EcKey};
use openssl::ecdsa::EcdsaSig;
use openssl::hash::MessageDigest;
use openssl::nid::Nid;
use openssl::pkey::{PKey, Private};
use openssl::rsa::Rsa;
use openssl::x509::extension::{BasicConstraints, ExtendedKeyUsage, KeyUsage};
use openssl::x509::{X509NameBuilder, X509};

struct Device {
    key: EcKey<Private>,
    area: Option<TpmPublic>,
    public: String,
}

fn group() -> EcGroup {
    EcGroup::from_curve_name(Nid::X9_62_PRIME256V1).unwrap()
}

fn device(name: &str) -> Device {
    let key = EcKey::generate(&group()).unwrap();
    let mut context = BigNumContext::new().unwrap();
    let (mut x, mut y) = (BigNum::new().unwrap(), BigNum::new().unwrap());
    key.public_key().affine_coordinates(&group(), &mut x, &mut y, &mut context).unwrap();
    let area = TpmPublic {
        canonical: name.as_bytes().to_vec(),
        fixed_tpm: true,
        fixed_parent: true,
        sensitive_data_origin: true,
        restricted: true,
        sign_encrypt: true,
        decrypt: false,
        sha256_name: true,
        p256: true,
        x: x.to_vec(),
        y: y.to_vec(),
    };
    Device { key, area: Some(area), public: hex::encode(name) }
}

fn numbers(key: &EcKey<Private>, message: &[u8]) -> (Vec<u8>, Vec<u8>) {
    let digest = openssl::hash::hash(MessageDigest::sha256(), message).unwrap();
    let signature = EcdsaSig::sign(&digest, key).unwrap();
    (signature.r().to_vec(), signature.s().to_vec())
}

fn identity(device: &Device, id: &str) -> Identity {
    Identity {
        device: id.to_owned(),
        public: device.public.clone(),
        private: String::new(),
        ek_kind: "ecc".to_owned(),
        tcti: String::new(),
    }
}

fn parse_claims(value: &serde_json::Value) -> Claims {
    let text = |name: &str| value[name].as_str().unwrap().to_owned();
    Claims {
        version: value["version"].as_u64().unwrap() as u8,
        device: text("device"),
        nonce: text("nonce"),
        issued_at: value["issued_at"].as_i64().unwrap(),
        method: text("method"),
        url_sha256: text("url_sha256"),
        body_sha256: text("body_sha256"),
        session_sha256: text("session_sha256"),
    }
}

fn read_proof(header: &str) -> Proof {
    let json = Proof::decode(header).ok().unwrap();
    let value: serde_json::Value = serde_json::from_slice(&json).unwrap();
    Proof {
        claims: parse_claims(&value["claims"]),
        signature: value["signature"].as_str().unwrap().to_owned(),
    }
}

fn signed(
    device: &Device,
    id: &str,
    method: &str,
    url: &str,
    body: &[u8],
    token: &str,
    time: i64,
) -> Proof {
    let nonce = random_secret().ok().unwrap();
    let claims = Claims::bind(id, method, url, body, token, nonce, time);
    let pair = numbers(&device.key, &claims.message().ok().unwrap());
    let header = identity(device, id).request_proof(claims, Some(pair)).ok().unwrap();
    read_proof(&header)
}

#[test]
fn a_signed_request_is_verified_with_its_body() {
    let d = device("one");
    let proof = signed(&d, "id", "PUT", "https://h/v1/file", b"body", "token", 1000);
    let at = |time: i64, method: &str, url: &str, token: &str| {
        proof.verify_headers_at(&d.public, &d.area, method, url, token, time).err()
    };
    assert!(at(1000, "PUT", "https://h/v1/file", "token").is_none());
    assert!(at(1060, "PUT", "https://h/v1/file", "token").is_none());
    assert!(at(1061, "PUT", "https://h/v1/file", "token") == Some(AuthError::ExpiredProof));
    assert!(at(970, "PUT", "https://h/v1/file", "token").is_none());
    assert!(at(969, "PUT", "https://h/v1/file", "token") == Some(AuthError::ExpiredProof));
    assert!(at(1000, "GET", "https://h/v1/file", "token") == Some(AuthError::BindingMismatch));
    assert!(at(1000, "PUT", "https://h/v1/file?x", "token") == Some(AuthError::BindingMismatch));
    assert!(at(1000, "PUT", "https://h/v1/file", "other") == Some(AuthError::BindingMismatch));
    assert!(proof.verify_body(b"body").is_ok());
    assert!(proof.verify_body(b"bodx").err() == Some(AuthError::BodyMismatch));
}

#[test]
fn a_proof_of_another_key_is_refused() {
    let (one, two) = (device("one"), device("two"));
    let proof = signed(&one, "id", "GET", "https://h/", b"", "", 1000);
    let result = proof.verify_headers_at(&two.public, &two.area, "GET", "https://h/", "", 1000);
    assert!(result.err() == Some(AuthError::InvalidSignature));
    let mut altered = signed(&one, "id", "GET", "https://h/", b"", "", 1000);
    altered.claims.nonce = "0".repeat(64);
    let result = altered.verify_headers_at(&one.public, &one.area, "GET", "https://h/", "", 1000);
    assert!(result.err() == Some(AuthError::InvalidSignature));
    altered.claims.nonce = "short".to_owned();
    let result = altered.verify_headers_at(&one.public, &one.area, "GET", "https://h/", "", 1000);
    assert!(result.err() == Some(AuthError::InvalidNonce));
}

#[test]
fn the_time_is_never_negative() {
    assert_eq!(seconds_of(Some(1_700_000_000)), 1_700_000_000);
    assert_eq!(seconds_of(Some(0)), 0);
    assert_eq!(seconds_of(None), 0);
    assert_eq!(seconds_of(Some(u64::MAX)), i64::MAX);
    assert!(now() > 1_600_000_000);
}

#[test]
fn a_proof_serves_one_request() {
    let d = device("one");
    let proof = signed(&d, "id", "PUT", "https://h/f?a=1", b"body", "token", 1000);
    let good = |method: &str, url: &str, body: &[u8], token: &str| {
        proof.verify_at(&d.public, &d.area, method, url, body, token, 1000).is_ok()
    };
    assert!(good("PUT", "https://h/f?a=1", b"body", "token"));
    assert!(!good("GET", "https://h/f?a=1", b"body", "token"));
    assert!(!good("PUT", "https://h/f?a=2", b"body", "token"));
    assert!(!good("PUT", "https://h/f?a=1", b"bode", "token"));
    assert!(!good("PUT", "https://h/f?a=1", b"body", "other"));
}

#[test]
fn fresh_claims_are_of_now() {
    let d = device("one");
    let claims = Claims::new("id", "POST", "https://h/", b"x", "").ok().unwrap();
    assert_eq!(claims.nonce.len(), 64);
    assert_eq!(claims.nonce, claims.nonce.to_lowercase());
    assert!((claims.issued_at - now()).abs() <= 5);
    assert_eq!(claims.body_sha256, hash(b"x"));
    let pair = numbers(&d.key, &claims.message().ok().unwrap());
    let header = identity(&d, "id").request_proof(claims, Some(pair)).ok().unwrap();
    let proof = read_proof(&header);
    assert!(proof.verify(&d.public, &d.area, "POST", "https://h/", b"x", "").is_ok());
    assert!(proof.verify(&d.public, &d.area, "POST", "https://h/", b"y", "").is_err());
    assert!(proof.verify_headers(&d.public, &d.area, "POST", "https://h/", "").is_ok());
    assert!(Proof::decode(&"A".repeat(4097)).err() == Some(AuthError::ProofTooLarge));
    assert!(Proof::decode("*").err() == Some(AuthError::Undecodable));
}

#[test]
fn a_message_has_a_fixed_beginning_and_a_limit() {
    let claims = Claims::bind("d", "GET", "u", b"", "", "n".to_owned(), 7);
    let message = String::from_utf8(claims.message().ok().unwrap()).unwrap();
    let begin = "mysync/request/v1\n{\"version\":1,\"device\":\"d\",\"nonce\":\"n\",\"issued_at\":7,";
    assert!(message.starts_with(begin), "{message}");
    let claims = Claims::bind(&"d".repeat(1024), "GET", "u", b"", "", "n".to_owned(), 7);
    assert!(claims.message().err() == Some(AuthError::MessageTooLarge));
}

#[test]
fn a_key_must_be_a_restricted_signing_key_on_p256() {
    let d = device("one");
    let text = fingerprint(&d.public, &d.area).ok().unwrap();
    let der = PKey::from_ec_key(d.key.clone()).unwrap().public_key_to_der().unwrap();
    assert_eq!(text, hash(&der));
    let name = key_name(&d.public, &d.area).ok().unwrap();
    assert_eq!(&name[..2], [0, 0x0b]);
    assert_eq!(hex::encode(&name[2..]), hash(b"one"));
    let with = |change: &dyn Fn(&mut TpmPublic)| {
        let mut area = device("one").area.unwrap();
        change(&mut area);
        fingerprint(&d.public, &Some(area)).err()
    };
    let unfit = Some(AuthError::NotARestrictedSigningKey);
    assert!(with(&|a| a.fixed_tpm = false) == unfit);
    assert!(with(&|a| a.fixed_parent = false) == unfit);
    assert!(with(&|a| a.sensitive_data_origin = false) == unfit);
    assert!(with(&|a| a.restricted = false) == unfit);
    assert!(with(&|a| a.sign_encrypt = false) == unfit);
    assert!(with(&|a| a.decrypt = true) == unfit);
    assert!(with(&|a| a.p256 = false) == Some(AuthError::P256KeyRequired));
    assert!(with(&|a| a.canonical.push(0)) == Some(AuthError::NoncanonicalPublicArea));
    assert!(fingerprint("zz", &None).err() == Some(AuthError::InvalidHex));
    assert!(fingerprint("00", &None).err() == Some(AuthError::MalformedPublicArea));
    let large = "00".repeat(2049);
    assert!(fingerprint(&large, &None).err() == Some(AuthError::PublicAreaTooLarge));
}

#[test]
fn signature_numbers_are_filled_up() {
    let d = device("one");
    let claims = || Claims::bind("d", "GET", "u", b"", "", "n".to_owned(), 7);
    let it = identity(&d, "d");
    let header = it.request_proof(claims(), Some((vec![5], vec![1, 2]))).ok().unwrap();
    let expected = format!("{}05{}0102", "00".repeat(31), "00".repeat(30));
    assert_eq!(read_proof(&header).signature, expected);
    let error = it.request_proof(claims(), None).err();
    assert!(error == Some(TpmError::UnexpectedSignature));
    let error = it.request_proof(claims(), Some((vec![0; 33], vec![]))).err();
    assert!(error == Some(TpmError::InvalidComponent));
    assert!(algorithm("rsa").ok() == Some(EkAlgorithm::Rsa2048));
    assert!(algorithm("ecc").ok() == Some(EkAlgorithm::P256));
    assert_eq!(algorithm("x").err().unwrap().message(), "unsupported EK algorithm");
    let made = Identity::created("tcti", "rsa", &[1], &[2]);
    let blobs = made.blobs().ok().unwrap();
    assert_eq!((blobs.public, blobs.private), (vec![1], vec![2]));
    let challenge = |credential: &str| EnrollChallenge {
        id: "i".to_owned(),
        credential: credential.to_owned(),
        secret: "0a".to_owned(),
    };
    assert_eq!(challenge_blobs(&challenge("ff")).ok().unwrap().credential, vec![255]);
    assert!(challenge_blobs(&challenge("f")).err() == Some(TpmError::InvalidHex));
}

fn response(text: &str) -> ResponseProof {
    let json = ResponseProof::decode(text).ok().unwrap();
    let value: serde_json::Value = serde_json::from_slice(&json).unwrap();
    ResponseProof {
        request_sha256: value["request_sha256"].as_str().unwrap().to_owned(),
        status: value["status"].as_u64().unwrap() as u16,
        body_sha256: value["body_sha256"].as_str().map(str::to_owned),
        signature: value["signature"].as_str().unwrap().to_owned(),
    }
}

#[test]
fn proof_rejects_replay_status_substitution_and_other_origins() {
    let key = [1; 32];
    let text = ResponseProof::sign(&key, "fresh TPM proof", 200, Some(b"manifest"));
    let proof = response(&text);
    let pin = public_key_text(&key);
    assert!(verify_pinned(&pin, &proof, "fresh TPM proof", 200).is_ok());
    assert_eq!(proof.body_sha256, Some(hash(b"manifest")));
    assert!(verify_pinned(&pin, &proof, "another request", 200).is_err());
    assert!(verify_pinned(&pin, &proof, "fresh TPM proof", 409).is_err());
    let other = public_key_text(&[2; 32]);
    assert!(verify_pinned(&other, &proof, "fresh TPM proof", 200).is_err());
}

#[test]
fn a_response_body_is_bound_unless_it_is_a_file() {
    let key = [1; 32];
    let sealed = seal(&key, "p", 200, Some(b"{}".to_vec()));
    assert_eq!(sealed.status, 200);
    let proof = response(&sealed.header);
    assert!(proof.verify_body(b"{}", false).is_ok());
    let error = proof.verify_body(b"{ }", false).err().unwrap();
    assert!(error == OriginError::BodyMismatch);
    assert_eq!(error.message(), "origin response body integrity check failed");
    let stream = response(&seal_stream(&key, "p").header);
    assert!(stream.verify_body(b"anything", true).is_ok());
    assert!(stream.verify_body(b"anything", false).is_err());
    let large = seal(&key, "p", 200, None);
    assert_eq!(large.status, 500);
    assert!(is_file_stream("GET", "/v1/file", 200));
    assert!(!is_file_stream("GET", "/v1/file", 409));
    assert!(!is_file_stream("PUT", "/v1/file", 200));
    assert_eq!(request_proof(None), Some(String::new()));
    assert_eq!(request_proof(Some("p")), Some("p".to_owned()));
    assert_eq!(request_proof(Some(&"p".repeat(4097))), None);
}

#[test]
fn a_pin_is_a_strong_key() {
    let pin = public_key_text(&[9; 32]);
    assert_eq!(hex::encode(public_key(&format!(" {pin}\n")).ok().unwrap()), pin);
    assert!(public_key("zz").err() == Some(OriginError::InvalidHex));
    assert!(public_key("00").err() == Some(OriginError::PublicKeyLength));
    let weak = format!("01{}", "00".repeat(31));
    assert!(public_key(&weak).err() == Some(OriginError::WeakPublicKey));
    let none = format!("02{}", "00".repeat(31));
    assert!(public_key(&none).err() == Some(OriginError::InvalidPublicKey));
    let text = load_key(None).ok().unwrap();
    assert_eq!(stored_key(&text).ok().unwrap().len(), 32);
    assert_eq!(load_key(Some(text.clone())).ok(), Some(text));
    assert!(stored_key("00").err() == Some(OriginError::StoredKey));
}

fn certificate(
    subject: &PKey<Private>,
    issuer: Option<(&X509, &PKey<Private>)>,
    ca: bool,
    purpose: Option<&str>,
    days: (u32, u32),
) -> X509 {
    certified(if ca { "root" } else { "ek" }, subject, issuer, ca, purpose, days)
}

fn certified(
    name: &str,
    subject: &PKey<Private>,
    issuer: Option<(&X509, &PKey<Private>)>,
    ca: bool,
    purpose: Option<&str>,
    days: (u32, u32),
) -> X509 {
    let common = name;
    let mut name = X509NameBuilder::new().unwrap();
    name.append_entry_by_text("CN", common).unwrap();
    let name = name.build();
    let mut builder = X509::builder().unwrap();
    builder.set_version(2).unwrap();
    let serial = BigNum::from_u32(if ca { 1 } else { 2 }).unwrap();
    builder.set_serial_number(&serial.to_asn1_integer().unwrap()).unwrap();
    builder.set_subject_name(&name).unwrap();
    builder.set_pubkey(subject).unwrap();
    builder.set_not_before(&Asn1Time::days_from_now(days.0).unwrap()).unwrap();
    builder.set_not_after(&Asn1Time::days_from_now(days.1).unwrap()).unwrap();
    if ca {
        builder.append_extension(BasicConstraints::new().critical().ca().build().unwrap()).unwrap();
        let usage = KeyUsage::new().critical().key_cert_sign().build().unwrap();
        builder.append_extension(usage).unwrap();
    } else {
        builder.append_extension(BasicConstraints::new().build().unwrap()).unwrap();
        let usage = KeyUsage::new().critical().key_encipherment().build().unwrap();
        builder.append_extension(usage).unwrap();
    }
    if let Some(purpose) = purpose {
        let usage = ExtendedKeyUsage::new().other(purpose).build().unwrap();
        builder.append_extension(usage).unwrap();
    }
    match issuer {
        Some((issuer, key)) => {
            builder.set_issuer_name(issuer.subject_name()).unwrap();
            builder.sign(key, MessageDigest::sha256()).unwrap();
        }
        None => {
            builder.set_issuer_name(&name).unwrap();
            builder.sign(subject, MessageDigest::sha256()).unwrap();
        }
    }
    builder.build()
}

const EK: &str = "2.23.133.8.1";

fn rsa() -> PKey<Private> {
    PKey::from_rsa(Rsa::generate(2048).unwrap()).unwrap()
}

struct Maker {
    root: X509,
    key: PKey<Private>,
    ek: PKey<Private>,
}

fn maker() -> Maker {
    let key = rsa();
    let root = certificate(&key, None, true, None, (0, 30));
    Maker { root, key, ek: rsa() }
}

impl Maker {
    fn roots(&self) -> String {
        String::from_utf8(self.root.to_pem().unwrap()).unwrap()
    }

    fn leaf(&self, purpose: Option<&str>) -> String {
        let issuer = Some((&self.root, &self.key));
        let leaf = certificate(&self.ek, issuer, false, purpose, (0, 30));
        hex::encode(leaf.to_der().unwrap())
    }
}

#[test]
fn an_endorsement_certificate_is_trusted_by_its_root() {
    let maker = maker();
    let leaf = maker.leaf(Some(EK));
    let key = verify_ek(&maker.roots(), &vec![leaf.clone()]).ok().unwrap();
    assert_eq!(key.der, maker.ek.public_key_to_der().unwrap());
    assert_eq!(key.pem, maker.ek.public_key_to_pem().unwrap());
    assert_eq!(key.rsa_bytes, Some(256));
    let stranger = self::maker();
    let error = verify_ek(&stranger.roots(), &vec![leaf]).err();
    assert!(error == Some(DeviceError::UntrustedCertificate));
    let error = verify_ek(&maker.roots(), &vec![maker.leaf(None)]).err();
    assert!(error == Some(DeviceError::MissingExtendedUsage));
    let error = verify_ek(&maker.roots(), &vec![maker.leaf(Some("1.2.3"))]).err();
    assert!(error == Some(DeviceError::NotAnEndorsementCertificate));
    let root = hex::encode(maker.root.to_der().unwrap());
    let error = verify_ek(&maker.roots(), &vec![root]).err();
    assert!(error == Some(DeviceError::CertificateAuthority));
    assert!(verify_ek("", &vec![]).err() == Some(DeviceError::InvalidChain));
    assert!(verify_ek("", &vec!["zz".to_owned()]).err() == Some(DeviceError::InvalidHex));
    let error = verify_ek("", &vec!["00".to_owned()]).err();
    assert!(error == Some(DeviceError::InvalidCertificate));
    let error = read_chain(&vec!["0".repeat(32770)]).err();
    assert!(error == Some(DeviceError::CertificateTooLarge));
}

#[test]
fn a_certificate_is_trusted_for_as_long_as_it_is_valid() {
    let maker = maker();
    let chain = vec![maker.leaf(Some(EK))];
    let day = 24 * 60 * 60;
    let at = |time| verify_ek_at(&maker.roots(), &chain, time).err();
    assert!(at(now() + 60).is_none());
    assert!(at(now() + 29 * day).is_none());
    assert!(at(now() + 31 * day) == Some(DeviceError::UntrustedCertificate));
    assert!(at(now() - day) == Some(DeviceError::UntrustedCertificate));
    assert!(at(0) == Some(DeviceError::UntrustedCertificate));
    let without = verify_ek_at("", &chain, now() + 60).err();
    assert!(without == Some(DeviceError::UntrustedCertificate));
}

#[test]
fn a_chain_leads_through_its_intermediates() {
    let maker = maker();
    let key = rsa();
    let middle = certified("middle", &key, Some((&maker.root, &maker.key)), true, None, (0, 30));
    let leaf = certificate(&maker.ek, Some((&middle, &key)), false, Some(EK), (0, 30));
    let leaf = hex::encode(leaf.to_der().unwrap());
    let alone = vec![leaf.clone()];
    let error = verify_ek(&maker.roots(), &alone).err();
    assert!(error == Some(DeviceError::UntrustedCertificate));
    let both = vec![leaf, hex::encode(middle.to_der().unwrap())];
    assert!(verify_ek(&maker.roots(), &both).is_ok());
}

#[test]
fn intermediates_are_read_from_a_pem_file() {
    let maker = maker();
    let other = self::maker();
    let mut pem = maker.root.to_pem().unwrap();
    pem.extend(other.root.to_pem().unwrap());
    let ders = vec![maker.root.to_der().unwrap(), other.root.to_der().unwrap()];
    assert_eq!(read_ek_chain(&pem).ok(), Some(ders));
    assert_eq!(read_ek_chain(b"").ok(), Some(vec![]));
    let broken = b"-----BEGIN CERTIFICATE-----\nAAAA\n-----END CERTIFICATE-----\n";
    assert!(read_ek_chain(broken).err() == Some(DeviceError::InvalidCertificate));
}

#[test]
fn trust_and_use_are_judged_apart() {
    let maker = maker();
    let der = hex::decode(maker.leaf(Some(EK))).unwrap();
    assert!(judge_chain(&der, Some(true)).is_ok());
    assert!(judge_chain(&der, Some(false)).err() == Some(DeviceError::UntrustedCertificate));
    assert!(judge_chain(&der, None).err() == Some(DeviceError::UntrustedCertificate));
    let key = |rsa_bytes, p256: bool| {
        let curve = p256.then_some(PRIME256V1);
        Some(EkKey { rsa_bytes, curve, der: vec![], pem: vec![] })
    };
    let usage = |bits| {
        Some(LeafUsage {
            is_ca: false,
            purposes: Some(Some(vec![EK.to_owned()])),
            key_usage: Some(bits),
        })
    };
    assert!(judge_leaf(key(Some(256), false), usage(Some((true, false)))).is_ok());
    assert!(judge_leaf(key(None, true), usage(Some((false, true)))).is_ok());
    let judged = |k, u| judge_leaf(k, u).err();
    assert!(
        judged(key(Some(256), false), usage(Some((false, true))))
            == Some(DeviceError::InvalidKeyUsage)
    );
    assert!(judged(key(None, true), usage(None)) == Some(DeviceError::MissingKeyUsage));
    assert!(
        judged(key(Some(128), false), usage(Some((true, false))))
            == Some(DeviceError::UnsupportedKey)
    );
    assert!(judged(None, usage(None)) == Some(DeviceError::InvalidCertificate));
}

#[test]
fn external_ek_certificate_file_is_bounded_and_der_only() {
    let maker = maker();
    let der = maker.root.to_der().unwrap();
    assert_eq!(read_ek_certificate(der.clone()).ok(), Some(der.clone()));
    let mut trailing = der;
    trailing.extend_from_slice(b"trailing bytes");
    assert!(read_ek_certificate(trailing).err() == Some(DeviceError::InvalidCertificate));
    let error = read_ek_certificate(vec![0; 16 * 1024 + 1]).err();
    assert!(error == Some(DeviceError::CertificateTooLarge));
    let error = read_ek_certificate(b"not a DER certificate".to_vec()).err();
    assert!(error == Some(DeviceError::InvalidCertificate));
}

fn rsa_public(key: &PKey<Private>) -> EkPublic {
    EkPublic::Rsa { modulus: key.rsa().unwrap().n().to_vec() }
}

fn p256_public(key: &PKey<Private>) -> EkPublic {
    let key = key.ec_key().unwrap();
    let mut context = BigNumContext::new().unwrap();
    let mut x = BigNum::new().unwrap();
    let mut y = BigNum::new().unwrap();
    key.public_key().affine_coordinates_gfp(key.group(), &mut x, &mut y, &mut context).unwrap();
    EkPublic::P256 { x: x.to_vec(), y: y.to_vec() }
}

fn p256() -> PKey<Private> {
    let group = EcGroup::from_curve_name(Nid::X9_62_PRIME256V1).unwrap();
    PKey::from_ec_key(EcKey::generate(&group).unwrap()).unwrap()
}

#[test]
fn external_ek_certificate_must_match_this_tpm() {
    let maker = maker();
    let der = hex::decode(maker.leaf(Some(EK))).unwrap();
    let mismatch = Some(TpmError::CertificateMismatch);
    assert!(check_certificate(&der, &rsa_public(&maker.ek)).is_ok());
    assert!(check_certificate(&der, &rsa_public(&rsa())).err() == mismatch);
    assert!(check_certificate(&der, &p256_public(&p256())).err() == mismatch);
    let error = check_certificate(b"not DER", &rsa_public(&maker.ek)).err();
    assert!(error == Some(TpmError::InvalidCertificate));

    let key = p256();
    let leaf = certificate(&key, Some((&maker.root, &maker.key)), false, Some(EK), (0, 30));
    let der = leaf.to_der().unwrap();
    assert!(check_certificate(&der, &p256_public(&key)).is_ok());
    assert!(check_certificate(&der, &p256_public(&p256())).err() == mismatch);
    assert!(check_certificate(&der, &rsa_public(&maker.ek)).err() == mismatch);
}

#[test]
fn the_numbers_of_a_key_decide() {
    let rsa = |bytes: &[u8]| {
        Some(KeyNumbers { modulus: Some(bytes.to_vec()), curve: None, point: None })
    };
    let mismatch = Some(TpmError::CertificateMismatch);
    let public = EkPublic::Rsa { modulus: vec![7, 0] };
    assert!(judge_numbers(&rsa(&[7, 0]), &public).is_ok());
    assert!(judge_numbers(&rsa(&[7]), &public).err() == mismatch);
    assert!(judge_numbers(&None, &public).err() == Some(TpmError::InvalidCertificate));
    let point = |curve, y: u8| {
        let mut point = vec![0; 65];
        point[0] = 4;
        point[32] = 1;
        point[64] = y;
        Some(KeyNumbers { modulus: None, curve: Some(curve), point: Some(point) })
    };
    let public = EkPublic::P256 { x: vec![0, 1], y: vec![2] };
    assert!(judge_numbers(&point(PRIME256V1, 2), &public).is_ok());
    assert!(judge_numbers(&point(PRIME256V1, 3), &public).err() == mismatch);
    assert!(judge_numbers(&point(1, 2), &public).err() == mismatch);
    let long = EkPublic::P256 { x: vec![0; 33], y: vec![2] };
    assert!(judge_numbers(&point(PRIME256V1, 2), &long).err() == mismatch);
}

#[test]
fn doctor_requires_a_readable_ek_certificate() {
    let error = doctor(None, None).err().unwrap();
    assert!(error.message().contains("no readable"));
    assert_eq!(doctor(Some(Ok(())), None).ok().unwrap().name(), "rsa");
    let mismatch = || Some(Err(TpmError::CertificateMismatch));
    assert_eq!(doctor(mismatch(), Some(Ok(()))).ok().unwrap().name(), "ecc");
    assert!(doctor(mismatch(), None).err() == Some(TpmError::CertificateMismatch));
    assert!(doctor(mismatch(), mismatch()).err() == Some(TpmError::CertificateMismatch));
    let unreadable = Some(Err(TpmError::InvalidCertificate));
    assert!(doctor(unreadable, Some(Ok(()))).err() == Some(TpmError::InvalidCertificate));
}

#[test]
fn a_credential_file_is_taken_apart() {
    let head = [0xba, 0xdc, 0xc0, 0xde, 0, 0, 0, 1];
    let mut bytes = head.to_vec();
    bytes.extend([0, 2, 0xaa, 0xbb, 0, 1, 0xcc]);
    let parts = parse_credential(&bytes).ok().unwrap();
    assert_eq!(parts, ("aabb".to_owned(), "cc".to_owned()));
    assert!(parse_credential(b"x").err() == Some(DeviceError::CredentialFormat));
    bytes.pop();
    assert!(parse_credential(&bytes).err() == Some(DeviceError::TruncatedSecret));
    let mut short = head.to_vec();
    short.extend([0, 9, 1, 2]);
    assert!(parse_credential(&short).err() == Some(DeviceError::TruncatedCredential));
}

#[test]
fn a_shown_code_is_accepted_however_it_is_typed() {
    let code = pairing_code().ok().unwrap();
    assert_eq!(code.len(), 23);
    let plain = code.replace('-', "");
    assert_eq!(normalize_pairing_code(&code).ok(), Some(plain.clone()));
    assert_eq!(normalize_pairing_code(&code.to_lowercase()).ok(), Some(plain));
    assert_eq!(pairing_code_of(&vec![0; 13]), "00000-00000-00000-00000");
    assert_eq!(pairing_code_of(&vec![255; 13]), "ZZZZZ-ZZZZZ-ZZZZZ-ZZZZZ");
    let look = normalize_pairing_code("OIL00-00000-00000-00000");
    assert_eq!(look.ok(), Some("01100000000000000000".to_owned()));
    for bad in ["", "0000", "0000000000000000000U", "000000000000000000000"] {
        let error = normalize_pairing_code(bad).err();
        assert!(error == Some(DeviceError::InvalidPairingCode), "{bad}");
    }
}

fn roster(maker: &Maker) -> AuthState {
    let mut state = AuthState {
        public_url: None,
        ek_roots: None,
        devices: vec![],
        enrollments: vec![],
        sessions: vec![],
        nonces: vec![],
    };
    assert!(state.invite("laptop", 0).err() == Some(DeviceError::NotConfigured));
    assert!(state.public_url().err() == Some(DeviceError::NoPublicUrl));
    state.configure("https://sync.example.org", maker.root.to_pem().unwrap()).ok().unwrap();
    assert_eq!(state.public_url().ok(), Some("https://sync.example.org".to_owned()));
    state
}

#[test]
fn a_public_address_is_an_origin() {
    let maker = maker();
    let mut state = roster(&maker);
    let pem = maker.root.to_pem().unwrap();
    let mut set = |url: &str, pem: &[u8]| state.configure(url, pem.to_vec()).err();
    assert!(set("http://example.org", &pem) == Some(DeviceError::HttpsRequired));
    assert!(set("nonsense", &pem) == Some(DeviceError::InvalidUrl));
    for url in ["https://u@h", "https://h/path", "https://h/?q"] {
        assert!(set(url, &pem) == Some(DeviceError::NotAnOrigin), "{url}");
    }
    assert!(set("https://h", b"") == Some(DeviceError::NoRoots));
    assert!(set("http://127.0.0.1:1", &pem).is_none());
}

fn enrolled(state: &mut AuthState, maker: &Maker, d: &Device, name: &str) -> String {
    let time = now() + 60;
    let token = random_secret().ok().unwrap();
    let id = state.insert_invitation(name, &token, fresh_id(), time).ok().unwrap();
    let request = EnrollStart {
        invitation: token.clone(),
        public: d.public.clone(),
        ek_chain: vec![maker.leaf(Some(EK))],
    };
    let early = state.enroll_start(&request, &d.area, time - 24 * 60 * 60);
    assert_eq!(early.err().unwrap().0, 401);
    let prepared = state.enroll_start(&request, &d.area, time + 1).ok().unwrap();
    assert_eq!(prepared.id, id);
    assert_eq!(prepared.fingerprint, fingerprint(&d.public, &d.area).ok().unwrap());
    assert_eq!(prepared.name, hex::encode(key_name(&d.public, &d.area).ok().unwrap()));
    assert_eq!(hex::encode(&prepared.secret), prepared.activation);
    let challenge = EnrollChallenge {
        id: id.clone(),
        credential: "aa".to_owned(),
        secret: "bb".to_owned(),
    };
    let bound = state
        .enroll_bind(
            &id,
            request.public.clone(),
            prepared.fingerprint.clone(),
            prepared.ek_fingerprint.clone(),
            prepared.activation_hash.clone(),
            challenge,
            time + 2,
        )
        .ok()
        .unwrap();
    assert_eq!(bound.credential, "aa");
    assert_eq!(state.enroll_finish(id.clone(), "00", time + 3).err().unwrap().0, 401);
    let done = state.enroll_finish(id.clone(), &prepared.activation, time + 3).ok().unwrap();
    assert_eq!(done.status, "pending-approval");
    let waits = state.enrollments.last().unwrap().expires_at;
    assert_eq!(waits, time + 3 + APPROVAL_SECONDS);
    let again = state.enroll_finish(id.clone(), &prepared.activation, time + 9).ok().unwrap();
    assert_eq!((again.id.as_str(), again.status.as_str()), (id.as_str(), "pending-approval"));
    assert_eq!(again.fingerprint, done.fingerprint);
    assert_eq!(state.enrollments.last().unwrap().expires_at, waits);
    let zeros = "00".repeat(32);
    assert_eq!(state.enroll_finish(id.clone(), &zeros, time + 9).err().unwrap().0, 401);
    assert_eq!(state.caller(&id).err().unwrap().0, 403);
    assert!(state.approve(&id, "00", time + 4).err() == Some(DeviceError::NotVerified));
    state.approve(&id, &done.fingerprint, time + 4).ok().unwrap();
    id
}

fn request(authorization: &str, is_session: bool, path: &str) -> SignedRequest {
    SignedRequest {
        authorization: authorization.to_owned(),
        is_session,
        method: if is_session { "POST" } else { "GET" }.to_owned(),
        path_and_query: path.to_owned(),
    }
}

#[test]
fn an_approved_device_gets_a_session_and_is_let_in_once_per_proof() {
    let maker = maker();
    let mut state = roster(&maker);
    let d = device("key");
    let id = enrolled(&mut state, &maker, &d, "laptop");
    let caller = state.caller(&id).ok().unwrap();
    assert_eq!(caller.public, d.public);
    let open = "https://sync.example.org/v1/auth/session";
    let proof = signed(&d, &id, "POST", open, b"", "", 2000);
    let asked = request("", true, "/v1/auth/session");
    let token = state.let_in(&proof, &caller, &d.area, &asked, true, 2000).ok().unwrap();
    assert_eq!(token, "");
    state.complete(&proof, b"", "", true, 2000).ok().unwrap();
    let again = state.let_in(&proof, &caller, &d.area, &asked, true, 2001);
    assert_eq!(again.err().unwrap().0, 401);
    let session = state.session(&id, "secret".to_owned(), 2000).ok().unwrap();
    assert_eq!(session.expires_at, 2000 + SESSION_SECONDS);
    assert_eq!(state.sessions[0].token_hash, hash(b"secret"));
    let url = "https://sync.example.org/v1/manifest";
    let proof = signed(&d, &id, "GET", url, b"", "secret", 2010);
    let asked = request("MySync secret", false, "/v1/manifest");
    let busy = state.let_in(&proof, &caller, &d.area, &asked, false, 2010).err().unwrap();
    assert_eq!((busy.0, busy.1.as_str()), (429, "too many signed requests in flight"));
    let token = state.let_in(&proof, &caller, &d.area, &asked, true, 2010).ok().unwrap();
    assert_eq!(token, "secret");
    assert!(state.complete(&proof, b"", &token, false, 2011).is_ok());
    assert_eq!(state.complete(&proof, b"x", &token, false, 2011).err().unwrap().0, 401);
    let late = state.complete(&proof, b"", &token, false, 2000 + SESSION_SECONDS);
    assert_eq!(late.err().unwrap().0, 401);
    assert_eq!(state.nonces.len(), 2);
    assert_eq!(state.nonces[1].expires_at, 2010 + NONCE_SECONDS);
    let unbound = request("", false, "/v1/manifest");
    let refused = state.let_in(&proof, &caller, &d.area, &unbound, true, 2012);
    assert_eq!(refused.err().unwrap().0, 401);
}

#[test]
fn a_request_is_authenticated_before_it_takes_room() {
    let maker = maker();
    let mut state = roster(&maker);
    let d = device("key");
    let id = enrolled(&mut state, &maker, &d, "laptop");
    let caller = state.caller(&id).ok().unwrap();
    let open = "https://sync.example.org/v1/auth/session";
    let proof = signed(&d, &id, "POST", open, b"", "", 2000);
    let asked = request("", true, "/v1/auth/session");
    let forged = request("", true, "/v1/other");
    assert_eq!(state.authenticate(&proof, &caller, &d.area, &forged, 2000).err().unwrap().0, 401);
    assert_eq!(state.authenticate(&proof, &caller, &d.area, &asked, 2000).ok().unwrap(), "");
    assert!(state.nonces.is_empty());
    assert_eq!(state.reserve(&proof, false, 2000).err().unwrap().0, 429);
    assert!(state.reserve(&proof, true, 2000).is_ok());
    let other = signed(&d, &id, "POST", open, b"", "", 2050);
    assert!(state.let_in(&other, &caller, &d.area, &asked, true, 2050).is_ok());
    for later in [2000, 2050, 2060, 2119, 2120, 9000] {
        let again = state.let_in(&proof, &caller, &d.area, &asked, true, later);
        assert_eq!(again.err().unwrap().0, 401, "{later}");
    }
}

#[test]
fn pairing_codes_are_checked_twenty_times_a_second() {
    let mut checks = PairChecks::new();
    for _ in 0..20 {
        assert!(allow_pair_check(&mut checks, 1000));
    }
    assert!(!allow_pair_check(&mut checks, 1000));
    assert!(!allow_pair_check(&mut checks, 1000));
    assert!(allow_pair_check(&mut checks, 1001));
    assert_eq!(checks, PairChecks { second: 1001, answered: 1 });
}

#[test]
fn a_revoked_device_is_shut_out() {
    let maker = maker();
    let mut state = roster(&maker);
    let d = device("key");
    let id = enrolled(&mut state, &maker, &d, "laptop");
    state.session(&id, "secret".to_owned(), 2000).ok().unwrap();
    assert_eq!(list_devices(&state), vec![(1, "laptop".to_owned(), false)]);
    assert!(revoke_device(&mut state, "laptop", 2001));
    assert!(!revoke_device(&mut state, "laptop", 2002));
    assert_eq!(list_devices(&state), vec![(1, "laptop".to_owned(), true)]);
    assert!(state.sessions.is_empty());
    assert_eq!(state.caller(&id).err().unwrap().0, 403);
    assert_eq!(state.check_active_session(&id, "secret", false, 2003).err().unwrap().0, 401);
    assert!(state.invite("laptop", 2004).err() == Some(DeviceError::RevokedName));
}

#[test]
fn an_invitation_serves_one_device_for_a_while() {
    let maker = maker();
    let mut state = roster(&maker);
    let id = state.insert_invitation("laptop", "token", "id-1".to_owned(), 1000).ok().unwrap();
    let (roots, found) = state.enroll_lookup("token", 1001).ok().unwrap();
    assert_eq!(found, id);
    assert_eq!(roots, maker.roots());
    assert_eq!(state.enroll_lookup("other", 1001).err().unwrap().0, 401);
    assert_eq!(state.enroll_lookup("token", 1000 + INVITATION_SECONDS).err().unwrap().0, 401);
    let taken = state.insert_invitation("laptop", "more", "id-2".to_owned(), 1001).err();
    assert!(taken == Some(DeviceError::AlreadyEnrolled));
    assert!(state.invite(" ", 1001).err() == Some(DeviceError::InvalidName));
    assert!(state.cancel("unknown").err() == Some(DeviceError::NotCancellable));
    state.cancel(&id).ok().unwrap();
    assert_eq!(state.enroll_lookup("token", 1002).err().unwrap().0, 401);
    assert_eq!(APPROVAL_SECONDS, 24 * 60 * 60);
}

#[test]
fn a_second_key_cannot_take_over_an_invitation() {
    let maker = maker();
    let mut state = roster(&maker);
    let id = state.insert_invitation("laptop", "token", "id-1".to_owned(), 1000).ok().unwrap();
    let mut bind = |public: &str| {
        let challenge = EnrollChallenge {
            id: "id-1".to_owned(),
            credential: public.to_owned(),
            secret: "s".to_owned(),
        };
        state.enroll_bind(
            &id,
            public.to_owned(),
            "f".to_owned(),
            "e".to_owned(),
            "a".to_owned(),
            challenge,
            1001,
        )
    };
    assert_eq!(bind("first").ok().unwrap().credential, "first");
    assert!(bind("second").is_err());
}

#[test]
fn a_pairing_code_is_ready_once_it_was_typed_in() {
    let maker = maker();
    let mut state = roster(&maker);
    let code = "ABCDE-FGHJK-MNPQR-STVWX";
    let ask = |code: &str| PairReadyRequest { code: code.to_owned() };
    assert_eq!(state.pair_ready(&ask(code), true, 1000).ok(), Some(202));
    let id = state.register_pair("phone", code, "id-1".to_owned(), 1000).ok().unwrap();
    assert_eq!(state.pair_ready(&ask(code), true, 1001).ok(), Some(204));
    assert_eq!(state.pair_ready(&ask(code), true, 1000 + INVITATION_SECONDS).ok(), Some(410));
    assert_eq!(state.pair_ready(&ask(code), false, 1001).err().unwrap().0, 429);
    assert_eq!(state.pair_ready(&ask("x"), true, 1001).err().unwrap().0, 400);
    let typed = "abcde fghjk".replace(' ', "-") + "mnpqrstvwx";
    for again in [code, typed.as_str()] {
        let same = state.register_pair("phone", again, "id-2".to_owned(), 1002).ok().unwrap();
        assert_eq!(same, id);
        assert_eq!((state.devices.len(), state.enrollments.len()), (1, 1));
    }
    let used = Some(DeviceError::PairingCodeUsed);
    assert!(state.register_pair("tablet", code, "id-3".to_owned(), 1002).err() == used);
    for name in ["phone", "tablet"] {
        let late = 1000 + INVITATION_SECONDS;
        assert!(state.register_pair(name, code, "id-4".to_owned(), late).err() == used);
    }
    let shown = state.enrollment_by_id(&id, 1003).ok().unwrap();
    assert_eq!((shown.name.as_str(), shown.status.as_str()), ("phone", "invited"));
    assert_eq!(state.list(1000 + INVITATION_SECONDS)[0].status, "expired");
    let unknown = state.enrollment_by_id("x", 1003).err();
    assert!(unknown == Some(DeviceError::UnknownEnrollment));
}

#[test]
fn a_device_with_a_token_needs_the_setting() {
    let maker = maker();
    let mut state = roster(&maker);
    let allowed = Some("1".to_owned());
    let new = state.add_device("old", &allowed, 1000).ok().unwrap();
    assert_eq!(new.row_id, 1);
    assert_eq!(new.token.len(), 64);
    assert_eq!(new.token_hash, hash(new.token.as_bytes()));
    assert!(state.add_device("old", &allowed, 1001).err() == Some(DeviceError::Storage));
    assert!(state.add_device(" ", &allowed, 1001).err() == Some(DeviceError::EmptyName));
    assert!(state.add_device("x", &None, 1001).err() == Some(DeviceError::Storage));
    let off = Some("0".to_owned());
    assert!(state.add_device("x", &off, 1001).err() == Some(DeviceError::LegacyDisabled));
}

#[test]
fn quotes_and_controls_are_escaped_before_signing() {
    let claims = Claims::bind("a\"b\n", "GET", "u", b"", "", "n".to_owned(), -7);
    let message = String::from_utf8(claims.message().ok().unwrap()).unwrap();
    let json = message.strip_prefix("mysync/request/v1\n").unwrap();
    assert!(json.contains("\"device\":\"a\\\"b\\n\""), "{json}");
    let value: serde_json::Value = serde_json::from_str(json).unwrap();
    let read = parse_claims(&value);
    assert_eq!((read.device.as_str(), read.issued_at), ("a\"b\n", -7));
}

#[test]
fn the_administrator_waits_for_a_proof() {
    let entry = |status: &str, fingerprint: Option<&str>| DeviceEnrollment {
        id: "i".to_owned(),
        name: "n".to_owned(),
        fingerprint: fingerprint.map(str::to_owned),
        status: status.to_owned(),
    };
    let wait = |status: &str, late: bool| pair_progress(&entry(status, None), late);
    assert!(wait("invited", false).ok() == Some(None));
    assert!(wait("invited", true).err() == Some(PairError::TimedOut));
    assert!(wait("expired", false).err() == Some(PairError::Ended));
    assert!(wait("revoked", false).err() == Some(PairError::Ended));
    assert!(wait("approved", false).err() == Some(PairError::AlreadyApproved));
    assert!(wait("pending-approval", false).err() == Some(PairError::NoFingerprint));
    let shown = pair_progress(&entry("pending-approval", Some("ff")), true).ok();
    assert_eq!(shown, Some(Some("ff".to_owned())));
    assert!(approves("y") && approves("YES"));
    assert!(!approves("") && !approves("no") && !approves("Yes"));
    assert_eq!(
        PairError::Cancelled.message(),
        "pairing cancelled; the client was not approved"
    );
}

#[test]
fn obsolete_device_key_database_cannot_start() {
    let dir = tempfile::tempdir().unwrap();
    let db = rusqlite::Connection::open(dir.path().join("metadata.sqlite3")).unwrap();
    db.execute_batch("CREATE TABLE devices(id INTEGER PRIMARY KEY, name TEXT NOT NULL, token_hash TEXT NOT NULL);")
        .unwrap();
    drop(db);
    let db = rusqlite::Connection::open(dir.path().join("metadata.sqlite3")).unwrap();
    let mut query = db.prepare("SELECT name FROM pragma_table_info('devices')").unwrap();
    let rows = query.query_map([], |row| row.get::<_, String>(0)).unwrap();
    let columns: Vec<String> = rows.map(|name| name.unwrap()).collect();
    let error = check_database(&columns).err().unwrap();
    assert!(error.message().to_string().contains("obsolete device-key database"));
    let current = vec!["id".to_owned(), "name".to_owned(), "revoked_at".to_owned()];
    assert!(check_database(&current).is_ok());
}
