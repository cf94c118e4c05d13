//! Certificates of TPM endorsement keys: which chains are accepted, and the challenge
//! that only the certified TPM can answer.
use vstd::prelude::*;
use vstd::utf8::*;

use openssl::stack::Stack;
use openssl::x509::store::X509StoreBuilder;
use openssl::x509::verify::X509VerifyParam;
use openssl::x509::{X509StoreContext, X509};

use crate::auth_protocol::now;
use crate::digest::{hex_bytes, hex_decode, hex_encode, hex_text, opt_bytes};
use crate::registry::{gives, DeviceError};
use crate::text::{byte_len, byte_rows, opt_rows, same_bytes, same_text, texts};

verus! {

/// What an endorsement certificate says of its key's use.
pub struct LeafUsage {
    pub is_ca: bool,
    /// The purposes outside the usual ones. `None` where they cannot be read, `Some(None)`
    /// where there are none.
    pub purposes: Option<Option<Vec<String>>>,
    /// Whether the key may encipher keys, and agree on keys; otherwise as above.
    pub key_usage: Option<Option<(bool, bool)>>,
}

/// `LeafUsage` as plain values.
pub struct Usage {
    pub is_ca: bool,
    pub purposes: Option<Option<Seq<Seq<char>>>>,
    pub key_usage: Option<Option<(bool, bool)>>,
}

impl View for LeafUsage {
    type V = Usage;

    open spec fn view(&self) -> Usage {
        Usage {
            is_ca: self.is_ca,
            purposes: match self.purposes {
                Some(Some(v)) => Some(Some(texts(v@))),
                Some(None) => Some(None),
                None => None,
            },
            key_usage: self.key_usage,
        }
    }
}

/// The longest input that openssl takes, in bytes.
pub const OPENSSL_LIMIT: usize = 2147483647;

/// The curve P-256, in openssl's numbering of objects.
pub const PRIME256V1: i32 = 415;

/// An endorsement key.
pub struct EkKey {
    /// The length of an RSA key in bytes, where it is one.
    pub rsa_bytes: Option<u32>,
    /// The number that openssl gives to the curve of an elliptic-curve key.
    pub curve: Option<i32>,
    pub der: Vec<u8>,
    pub pem: Vec<u8>,
}

/// `EkKey` as plain values.
pub struct KeyForm {
    pub rsa_bytes: Option<u32>,
    pub curve: Option<i32>,
    pub der: Seq<u8>,
    pub pem: Seq<u8>,
}

impl View for EkKey {
    type V = KeyForm;

    open spec fn view(&self) -> KeyForm {
        KeyForm {
            rsa_bytes: self.rsa_bytes,
            curve: self.curve,
            der: self.der@,
            pem: self.pem@,
        }
    }
}

pub open spec fn opt_usage(u: Option<LeafUsage>) -> Option<Usage> {
    match u {
        Some(v) => Some(v@),
        None => None,
    }
}

pub open spec fn opt_key(k: Option<EkKey>) -> Option<KeyForm> {
    match k {
        Some(v) => Some(v@),
        None => None,
    }
}

/// A certificate in DER form as it is written again after reading. `None` where the bytes
/// are no certificate.
pub uninterp spec fn certificate(der: Seq<u8>) -> Option<Seq<u8>>;

/// What a certificate says of the use of its key.
pub uninterp spec fn certificate_usage(der: Seq<u8>) -> Option<Usage>;

/// The public key in a certificate.
pub uninterp spec fn certificate_key(der: Seq<u8>) -> Option<KeyForm>;

/// The certificates of a PEM text in DER form. `None` where it cannot be read.
pub uninterp spec fn pem_certificates(pem: Seq<u8>) -> Option<Seq<Seq<u8>>>;

/// Whether a certificate chains up, through some of the others, to one of the roots in a PEM
/// text, with every certificate on the way valid at a time. `None` where this cannot be
/// found out.
pub uninterp spec fn chain_trusted(
    roots: Seq<char>,
    leaf: Seq<u8>,
    others: Seq<Seq<u8>>,
    time: int,
) -> Option<bool>;

/// Calls openssl's `X509::from_der` and `to_der`.
#[verifier::external_body]
fn read_certificate(der: &[u8]) -> (canonical: Option<Vec<u8>>)
    ensures
        opt_bytes(canonical) == certificate(der@),
{
    X509::from_der(der).ok()?.to_der().ok()
}

/// Calls openssl's `X509::stack_from_pem`, and `to_der` on each certificate. The text must not
/// be longer than openssl takes.
#[verifier::external_body]
fn read_pem(pem: &[u8]) -> (chain: Option<Vec<Vec<u8>>>)
    requires
        pem@.len() <= OPENSSL_LIMIT,
    ensures
        opt_rows(chain) == pem_certificates(pem@),
{
    let certificates = X509::stack_from_pem(pem).ok()?;
    certificates.iter().map(|certificate| certificate.to_der().ok()).collect()
}

/// Calls openssl's `X509StoreContext::verify_cert` on the first certificate, with the
/// others as intermediates, the certificates of the PEM text as roots, and the given time in
/// place of the machine's clock. Any failure on the way is `None`. The text must not be
/// longer than openssl takes.
#[verifier::external_body]
fn verify_chain(roots: &str, leaf: &[u8], others: &Vec<Vec<u8>>, time: i64) -> (trusted: Option<
    bool,
>)
    requires
        encode_utf8(roots@).len() <= OPENSSL_LIMIT,
    ensures
        trusted == chain_trusted(roots@, leaf@, byte_rows(others@), time as int),
{
    let (mut store, mut clock) = (X509StoreBuilder::new().ok()?, X509VerifyParam::new().ok()?);
    clock.set_time(time);
    store.set_param(&clock).ok()?;
    for ca in X509::stack_from_pem(roots.as_bytes()).ok()? {
        store.add_cert(ca).ok()?;
    }
    let mut untrusted = Stack::new().ok()?;
    for der in others {
        untrusted.push(X509::from_der(der).ok()?).ok()?;
    }
    let (leaf, mut context) = (X509::from_der(leaf).ok()?, X509StoreContext::new().ok()?);
    context.init(&store.build(), &leaf, &untrusted, |c| c.verify_cert()).ok()
}

/// Calls `x509_parser::parse_x509_certificate` and reads `is_ca`, the extended key usage
/// in its textual form, and the key usage.
#[verifier::external_body]
fn read_usage(der: &[u8]) -> (usage: Option<LeafUsage>)
    ensures
        opt_usage(usage) == certificate_usage(der@),
{
    let (_, leaf) = x509_parser::parse_x509_certificate(der).ok()?;
    Some(LeafUsage {
        is_ca: leaf.is_ca(),
        purposes: leaf.extended_key_usage().ok().map(|extension| {
            extension.map(|e| e.value.other.iter().map(|oid| oid.to_id_string()).collect())
        }),
        key_usage: leaf.key_usage().ok().map(|extension| {
            extension.map(|e| (e.value.key_encipherment(), e.value.key_agreement()))
        }),
    })
}

/// Calls openssl's `X509::public_key` and reads the size of an RSA key, the curve of an
/// elliptic-curve key, and the key's DER and PEM forms.
#[verifier::external_body]
fn read_key(der: &[u8]) -> (key: Option<EkKey>)
    ensures
        opt_key(key) == certificate_key(der@),
{
    let key = X509::from_der(der).ok()?.public_key().ok()?;
    let curve = key.ec_key().ok().and_then(|k| k.group().curve_name());
    Some(EkKey {
        rsa_bytes: key.rsa().ok().map(|k| k.size()),
        curve: curve.map(|nid| nid.as_raw()),
        der: key.public_key_to_der().ok()?,
        pem: key.public_key_to_pem().ok()?,
    })
}

/// Why the certificates before position `n` cannot be used.
pub open spec fn chain_error(chain: Seq<Seq<char>>, n: int) -> Option<DeviceError>
    decreases n,
{
    if n <= 0 {
        None
    } else {
        match chain_error(chain, n - 1) {
            Some(e) => Some(e),
            None => {
                let text = chain[n - 1];
                if encode_utf8(text).len() > 32768 {
                    Some(DeviceError::CertificateTooLarge)
                } else if hex_bytes(text) is None {
                    Some(DeviceError::InvalidHex)
                } else if certificate(hex_bytes(text)->0) is None {
                    Some(DeviceError::InvalidCertificate)
                } else {
                    None
                }
            },
        }
    }
}

/// An RSA key has to encipher keys, any other has to agree on keys. `bits` tells which
/// of the two the certificate allows.
pub open spec fn key_usable(key: KeyForm, bits: (bool, bool)) -> bool {
    if key.rsa_bytes is Some {
        bits.0
    } else {
        bits.1
    }
}

/// Why an endorsement certificate is not accepted, but for its chain of trust.
pub open spec fn leaf_error(key: Option<KeyForm>, usage: Option<Usage>) -> Option<DeviceError> {
    if key is None || usage is None {
        Some(DeviceError::InvalidCertificate)
    } else if usage->0.is_ca {
        Some(DeviceError::CertificateAuthority)
    } else if usage->0.purposes is None {
        Some(DeviceError::InvalidCertificate)
    } else if usage->0.purposes->0 is None {
        Some(DeviceError::MissingExtendedUsage)
    } else if !usage->0.purposes->0->0.contains("2.23.133.8.1"@) {
        Some(DeviceError::NotAnEndorsementCertificate)
    } else if usage->0.key_usage is None {
        Some(DeviceError::InvalidCertificate)
    } else if usage->0.key_usage->0 is None {
        Some(DeviceError::MissingKeyUsage)
    } else if !key_usable(key->0, usage->0.key_usage->0->0) {
        Some(DeviceError::InvalidKeyUsage)
    } else if key->0.rsa_bytes != Some(256u32) && key->0.curve != Some(PRIME256V1) {
        Some(DeviceError::UnsupportedKey)
    } else {
        None
    }
}

/// Why a chain of certificates does not vouch for an endorsement key, given what the
/// chain of trust amounts to.
pub open spec fn ek_error(chain: Seq<Seq<char>>, trusted: Option<bool>) -> Option<DeviceError> {
    if chain.len() == 0 || chain.len() > 8 {
        Some(DeviceError::InvalidChain)
    } else if chain_error(chain, chain.len() as int) is Some {
        chain_error(chain, chain.len() as int)
    } else if trusted != Some(true) {
        Some(DeviceError::UntrustedCertificate)
    } else {
        let leaf = certificates_of(chain)[0];
        leaf_error(certificate_key(leaf), certificate_usage(leaf))
    }
}

/// Judges an endorsement certificate by what was read out of it.
pub fn judge_leaf(key: Option<EkKey>, usage: Option<LeafUsage>) -> (result: Result<
    EkKey,
    DeviceError,
>)
    ensures
        gives(result, leaf_error(opt_key(key), opt_usage(usage))),
        result matches Ok(k) ==> key == Some(k),
{
    let (key, usage) = match (key, usage) {
        (Some(key), Some(usage)) => (key, usage),
        _ => return Err(DeviceError::InvalidCertificate),
    };
    if usage.is_ca {
        return Err(DeviceError::CertificateAuthority);
    }
    let purposes = match &usage.purposes {
        None => return Err(DeviceError::InvalidCertificate),
        Some(None) => return Err(DeviceError::MissingExtendedUsage),
        Some(Some(purposes)) => purposes,
    };
    if !has_text(purposes, "2.23.133.8.1") {
        return Err(DeviceError::NotAnEndorsementCertificate);
    }
    let (encipher, agree) = match usage.key_usage {
        None => return Err(DeviceError::InvalidCertificate),
        Some(None) => return Err(DeviceError::MissingKeyUsage),
        Some(Some(bits)) => bits,
    };
    let usable = if key.rsa_bytes.is_some() {
        encipher
    } else {
        agree
    };
    if !usable {
        return Err(DeviceError::InvalidKeyUsage);
    }
    let rsa_2048 = match key.rsa_bytes {
        Some(n) => n == 256,
        None => false,
    };
    let p256 = match key.curve {
        Some(nid) => nid == PRIME256V1,
        None => false,
    };
    if !rsa_2048 && !p256 {
        return Err(DeviceError::UnsupportedKey);
    }
    Ok(key)
}

fn has_text(v: &Vec<String>, wanted: &str) -> (yes: bool)
    ensures
        yes == texts(v@).contains(wanted@),
{
    let mut i: usize = 0;
    while i < v.len()
        invariant
            i <= v.len(),
            forall|j: int| 0 <= j < i ==> (#[trigger] texts(v@)[j]) != wanted@,
        decreases v.len() - i,
    {
        assert(texts(v@)[i as int] == v@[i as int]@);
        if same_text(v[i].as_str(), wanted) {
            return true;
        }
        i += 1;
    }
    false
}

/// Why the texts of a chain of certificates cannot be read.
pub open spec fn unreadable(chain: Seq<Seq<char>>) -> Option<DeviceError> {
    if chain.len() == 0 || chain.len() > 8 {
        Some(DeviceError::InvalidChain)
    } else {
        chain_error(chain, chain.len() as int)
    }
}

/// The certificates of a chain in DER form, the one of the endorsement key first.
pub fn read_chain(chain: &Vec<String>) -> (result: Result<Vec<Vec<u8>>, DeviceError>)
    ensures
        gives(result, unreadable(texts(chain@))),
        result matches Ok(certificates) ==> certificates@.len() == chain@.len() && forall|j: int|
            0 <= j < chain@.len() ==> certificate(hex_bytes(texts(chain@)[j])->0) == Some(
                (#[trigger] certificates@[j])@,
            ),
{
    let ghost names = texts(chain@);
    if chain.len() == 0 || chain.len() > 8 {
        return Err(DeviceError::InvalidChain);
    }
    let mut certificates: Vec<Vec<u8>> = Vec::new();
    let mut i: usize = 0;
    while i < chain.len()
        invariant
            i <= chain.len() <= 8,
            chain.len() > 0,
            names == texts(chain@),
            certificates@.len() == i,
            chain_error(names, i as int) is None,
            forall|j: int|
                0 <= j < i ==> certificate(hex_bytes(names[j])->0) == Some(
                    (#[trigger] certificates@[j])@,
                ),
        decreases chain.len() - i,
    {
        assert(names[i as int] == chain@[i as int]@);
        match read_link(chain[i].as_str()) {
            Ok(der) => {
                certificates.push(der);
            },
            Err(e) => {
                assert(chain_error(names, i as int + 1) == Some(e));
                proof {
                    lemma_chain_error_stays(names, i as int + 1, names.len() as int);
                }
                return Err(e);
            },
        }
        assert(chain_error(names, i as int + 1) is None);
        i += 1;
    }
    Ok(certificates)
}

fn read_link(text: &str) -> (result: Result<Vec<u8>, DeviceError>)
    ensures
        gives(
            result,
            if encode_utf8(text@).len() > 32768 {
                Some(DeviceError::CertificateTooLarge)
            } else if hex_bytes(text@) is None {
                Some(DeviceError::InvalidHex)
            } else if certificate(hex_bytes(text@)->0) is None {
                Some(DeviceError::InvalidCertificate)
            } else {
                None
            },
        ),
        result matches Ok(der) ==> certificate(hex_bytes(text@)->0) == Some(der@),
{
    if byte_len(text) > 32768 {
        return Err(DeviceError::CertificateTooLarge);
    }
    match hex_decode(text) {
        None => Err(DeviceError::InvalidHex),
        Some(der) => match read_certificate(der.as_slice()) {
            Some(canonical) => Ok(canonical),
            None => Err(DeviceError::InvalidCertificate),
        },
    }
}

/// Judges the certificate of an endorsement key, given what its chain of trust amounts to.
pub fn judge_chain(leaf: &[u8], trusted: Option<bool>) -> (result: Result<EkKey, DeviceError>)
    ensures
        gives(
            result,
            if trusted != Some(true) {
                Some(DeviceError::UntrustedCertificate)
            } else {
                leaf_error(certificate_key(leaf@), certificate_usage(leaf@))
            },
        ),
        result matches Ok(key) ==> certificate_key(leaf@) == Some(key@),
{
    let believed = match trusted {
        Some(yes) => yes,
        None => false,
    };
    if !believed {
        return Err(DeviceError::UntrustedCertificate);
    }
    let key = read_key(leaf);
    let usage = read_usage(leaf);
    judge_leaf(key, usage)
}

/// The certificates of a readable chain in DER form.
pub open spec fn certificates_of(chain: Seq<Seq<char>>) -> Seq<Seq<u8>> {
    Seq::new(chain.len(), |i: int| certificate(hex_bytes(chain[i])->0)->0)
}

/// What the chain of trust amounts to at a time: whether the first certificate of a readable
/// chain leads through the others to one of the roots. Roots that are longer than openssl
/// takes vouch for nobody.
pub open spec fn chain_verdict(roots: Seq<char>, chain: Seq<Seq<char>>, time: int) -> Option<bool> {
    if encode_utf8(roots).len() > OPENSSL_LIMIT {
        None
    } else {
        chain_trusted(roots, certificates_of(chain)[0], certificates_of(chain).skip(1), time)
    }
}

/// Checks a chain of endorsement certificates against the trusted roots as of a time, and
/// returns the endorsement key.
pub fn verify_ek_at(roots: &str, chain: &Vec<String>, time: i64) -> (result: Result<
    EkKey,
    DeviceError,
>)
    ensures
        gives(
            result,
            ek_error(texts(chain@), chain_verdict(roots@, texts(chain@), time as int)),
        ),
        result matches Ok(key) ==> certificate_key(certificates_of(texts(chain@))[0]) == Some(key@),
{
    let ghost names = texts(chain@);
    let mut certificates = read_chain(chain)?;
    let ghost all = byte_rows(certificates@);
    assert(all =~= certificates_of(names));
    let leaf = certificates.remove(0);
    assert(byte_rows(certificates@) =~= certificates_of(names).skip(1));
    let trusted = if byte_len(roots) > OPENSSL_LIMIT {
        None
    } else {
        verify_chain(roots, leaf.as_slice(), &certificates, time)
    };
    assert(leaf@ == all[0]);
    judge_chain(leaf.as_slice(), trusted)
}

/// Checks a chain of endorsement certificates against the trusted roots as of now, by the
/// machine's clock, and returns the endorsement key.
pub fn verify_ek(roots: &str, chain: &Vec<String>) -> (result: Result<EkKey, DeviceError>)
    ensures
        exists|time: int|
            0 <= time <= i64::MAX && gives(
                result,
                ek_error(texts(chain@), #[trigger] chain_verdict(roots@, texts(chain@), time)),
            ),
        result matches Ok(key) ==> certificate_key(certificates_of(texts(chain@))[0]) == Some(key@),
{
    let time: i64 = now();
    let result = verify_ek_at(roots, chain, time);
    assert(gives(
        result,
        ek_error(texts(chain@), chain_verdict(roots@, texts(chain@), time as int)),
    ));
    result
}

/// Why a PEM text is not taken for a chain of certificates.
pub open spec fn pem_error(pem: Seq<u8>) -> Option<DeviceError> {
    if pem.len() > OPENSSL_LIMIT || pem_certificates(pem) is None {
        Some(DeviceError::InvalidCertificate)
    } else {
        None
    }
}

/// The certificates of a PEM file in DER form, in the order of the file: the intermediate
/// certificates that a client sends with the one of its endorsement key.
pub fn read_ek_chain(pem: &[u8]) -> (result: Result<Vec<Vec<u8>>, DeviceError>)
    ensures
        gives(result, pem_error(pem@)),
        result matches Ok(chain) ==> pem_certificates(pem@) == Some(byte_rows(chain@)),
{
    if pem.len() > OPENSSL_LIMIT {
        return Err(DeviceError::InvalidCertificate);
    }
    match read_pem(pem) {
        Some(chain) => Ok(chain),
        None => Err(DeviceError::InvalidCertificate),
    }
}

proof fn lemma_chain_error_stays(chain: Seq<Seq<char>>, n: int, m: int)
    requires
        0 <= n <= m,
        chain_error(chain, n) is Some,
    ensures
        chain_error(chain, m) == chain_error(chain, n),
    decreases m - n,
{
    if n < m {
        lemma_chain_error_stays(chain, n, m - 1);
    }
}

/// Why the output of the credential tool is not usable.
pub open spec fn credential_error(bytes: Seq<u8>) -> Option<DeviceError> {
    let n = 256 * bytes[8] + bytes[9];
    let m = 256 * bytes[10 + n] + bytes[11 + n];
    if bytes.len() < 12 || bytes.take(8) != seq![
        0xbau8,
        0xdcu8,
        0xc0u8,
        0xdeu8,
        0u8,
        0u8,
        0u8,
        1u8,
    ] {
        Some(DeviceError::CredentialFormat)
    } else if bytes.len() < 12 + n {
        Some(DeviceError::TruncatedCredential)
    } else if bytes.len() != 12 + n + m {
        Some(DeviceError::TruncatedSecret)
    } else {
        None
    }
}

/// Takes the output of the credential tool apart: a header, then the credential and the
/// secret, each with its length in two bytes.
pub fn parse_credential(bytes: &[u8]) -> (result: Result<(String, String), DeviceError>)
    ensures
        gives(result, credential_error(bytes@)),
        result matches Ok((credential, secret)) ==> {
            let n = 256 * bytes@[8] + bytes@[9];
            &&& credential@ == hex_text(bytes@.subrange(10, 10 + n))
            &&& secret@ == hex_text(bytes@.subrange(12 + n, bytes@.len() as int))
        },
{
    if bytes.len() < 12 {
        return Err(DeviceError::CredentialFormat);
    }
    let header_ok = bytes[0] == 0xba && bytes[1] == 0xdc && bytes[2] == 0xc0 && bytes[3] == 0xde
        && bytes[4] == 0 && bytes[5] == 0 && bytes[6] == 0 && bytes[7] == 1;
    proof {
        let magic = seq![0xbau8, 0xdcu8, 0xc0u8, 0xdeu8, 0u8, 0u8, 0u8, 1u8];
        let head = bytes@.take(8);
        if header_ok {
            assert(head =~= magic);
        } else {
            assert(head[0] == bytes@[0] && head[1] == bytes@[1] && head[2] == bytes@[2] && head[3]
                == bytes@[3] && head[4] == bytes@[4] && head[5] == bytes@[5] && head[6] == bytes@[6]
                && head[7] == bytes@[7]);
            assert(head != magic);
        }
    }
    if !header_ok {
        return Err(DeviceError::CredentialFormat);
    }
    let n: usize = 256 * (bytes[8] as usize) + bytes[9] as usize;
    if bytes.len() < 12 + n {
        return Err(DeviceError::TruncatedCredential);
    }
    let m: usize = 256 * (bytes[10 + n] as usize) + bytes[11 + n] as usize;
    if bytes.len() != 12 + n + m {
        return Err(DeviceError::TruncatedSecret);
    }
    let credential = hex_encode(vstd::slice::slice_subrange(bytes, 10, 10 + n));
    let secret = hex_encode(vstd::slice::slice_subrange(bytes, 12 + n, bytes.len()));
    Ok((credential, secret))
}

/// Why a file does not hold an endorsement certificate.
pub open spec fn certificate_file_error(bytes: Seq<u8>) -> Option<DeviceError> {
    if bytes.len() > 16384 {
        Some(DeviceError::CertificateTooLarge)
    } else if certificate(bytes) != Some(bytes) {
        Some(DeviceError::InvalidCertificate)
    } else {
        None
    }
}

/// Accepts the bytes of a certificate file: one certificate in DER form, of at most
/// 16 KiB, and nothing after it.
pub fn read_ek_certificate(bytes: Vec<u8>) -> (result: Result<Vec<u8>, DeviceError>)
    ensures
        gives(result, certificate_file_error(bytes@)),
        result matches Ok(der) ==> der@ == bytes@,
{
    if bytes.len() > 16384 {
        return Err(DeviceError::CertificateTooLarge);
    }
    match read_certificate(bytes.as_slice()) {
        Some(canonical) => if same_bytes(canonical.as_slice(), bytes.as_slice()) {
            Ok(bytes)
        } else {
            Err(DeviceError::InvalidCertificate)
        },
        None => Err(DeviceError::InvalidCertificate),
    }
}

/// What is known of each certificate of a readable chain.
pub open spec fn link_ok(text: Seq<char>) -> bool {
    encode_utf8(text).len() <= 32768 && hex_bytes(text) is Some && certificate(
        hex_bytes(text)->0,
    ) is Some
}

proof fn lemma_links_ok(chain: Seq<Seq<char>>, n: int, i: int)
    requires
        chain_error(chain, n) is None,
        0 <= i < n,
    ensures
        link_ok(chain[i]),
    decreases n,
{
    if i < n - 1 {
        lemma_links_ok(chain, n - 1, i);
    }
}

/// An endorsement key is accepted only from a chain of at most eight certificates whose
/// first leads through the others to one of the trusted roots, with all of them valid at
/// that time, and is no authority, is meant for an endorsement key, and holds a key of a
/// supported kind that may be used as needed.
pub proof fn law_accepted_key_leads_to_a_root(roots: Seq<char>, chain: Seq<Seq<char>>, time: int)
    requires
        ek_error(chain, chain_verdict(roots, chain, time)) is None,
    ensures
        1 <= chain.len() <= 8,
        forall|i: int| 0 <= i < chain.len() ==> link_ok(#[trigger] chain[i]),
        encode_utf8(roots).len() <= OPENSSL_LIMIT,
        chain_trusted(
            roots,
            certificates_of(chain)[0],
            certificates_of(chain).skip(1),
            time,
        ) == Some(true),
        certificate_key(certificates_of(chain)[0]) matches Some(key) && (key.rsa_bytes == Some(
            256u32,
        ) || key.curve == Some(PRIME256V1)) && (certificate_usage(certificates_of(chain)[0])
            matches Some(usage) && !usage.is_ca && (usage.purposes matches Some(Some(purposes))
            && purposes.contains("2.23.133.8.1"@)) && (usage.key_usage matches Some(Some(bits))
            && key_usable(key, bits))),
{
    assert forall|i: int| 0 <= i < chain.len() implies link_ok(#[trigger] chain[i]) by {
        lemma_links_ok(chain, chain.len() as int, i);
    }
}

/// Where the chain of trust fails, because no root vouches for it or a certificate is not
/// valid at that time, a readable chain is refused for that.
pub proof fn law_untrusted_chain_is_refused(roots: Seq<char>, chain: Seq<Seq<char>>, time: int)
    requires
        unreadable(chain) is None,
        chain_verdict(roots, chain, time) != Some(true),
    ensures
        ek_error(chain, chain_verdict(roots, chain, time)) == Some(
            DeviceError::UntrustedCertificate,
        ),
{
}

proof fn lemma_links(chain: Seq<Seq<char>>, n: int)
    requires
        0 <= n <= chain.len(),
    ensures
        chain_error(chain, n) is None <==> forall|i: int| 0 <= i < n ==> link_ok(#[trigger] chain[i]),
    decreases n,
{
    if n > 0 {
        lemma_links(chain, n - 1);
        if forall|i: int| 0 <= i < n ==> link_ok(#[trigger] chain[i]) {
            assert(link_ok(chain[n - 1]));
        }
    }
}

/// A chain is readable exactly where it has one to eight certificates, each of them short enough,
/// in hexadecimal and a certificate.
pub proof fn law_chain_of_certificates_is_readable(chain: Seq<Seq<char>>)
    ensures
        unreadable(chain) is None <==> 1 <= chain.len() <= 8 && forall|i: int|
            0 <= i < chain.len() ==> encode_utf8(#[trigger] chain[i]).len() <= 32768 && hex_bytes(
                chain[i],
            ) is Some && certificate(hex_bytes(chain[i])->0) is Some,
{
    lemma_links(chain, chain.len() as int);
    if forall|i: int|
        0 <= i < chain.len() ==> encode_utf8(#[trigger] chain[i]).len() <= 32768 && hex_bytes(
            chain[i],
        ) is Some && certificate(hex_bytes(chain[i])->0) is Some {
        assert forall|i: int| 0 <= i < chain.len() implies link_ok(#[trigger] chain[i]) by {
            assert(encode_utf8(chain[i]).len() <= 32768);
        }
    } else {
        let i = choose|i: int|
            0 <= i < chain.len() && !(encode_utf8(#[trigger] chain[i]).len() <= 32768 && hex_bytes(
                chain[i],
            ) is Some && certificate(hex_bytes(chain[i])->0) is Some);
        assert(!link_ok(chain[i]));
    }
}

/// A leaf is an endorsement certificate exactly where it is no authority, is meant for an
/// endorsement key, and holds an RSA key of 2048 bits that may encipher, or a key of the curve
/// P-256 that may agree on keys.
pub proof fn law_endorsement_certificate_is_accepted(key: Option<KeyForm>, usage: Option<Usage>)
    ensures
        leaf_error(key, usage) is None <==> key is Some && usage is Some && !usage->0.is_ca && (
        usage->0.purposes matches Some(Some(purposes)) && purposes.contains("2.23.133.8.1"@)) && (
        usage->0.key_usage matches Some(Some(bits)) && (key->0.rsa_bytes is Some ==> bits.0) && (
        key->0.rsa_bytes is None ==> bits.1)) && (key->0.rsa_bytes == Some(256u32) || key->0.curve
            == Some(415i32)),
        key is Some && usage is Some && usage->0.is_ca ==> leaf_error(key, usage) == Some(
            DeviceError::CertificateAuthority,
        ),
{
}

/// A chain is accepted exactly where it is readable, leads to a trusted root, and begins with an
/// endorsement certificate.
pub proof fn law_trusted_endorsement_is_accepted(chain: Seq<Seq<char>>, trusted: Option<bool>)
    ensures
        ek_error(chain, trusted) is None <==> unreadable(chain) is None && trusted == Some(true)
            && leaf_error(
            certificate_key(certificate(hex_bytes(chain[0])->0)->0),
            certificate_usage(certificate(hex_bytes(chain[0])->0)->0),
        ) is None,
        unreadable(chain) is Some ==> ek_error(chain, trusted) == unreadable(chain),
{
}

/// The certificates of a chain are those of its links, in their order; the verdict is given on
/// the first with the rest behind it.
pub proof fn law_chain_is_judged_in_order(
    roots: Seq<char>,
    chain: Seq<Seq<char>>,
    time: int,
    i: int,
)
    requires
        chain.len() > 0,
    ensures
        certificates_of(chain).len() == chain.len(),
        0 <= i < chain.len() ==> certificates_of(chain)[i] == certificate(
            hex_bytes(chain[i])->0,
        )->0,
        encode_utf8(roots).len() <= OPENSSL_LIMIT ==> chain_verdict(roots, chain, time)
            == chain_trusted(
            roots,
            certificates_of(chain)[0],
            certificates_of(chain).subrange(1, chain.len() as int),
            time,
        ),
{
    assert(certificates_of(chain).skip(1) =~= certificates_of(chain).subrange(
        1,
        chain.len() as int,
    ));
}

/// The head of a sealed credential.
pub open spec fn credential_head() -> Seq<u8> {
    seq![0xbau8, 0xdcu8, 0xc0u8, 0xdeu8, 0u8, 0u8, 0u8, 1u8]
}

/// A length in two bytes, the higher one first.
pub open spec fn two_bytes(n: int) -> Seq<u8> {
    seq![(n / 256) as u8, (n % 256) as u8]
}

/// A credential and its secret, each behind its length and both behind the head, are read back,
/// whatever they hold.
pub proof fn law_credential_is_read_back(credential: Seq<u8>, secret: Seq<u8>)
    requires
        credential.len() < 65536,
        secret.len() < 65536,
    ensures
        ({
            let bytes = credential_head() + two_bytes(credential.len() as int) + credential
                + two_bytes(secret.len() as int) + secret;
            let n = 256 * bytes[8] + bytes[9];
            &&& credential_error(bytes) is None
            &&& bytes.subrange(10, 10 + n) == credential
            &&& bytes.subrange(12 + n, bytes.len() as int) == secret
        }),
{
    let bytes = credential_head() + two_bytes(credential.len() as int) + credential + two_bytes(
        secret.len() as int,
    ) + secret;
    let n = credential.len() as int;
    let m = secret.len() as int;
    assert(bytes.take(8) =~= credential_head());
    assert(bytes[8] == (n / 256) as u8 && bytes[9] == (n % 256) as u8);
    assert(256 * bytes[8] + bytes[9] == n);
    assert(bytes[10 + n] == (m / 256) as u8 && bytes[11 + n] == (m % 256) as u8);
    assert(256 * bytes[10 + n] + bytes[11 + n] == m);
    assert(bytes.subrange(10, 10 + n) =~= credential);
    assert(bytes.subrange(12 + n, bytes.len() as int) =~= secret);
}

/// Bytes with another head, or that end elsewhere than their lengths say, are no credential.
pub proof fn law_other_bytes_are_no_credential(bytes: Seq<u8>)
    requires
        credential_error(bytes) is None,
    ensures
        bytes.len() >= 12,
        bytes.take(8) == credential_head(),
        ({
            let n = 256 * bytes[8] + bytes[9];
            bytes.len() >= 12 + n && bytes.len() == 12 + n + 256 * bytes[10 + n] + bytes[11 + n]
        }),
{
}

/// A certificate file is read exactly where it takes 16 KiB at most and is a certificate with
/// nothing behind it; certificates in text exactly where they can be decoded.
pub proof fn law_certificate_files_are_read(bytes: Seq<u8>)
    ensures
        certificate_file_error(bytes) is None <==> bytes.len() <= 16 * 1024 && certificate(bytes)
            == Some(bytes),
        pem_error(bytes) is None <==> bytes.len() <= OPENSSL_LIMIT && pem_certificates(
            bytes,
        ) is Some,
{
}

} // verus!
