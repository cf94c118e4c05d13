//! Whether a manufacturer's certificate speaks of the endorsement key of this very TPM.
use vstd::prelude::*;

use crate::digest::opt_bytes;
use crate::endorsement::PRIME256V1;
use crate::text::same_bytes;
use crate::tpm::{pad, padded, tpm_fails, EkAlgorithm, TpmError};

verus! {

/// The public endorsement key of a TPM, as the TPM gives it: numbers in bytes, the highest
/// byte first.
pub enum EkPublic {
    Rsa { modulus: Vec<u8> },
    P256 { x: Vec<u8>, y: Vec<u8> },
}

/// `EkPublic` as plain values.
pub enum EkForm {
    Rsa { modulus: Seq<u8> },
    P256 { x: Seq<u8>, y: Seq<u8> },
}

impl View for EkPublic {
    type V = EkForm;

    open spec fn view(&self) -> EkForm {
        match self {
            EkPublic::Rsa { modulus } => EkForm::Rsa { modulus: modulus@ },
            EkPublic::P256 { x, y } => EkForm::P256 { x: x@, y: y@ },
        }
    }
}

/// The numbers that make up the public key in a certificate.
pub struct KeyNumbers {
    /// The modulus of an RSA key.
    pub modulus: Option<Vec<u8>>,
    /// The number that openssl gives to the curve of an elliptic-curve key.
    pub curve: Option<i32>,
    /// The point of an elliptic-curve key, uncompressed.
    pub point: Option<Vec<u8>>,
}

/// `KeyNumbers` as plain values.
pub struct Numbers {
    pub modulus: Option<Seq<u8>>,
    pub curve: Option<i32>,
    pub point: Option<Seq<u8>>,
}

impl View for KeyNumbers {
    type V = Numbers;

    open spec fn view(&self) -> Numbers {
        Numbers {
            modulus: opt_bytes(self.modulus),
            curve: self.curve,
            point: opt_bytes(self.point),
        }
    }
}

pub open spec fn opt_numbers(numbers: Option<KeyNumbers>) -> Option<Numbers> {
    match numbers {
        Some(n) => Some(n@),
        None => None,
    }
}

/// The numbers of the public key in a certificate in DER form. `None` where it cannot be
/// read.
pub uninterp spec fn certificate_numbers(der: Seq<u8>) -> Option<Numbers>;

/// Calls openssl's `X509::public_key` and reads the modulus of an RSA key, and the curve
/// and the uncompressed point of an elliptic-curve key.
#[verifier::external_body]
fn read_numbers(der: &[u8]) -> (numbers: Option<KeyNumbers>)
    ensures
        opt_numbers(numbers) == certificate_numbers(der@),
{
    let key = openssl::x509::X509::from_der(der).ok()?.public_key().ok()?;
    let mut context = openssl::bn::BigNumContext::new().ok()?;
    let form = openssl::ec::PointConversionForm::UNCOMPRESSED;
    let ec = key.ec_key().ok();
    let curve = ec.as_ref().and_then(|k| k.group().curve_name()).map(|nid| nid.as_raw());
    Some(KeyNumbers {
        modulus: key.rsa().ok().map(|k| k.n().to_vec()),
        curve,
        point: ec.and_then(|k| k.public_key().to_bytes(k.group(), form, &mut context).ok()),
    })
}

/// A point on P-256 as certificates hold it.
pub open spec fn uncompressed(x: Seq<u8>, y: Seq<u8>) -> Seq<u8> {
    seq![4u8] + padded(x) + padded(y)
}

/// The numbers of a certificate are those of an endorsement key.
pub open spec fn of_this_key(numbers: Numbers, public: EkForm) -> bool {
    match public {
        EkForm::Rsa { modulus } => numbers.modulus == Some(modulus),
        EkForm::P256 { x, y } => numbers.curve == Some(PRIME256V1) && x.len() <= 32 && y.len() <= 32
            && numbers.point == Some(uncompressed(x, y)),
    }
}

/// Why a certificate does not go with an endorsement key.
pub open spec fn match_error(numbers: Option<Numbers>, public: EkForm) -> Option<TpmError> {
    match numbers {
        None => Some(TpmError::InvalidCertificate),
        Some(n) => if of_this_key(n, public) {
            None
        } else {
            Some(TpmError::CertificateMismatch)
        },
    }
}

/// Holds the numbers of a certificate against an endorsement key.
pub fn judge_numbers(numbers: &Option<KeyNumbers>, public: &EkPublic) -> (result: Result<
    (),
    TpmError,
>)
    ensures
        tpm_fails(result, match_error(opt_numbers(*numbers), public@)),
{
    let numbers = match numbers {
        Some(numbers) => numbers,
        None => return Err(TpmError::InvalidCertificate),
    };
    let same = match public {
        EkPublic::Rsa { modulus } => match &numbers.modulus {
            Some(n) => same_bytes(n.as_slice(), modulus.as_slice()),
            None => false,
        },
        EkPublic::P256 { x, y } => match (numbers.curve, &numbers.point) {
            (Some(curve), Some(point)) => if curve == PRIME256V1 && x.len() <= 32 && y.len() <= 32 {
                let mut expected: Vec<u8> = vec![4];
                pad(&mut expected, x.as_slice());
                pad(&mut expected, y.as_slice());
                assert(expected@ =~= uncompressed(x@, y@));
                same_bytes(point.as_slice(), expected.as_slice())
            } else {
                false
            },
            _ => false,
        },
    };
    if same {
        Ok(())
    } else {
        Err(TpmError::CertificateMismatch)
    }
}

/// A device enrolls only with a certificate of its own endorsement key, wherever the
/// certificate comes from.
pub fn check_certificate(certificate: &[u8], public: &EkPublic) -> (result: Result<(), TpmError>)
    ensures
        tpm_fails(result, match_error(certificate_numbers(certificate@), public@)),
{
    judge_numbers(&read_numbers(certificate), public)
}

/// What the two kinds of endorsement key amount to. Each is `None` where there is no
/// certificate for it, else what `check_certificate` says.
pub open spec fn diagnosis(
    rsa: Option<Result<(), TpmError>>,
    ecc: Option<Result<(), TpmError>>,
) -> Result<EkAlgorithm, TpmError> {
    match (rsa, ecc) {
        (Some(Ok(_)), _) => Ok(EkAlgorithm::Rsa2048),
        (Some(Err(TpmError::InvalidCertificate)), _) => Err(TpmError::InvalidCertificate),
        (_, Some(Ok(_))) => Ok(EkAlgorithm::P256),
        (_, Some(Err(TpmError::InvalidCertificate))) => Err(TpmError::InvalidCertificate),
        (None, None) => Err(TpmError::NoCertificate),
        _ => Err(TpmError::CertificateMismatch),
    }
}

/// Whether this TPM can be enrolled, and with which endorsement key. RSA comes first.
pub fn doctor(
    rsa: Option<Result<(), TpmError>>,
    ecc: Option<Result<(), TpmError>>,
) -> (result: Result<EkAlgorithm, TpmError>)
    ensures
        result == diagnosis(rsa, ecc),
{
    match (rsa, ecc) {
        (Some(Ok(_)), _) => Ok(EkAlgorithm::Rsa2048),
        (Some(Err(TpmError::InvalidCertificate)), _) => Err(TpmError::InvalidCertificate),
        (_, Some(Ok(_))) => Ok(EkAlgorithm::P256),
        (_, Some(Err(TpmError::InvalidCertificate))) => Err(TpmError::InvalidCertificate),
        (None, None) => Err(TpmError::NoCertificate),
        _ => Err(TpmError::CertificateMismatch),
    }
}

/// A certificate goes with one key of each kind only.
pub proof fn law_certificate_names_one_key(numbers: Option<Numbers>, a: EkForm, b: EkForm)
    requires
        match_error(numbers, a) is None,
        match_error(numbers, b) is None,
    ensures
        match (a, b) {
            (EkForm::Rsa { modulus: m }, EkForm::Rsa { modulus: n }) => m == n,
            (EkForm::P256 { x: x1, y: y1 }, EkForm::P256 { x: x2, y: y2 }) => padded(x1) == padded(x2)
                && padded(y1) == padded(y2),
            _ => true,
        },
{
    if a is P256 && b is P256 {
        let (p, q) = (uncompressed(a->x, a->y), uncompressed(b->x, b->y));
        assert(p.subrange(1, 33) =~= padded(a->x));
        assert(p.subrange(33, 65) =~= padded(a->y));
        assert(q.subrange(1, 33) =~= padded(b->x));
        assert(q.subrange(33, 65) =~= padded(b->y));
    }
}

/// A certificate is of an RSA key exactly where it holds its modulus, and of a key of the curve
/// P-256 exactly where it names that curve and holds the point, each number in 32 bytes.
pub proof fn law_certificate_of_the_key_matches(numbers: Option<Numbers>, public: EkForm)
    ensures
        numbers is None ==> match_error(numbers, public) == Some(TpmError::InvalidCertificate),
        numbers matches Some(n) ==> match public {
            EkForm::Rsa { modulus } => {
                &&& match_error(numbers, public) is None <==> n.modulus == Some(modulus)
                &&& n.modulus != Some(modulus) ==> match_error(numbers, public) == Some(
                    TpmError::CertificateMismatch,
                )
            },
            EkForm::P256 { x, y } => {
                &&& match_error(numbers, public) is None <==> n.curve == Some(415i32) && x.len()
                    <= 32 && y.len() <= 32 && n.point == Some(uncompressed(x, y))
                &&& match_error(numbers, public) is Some ==> match_error(numbers, public) == Some(
                    TpmError::CertificateMismatch,
                )
            },
        },
{
}

/// A point is written as the byte four and its two numbers in 32 bytes each.
pub proof fn law_point_takes_65_bytes(x: Seq<u8>, y: Seq<u8>, i: int)
    requires
        x.len() <= 32,
        y.len() <= 32,
    ensures
        uncompressed(x, y).len() == 65,
        uncompressed(x, y)[0] == 4,
        0 <= i < 32 - x.len() ==> uncompressed(x, y)[1 + i] == 0,
        0 <= i < x.len() ==> uncompressed(x, y)[33 - x.len() + i] == x[i],
        0 <= i < 32 - y.len() ==> uncompressed(x, y)[33 + i] == 0,
        0 <= i < y.len() ==> uncompressed(x, y)[65 - y.len() + i] == y[i],
{
}

/// The key that is used is the RSA key where its certificate is right, else the other one where
/// its certificate is right. A certificate that cannot be read ends the search; where none is
/// there at all, that is said.
pub proof fn law_first_certified_key_is_used(
    rsa: Option<Result<(), TpmError>>,
    ecc: Option<Result<(), TpmError>>,
)
    ensures
        (rsa matches Some(r) && r is Ok) <==> diagnosis(rsa, ecc) == Ok::<EkAlgorithm, TpmError>(
            EkAlgorithm::Rsa2048,
        ),
        ((rsa is None || (rsa->0 is Err && rsa->0 != Err::<(), TpmError>(
            TpmError::InvalidCertificate,
        ))) && (ecc matches Some(e) && e is Ok)) <==> diagnosis(rsa, ecc) == Ok::<
            EkAlgorithm,
            TpmError,
        >(EkAlgorithm::P256),
        rsa is None && ecc is None <==> diagnosis(rsa, ecc) == Err::<EkAlgorithm, TpmError>(
            TpmError::NoCertificate,
        ),
        rsa == Some(Err::<(), TpmError>(TpmError::InvalidCertificate)) ==> diagnosis(rsa, ecc)
            == Err::<EkAlgorithm, TpmError>(TpmError::InvalidCertificate),
{
}

} // verus!
