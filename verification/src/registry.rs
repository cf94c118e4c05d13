//! Devices, enrollments, sessions and used nonces as mathematical objects: how a
//! device gains access and loses it.
use vstd::prelude::*;

use crate::catalog::{conflict, internal, lemma_filter_members, refusal, Refusal};
use crate::digest::hash_text;
use crate::text::{trim_end_white, trim_start_white, trim_white, white_space};

verus! {

/// An invitation lasts this long.
pub const INVITATION_SECONDS: i64 = 900;

/// An attested device may wait this long for its approval.
pub const APPROVAL_SECONDS: i64 = 86400;

/// A machine that holds, or held, access.
pub struct Device {
    pub id: int,
    pub name: Seq<char>,
    pub created_at: int,
    pub revoked_at: Option<int>,
}

/// The challenge that a device has to answer.
pub struct Challenge {
    pub id: Seq<char>,
    pub credential: Seq<char>,
    pub secret: Seq<char>,
}

/// One attempt of a device to gain access. `public` is the key it is bound to.
pub struct Enrolled {
    pub id: Seq<char>,
    pub device: int,
    pub invitation_hash: Seq<char>,
    pub expires_at: int,
    pub public: Option<Seq<char>>,
    pub fingerprint: Option<Seq<char>>,
    pub ek_fingerprint: Option<Seq<char>>,
    pub activation_hash: Option<Seq<char>>,
    pub challenge: Option<Challenge>,
    pub verified_at: Option<int>,
    pub approved_at: Option<int>,
}

/// A session, known only by the digest of its token.
pub struct Opened {
    pub token_hash: Seq<char>,
    pub enrollment: Seq<char>,
    pub expires_at: int,
}

/// A nonce that was used, and until when that is remembered.
pub struct Used {
    pub enrollment: Seq<char>,
    pub nonce: Seq<char>,
    pub expires_at: int,
}

/// Everything that decides who may do what.
pub struct Roster {
    pub public_url: Option<Seq<char>>,
    pub ek_roots: Option<Seq<char>>,
    pub devices: Seq<Device>,
    pub enrollments: Seq<Enrolled>,
    pub sessions: Seq<Opened>,
    pub nonces: Seq<Used>,
}

/// The first position at which `wanted` holds.
pub open spec fn first<T>(s: Seq<T>, wanted: spec_fn(T) -> bool) -> Option<int>
    decreases s.len(),
{
    if s.len() == 0 {
        None
    } else {
        match first(s.drop_last(), wanted) {
            Some(i) => Some(i),
            None => if wanted(s.last()) {
                Some(s.len() - 1)
            } else {
                None
            },
        }
    }
}

pub proof fn lemma_first_is<T>(s: Seq<T>, wanted: spec_fn(T) -> bool, i: int)
    requires
        0 <= i < s.len(),
        wanted(s[i]),
        forall|j: int| 0 <= j < i ==> !wanted(#[trigger] s[j]),
    ensures
        first(s, wanted) == Some(i),
    decreases s.len(),
{
    let front = s.drop_last();
    assert forall|j: int| 0 <= j < front.len() implies front[j] == s[j] by {}
    if i < front.len() {
        assert(front[i] == s[i]);
        lemma_first_is(front, wanted, i);
    } else {
        lemma_first_none(front, wanted);
    }
}

pub proof fn lemma_first_none<T>(s: Seq<T>, wanted: spec_fn(T) -> bool)
    requires
        forall|j: int| 0 <= j < s.len() ==> !wanted(#[trigger] s[j]),
    ensures
        first(s, wanted) is None,
    decreases s.len(),
{
    if s.len() > 0 {
        let front = s.drop_last();
        assert forall|j: int| 0 <= j < front.len() implies !wanted(#[trigger] front[j]) by {
            assert(front[j] == s[j]);
        }
        lemma_first_none(front, wanted);
        assert(!wanted(s[s.len() - 1]));
    }
}

pub proof fn lemma_first_found<T>(s: Seq<T>, wanted: spec_fn(T) -> bool)
    ensures
        match first(s, wanted) {
            Some(i) => 0 <= i < s.len() && wanted(s[i]) && forall|j: int|
                0 <= j < i ==> !wanted(#[trigger] s[j]),
            None => forall|j: int| 0 <= j < s.len() ==> !wanted(#[trigger] s[j]),
        },
    decreases s.len(),
{
    if s.len() > 0 {
        let front = s.drop_last();
        lemma_first_found(front, wanted);
        assert forall|j: int| 0 <= j < front.len() implies front[j] == s[j] by {}
        match first(front, wanted) {
            Some(i) => {
                assert(front[i] == s[i]);
                assert forall|j: int| 0 <= j < i implies !wanted(#[trigger] s[j]) by {
                    assert(front[j] == s[j]);
                }
            },
            None => {
                assert forall|j: int| 0 <= j < s.len() - 1 implies !wanted(#[trigger] s[j]) by {
                    assert(front[j] == s[j]);
                }
            },
        }
    }
}

/// The row of a device.
pub open spec fn device_by_id(devices: Seq<Device>, id: int) -> Option<Device> {
    match first(devices, |d: Device| d.id == id) {
        Some(i) => Some(devices[i]),
        None => None,
    }
}

/// The row of a device, by name.
pub open spec fn device_by_name(devices: Seq<Device>, name: Seq<char>) -> Option<Device> {
    match first(devices, |d: Device| d.name == name) {
        Some(i) => Some(devices[i]),
        None => None,
    }
}

/// The device is there and was not revoked.
pub open spec fn in_service(devices: Seq<Device>, id: int) -> bool {
    match device_by_id(devices, id) {
        Some(d) => d.revoked_at is None,
        None => false,
    }
}

/// How a request that is not authenticated is answered: the client learns no reason.
pub open spec fn unauthenticated() -> Refusal {
    refusal(401, "device authentication failed"@)
}

/// How a device without access is answered.
pub open spec fn without_access() -> Refusal {
    refusal(403, "device not approved or revoked"@)
}

/// An enrollment through which its device has access.
pub open spec fn has_access(r: Roster, e: Enrolled) -> bool {
    e.approved_at is Some && in_service(r.devices, e.device)
}

/// The position of the enrollment `id`, if its device has access through it.
pub open spec fn access_of(r: Roster, id: Seq<char>) -> Option<int> {
    first(r.enrollments, |e: Enrolled| e.id == id && has_access(r, e))
}

/// The largest device number; zero where there is none.
pub open spec fn last_device(devices: Seq<Device>) -> int
    decreases devices.len(),
{
    if devices.len() == 0 {
        0
    } else if devices.len() == 1 {
        devices[0].id
    } else {
        let rest = last_device(devices.drop_last());
        if devices.last().id > rest {
            devices.last().id
        } else {
            rest
        }
    }
}

/// Why no invitation is made for a name.
#[derive(Clone, Copy, Debug, PartialEq, Eq, Structural)]
pub enum DeviceError {
    InvalidName,
    NotConfigured,
    RevokedName,
    AlreadyEnrolled,
    Storage,
    InvalidPairingCode,
    PairingCodeUsed,
    UnknownEnrollment,
    NotVerified,
    NotCancellable,
    RandomSource,
    LegacyDisabled,
    EmptyName,
    ObsoleteDatabase,
    NoPublicUrl,
    InvalidUrl,
    HttpsRequired,
    NotAnOrigin,
    InvalidRoots,
    NoRoots,
    InvalidChain,
    CertificateTooLarge,
    InvalidHex,
    InvalidCertificate,
    UntrustedCertificate,
    CertificateAuthority,
    MissingExtendedUsage,
    NotAnEndorsementCertificate,
    MissingKeyUsage,
    InvalidKeyUsage,
    UnsupportedKey,
    CredentialFormat,
    TruncatedCredential,
    TruncatedSecret,
}

pub open spec fn device_message(error: DeviceError) -> Seq<char> {
    match error {
        DeviceError::InvalidName => "invalid device name"@,
        DeviceError::NotConfigured => "configure the public URL and EK CA roots first"@,
        DeviceError::RevokedName => "revoked name; use a new device name"@,
        DeviceError::AlreadyEnrolled => "device already enrolled or an invitation is pending"@,
        DeviceError::Storage => "the database refused the row"@,
        DeviceError::InvalidPairingCode => "pairing code must contain 20 Base32 characters"@,
        DeviceError::PairingCodeUsed => "pairing code is already used or expired"@,
        DeviceError::UnknownEnrollment => "enrollment no longer exists"@,
        DeviceError::NotVerified => "no verified enrollment with this fingerprint"@,
        DeviceError::NotCancellable => "no cancellable invitation; revoke approved devices instead"@,
        DeviceError::RandomSource => "random generation failed"@,
        DeviceError::LegacyDisabled => "legacy keys disabled; use device invite for TPM enrollment"@,
        DeviceError::EmptyName => "device name cannot be empty"@,
        DeviceError::ObsoleteDatabase => "obsolete device-key database"@,
        DeviceError::NoPublicUrl => "public URL is not configured"@,
        DeviceError::InvalidUrl => "invalid public URL"@,
        DeviceError::HttpsRequired => "HTTPS public URL required"@,
        DeviceError::NotAnOrigin => "public URL must be an origin without credentials or path"@,
        DeviceError::InvalidRoots => "invalid EK CA certificates"@,
        DeviceError::NoRoots => "at least one trusted EK CA certificate required"@,
        DeviceError::InvalidChain => "invalid EK certificate chain"@,
        DeviceError::CertificateTooLarge => "certificate too large"@,
        DeviceError::InvalidHex => "invalid hexadecimal text"@,
        DeviceError::InvalidCertificate => "invalid EK certificate"@,
        DeviceError::UntrustedCertificate => "untrusted or expired EK certificate"@,
        DeviceError::CertificateAuthority => "EK certificate must not be a CA"@,
        DeviceError::MissingExtendedUsage => "EK extended key usage missing"@,
        DeviceError::NotAnEndorsementCertificate => "certificate is not a TPM endorsement certificate"@,
        DeviceError::MissingKeyUsage => "EK key usage missing"@,
        DeviceError::InvalidKeyUsage => "invalid EK key usage"@,
        DeviceError::UnsupportedKey => "unsupported EK public key"@,
        DeviceError::CredentialFormat => "unexpected MakeCredential format"@,
        DeviceError::TruncatedCredential => "truncated credential"@,
        DeviceError::TruncatedSecret => "truncated secret"@,
    }
}

impl DeviceError {
    /// What the administrator reads.
    pub fn message(&self) -> (text: &'static str)
        ensures
            text@ == device_message(*self),
    {
        match self {
            DeviceError::InvalidName => "invalid device name",
            DeviceError::NotConfigured => "configure the public URL and EK CA roots first",
            DeviceError::RevokedName => "revoked name; use a new device name",
            DeviceError::AlreadyEnrolled => "device already enrolled or an invitation is pending",
            DeviceError::Storage => "the database refused the row",
            DeviceError::InvalidPairingCode => "pairing code must contain 20 Base32 characters",
            DeviceError::PairingCodeUsed => "pairing code is already used or expired",
            DeviceError::UnknownEnrollment => "enrollment no longer exists",
            DeviceError::NotVerified => "no verified enrollment with this fingerprint",
            DeviceError::NotCancellable => {
                "no cancellable invitation; revoke approved devices instead"
            },
            DeviceError::RandomSource => "random generation failed",
            DeviceError::LegacyDisabled => {
                "legacy keys disabled; use device invite for TPM enrollment"
            },
            DeviceError::EmptyName => "device name cannot be empty",
            DeviceError::ObsoleteDatabase => "obsolete device-key database",
            DeviceError::NoPublicUrl => "public URL is not configured",
            DeviceError::InvalidUrl => "invalid public URL",
            DeviceError::HttpsRequired => "HTTPS public URL required",
            DeviceError::NotAnOrigin => "public URL must be an origin without credentials or path",
            DeviceError::InvalidRoots => "invalid EK CA certificates",
            DeviceError::NoRoots => "at least one trusted EK CA certificate required",
            DeviceError::InvalidChain => "invalid EK certificate chain",
            DeviceError::CertificateTooLarge => "certificate too large",
            DeviceError::InvalidHex => "invalid hexadecimal text",
            DeviceError::InvalidCertificate => "invalid EK certificate",
            DeviceError::UntrustedCertificate => "untrusted or expired EK certificate",
            DeviceError::CertificateAuthority => "EK certificate must not be a CA",
            DeviceError::MissingExtendedUsage => "EK extended key usage missing",
            DeviceError::NotAnEndorsementCertificate => {
                "certificate is not a TPM endorsement certificate"
            },
            DeviceError::MissingKeyUsage => "EK key usage missing",
            DeviceError::InvalidKeyUsage => "invalid EK key usage",
            DeviceError::UnsupportedKey => "unsupported EK public key",
            DeviceError::CredentialFormat => "unexpected MakeCredential format",
            DeviceError::TruncatedCredential => "truncated credential",
            DeviceError::TruncatedSecret => "truncated secret",
        }
    }
}

/// A call that ends as `error` says.
pub open spec fn gives<T>(result: Result<T, DeviceError>, error: Option<DeviceError>) -> bool {
    match result {
        Ok(_) => error is None,
        Err(e) => error == Some(e),
    }
}

/// An enrollment that holds its device's place: approved, or still running.
pub open spec fn occupies(e: Enrolled, device: int, now: int) -> bool {
    e.device == device && (e.approved_at is Some || e.expires_at > now)
}

/// The number that a device of this name has, or gets.
pub open spec fn device_number(devices: Seq<Device>, name: Seq<char>) -> int {
    match device_by_name(devices, name) {
        Some(d) => d.id,
        None => last_device(devices) + 1,
    }
}

/// A name that a device may have.
pub open spec fn name_ok(name: Seq<char>) -> bool {
    trim_white(name).len() > 0 && vstd::utf8::encode_utf8(name).len() <= 255
}

/// Why no invitation is made.
pub open spec fn invitation_error(
    r: Roster,
    name: Seq<char>,
    token: Seq<char>,
    id: Seq<char>,
    now: int,
) -> Option<DeviceError> {
    let hash = hash_text(vstd::utf8::encode_utf8(token));
    if !name_ok(name) {
        Some(DeviceError::InvalidName)
    } else if r.ek_roots is None {
        Some(DeviceError::NotConfigured)
    } else if device_by_name(r.devices, name) is Some && device_by_name(
        r.devices,
        name,
    )->0.revoked_at is Some {
        Some(DeviceError::RevokedName)
    } else if device_by_name(r.devices, name) is None && last_device(r.devices) >= i64::MAX {
        Some(DeviceError::Storage)
    } else if exists|i: int|
        0 <= i < r.enrollments.len() && occupies(
            #[trigger] r.enrollments[i],
            device_number(r.devices, name),
            now,
        ) {
        Some(DeviceError::AlreadyEnrolled)
    } else if exists|i: int|
        0 <= i < r.enrollments.len() && ((#[trigger] r.enrollments[i]).id == id
            || r.enrollments[i].invitation_hash == hash) {
        Some(DeviceError::Storage)
    } else {
        None
    }
}

/// An enrollment that was just offered.
pub open spec fn invited(id: Seq<char>, device: int, token: Seq<char>, now: int) -> Enrolled {
    Enrolled {
        id,
        device,
        invitation_hash: hash_text(vstd::utf8::encode_utf8(token)),
        expires_at: now + INVITATION_SECONDS,
        public: None,
        fingerprint: None,
        ek_fingerprint: None,
        activation_hash: None,
        challenge: None,
        verified_at: None,
        approved_at: None,
    }
}

/// The roster after an invitation; the device is new unless its name is known.
pub open spec fn after_invitation(
    r: Roster,
    name: Seq<char>,
    token: Seq<char>,
    id: Seq<char>,
    now: int,
) -> Roster {
    let number = device_number(r.devices, name);
    Roster {
        devices: if device_by_name(r.devices, name) is Some {
            r.devices
        } else {
            r.devices.push(Device { id: number, name, created_at: now, revoked_at: None })
        },
        enrollments: r.enrollments.push(invited(id, number, token, now)),
        ..r
    }
}

/// The state of an enrollment in one word.
pub open spec fn status_of(devices: Seq<Device>, e: Enrolled, now: int) -> Seq<char> {
    if device_by_id(devices, e.device) is Some && device_by_id(
        devices,
        e.device,
    )->0.revoked_at is Some {
        "revoked"@
    } else if e.approved_at is Some {
        "approved"@
    } else if e.expires_at <= now {
        "expired"@
    } else if e.verified_at is Some {
        "pending-approval"@
    } else {
        "invited"@
    }
}

/// An enrollment that an administrator may approve under this fingerprint.
pub open spec fn approvable(
    r: Roster,
    e: Enrolled,
    id: Seq<char>,
    fingerprint: Seq<char>,
    now: int,
) -> bool {
    &&& e.id == id
    &&& e.fingerprint == Some(fingerprint)
    &&& e.verified_at is Some
    &&& e.expires_at > now
    &&& in_service(r.devices, e.device)
}

/// The enrollments after the approval of `id`.
pub open spec fn approved(enrollments: Seq<Enrolled>, id: Seq<char>, now: int) -> Seq<Enrolled> {
    enrollments.map_values(
        |e: Enrolled|
            if e.id == id {
                Enrolled { approved_at: Some(now), activation_hash: None, challenge: None, ..e }
            } else {
                e
            },
    )
}

/// An invitation that can still be withdrawn.
pub open spec fn cancellable(e: Enrolled, id: Seq<char>) -> bool {
    e.id == id && e.approved_at is None && e.expires_at > 0
}

/// The enrollments after the invitation `id` was withdrawn.
pub open spec fn cancelled(enrollments: Seq<Enrolled>, id: Seq<char>) -> Seq<Enrolled> {
    enrollments.map_values(
        |e: Enrolled|
            if cancellable(e, id) {
                Enrolled { expires_at: 0, activation_hash: None, challenge: None, ..e }
            } else {
                e
            },
    )
}

/// How many rows a withdrawal of `id` touches.
pub open spec fn cancel_count(enrollments: Seq<Enrolled>, id: Seq<char>) -> nat
    decreases enrollments.len(),
{
    if enrollments.len() == 0 {
        0
    } else {
        cancel_count(enrollments.drop_last(), id) + if cancellable(enrollments.last(), id) {
            1nat
        } else {
            0nat
        }
    }
}

/// An enrollment that may still be bound to a key, or is bound but not verified.
pub open spec fn startable(r: Roster, e: Enrolled, now: int) -> bool {
    e.expires_at > now && e.verified_at is None && in_service(r.devices, e.device)
}

/// The position of the enrollment that an invitation opens.
pub open spec fn start_of(r: Roster, invitation: Seq<char>, now: int) -> Option<int> {
    first(
        r.enrollments,
        |e: Enrolled|
            e.invitation_hash == hash_text(vstd::utf8::encode_utf8(invitation)) && startable(
                r,
                e,
                now,
            ),
    )
}

/// The position of the enrollment `id` while it can still be bound.
pub open spec fn open_of(r: Roster, id: Seq<char>, now: int) -> Option<int> {
    first(r.enrollments, |e: Enrolled| e.id == id && startable(r, e, now))
}

/// Why an enrollment is not bound to `public`.
pub open spec fn bind_refusal(
    r: Roster,
    id: Seq<char>,
    public: Seq<char>,
    now: int,
) -> Option<Refusal> {
    match open_of(r, id, now) {
        None => Some(unauthenticated()),
        Some(i) => match r.enrollments[i].public {
            None => None,
            Some(bound) => if bound != public {
                Some(conflict("invitation already bound to another key"@))
            } else if r.enrollments[i].challenge is None {
                Some(internal())
            } else {
                None
            },
        },
    }
}

/// The enrollments after `id` was bound to a key.
pub open spec fn bound(
    enrollments: Seq<Enrolled>,
    id: Seq<char>,
    public: Seq<char>,
    fingerprint: Seq<char>,
    ek_fingerprint: Seq<char>,
    activation_hash: Seq<char>,
    challenge: Challenge,
) -> Seq<Enrolled> {
    enrollments.map_values(
        |e: Enrolled|
            if e.id == id {
                Enrolled {
                    public: Some(public),
                    fingerprint: Some(fingerprint),
                    ek_fingerprint: Some(ek_fingerprint),
                    activation_hash: Some(activation_hash),
                    challenge: Some(challenge),
                    ..e
                }
            } else {
                e
            },
    )
}

/// The position of the enrollment `id` while its activation can be answered.
pub open spec fn answerable(r: Roster, id: Seq<char>, now: int) -> Option<int> {
    first(
        r.enrollments,
        |e: Enrolled|
            e.id == id && e.expires_at > now && e.approved_at is None && in_service(
                r.devices,
                e.device,
            ),
    )
}

/// Why an answer to a challenge is not accepted. `answer` is the answer's bytes, if it
/// was hexadecimal.
pub open spec fn finish_error(
    r: Roster,
    id: Seq<char>,
    answer: Option<Seq<u8>>,
    now: int,
) -> Option<Refusal> {
    if answer is None || answer->0.len() != 32 {
        Some(unauthenticated())
    } else {
        match answerable(r, id, now) {
            None => Some(unauthenticated()),
            Some(i) => {
                let e = r.enrollments[i];
                if e.activation_hash is None || e.fingerprint is None {
                    Some(internal())
                } else if e.activation_hash != Some(hash_text(answer->0)) {
                    Some(unauthenticated())
                } else {
                    None
                }
            },
        }
    }
}

/// The enrollments after the device of `id` proved that it holds its TPM. Answering
/// again changes nothing but that the challenge is gone.
pub open spec fn attested(enrollments: Seq<Enrolled>, id: Seq<char>, now: int) -> Seq<Enrolled> {
    enrollments.map_values(
        |e: Enrolled|
            if e.id == id {
                Enrolled {
                    verified_at: if e.verified_at is Some {
                        e.verified_at
                    } else {
                        Some(now)
                    },
                    expires_at: if e.verified_at is None {
                        now + APPROVAL_SECONDS
                    } else {
                        e.expires_at
                    },
                    challenge: None,
                    ..e
                }
            } else {
                e
            },
    )
}

/// Whether a session token is good for an enrollment.
pub open spec fn session_good(r: Roster, enrollment: Seq<char>, token: Seq<char>, now: int) -> bool {
    exists|i: int|
        0 <= i < r.sessions.len() && (#[trigger] r.sessions[i]).token_hash == hash_text(
            vstd::utf8::encode_utf8(token),
        ) && r.sessions[i].enrollment == enrollment && r.sessions[i].expires_at > now
}

/// Why a request is refused for its device or its session. A request for a new session
/// needs none.
pub open spec fn active_refusal(
    r: Roster,
    enrollment: Seq<char>,
    token: Seq<char>,
    is_session: bool,
    now: int,
) -> Option<Refusal> {
    if access_of(r, enrollment) is None {
        Some(unauthenticated())
    } else if !is_session && !session_good(r, enrollment, token, now) {
        Some(unauthenticated())
    } else {
        None
    }
}

/// Whether a nonce of an enrollment is remembered.
pub open spec fn nonce_used(nonces: Seq<Used>, enrollment: Seq<char>, nonce: Seq<char>) -> bool {
    exists|i: int|
        0 <= i < nonces.len() && (#[trigger] nonces[i]).enrollment == enrollment && nonces[i].nonce
            == nonce
}

/// The nonces that are still remembered.
pub open spec fn remembered(nonces: Seq<Used>, now: int) -> Seq<Used> {
    nonces.filter(|u: Used| u.expires_at > now)
}

/// The sessions that have not expired.
pub open spec fn running(sessions: Seq<Opened>, now: int) -> Seq<Opened> {
    sessions.filter(|s: Opened| s.expires_at > now)
}

/// The devices after the one of this name was revoked. A device is revoked once.
pub open spec fn revoked(devices: Seq<Device>, name: Seq<char>, now: int) -> Seq<Device> {
    devices.map_values(
        |d: Device|
            if d.name == name && d.revoked_at is None {
                Device { revoked_at: Some(now), ..d }
            } else {
                d
            },
    )
}

/// Whether an enrollment belongs to the device of this name.
pub open spec fn belongs(r: Roster, enrollment: Seq<char>, name: Seq<char>) -> bool {
    exists|i: int|
        0 <= i < r.enrollments.len() && (#[trigger] r.enrollments[i]).id == enrollment
            && device_named(r.devices, r.enrollments[i].device, name)
}

/// Whether the device with this number has this name.
pub open spec fn device_named(devices: Seq<Device>, id: int, name: Seq<char>) -> bool {
    exists|i: int|
        0 <= i < devices.len() && (#[trigger] devices[i]).id == id && devices[i].name == name
}

/// A device whose enrollments were not approved has no access, and is told so.
pub proof fn law_unapproved_has_no_access(r: Roster, enrollment: Seq<char>)
    requires
        forall|i: int|
            0 <= i < r.enrollments.len() && (#[trigger] r.enrollments[i]).id == enrollment
                ==> r.enrollments[i].approved_at is None,
    ensures
        access_of(r, enrollment) is None,
{
    lemma_first_none(r.enrollments, |e: Enrolled| e.id == enrollment && has_access(r, e));
}

proof fn lemma_revoked_out_of_service(devices: Seq<Device>, name: Seq<char>, now: int, id: int)
    requires
        device_by_id(devices, id) is Some,
        device_by_id(devices, id)->0.name == name,
    ensures
        !in_service(revoked(devices, name, now), id),
{
    let wanted = |d: Device| d.id == id;
    let after = revoked(devices, name, now);
    lemma_first_found(devices, wanted);
    let i = first(devices, wanted)->0;
    assert forall|j: int| 0 <= j < i implies !wanted(#[trigger] after[j]) by {
        assert(!wanted(devices[j]));
    }
    assert(wanted(after[i]));
    lemma_first_is(after, wanted, i);
}

/// Once a device is revoked, none of its enrollments gives access any more, whatever
/// sessions it held.
pub proof fn law_revoked_device_has_no_access(
    r: Roster,
    name: Seq<char>,
    now: int,
    enrollment: Seq<char>,
)
    requires
        forall|i: int|
            0 <= i < r.enrollments.len() && (#[trigger] r.enrollments[i]).id == enrollment
                && device_by_id(r.devices, r.enrollments[i].device) is Some ==> device_by_id(
                r.devices,
                r.enrollments[i].device,
            )->0.name == name,
    ensures
        access_of(Roster { devices: revoked(r.devices, name, now), ..r }, enrollment) is None,
{
    let next = Roster { devices: revoked(r.devices, name, now), ..r };
    let wanted = |e: Enrolled| e.id == enrollment && has_access(next, e);
    assert forall|i: int| 0 <= i < next.enrollments.len() implies !wanted(
        #[trigger] next.enrollments[i],
    ) by {
        let e = r.enrollments[i];
        if e.id == enrollment && device_by_id(next.devices, e.device) is Some {
            lemma_revoked_same_numbers(r.devices, name, now, e.device);
            lemma_revoked_out_of_service(r.devices, name, now, e.device);
        }
    }
    lemma_first_none(next.enrollments, wanted);
}

proof fn lemma_revoked_same_numbers(devices: Seq<Device>, name: Seq<char>, now: int, id: int)
    requires
        device_by_id(revoked(devices, name, now), id) is Some,
    ensures
        device_by_id(devices, id) is Some,
{
    let wanted = |d: Device| d.id == id;
    lemma_first_found(revoked(devices, name, now), wanted);
    lemma_first_found(devices, wanted);
    let i = first(revoked(devices, name, now), wanted)->0;
    assert(wanted(devices[i]));
}

/// The first key that answers to an invitation keeps it: while the enrollment is open,
/// any other key is refused as a conflict, and the same key gets its challenge again.
pub proof fn law_invitation_serves_one_key(
    r: Roster,
    id: Seq<char>,
    public: Seq<char>,
    fingerprint: Seq<char>,
    ek_fingerprint: Seq<char>,
    activation_hash: Seq<char>,
    challenge: Challenge,
    now: int,
    other: Seq<char>,
)
    requires
        open_of(r, id, now) is Some,
    ensures
        ({
            let next = Roster {
                enrollments: bound(
                    r.enrollments,
                    id,
                    public,
                    fingerprint,
                    ek_fingerprint,
                    activation_hash,
                    challenge,
                ),
                ..r
            };
            &&& bind_refusal(next, id, public, now) is None
            &&& next.enrollments[open_of(next, id, now)->0].challenge == Some(challenge)
            &&& other != public ==> bind_refusal(next, id, other, now) == Some(
                conflict("invitation already bound to another key"@),
            )
        }),
{
    let next = Roster {
        enrollments: bound(
            r.enrollments,
            id,
            public,
            fingerprint,
            ek_fingerprint,
            activation_hash,
            challenge,
        ),
        ..r
    };
    let earlier = |e: Enrolled| e.id == id && startable(r, e, now);
    let later = |e: Enrolled| e.id == id && startable(next, e, now);
    lemma_first_found(r.enrollments, earlier);
    let i = open_of(r, id, now)->0;
    assert(earlier(r.enrollments[i]));
    assert(later(next.enrollments[i]));
    assert forall|j: int| 0 <= j < i implies !later(#[trigger] next.enrollments[j]) by {
        assert(!earlier(r.enrollments[j]));
    }
    lemma_first_is(next.enrollments, later, i);
}

/// A withdrawn invitation opens nothing any more.
pub proof fn law_cancelled_invitation_opens_nothing(
    r: Roster,
    id: Seq<char>,
    now: int,
)
    requires
        now >= 0,
    ensures
        ({
            let next = Roster { enrollments: cancelled(r.enrollments, id), ..r };
            forall|i: int|
                0 <= i < next.enrollments.len() && (#[trigger] next.enrollments[i]).id == id
                    && next.enrollments[i].approved_at is None ==> !startable(
                    next,
                    next.enrollments[i],
                    now,
                )
        }),
{
    let next = Roster { enrollments: cancelled(r.enrollments, id), ..r };
    assert forall|i: int|
        0 <= i < next.enrollments.len() && (#[trigger] next.enrollments[i]).id == id
            && next.enrollments[i].approved_at is None implies !startable(
        next,
        next.enrollments[i],
        now,
    ) by {
        assert(next.enrollments[i].expires_at <= 0);
    }
}

/// Approval leaves the key that was attested in place, and gives access.
pub proof fn law_approval_gives_access(
    r: Roster,
    id: Seq<char>,
    fingerprint: Seq<char>,
    now: int,
    i: int,
)
    requires
        0 <= i < r.enrollments.len(),
        approvable(r, r.enrollments[i], id, fingerprint, now),
    ensures
        ({
            let next = Roster { enrollments: approved(r.enrollments, id, now), ..r };
            &&& access_of(next, id) is Some
            &&& next.enrollments[i].public == r.enrollments[i].public
            &&& has_access(next, next.enrollments[i])
        }),
{
    let next = Roster { enrollments: approved(r.enrollments, id, now), ..r };
    let wanted = |e: Enrolled| e.id == id && has_access(next, e);
    lemma_first_found(next.enrollments, wanted);
    assert(wanted(next.enrollments[i]));
}

/// What holds of the rows between any two requests: no two devices share a number or a name,
/// no two enrollments share an identifier or an invitation, and each belongs to a device.
pub open spec fn sound(r: Roster) -> bool {
    &&& forall|i: int, j: int|
        0 <= i < j < r.devices.len() ==> (#[trigger] r.devices[i]).id != (#[trigger] r.devices[j]).id
            && r.devices[i].name != r.devices[j].name
    &&& forall|i: int, j: int|
        0 <= i < j < r.enrollments.len() ==> (#[trigger] r.enrollments[i]).id != (
        #[trigger] r.enrollments[j]).id && r.enrollments[i].invitation_hash
            != r.enrollments[j].invitation_hash
    &&& forall|i: int|
        0 <= i < r.enrollments.len() ==> exists|d: int|
            0 <= d < r.devices.len() && (#[trigger] r.devices[d]).id == (
            #[trigger] r.enrollments[i]).device
}

/// Enrollments that stand for the same invitations to the same devices, whatever became of
/// them.
pub open spec fn same_offers(a: Seq<Enrolled>, b: Seq<Enrolled>) -> bool {
    a.len() == b.len() && forall|i: int|
        0 <= i < a.len() ==> (#[trigger] a[i]).id == b[i].id && a[i].device == b[i].device
            && a[i].invitation_hash == b[i].invitation_hash
}

proof fn lemma_last_device(devices: Seq<Device>, i: int)
    requires
        0 <= i < devices.len(),
    ensures
        devices[i].id <= last_device(devices),
    decreases devices.len(),
{
    if devices.len() > 1 && i < devices.len() - 1 {
        assert(devices.drop_last()[i] == devices[i]);
        lemma_last_device(devices.drop_last(), i);
    }
}

/// Whatever becomes of enrollments, the rows stay sound.
pub proof fn law_enrollment_keeps_sound(r: Roster, enrollments: Seq<Enrolled>)
    requires
        sound(r),
        same_offers(r.enrollments, enrollments),
    ensures
        sound(Roster { enrollments, ..r }),
{
    let next = Roster { enrollments, ..r };
    assert forall|i: int, j: int| 0 <= i < j < next.enrollments.len() implies (
    #[trigger] next.enrollments[i]).id != (#[trigger] next.enrollments[j]).id
        && next.enrollments[i].invitation_hash != next.enrollments[j].invitation_hash by {
        assert(r.enrollments[i].id != r.enrollments[j].id);
    }
    assert forall|i: int| 0 <= i < next.enrollments.len() implies exists|d: int|
        0 <= d < next.devices.len() && (#[trigger] next.devices[d]).id == (
        #[trigger] next.enrollments[i]).device by {
        let d = choose|d: int|
            0 <= d < r.devices.len() && (#[trigger] r.devices[d]).id == r.enrollments[i].device;
        assert(next.devices[d].id == next.enrollments[i].device);
    }
}

/// Binding, approving, withdrawing and attesting keep every offer what it is.
pub proof fn law_offers_stay(
    enrollments: Seq<Enrolled>,
    id: Seq<char>,
    public: Seq<char>,
    fingerprint: Seq<char>,
    ek_fingerprint: Seq<char>,
    activation_hash: Seq<char>,
    challenge: Challenge,
    now: int,
)
    ensures
        same_offers(
            enrollments,
            bound(
                enrollments,
                id,
                public,
                fingerprint,
                ek_fingerprint,
                activation_hash,
                challenge,
            ),
        ),
        same_offers(enrollments, approved(enrollments, id, now)),
        same_offers(enrollments, cancelled(enrollments, id)),
        same_offers(enrollments, attested(enrollments, id, now)),
{
}

/// An invitation keeps the rows sound.
pub proof fn law_invitation_keeps_sound(
    r: Roster,
    name: Seq<char>,
    token: Seq<char>,
    id: Seq<char>,
    now: int,
)
    requires
        sound(r),
        invitation_error(r, name, token, id, now) is None,
    ensures
        sound(after_invitation(r, name, token, id, now)),
{
    let next = after_invitation(r, name, token, id, now);
    let number = device_number(r.devices, name);
    let wanted = |d: Device| d.name == name;
    lemma_first_found(r.devices, wanted);
    let n = r.enrollments.len() as int;
    assert forall|i: int, j: int| 0 <= i < j < next.devices.len() implies (
    #[trigger] next.devices[i]).id != (#[trigger] next.devices[j]).id && next.devices[i].name
        != next.devices[j].name by {
        if j < r.devices.len() {
            assert(r.devices[i].id != r.devices[j].id);
        } else {
            lemma_last_device(r.devices, i);
            assert(!wanted(r.devices[i]));
        }
    }
    assert forall|i: int, j: int| 0 <= i < j < next.enrollments.len() implies (
    #[trigger] next.enrollments[i]).id != (#[trigger] next.enrollments[j]).id
        && next.enrollments[i].invitation_hash != next.enrollments[j].invitation_hash by {
        assert(next.enrollments[i] == r.enrollments[i]);
        if j < n {
            assert(r.enrollments[i].id != r.enrollments[j].id);
        }
    }
    assert forall|i: int| 0 <= i < next.enrollments.len() implies exists|d: int|
        0 <= d < next.devices.len() && (#[trigger] next.devices[d]).id == (
        #[trigger] next.enrollments[i]).device by {
        if i < n {
            let d = choose|d: int|
                0 <= d < r.devices.len() && (#[trigger] r.devices[d]).id == r.enrollments[i].device;
            assert(next.devices[d] == r.devices[d]);
        } else if device_by_name(r.devices, name) is Some {
            let d = first(r.devices, wanted)->0;
            assert(next.devices[d].id == number);
        } else {
            assert(next.devices[r.devices.len() as int].id == number);
        }
    }
}

/// Revoking a device keeps the rows sound.
pub proof fn law_revocation_keeps_sound(r: Roster, name: Seq<char>, now: int)
    requires
        sound(r),
    ensures
        sound(Roster { devices: revoked(r.devices, name, now), ..r }),
{
    let next = Roster { devices: revoked(r.devices, name, now), ..r };
    assert forall|i: int, j: int| 0 <= i < j < next.devices.len() implies (
    #[trigger] next.devices[i]).id != (#[trigger] next.devices[j]).id && next.devices[i].name
        != next.devices[j].name by {
        assert(r.devices[i].id != r.devices[j].id);
    }
    assert forall|i: int| 0 <= i < next.enrollments.len() implies exists|d: int|
        0 <= d < next.devices.len() && (#[trigger] next.devices[d]).id == (
        #[trigger] next.enrollments[i]).device by {
        let d = choose|d: int|
            0 <= d < r.devices.len() && (#[trigger] r.devices[d]).id == r.enrollments[i].device;
        assert(next.devices[d].id == r.devices[d].id);
    }
}

/// The row of a device is found by its number.
pub proof fn lemma_device_at(r: Roster, d: int)
    requires
        sound(r),
        0 <= d < r.devices.len(),
    ensures
        device_by_id(r.devices, r.devices[d].id) == Some(r.devices[d]),
{
    let wanted = |x: Device| x.id == r.devices[d].id;
    assert forall|j: int| 0 <= j < d implies !wanted(#[trigger] r.devices[j]) by {
        assert(r.devices[j].id != r.devices[d].id);
    }
    lemma_first_is(r.devices, wanted, d);
}

/// Once a device has answered its challenge, it waits for its approval for one day; the same
/// answer, given again within that time, is accepted again, finds the same fingerprint,
/// and changes nothing: it does not extend the time. Any other answer is refused.
pub proof fn law_answering_again_changes_nothing(
    r: Roster,
    id: Seq<char>,
    answer: Seq<u8>,
    now: int,
    later: int,
    other: Option<Seq<u8>>,
)
    requires
        sound(r),
        finish_error(r, id, Some(answer), now) is None,
        now <= later,
        ({
            let e = r.enrollments[answerable(r, id, now)->0];
            later < if e.verified_at is None {
                now + APPROVAL_SECONDS
            } else {
                e.expires_at
            }
        }),
    ensures
        ({
            let i = answerable(r, id, now)->0;
            let next = Roster { enrollments: attested(r.enrollments, id, now), ..r };
            &&& r.enrollments[i].verified_at is None ==> next.enrollments[i].expires_at == now
                + APPROVAL_SECONDS
            &&& finish_error(next, id, Some(answer), later) is None
            &&& answerable(next, id, later) == Some(i)
            &&& next.enrollments[i].fingerprint == r.enrollments[i].fingerprint
            &&& attested(next.enrollments, id, later) == next.enrollments
            &&& other is None || other->0.len() != 32 || hash_text(other->0) != hash_text(answer)
                ==> finish_error(r, id, other, now) == Some(unauthenticated()) && finish_error(
                next,
                id,
                other,
                later,
            ) == Some(unauthenticated())
        }),
{
    let next = Roster { enrollments: attested(r.enrollments, id, now), ..r };
    let before = |e: Enrolled|
        e.id == id && e.expires_at > now && e.approved_at is None && in_service(
            r.devices,
            e.device,
        );
    let after = |e: Enrolled|
        e.id == id && e.expires_at > later && e.approved_at is None && in_service(
            next.devices,
            e.device,
        );
    lemma_first_found(r.enrollments, before);
    let i = answerable(r, id, now)->0;
    assert(before(r.enrollments[i]));
    assert forall|j: int| 0 <= j < i implies !after(#[trigger] next.enrollments[j]) by {
        assert(r.enrollments[j].id != r.enrollments[i].id);
    }
    assert(after(next.enrollments[i]));
    lemma_first_is(next.enrollments, after, i);
    assert(attested(next.enrollments, id, later) =~= next.enrollments) by {
        assert forall|j: int| 0 <= j < next.enrollments.len() implies #[trigger] attested(
            next.enrollments,
            id,
            later,
        )[j] == next.enrollments[j] by {}
    }
}

/// A device that is added under a new name keeps the rows sound.
pub proof fn law_added_device_keeps_sound(r: Roster, name: Seq<char>, now: int)
    requires
        sound(r),
        device_by_name(r.devices, name) is None,
    ensures
        sound(
            Roster {
                devices: r.devices.push(
                    Device {
                        id: last_device(r.devices) + 1,
                        name,
                        created_at: now,
                        revoked_at: None,
                    },
                ),
                ..r
            },
        ),
{
    let row = Device { id: last_device(r.devices) + 1, name, created_at: now, revoked_at: None };
    let next = Roster { devices: r.devices.push(row), ..r };
    let wanted = |d: Device| d.name == name;
    lemma_first_found(r.devices, wanted);
    assert forall|i: int, j: int| 0 <= i < j < next.devices.len() implies (
    #[trigger] next.devices[i]).id != (#[trigger] next.devices[j]).id && next.devices[i].name
        != next.devices[j].name by {
        if j < r.devices.len() {
            assert(r.devices[i].id != r.devices[j].id);
        } else {
            lemma_last_device(r.devices, i);
            assert(!wanted(r.devices[i]));
        }
    }
    assert forall|i: int| 0 <= i < next.enrollments.len() implies exists|d: int|
        0 <= d < next.devices.len() && (#[trigger] next.devices[d]).id == (
        #[trigger] next.enrollments[i]).device by {
        let d = choose|d: int|
            0 <= d < r.devices.len() && (#[trigger] r.devices[d]).id == r.enrollments[i].device;
        assert(next.devices[d] == r.devices[d]);
    }
}

/// Some device of the roster has this number and was not revoked.
pub open spec fn serves(r: Roster, number: int) -> bool {
    exists|d: int|
        0 <= d < r.devices.len() && (#[trigger] r.devices[d]).id == number
            && r.devices[d].revoked_at is None
}

proof fn lemma_serves(r: Roster, number: int)
    requires
        sound(r),
    ensures
        in_service(r.devices, number) <==> serves(r, number),
{
    let wanted = |x: Device| x.id == number;
    lemma_first_found(r.devices, wanted);
    match first(r.devices, wanted) {
        Some(i) => {
            lemma_device_at(r, i);
            if serves(r, number) {
                let d = choose|d: int|
                    0 <= d < r.devices.len() && (#[trigger] r.devices[d]).id == number
                        && r.devices[d].revoked_at is None;
                lemma_device_at(r, d);
            }
        },
        None => {
            if serves(r, number) {
                let d = choose|d: int|
                    0 <= d < r.devices.len() && (#[trigger] r.devices[d]).id == number
                        && r.devices[d].revoked_at is None;
                assert(wanted(r.devices[d]));
            }
        },
    }
}

/// An enrollment has access exactly where it was approved and its device was not revoked.
pub proof fn law_approved_device_has_access(r: Roster, i: int)
    requires
        sound(r),
        0 <= i < r.enrollments.len(),
    ensures
        access_of(r, r.enrollments[i].id) == (if r.enrollments[i].approved_at is Some && serves(
            r,
            r.enrollments[i].device,
        ) {
            Some(i)
        } else {
            None
        }),
{
    let id = r.enrollments[i].id;
    let wanted = |e: Enrolled| e.id == id && has_access(r, e);
    lemma_serves(r, r.enrollments[i].device);
    lemma_first_found(r.enrollments, wanted);
    match first(r.enrollments, wanted) {
        Some(k) => {
            if k < i {
                assert(r.enrollments[k].id != r.enrollments[i].id);
            } else if i < k {
                assert(r.enrollments[i].id != r.enrollments[k].id);
            }
        },
        None => {
            assert(!wanted(r.enrollments[i]));
        },
    }
}

/// An enrollment that nobody knows has no access.
pub proof fn law_unknown_enrollment_has_no_access(r: Roster, id: Seq<char>)
    requires
        forall|i: int| 0 <= i < r.enrollments.len() ==> (#[trigger] r.enrollments[i]).id != id,
    ensures
        access_of(r, id) is None,
{
    lemma_first_none(r.enrollments, |e: Enrolled| e.id == id && has_access(r, e));
}

/// An approved device that was not revoked is let on with its token as long as the session of
/// the token runs, and without one only to open a session; everyone else is answered 401.
pub proof fn law_running_session_is_let_on(
    r: Roster,
    i: int,
    token: Seq<char>,
    is_session: bool,
    now: int,
)
    requires
        sound(r),
        0 <= i < r.enrollments.len(),
    ensures
        ({
            let e = r.enrollments[i];
            let refused = active_refusal(r, e.id, token, is_session, now);
            &&& refused is None <==> e.approved_at is Some && serves(r, e.device) && (is_session
                || exists|s: int|
                0 <= s < r.sessions.len() && (#[trigger] r.sessions[s]).enrollment == e.id
                    && r.sessions[s].token_hash == hash_text(vstd::utf8::encode_utf8(token))
                    && r.sessions[s].expires_at > now)
            &&& refused matches Some(why) ==> why.status == 401
        }),
{
    law_approved_device_has_access(r, i);
    let e = r.enrollments[i];
    if exists|s: int|
        0 <= s < r.sessions.len() && (#[trigger] r.sessions[s]).enrollment == e.id
            && r.sessions[s].token_hash == hash_text(vstd::utf8::encode_utf8(token))
            && r.sessions[s].expires_at > now {
        let s = choose|s: int|
            0 <= s < r.sessions.len() && (#[trigger] r.sessions[s]).enrollment == e.id
                && r.sessions[s].token_hash == hash_text(vstd::utf8::encode_utf8(token))
                && r.sessions[s].expires_at > now;
        assert(r.sessions[s].token_hash == hash_text(vstd::utf8::encode_utf8(token)));
        assert(session_good(r, e.id, token, now));
    }
}

/// A session that was just opened lets its enrollment on until it expires, and no other one.
pub proof fn law_opened_session_lets_on(
    r: Roster,
    i: int,
    token: Seq<char>,
    expires_at: int,
    now: int,
)
    requires
        sound(r),
        0 <= i < r.enrollments.len(),
        r.enrollments[i].approved_at is Some,
        serves(r, r.enrollments[i].device),
        now < expires_at,
    ensures
        active_refusal(
            Roster {
                sessions: r.sessions.push(
                    Opened {
                        token_hash: hash_text(vstd::utf8::encode_utf8(token)),
                        enrollment: r.enrollments[i].id,
                        expires_at,
                    },
                ),
                ..r
            },
            r.enrollments[i].id,
            token,
            false,
            now,
        ) is None,
{
    let next = Roster {
        sessions: r.sessions.push(
            Opened {
                token_hash: hash_text(vstd::utf8::encode_utf8(token)),
                enrollment: r.enrollments[i].id,
                expires_at,
            },
        ),
        ..r
    };
    assert(next.sessions[r.sessions.len() as int].expires_at == expires_at);
    law_running_session_is_let_on(next, i, token, false, now);
}

/// The first that was asked for, of several.
pub proof fn law_search_finds_the_first<T>(s: Seq<T>, wanted: spec_fn(T) -> bool)
    ensures
        match first(s, wanted) {
            Some(i) => 0 <= i < s.len() && wanted(s[i]) && forall|j: int|
                0 <= j < i ==> !wanted(#[trigger] s[j]),
            None => forall|j: int| 0 <= j < s.len() ==> !wanted(#[trigger] s[j]),
        },
{
    lemma_first_found(s, wanted);
}

proof fn lemma_named(r: Roster, name: Seq<char>)
    requires
        sound(r),
    ensures
        match device_by_name(r.devices, name) {
            Some(device) => exists|d: int|
                0 <= d < r.devices.len() && #[trigger] r.devices[d] == device && device.name == name,
            None => forall|d: int|
                0 <= d < r.devices.len() ==> (#[trigger] r.devices[d]).name != name,
        },
        forall|d: int|
            0 <= d < r.devices.len() && (#[trigger] r.devices[d]).name == name ==> device_by_name(
                r.devices,
                name,
            ) == Some(r.devices[d]),
{
    let wanted = |x: Device| x.name == name;
    lemma_first_found(r.devices, wanted);
    match first(r.devices, wanted) {
        Some(i) => {
            assert(r.devices[i].name == name);
            assert forall|d: int|
                0 <= d < r.devices.len() && (#[trigger] r.devices[d]).name
                    == name implies device_by_name(r.devices, name) == Some(r.devices[d]) by {
                if d < i {
                    assert(r.devices[d].name != r.devices[i].name);
                } else if i < d {
                    assert(r.devices[i].name != r.devices[d].name);
                }
            }
        },
        None => {
            assert forall|d: int| 0 <= d < r.devices.len() implies (#[trigger] r.devices[d]).name
                != name by {
                assert(!wanted(r.devices[d]));
            }
        },
    }
}

/// The number that the next device gets is above all that are in use.
pub proof fn law_next_device_number_is_free(devices: Seq<Device>, d: int)
    ensures
        0 <= d < devices.len() ==> devices[d].id <= last_device(devices),
        devices.len() > 0 ==> exists|k: int|
            0 <= k < devices.len() && (#[trigger] devices[k]).id == last_device(devices),
        devices.len() == 0 ==> last_device(devices) == 0,
    decreases devices.len(),
{
    if 0 <= d < devices.len() {
        lemma_last_device(devices, d);
    }
    if devices.len() == 1 {
        assert(devices[0].id == last_device(devices));
    } else if devices.len() > 1 {
        let front = devices.drop_last();
        law_next_device_number_is_free(front, 0);
        let k = choose|k: int|
            0 <= k < front.len() && (#[trigger] front[k]).id == last_device(front);
        assert(devices[k] == front[k]);
        assert(devices[devices.len() - 1] == devices.last());
        if devices.last().id > last_device(front) {
            assert(devices[devices.len() - 1].id == last_device(devices));
        } else {
            assert(devices[k].id == last_device(devices));
        }
    }
}

/// A device that nobody knows by this name may be invited exactly where the name is acceptable,
/// the trusted roots are set, a number is left, no enrollment is kept for that number, and the
/// invitation is a new one.
pub proof fn law_new_device_may_be_invited(
    r: Roster,
    name: Seq<char>,
    token: Seq<char>,
    id: Seq<char>,
    now: int,
)
    requires
        sound(r),
        forall|d: int| 0 <= d < r.devices.len() ==> (#[trigger] r.devices[d]).name != name,
    ensures
        invitation_error(r, name, token, id, now) is None <==> name_ok(name) && r.ek_roots is Some
            && last_device(r.devices) < i64::MAX && forall|i: int|
            0 <= i < r.enrollments.len() ==> (#[trigger] r.enrollments[i]).id != id
                && r.enrollments[i].invitation_hash != hash_text(vstd::utf8::encode_utf8(token)),
{
    lemma_named(r, name);
    assert forall|i: int| 0 <= i < r.enrollments.len() implies !occupies(
        #[trigger] r.enrollments[i],
        last_device(r.devices) + 1,
        now,
    ) by {
        let d = choose|d: int|
            0 <= d < r.devices.len() && (#[trigger] r.devices[d]).id == (
            r.enrollments[i]).device;
        lemma_last_device(r.devices, d);
    }
}

/// A known device may be invited again exactly where it was not revoked, none of its enrollments
/// is approved or still open, and the invitation is a new one.
pub proof fn law_known_device_may_be_invited_again(
    r: Roster,
    d: int,
    token: Seq<char>,
    id: Seq<char>,
    now: int,
)
    requires
        sound(r),
        0 <= d < r.devices.len(),
    ensures
        ({
            let device = r.devices[d];
            let error = invitation_error(r, device.name, token, id, now);
            &&& error is None <==> name_ok(device.name) && r.ek_roots is Some
                && device.revoked_at is None && (forall|i: int|
                0 <= i < r.enrollments.len() ==> !((#[trigger] r.enrollments[i]).device == device.id
                    && (r.enrollments[i].approved_at is Some || r.enrollments[i].expires_at > now)))
                && (forall|i: int|
                0 <= i < r.enrollments.len() ==> (#[trigger] r.enrollments[i]).id != id
                    && r.enrollments[i].invitation_hash != hash_text(
                    vstd::utf8::encode_utf8(token),
                ))
            &&& name_ok(device.name) && r.ek_roots is Some && device.revoked_at is Some ==> error
                == Some(DeviceError::RevokedName)
        }),
{
    let device = r.devices[d];
    lemma_named(r, device.name);
    assert(device_by_name(r.devices, device.name) == Some(device));
    if forall|i: int|
        0 <= i < r.enrollments.len() ==> !((#[trigger] r.enrollments[i]).device == device.id && (
        r.enrollments[i].approved_at is Some || r.enrollments[i].expires_at > now)) {
        assert forall|i: int| 0 <= i < r.enrollments.len() implies !occupies(
            #[trigger] r.enrollments[i],
            device.id,
            now,
        ) by {}
    } else {
        let i = choose|i: int|
            0 <= i < r.enrollments.len() && (#[trigger] r.enrollments[i]).device == device.id && (
            r.enrollments[i].approved_at is Some || r.enrollments[i].expires_at > now);
        assert(occupies(r.enrollments[i], device.id, now));
    }
}

/// An invitation can be used from the moment it is written, for a quarter of an hour; it names
/// the device, and holds neither key nor approval yet. Whoever was there before stays as it was.
pub proof fn law_invitation_opens_one_enrollment(
    r: Roster,
    name: Seq<char>,
    token: Seq<char>,
    id: Seq<char>,
    now: int,
    i: int,
)
    requires
        sound(r),
        invitation_error(r, name, token, id, now) is None,
    ensures
        ({
            let next = after_invitation(r, name, token, id, now);
            let e = next.enrollments[r.enrollments.len() as int];
            &&& next.enrollments.len() == r.enrollments.len() + 1
            &&& 0 <= i < r.enrollments.len() ==> next.enrollments[i] == r.enrollments[i]
            &&& 0 <= i < r.devices.len() ==> next.devices[i] == r.devices[i]
            &&& e.id == id
            &&& e.invitation_hash == hash_text(vstd::utf8::encode_utf8(token))
            &&& e.expires_at == now + 15 * 60
            &&& e.public is None && e.verified_at is None && e.approved_at is None
            &&& exists|d: int|
                0 <= d < next.devices.len() && (#[trigger] next.devices[d]).id == e.device
                    && next.devices[d].name == name && next.devices[d].revoked_at is None
            &&& next.nonces == r.nonces && next.sessions == r.sessions
        }),
{
    lemma_named(r, name);
    let next = after_invitation(r, name, token, id, now);
    match device_by_name(r.devices, name) {
        Some(device) => {
            let d = choose|d: int|
                0 <= d < r.devices.len() && #[trigger] r.devices[d] == device && device.name == name;
            assert(next.devices[d].revoked_at is None);
        },
        None => {
            assert(next.devices[r.devices.len() as int].name == name);
        },
    }
}

/// What an administrator is shown of an enrollment: a revoked device before all else, then an
/// approval, then that its time is over, then whether the key was proved.
pub proof fn law_status_tells_the_state(r: Roster, i: int, now: int)
    requires
        sound(r),
        0 <= i < r.enrollments.len(),
    ensures
        ({
            let e = r.enrollments[i];
            let shown = status_of(r.devices, e, now);
            &&& !serves(r, e.device) ==> shown == "revoked"@
            &&& serves(r, e.device) && e.approved_at is Some ==> shown == "approved"@
            &&& serves(r, e.device) && e.approved_at is None && e.expires_at <= now ==> shown
                == "expired"@
            &&& serves(r, e.device) && e.approved_at is None && e.expires_at > now
                && e.verified_at is Some ==> shown == "pending-approval"@
            &&& serves(r, e.device) && e.approved_at is None && e.expires_at > now
                && e.verified_at is None ==> shown == "invited"@
        }),
{
    let e = r.enrollments[i];
    lemma_serves(r, e.device);
    let d = choose|d: int|
        0 <= d < r.devices.len() && (#[trigger] r.devices[d]).id == r.enrollments[i].device;
    lemma_device_at(r, d);
}

/// An enrollment can be approved exactly where it is the one that was named, its key was proved
/// and is the one that was named, its time is not over and its device was not revoked.
pub proof fn law_verified_key_can_be_approved(
    r: Roster,
    i: int,
    id: Seq<char>,
    fingerprint: Seq<char>,
    now: int,
)
    requires
        sound(r),
        0 <= i < r.enrollments.len(),
    ensures
        approvable(r, r.enrollments[i], id, fingerprint, now) <==> r.enrollments[i].id == id
            && r.enrollments[i].fingerprint == Some(fingerprint)
            && r.enrollments[i].verified_at is Some && r.enrollments[i].expires_at > now && serves(
            r,
            r.enrollments[i].device,
        ),
{
    lemma_serves(r, r.enrollments[i].device);
}

/// An approval touches one enrollment: it notes the time and drops the challenge. A proof of the
/// key notes its time once and keeps the enrollment open for a day from then.
pub proof fn law_enrollment_steps_touch_one(
    enrollments: Seq<Enrolled>,
    id: Seq<char>,
    now: int,
    i: int,
)
    requires
        0 <= i < enrollments.len(),
    ensures
        approved(enrollments, id, now).len() == enrollments.len(),
        attested(enrollments, id, now).len() == enrollments.len(),
        enrollments[i].id != id ==> approved(enrollments, id, now)[i] == enrollments[i] && attested(
            enrollments,
            id,
            now,
        )[i] == enrollments[i] && cancelled(enrollments, id)[i] == enrollments[i],
        enrollments[i].id == id ==> approved(enrollments, id, now)[i] == (Enrolled {
            approved_at: Some(now),
            activation_hash: None,
            challenge: None,
            ..enrollments[i]
        }),
        enrollments[i].id == id ==> {
            let e = attested(enrollments, id, now)[i];
            &&& e.challenge is None
            &&& e.verified_at is Some
            &&& enrollments[i].verified_at is None ==> e.verified_at == Some(now) && e.expires_at
                == now + 24 * 60 * 60
            &&& enrollments[i].verified_at is Some ==> e.verified_at == enrollments[i].verified_at
                && e.expires_at == enrollments[i].expires_at
            &&& e.public == enrollments[i].public && e.fingerprint == enrollments[i].fingerprint
                && e.ek_fingerprint == enrollments[i].ek_fingerprint && e.activation_hash
                == enrollments[i].activation_hash && e.approved_at == enrollments[i].approved_at
        },
{
}

/// Only what is open and not approved can be cancelled, and then it is over at once; the count
/// tells how many it were.
pub proof fn law_open_invitation_can_be_cancelled(enrollments: Seq<Enrolled>, id: Seq<char>, i: int)
    requires
        0 <= i < enrollments.len(),
    ensures
        cancelled(enrollments, id).len() == enrollments.len(),
        enrollments[i].id == id && enrollments[i].approved_at is None && enrollments[i].expires_at
            > 0 ==> cancelled(enrollments, id)[i] == (Enrolled {
            expires_at: 0,
            activation_hash: None,
            challenge: None,
            ..enrollments[i]
        }) && cancel_count(enrollments, id) > 0,
        !(enrollments[i].id == id && enrollments[i].approved_at is None
            && enrollments[i].expires_at > 0) ==> cancelled(enrollments, id)[i] == enrollments[i],
        cancel_count(enrollments, id) == 0 ==> cancelled(enrollments, id) == enrollments,
    decreases enrollments.len(),
{
    lemma_cancel_count(enrollments, id);
    if cancel_count(enrollments, id) == 0 {
        assert forall|k: int| 0 <= k < enrollments.len() implies #[trigger] cancelled(
            enrollments,
            id,
        )[k] == enrollments[k] by {
            assert(!cancellable(enrollments[k], id));
        }
        assert(cancelled(enrollments, id) =~= enrollments);
    }
}

proof fn lemma_cancel_count(enrollments: Seq<Enrolled>, id: Seq<char>)
    ensures
        cancel_count(enrollments, id) == 0 <==> forall|i: int|
            0 <= i < enrollments.len() ==> !cancellable(#[trigger] enrollments[i], id),
    decreases enrollments.len(),
{
    if enrollments.len() > 0 {
        let front = enrollments.drop_last();
        lemma_cancel_count(front, id);
        if cancel_count(enrollments, id) == 0 {
            assert forall|i: int| 0 <= i < enrollments.len() implies !cancellable(
                #[trigger] enrollments[i],
                id,
            ) by {
                if i < front.len() {
                    assert(front[i] == enrollments[i]);
                }
            }
        } else if cancel_count(front, id) != 0 {
            let i = choose|i: int| 0 <= i < front.len() && cancellable(#[trigger] front[i], id);
            assert(cancellable(enrollments[i], id));
        } else {
            assert(cancellable(enrollments[enrollments.len() - 1], id));
        }
    }
}

/// An invitation can be used exactly while it is open, its key was not proved yet and its device
/// was not revoked; it is found by its secret, and its enrollment by its name.
pub proof fn law_open_invitation_can_be_used(r: Roster, i: int, token: Seq<char>, now: int)
    requires
        sound(r),
        0 <= i < r.enrollments.len(),
    ensures
        ({
            let e = r.enrollments[i];
            let open = e.expires_at > now && e.verified_at is None && serves(r, e.device);
            &&& open_of(r, e.id, now) == if open {
                Some(i)
            } else {
                None
            }
            &&& e.invitation_hash == hash_text(vstd::utf8::encode_utf8(token)) ==> start_of(
                r,
                token,
                now,
            ) == if open {
                Some(i)
            } else {
                None
            }
        }),
{
    let e = r.enrollments[i];
    lemma_serves(r, e.device);
    let by_name = |x: Enrolled| x.id == e.id && startable(r, x, now);
    let by_secret = |x: Enrolled|
        x.invitation_hash == hash_text(vstd::utf8::encode_utf8(token)) && startable(r, x, now);
    lemma_first_found(r.enrollments, by_name);
    lemma_first_found(r.enrollments, by_secret);
    match first(r.enrollments, by_name) {
        Some(k) => {
            if k < i {
                assert(r.enrollments[k].id != r.enrollments[i].id);
            } else if i < k {
                assert(r.enrollments[i].id != r.enrollments[k].id);
            }
        },
        None => {
            assert(!by_name(r.enrollments[i]));
        },
    }
    match first(r.enrollments, by_secret) {
        Some(k) => {
            if k < i {
                assert(r.enrollments[k].invitation_hash != r.enrollments[i].invitation_hash);
            } else if i < k {
                assert(r.enrollments[i].invitation_hash != r.enrollments[k].invitation_hash);
            }
        },
        None => {
            assert(!by_secret(r.enrollments[i]));
        },
    }
}

/// A secret that no invitation has opens nothing.
pub proof fn law_unknown_secret_opens_nothing(r: Roster, token: Seq<char>, now: int)
    requires
        forall|i: int|
            0 <= i < r.enrollments.len() ==> (#[trigger] r.enrollments[i]).invitation_hash
                != hash_text(vstd::utf8::encode_utf8(token)),
    ensures
        start_of(r, token, now) is None,
{
    lemma_first_none(
        r.enrollments,
        |x: Enrolled|
            x.invitation_hash == hash_text(vstd::utf8::encode_utf8(token)) && startable(r, x, now),
    );
}

/// A key may be bound to an invitation that can be used and has no key yet, and again where it is
/// the key that is bound. Another key is a conflict, and an invitation that cannot be used 401.
pub proof fn law_free_invitation_takes_a_key(r: Roster, i: int, public: Seq<char>, now: int)
    requires
        sound(r),
        0 <= i < r.enrollments.len(),
    ensures
        ({
            let e = r.enrollments[i];
            let open = e.expires_at > now && e.verified_at is None && serves(r, e.device);
            let refused = bind_refusal(r, e.id, public, now);
            &&& refused is None <==> open && (e.public is None || (e.public == Some(public)
                && e.challenge is Some))
            &&& !open ==> (refused matches Some(why) && why.status == 401)
            &&& open && e.public is Some && e.public != Some(public) ==> (refused matches Some(why)
                && why.status == 409)
        }),
{
    law_open_invitation_can_be_used(r, i, Seq::empty(), now);
}

/// A bound key is written to its enrollment alone, with the challenge that goes with it.
pub proof fn law_binding_touches_one(
    enrollments: Seq<Enrolled>,
    id: Seq<char>,
    public: Seq<char>,
    fingerprint: Seq<char>,
    ek_fingerprint: Seq<char>,
    activation_hash: Seq<char>,
    challenge: Challenge,
    i: int,
)
    requires
        0 <= i < enrollments.len(),
    ensures
        bound(
            enrollments,
            id,
            public,
            fingerprint,
            ek_fingerprint,
            activation_hash,
            challenge,
        )[i] == if enrollments[i].id == id {
            Enrolled {
                public: Some(public),
                fingerprint: Some(fingerprint),
                ek_fingerprint: Some(ek_fingerprint),
                activation_hash: Some(activation_hash),
                challenge: Some(challenge),
                ..enrollments[i]
            }
        } else {
            enrollments[i]
        },
{
}

/// A challenge is answered exactly by the 32 bytes that were sealed in it, while the enrollment
/// is open and not approved and its device was not revoked. Any other answer is 401.
pub proof fn law_right_answer_is_accepted(
    r: Roster,
    i: int,
    answer: Option<Seq<u8>>,
    now: int,
)
    requires
        sound(r),
        0 <= i < r.enrollments.len(),
        r.enrollments[i].fingerprint is Some,
        r.enrollments[i].activation_hash is Some,
    ensures
        ({
            let e = r.enrollments[i];
            let refused = finish_error(r, e.id, answer, now);
            &&& refused is None <==> answer is Some && answer->0.len() == 32 && hash_text(answer->0)
                == e.activation_hash->0 && e.expires_at > now && e.approved_at is None && serves(
                r,
                e.device,
            )
            &&& refused matches Some(why) ==> why.status == 401
        }),
{
    let e = r.enrollments[i];
    lemma_serves(r, e.device);
    let wanted = |x: Enrolled|
        x.id == e.id && x.expires_at > now && x.approved_at is None && in_service(
            r.devices,
            x.device,
        );
    lemma_first_found(r.enrollments, wanted);
    match first(r.enrollments, wanted) {
        Some(k) => {
            if k < i {
                assert(r.enrollments[k].id != r.enrollments[i].id);
            } else if i < k {
                assert(r.enrollments[i].id != r.enrollments[k].id);
            }
        },
        None => {
            assert(!wanted(r.enrollments[i]));
        },
    }
}

/// A device that is not enrolled cannot answer a challenge.
pub proof fn law_unknown_enrollment_answers_nothing(
    r: Roster,
    id: Seq<char>,
    answer: Option<Seq<u8>>,
    now: int,
)
    requires
        forall|i: int| 0 <= i < r.enrollments.len() ==> (#[trigger] r.enrollments[i]).id != id,
    ensures
        finish_error(r, id, answer, now) matches Some(why) && why.status == 401,
{
    lemma_first_none(
        r.enrollments,
        |e: Enrolled|
            e.id == id && e.expires_at > now && e.approved_at is None && in_service(
                r.devices,
                e.device,
            ),
    );
}

/// A revocation notes its time once, on the device of that name, and touches no other.
pub proof fn law_revocation_touches_one(devices: Seq<Device>, name: Seq<char>, now: int, d: int)
    requires
        0 <= d < devices.len(),
    ensures
        revoked(devices, name, now).len() == devices.len(),
        revoked(devices, name, now)[d] == if devices[d].name == name && devices[d].revoked_at is None {
            Device { revoked_at: Some(now), ..devices[d] }
        } else {
            devices[d]
        },
{
}

/// An enrollment belongs to the name of its device.
pub proof fn law_enrollment_belongs_to_its_device(r: Roster, i: int, d: int, name: Seq<char>)
    requires
        sound(r),
        0 <= i < r.enrollments.len(),
        0 <= d < r.devices.len(),
        r.devices[d].id == r.enrollments[i].device,
    ensures
        belongs(r, r.enrollments[i].id, name) <==> r.devices[d].name == name,
{
    if r.devices[d].name == name {
        assert(device_named(r.devices, r.enrollments[i].device, name));
    }
    if belongs(r, r.enrollments[i].id, name) {
        let k = choose|k: int|
            0 <= k < r.enrollments.len() && (#[trigger] r.enrollments[k]).id == r.enrollments[i].id
                && device_named(r.devices, r.enrollments[k].device, name);
        if k < i {
            assert(r.enrollments[k].id != r.enrollments[i].id);
        } else if i < k {
            assert(r.enrollments[i].id != r.enrollments[k].id);
        }
        let c = choose|c: int|
            0 <= c < r.devices.len() && (#[trigger] r.devices[c]).id == r.enrollments[k].device
                && r.devices[c].name == name;
        if c < d {
            assert(r.devices[c].id != r.devices[d].id);
        } else if d < c {
            assert(r.devices[d].id != r.devices[c].id);
        }
    }
}

/// A used nonce is remembered, and a session runs, until its time is over and no longer.
pub proof fn law_expiry_alone_ends_them(
    nonces: Seq<Used>,
    used: Used,
    sessions: Seq<Opened>,
    session: Opened,
    now: int,
)
    ensures
        remembered(nonces, now).contains(used) <==> nonces.contains(used) && used.expires_at > now,
        running(sessions, now).contains(session) <==> sessions.contains(session)
            && session.expires_at > now,
{
    lemma_filter_members(nonces, |u: Used| u.expires_at > now, used);
    lemma_filter_members(sessions, |s: Opened| s.expires_at > now, session);
}

/// An acceptable name has a character that is not white space and takes 255 bytes at most.
pub proof fn law_acceptable_name_is_not_blank(name: Seq<char>)
    ensures
        name_ok(name) <==> vstd::utf8::encode_utf8(name).len() <= 255 && exists|i: int|
            0 <= i < name.len() && !white_space(#[trigger] name[i]),
{
    lemma_trim_start(name);
    lemma_trim_end(trim_start_white(name));
}

proof fn lemma_trim_start(s: Seq<char>)
    ensures
        trim_start_white(s).len() == 0 <==> forall|i: int|
            0 <= i < s.len() ==> white_space(#[trigger] s[i]),
        trim_start_white(s).len() > 0 ==> !white_space(trim_start_white(s)[0]),
    decreases s.len(),
{
    if s.len() > 0 && white_space(s.first()) {
        let rest = s.drop_first();
        lemma_trim_start(rest);
        if forall|i: int| 0 <= i < rest.len() ==> white_space(#[trigger] rest[i]) {
            assert forall|i: int| 0 <= i < s.len() implies white_space(#[trigger] s[i]) by {
                if i > 0 {
                    assert(rest[i - 1] == s[i]);
                }
            }
        } else {
            let i = choose|i: int| 0 <= i < rest.len() && !white_space(#[trigger] rest[i]);
            assert(s[i + 1] == rest[i]);
        }
    }
}

proof fn lemma_trim_end(s: Seq<char>)
    ensures
        s.len() > 0 && !white_space(s[0]) ==> trim_end_white(s).len() > 0,
        s.len() == 0 ==> trim_end_white(s).len() == 0,
    decreases s.len(),
{
    if s.len() > 0 && white_space(s.last()) {
        lemma_trim_end(s.drop_last());
    }
}

} // verus!
