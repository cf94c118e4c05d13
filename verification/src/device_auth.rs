//! How devices are invited, enrolled, approved and revoked, and which signed requests
//! are let in.
use vstd::prelude::*;
use vstd::utf8::*;

use crate::auth_protocol::{
    fingerprint, hash, key_name, p256_der, random_secret, signing_error, AuthError,
    EnrollChallenge, EnrollStart, Enrollment, TpmPublic,
};
use crate::catalog;
use crate::digest::{
    hash_text, hex_bytes, hex_decode, hex_encode, hex_text, is_hex_of, lemma_hex_join, lemma_hex_of, random_uuid, sha256,
};
use crate::endorsement::{
    certificate_key, certificates_of, chain_verdict, ek_error, pem_certificates, pem_error,
    read_ek_chain, verify_ek_at, EkKey,
};
use crate::registry;
use crate::registry::{
    first, gives, Challenge, Device, DeviceError, Enrolled, Opened, Roster, Used,
    APPROVAL_SECONDS, INVITATION_SECONDS,
};
use crate::server::{answers, opt_int, ApiError};
use crate::text::{
    byte_len, copy_opt_text, opt_text, same_text, texts, trim_end_of, trim_white, trimmed,
    without_trailing,
};
use crate::url::{address_of, parse_url, protected, utf8_text};

pub use crate::pairing::{normalize_pairing_code, pairing_code};

verus! {

/// One device.
pub struct DeviceRow {
    pub id: i64,
    pub name: String,
    pub created_at: i64,
    pub revoked_at: Option<i64>,
}

/// One enrollment.
pub struct EnrollmentRow {
    pub id: String,
    pub device_id: i64,
    pub invitation_hash: String,
    pub expires_at: i64,
    pub public: Option<String>,
    pub fingerprint: Option<String>,
    pub ek_fingerprint: Option<String>,
    pub activation_hash: Option<String>,
    pub challenge: Option<EnrollChallenge>,
    pub verified_at: Option<i64>,
    pub approved_at: Option<i64>,
}

/// One session.
pub struct SessionRow {
    pub token_hash: String,
    pub enrollment_id: String,
    pub expires_at: i64,
}

/// One used nonce.
pub struct NonceRow {
    pub enrollment_id: String,
    pub nonce: String,
    pub expires_at: i64,
}

/// The rows and settings that decide who may do what.
pub struct AuthState {
    pub public_url: Option<String>,
    pub ek_roots: Option<String>,
    pub devices: Vec<DeviceRow>,
    pub enrollments: Vec<EnrollmentRow>,
    pub sessions: Vec<SessionRow>,
    pub nonces: Vec<NonceRow>,
}

impl View for EnrollChallenge {
    type V = Challenge;

    open spec fn view(&self) -> Challenge {
        Challenge { id: self.id@, credential: self.credential@, secret: self.secret@ }
    }
}

pub open spec fn opt_challenge(c: Option<EnrollChallenge>) -> Option<Challenge> {
    match c {
        Some(v) => Some(v@),
        None => None,
    }
}

impl View for DeviceRow {
    type V = Device;

    open spec fn view(&self) -> Device {
        Device {
            id: self.id as int,
            name: self.name@,
            created_at: self.created_at as int,
            revoked_at: opt_int(self.revoked_at),
        }
    }
}

impl View for EnrollmentRow {
    type V = Enrolled;

    open spec fn view(&self) -> Enrolled {
        Enrolled {
            id: self.id@,
            device: self.device_id as int,
            invitation_hash: self.invitation_hash@,
            expires_at: self.expires_at as int,
            public: opt_text(self.public),
            fingerprint: opt_text(self.fingerprint),
            ek_fingerprint: opt_text(self.ek_fingerprint),
            activation_hash: opt_text(self.activation_hash),
            challenge: opt_challenge(self.challenge),
            verified_at: opt_int(self.verified_at),
            approved_at: opt_int(self.approved_at),
        }
    }
}

impl View for SessionRow {
    type V = Opened;

    open spec fn view(&self) -> Opened {
        Opened {
            token_hash: self.token_hash@,
            enrollment: self.enrollment_id@,
            expires_at: self.expires_at as int,
        }
    }
}

impl View for NonceRow {
    type V = Used;

    open spec fn view(&self) -> Used {
        Used {
            enrollment: self.enrollment_id@,
            nonce: self.nonce@,
            expires_at: self.expires_at as int,
        }
    }
}

pub open spec fn device_rows(v: Seq<DeviceRow>) -> Seq<Device> {
    v.map_values(|d: DeviceRow| d@)
}

pub open spec fn enrollment_rows(v: Seq<EnrollmentRow>) -> Seq<Enrolled> {
    v.map_values(|e: EnrollmentRow| e@)
}

pub open spec fn session_rows(v: Seq<SessionRow>) -> Seq<Opened> {
    v.map_values(|s: SessionRow| s@)
}

pub open spec fn nonce_rows(v: Seq<NonceRow>) -> Seq<Used> {
    v.map_values(|n: NonceRow| n@)
}

impl View for AuthState {
    type V = Roster;

    open spec fn view(&self) -> Roster {
        Roster {
            public_url: opt_text(self.public_url),
            ek_roots: opt_text(self.ek_roots),
            devices: device_rows(self.devices@),
            enrollments: enrollment_rows(self.enrollments@),
            sessions: session_rows(self.sessions@),
            nonces: nonce_rows(self.nonces@),
        }
    }
}

/// The reason goes to the log; the client learns none.
pub fn auth_error() -> (e: ApiError)
    ensures
        e@ == registry::unauthenticated(),
{
    ApiError(401, "device authentication failed".to_owned())
}

pub fn copy_challenge(c: &EnrollChallenge) -> (copy: EnrollChallenge)
    ensures
        copy@ == c@,
{
    EnrollChallenge { id: c.id.clone(), credential: c.credential.clone(), secret: c.secret.clone() }
}

fn copy_opt_challenge(c: &Option<EnrollChallenge>) -> (copy: Option<EnrollChallenge>)
    ensures
        opt_challenge(copy) == opt_challenge(*c),
{
    match c {
        Some(v) => Some(copy_challenge(v)),
        None => None,
    }
}

fn copy_enrollment(e: &EnrollmentRow) -> (copy: EnrollmentRow)
    ensures
        copy@ == e@,
{
    EnrollmentRow {
        id: e.id.clone(),
        device_id: e.device_id,
        invitation_hash: e.invitation_hash.clone(),
        expires_at: e.expires_at,
        public: copy_opt_text(&e.public),
        fingerprint: copy_opt_text(&e.fingerprint),
        ek_fingerprint: copy_opt_text(&e.ek_fingerprint),
        activation_hash: copy_opt_text(&e.activation_hash),
        challenge: copy_opt_challenge(&e.challenge),
        verified_at: e.verified_at,
        approved_at: e.approved_at,
    }
}

impl AuthState {
    fn find_device(&self, id: i64) -> (found: Option<usize>)
        ensures
            match found {
                Some(i) => i < self.devices@.len() && registry::device_by_id(
                    self@.devices,
                    id as int,
                ) == Some(self.devices@[i as int]@),
                None => registry::device_by_id(self@.devices, id as int) is None,
            },
    {
        let ghost wanted = |d: Device| d.id == id as int;
        let mut i: usize = 0;
        while i < self.devices.len()
            invariant
                i <= self.devices.len(),
                wanted == (|d: Device| d.id == id as int),
                forall|j: int| 0 <= j < i ==> !wanted(#[trigger] self@.devices[j]),
            decreases self.devices.len() - i,
        {
            assert(self@.devices[i as int] == self.devices@[i as int]@);
            if self.devices[i].id == id {
                proof {
                    registry::lemma_first_is(self@.devices, wanted, i as int);
                }
                return Some(i);
            }
            i += 1;
        }
        proof {
            registry::lemma_first_none(self@.devices, wanted);
        }
        None
    }

    fn find_name(&self, name: &str) -> (found: Option<usize>)
        ensures
            match found {
                Some(i) => i < self.devices@.len() && registry::device_by_name(
                    self@.devices,
                    name@,
                ) == Some(self.devices@[i as int]@),
                None => registry::device_by_name(self@.devices, name@) is None,
            },
    {
        let ghost wanted = |d: Device| d.name == name@;
        let mut i: usize = 0;
        while i < self.devices.len()
            invariant
                i <= self.devices.len(),
                wanted == (|d: Device| d.name == name@),
                forall|j: int| 0 <= j < i ==> !wanted(#[trigger] self@.devices[j]),
            decreases self.devices.len() - i,
        {
            assert(self@.devices[i as int] == self.devices@[i as int]@);
            if same_text(self.devices[i].name.as_str(), name) {
                proof {
                    registry::lemma_first_is(self@.devices, wanted, i as int);
                }
                return Some(i);
            }
            i += 1;
        }
        proof {
            registry::lemma_first_none(self@.devices, wanted);
        }
        None
    }

    pub(crate) fn device_in_service(&self, id: i64) -> (yes: bool)
        ensures
            yes == registry::in_service(self@.devices, id as int),
    {
        match self.find_device(id) {
            Some(i) => self.devices[i].revoked_at.is_none(),
            None => false,
        }
    }

    fn last_device(&self) -> (id: i64)
        ensures
            id == registry::last_device(self@.devices),
    {
        let ghost rows = self@.devices;
        if self.devices.len() == 0 {
            return 0;
        }
        let mut id: i64 = self.devices[0].id;
        let mut i: usize = 1;
        assert(rows.take(1).len() == 1);
        while i < self.devices.len()
            invariant
                1 <= i <= self.devices.len(),
                rows == self@.devices,
                id == registry::last_device(rows.take(i as int)),
            decreases self.devices.len() - i,
        {
            assert(rows.take(i as int + 1).drop_last() =~= rows.take(i as int));
            assert(rows[i as int] == self.devices@[i as int]@);
            if self.devices[i].id > id {
                id = self.devices[i].id;
            }
            i += 1;
        }
        assert(rows.take(rows.len() as int) =~= rows);
        id
    }

    fn place_taken(&self, device: i64, now: i64) -> (yes: bool)
        ensures
            yes == exists|i: int|
                0 <= i < self@.enrollments.len() && registry::occupies(
                    #[trigger] self@.enrollments[i],
                    device as int,
                    now as int,
                ),
    {
        let mut i: usize = 0;
        while i < self.enrollments.len()
            invariant
                i <= self.enrollments.len(),
                forall|j: int|
                    0 <= j < i ==> !registry::occupies(
                        #[trigger] self@.enrollments[j],
                        device as int,
                        now as int,
                    ),
            decreases self.enrollments.len() - i,
        {
            let row = &self.enrollments[i];
            assert(self@.enrollments[i as int] == row@);
            if row.device_id == device && (row.approved_at.is_some() || row.expires_at > now) {
                assert(registry::occupies(
                    self@.enrollments[i as int],
                    device as int,
                    now as int,
                ));
                return true;
            }
            i += 1;
        }
        false
    }

    fn row_clashes(&self, id: &str, invitation_hash: &str) -> (yes: bool)
        ensures
            yes == exists|i: int|
                0 <= i < self@.enrollments.len() && ((#[trigger] self@.enrollments[i]).id == id@
                    || self@.enrollments[i].invitation_hash == invitation_hash@),
    {
        let mut i: usize = 0;
        while i < self.enrollments.len()
            invariant
                i <= self.enrollments.len(),
                forall|j: int|
                    0 <= j < i ==> !((#[trigger] self@.enrollments[j]).id == id@
                        || self@.enrollments[j].invitation_hash == invitation_hash@),
            decreases self.enrollments.len() - i,
        {
            let row = &self.enrollments[i];
            assert(self@.enrollments[i as int] == row@);
            if same_text(row.id.as_str(), id) || same_text(
                row.invitation_hash.as_str(),
                invitation_hash,
            ) {
                assert(self@.enrollments[i as int].id == id@
                    || self@.enrollments[i as int].invitation_hash == invitation_hash@);
                return true;
            }
            i += 1;
        }
        false
    }

    /// Makes an invitation for a device of this name, which exists at once. Only the
    /// digest of the token is kept.
    pub fn insert_invitation(&mut self, name: &str, token: &str, id: String, now: i64) -> (result:
        Result<String, DeviceError>)
        requires
            now <= i64::MAX - INVITATION_SECONDS,
        ensures
            gives(
                result,
                registry::invitation_error(old(self)@, name@, token@, id@, now as int),
            ),
            match result {
                Ok(given) => given@ == id@ && final(self)@ == registry::after_invitation(
                    old(self)@,
                    name@,
                    token@,
                    id@,
                    now as int,
                ),
                Err(_) => *final(self) == *old(self),
            },
    {
        if trimmed(name).as_str().is_empty() || byte_len(name) > 255 {
            return Err(DeviceError::InvalidName);
        }
        if self.ek_roots.is_none() {
            return Err(DeviceError::NotConfigured);
        }
        let known = self.find_name(name);
        let number: i64 = match known {
            Some(i) => {
                if self.devices[i].revoked_at.is_some() {
                    return Err(DeviceError::RevokedName);
                }
                self.devices[i].id
            },
            None => {
                let last = self.last_device();
                if last == i64::MAX {
                    return Err(DeviceError::Storage);
                }
                last + 1
            },
        };
        if self.place_taken(number, now) {
            return Err(DeviceError::AlreadyEnrolled);
        }
        let invitation_hash = hash(token.as_bytes());
        if self.row_clashes(id.as_str(), invitation_hash.as_str()) {
            return Err(DeviceError::Storage);
        }
        if known.is_none() {
            let ghost before = device_rows(self.devices@);
            let row = DeviceRow {
                id: number,
                name: name.to_owned(),
                created_at: now,
                revoked_at: None,
            };
            self.devices.push(row);
            assert(device_rows(self.devices@) =~= before.push(row@));
        }
        let ghost before = enrollment_rows(self.enrollments@);
        let row = EnrollmentRow {
            id: id.clone(),
            device_id: number,
            invitation_hash,
            expires_at: now + INVITATION_SECONDS,
            public: None,
            fingerprint: None,
            ek_fingerprint: None,
            activation_hash: None,
            challenge: None,
            verified_at: None,
            approved_at: None,
        };
        self.enrollments.push(row);
        assert(enrollment_rows(self.enrollments@) =~= before.push(row@));
        Ok(id)
    }
}

/// An enrollment as an administrator sees it.
pub struct DeviceEnrollment {
    pub id: String,
    pub name: String,
    pub fingerprint: Option<String>,
    pub status: String,
}

/// The request of a client that waits for its code to be typed in.
pub struct PairReadyRequest {
    pub code: String,
}

/// `shown` tells of the enrollment `e`.
pub open spec fn shows(shown: DeviceEnrollment, r: Roster, e: Enrolled, now: int) -> bool {
    &&& shown.id@ == e.id
    &&& registry::device_by_id(r.devices, e.device) is Some
    &&& shown.name@ == registry::device_by_id(r.devices, e.device)->0.name
    &&& opt_text(shown.fingerprint) == e.fingerprint
    &&& shown.status@ == registry::status_of(r.devices, e, now)
}

/// `order` holds the positions of all enrollments with a device, each once, by the
/// number of the device, and `shown` tells of them in that order.
pub open spec fn lists_as(
    shown: Seq<DeviceEnrollment>,
    r: Roster,
    now: int,
    order: Seq<int>,
) -> bool {
    &&& order.len() == shown.len()
    &&& order.no_duplicates()
    &&& forall|i: int| #![trigger order[i]]
        0 <= i < order.len() ==> 0 <= order[i] < r.enrollments.len() && shows(
            shown[i],
            r,
            r.enrollments[order[i]],
            now,
        )
    &&& forall|i: int, j: int| #![trigger order[i], order[j]]
        0 <= i < j < order.len() ==> r.enrollments[order[i]].device
            <= r.enrollments[order[j]].device
    &&& forall|k: int|
        0 <= k < r.enrollments.len() && registry::device_by_id(
            r.devices,
            (#[trigger] r.enrollments[k]).device,
        ) is Some ==> order.contains(k)
}

/// The position of the enrollment that a pairing code stands for.
pub open spec fn paired(r: Roster, code: Seq<char>) -> Option<int> {
    first(
        r.enrollments,
        |e: Enrolled|
            e.invitation_hash == hash_text(encode_utf8(code)) && registry::device_by_id(
                r.devices,
                e.device,
            ) is Some,
    )
}

/// Why a pairing code is not registered under a name. Registering it again under the
/// same name, while it waits, is no error.
pub open spec fn pair_error(
    r: Roster,
    name: Seq<char>,
    code: Seq<char>,
    id: Seq<char>,
    now: int,
) -> Option<DeviceError> {
    let folded = crate::pairing::folded(code);
    if !crate::pairing::code_ok(folded) {
        Some(DeviceError::InvalidPairingCode)
    } else {
        match paired(r, folded) {
            Some(i) => {
                let e = r.enrollments[i];
                if registry::device_by_id(r.devices, e.device)->0.name == name
                    && e.approved_at is None && e.expires_at > now {
                    None
                } else {
                    Some(DeviceError::PairingCodeUsed)
                }
            },
            None => registry::invitation_error(r, name, folded, id, now),
        }
    }
}

/// The roster after a pairing code was registered.
pub open spec fn after_pairing(
    r: Roster,
    name: Seq<char>,
    code: Seq<char>,
    id: Seq<char>,
    now: int,
) -> Roster {
    if paired(r, crate::pairing::folded(code)) is Some {
        r
    } else {
        registry::after_invitation(r, name, crate::pairing::folded(code), id, now)
    }
}

/// The enrollment that a registered pairing code opens.
pub open spec fn pair_id(r: Roster, code: Seq<char>, id: Seq<char>) -> Seq<char> {
    match paired(r, crate::pairing::folded(code)) {
        Some(i) => r.enrollments[i].id,
        None => id,
    }
}

/// What the client that waits learns: 202 before the code was typed in, 204 after, 410
/// once it is used up.
pub open spec fn ready_status(r: Roster, code: Seq<char>, now: int) -> int {
    match first(r.enrollments, |e: Enrolled| e.invitation_hash == hash_text(encode_utf8(code))) {
        None => 202,
        Some(i) => if r.enrollments[i].expires_at <= now || r.enrollments[i].approved_at is Some {
            410
        } else {
            204
        },
    }
}

/// The roster `after` comes from `before` by an invitation.
pub open spec fn invites(
    before: Roster,
    after: Roster,
    name: Seq<char>,
    token: Seq<char>,
    id: Seq<char>,
    now: int,
) -> bool {
    &&& registry::invitation_error(before, name, token, id, now) is None
    &&& after == registry::after_invitation(before, name, token, id, now)
}

/// The row of an invitation is refused with this error.
pub open spec fn declines(
    before: Roster,
    name: Seq<char>,
    token: Seq<char>,
    id: Seq<char>,
    now: int,
    error: DeviceError,
) -> bool {
    registry::invitation_error(before, name, token, id, now) == Some(error)
}

/// Thirty-two digits as a row identifier writes them.
pub open spec fn hyphenated(digits: Seq<char>) -> Seq<char> {
    digits.subrange(0, 8) + "-"@ + digits.subrange(8, 12) + "-"@ + digits.subrange(12, 16) + "-"@
        + digits.subrange(16, 20) + "-"@ + digits.subrange(20, 32)
}

/// A text that a fresh row identifier may be.
pub open spec fn row_id(id: Seq<char>, digits: Seq<char>) -> bool {
    &&& is_hex_of(digits, 16)
    &&& id == hyphenated(digits)
}

/// A fresh row identifier: random hexadecimal digits with hyphens between.
pub fn fresh_id() -> (id: String)
    ensures
        exists|digits: Seq<char>| row_id(id@, digits),
{
    let digits = random_uuid();
    proof {
        lemma_hex_of(digits@, 16);
    }
    let text = digits.as_str();
    let mut id = text.substring_char(0, 8).to_owned();
    id.append("-");
    id.append(text.substring_char(8, 12));
    id.append("-");
    id.append(text.substring_char(12, 16));
    id.append("-");
    id.append(text.substring_char(16, 20));
    id.append("-");
    id.append(text.substring_char(20, 32));
    assert(row_id(id@, digits@));
    id
}

impl AuthState {
    /// Makes an invitation and returns its token, which is kept nowhere else.
    pub fn invite(&mut self, name: &str, now: i64) -> (result: Result<String, DeviceError>)
        requires
            now <= i64::MAX - INVITATION_SECONDS,
        ensures
            result matches Ok(token) ==> is_hex_of(token@, 32),
            result matches Ok(token) ==> exists|id: Seq<char>|
                invites(old(self)@, final(self)@, name@, token@, id, now as int),
            result is Err ==> *final(self) == *old(self),
            result matches Err(e) ==> e == DeviceError::RandomSource || exists|
                token: Seq<char>,
                id: Seq<char>,
            | #[trigger] declines(old(self)@, name@, token, id, now as int, e),
    {
        let token = match random_secret() {
            Ok(token) => token,
            Err(_) => return Err(DeviceError::RandomSource),
        };
        let id = fresh_id();
        let ghost chosen = id@;
        let made = self.insert_invitation(name, token.as_str(), id, now);
        match made {
            Ok(_) => {
                assert(invites(old(self)@, self@, name@, token@, chosen, now as int));
                Ok(token)
            },
            Err(e) => {
                assert(declines(old(self)@, name@, token@, chosen, now as int, e));
                Err(e)
            },
        }
    }

    fn find_paired(&self, code: &str) -> (found: Option<usize>)
        ensures
            match found {
                Some(i) => i < self.enrollments@.len() && paired(self@, code@) == Some(i as int),
                None => paired(self@, code@) is None,
            },
    {
        let wanted_hash = hash(code.as_bytes());
        let ghost wanted = |e: Enrolled|
            e.invitation_hash == hash_text(encode_utf8(code@)) && registry::device_by_id(
                self@.devices,
                e.device,
            ) is Some;
        let mut i: usize = 0;
        while i < self.enrollments.len()
            invariant
                i <= self.enrollments.len(),
                wanted_hash@ == hash_text(encode_utf8(code@)),
                wanted == (|e: Enrolled|
                    e.invitation_hash == hash_text(encode_utf8(code@)) && registry::device_by_id(
                        self@.devices,
                        e.device,
                    ) is Some),
                forall|j: int| 0 <= j < i ==> !wanted(#[trigger] self@.enrollments[j]),
            decreases self.enrollments.len() - i,
        {
            assert(self@.enrollments[i as int] == self.enrollments@[i as int]@);
            if same_text(self.enrollments[i].invitation_hash.as_str(), wanted_hash.as_str())
                && self.find_device(self.enrollments[i].device_id).is_some() {
                proof {
                    registry::lemma_first_is(self@.enrollments, wanted, i as int);
                }
                return Some(i);
            }
            i += 1;
        }
        proof {
            registry::lemma_first_none(self@.enrollments, wanted);
        }
        None
    }

    /// Registers the code that a client shows, and returns the enrollment it opens.
    pub fn register_pair(&mut self, name: &str, code: &str, id: String, now: i64) -> (result: Result<
        String,
        DeviceError,
    >)
        requires
            now <= i64::MAX - INVITATION_SECONDS,
        ensures
            gives(result, pair_error(old(self)@, name@, code@, id@, now as int)),
            match result {
                Ok(given) => given@ == pair_id(old(self)@, code@, id@) && final(self)@
                    == after_pairing(old(self)@, name@, code@, id@, now as int),
                Err(_) => *final(self) == *old(self),
            },
    {
        let folded = normalize_pairing_code(code)?;
        match self.find_paired(folded.as_str()) {
            Some(i) => {
                assert(self@.enrollments[i as int] == self.enrollments@[i as int]@);
                proof {
                    registry::lemma_first_found(
                        self@.enrollments,
                        |e: Enrolled|
                            e.invitation_hash == hash_text(encode_utf8(folded@))
                                && registry::device_by_id(self@.devices, e.device) is Some,
                    );
                }
                let known = match self.find_device(self.enrollments[i].device_id) {
                    Some(d) => same_text(self.devices[d].name.as_str(), name),
                    None => false,
                };
                if known && self.enrollments[i].approved_at.is_none()
                    && self.enrollments[i].expires_at > now {
                    Ok(self.enrollments[i].id.clone())
                } else {
                    Err(DeviceError::PairingCodeUsed)
                }
            },
            None => self.insert_invitation(name, folded.as_str(), id, now),
        }
    }

    /// Tells a waiting client whether its code was typed in. `allowed` is false where
    /// such questions come too often.
    pub fn pair_ready(&self, request: &PairReadyRequest, allowed: bool, now: i64) -> (result: Result<
        u16,
        ApiError,
    >)
        ensures
            answers(
                result,
                if !allowed {
                    Some(catalog::refusal(429, "pairing checks are busy"@))
                } else if !crate::pairing::code_ok(crate::pairing::folded(request.code@)) {
                    Some(catalog::bad("invalid pairing code"@))
                } else {
                    None
                },
            ),
            result matches Ok(status) ==> status == ready_status(
                self@,
                crate::pairing::folded(request.code@),
                now as int,
            ),
    {
        if !allowed {
            return Err(ApiError(429, "pairing checks are busy".to_owned()));
        }
        let code = match normalize_pairing_code(request.code.as_str()) {
            Ok(code) => code,
            Err(_) => return Err(ApiError::bad("invalid pairing code")),
        };
        let wanted_hash = hash(code.as_str().as_bytes());
        let ghost wanted = |e: Enrolled| e.invitation_hash == hash_text(encode_utf8(code@));
        let mut i: usize = 0;
        while i < self.enrollments.len()
            invariant
                i <= self.enrollments.len(),
                allowed,
                crate::pairing::code_ok(crate::pairing::folded(request.code@)),
                code@ == crate::pairing::folded(request.code@),
                wanted_hash@ == hash_text(encode_utf8(code@)),
                wanted == (|e: Enrolled| e.invitation_hash == hash_text(encode_utf8(code@))),
                forall|j: int| 0 <= j < i ==> !wanted(#[trigger] self@.enrollments[j]),
            decreases self.enrollments.len() - i,
        {
            assert(self@.enrollments[i as int] == self.enrollments@[i as int]@);
            if same_text(self.enrollments[i].invitation_hash.as_str(), wanted_hash.as_str()) {
                proof {
                    registry::lemma_first_is(self@.enrollments, wanted, i as int);
                }
                if self.enrollments[i].expires_at <= now
                    || self.enrollments[i].approved_at.is_some() {
                    return Ok(410);
                }
                return Ok(204);
            }
            i += 1;
        }
        proof {
            registry::lemma_first_none(self@.enrollments, wanted);
        }
        Ok(202)
    }

    fn show(&self, index: usize, now: i64) -> (shown: Option<DeviceEnrollment>)
        requires
            index < self.enrollments@.len(),
        ensures
            match shown {
                Some(s) => shows(s, self@, self@.enrollments[index as int], now as int),
                None => registry::device_by_id(
                    self@.devices,
                    self@.enrollments[index as int].device,
                ) is None,
            },
    {
        let row = &self.enrollments[index];
        assert(self@.enrollments[index as int] == row@);
        let device: usize = match self.find_device(row.device_id) {
            Some(d) => d,
            None => return None,
        };
        let status = if self.devices[device].revoked_at.is_some() {
            "revoked"
        } else if row.approved_at.is_some() {
            "approved"
        } else if row.expires_at <= now {
            "expired"
        } else if row.verified_at.is_some() {
            "pending-approval"
        } else {
            "invited"
        };
        Some(
            DeviceEnrollment {
                id: row.id.clone(),
                name: self.devices[device].name.clone(),
                fingerprint: copy_opt_text(&row.fingerprint),
                status: status.to_owned(),
            },
        )
    }

    /// All enrollments, by the number of their device.
    pub fn list(&self, now: i64) -> (shown: Vec<DeviceEnrollment>)
        ensures
            exists|order: Seq<int>| lists_as(shown@, self@, now as int, order),
    {
        let ghost rows = self@.enrollments;
        let ghost mut order: Seq<int> = Seq::empty();
        let mut shown: Vec<DeviceEnrollment> = Vec::new();
        let mut numbers: Vec<i64> = Vec::new();
        let mut i: usize = 0;
        while i < self.enrollments.len()
            invariant
                i <= self.enrollments.len(),
                rows == self@.enrollments,
                order.len() == shown@.len() == numbers@.len(),
                order.no_duplicates(),
                forall|a: int| #![trigger order[a]]
                    0 <= a < order.len() ==> 0 <= order[a] < i && shows(
                        shown@[a],
                        self@,
                        rows[order[a]],
                        now as int,
                    ) && numbers@[a] == rows[order[a]].device,
                forall|a: int, b: int| #![trigger numbers@[a], numbers@[b]]
                    0 <= a < b < numbers@.len() ==> numbers@[a] <= numbers@[b],
                forall|k: int|
                    0 <= k < i && registry::device_by_id(
                        self@.devices,
                        (#[trigger] rows[k]).device,
                    ) is Some ==> order.contains(k),
            decreases self.enrollments.len() - i,
        {
            assert(rows[i as int] == self.enrollments@[i as int]@);
            match self.show(i, now) {
                None => {},
                Some(entry) => {
                    let number: i64 = self.enrollments[i].device_id;
                    let ghost old_order = order;
                    let ghost old_shown = shown@;
                    let ghost old_numbers = numbers@;
                    let k = insert_number(&mut numbers, number);
                    shown.insert(k, entry);
                    proof {
                        order = order.insert(k as int, i as int);
                        assert forall|a: int| #![trigger order[a]] 0 <= a < order.len() implies 0
                            <= order[a] < i + 1 && shows(
                            shown@[a],
                            self@,
                            rows[order[a]],
                            now as int,
                        ) && numbers@[a] == rows[order[a]].device by {
                            if a < k {
                                assert(order[a] == old_order[a]);
                            } else if a > k {
                                assert(order[a] == old_order[a - 1]);
                            }
                        }
                        assert forall|a: int, b: int|
                            0 <= a < b < order.len() implies order[a] != order[b] by {
                            let x = if a < k {
                                a
                            } else {
                                a - 1
                            };
                            let y = if b < k {
                                b
                            } else {
                                b - 1
                            };
                            if a == k {
                                assert(order[b] == old_order[y]);
                            } else if b == k {
                                assert(order[a] == old_order[x]);
                            } else {
                                assert(order[a] == old_order[x]);
                                assert(order[b] == old_order[y]);
                            }
                        }
                        assert(order[k as int] == i);
                        assert forall|m: int|
                            0 <= m < i + 1 && registry::device_by_id(
                                self@.devices,
                                (#[trigger] rows[m]).device,
                            ) is Some implies order.contains(m) by {
                            if m < i {
                                assert(old_order.contains(m));
                                let a = choose|a: int|
                                    0 <= a < old_order.len() && old_order[a] == m;
                                let y = if a < k {
                                    a
                                } else {
                                    a + 1
                                };
                                assert(order[y] == m);
                            }
                        }
                    }
                },
            }
            i += 1;
        }
        proof {
            assert forall|a: int, b: int| #![trigger order[a], order[b]] 0 <= a < b
                < order.len() implies rows[order[a]].device <= rows[order[b]].device by {
                assert(numbers@[a] <= numbers@[b]);
            }
            assert(lists_as(shown@, self@, now as int, order));
        }
        shown
    }

    /// One enrollment, for the administrator who waits for it.
    pub fn enrollment_by_id(&self, id: &str, now: i64) -> (result: Result<
        DeviceEnrollment,
        DeviceError,
    >)
        ensures
            match result {
                Ok(shown) => exists|i: int|
                    0 <= i < self@.enrollments.len() && (#[trigger] self@.enrollments[i]).id == id@
                        && shows(shown, self@, self@.enrollments[i], now as int),
                Err(e) => e == DeviceError::UnknownEnrollment && forall|i: int|
                    0 <= i < self@.enrollments.len() && (#[trigger] self@.enrollments[i]).id == id@
                        ==> registry::device_by_id(
                        self@.devices,
                        self@.enrollments[i].device,
                    ) is None,
            },
    {
        let mut i: usize = 0;
        while i < self.enrollments.len()
            invariant
                i <= self.enrollments.len(),
                forall|j: int|
                    0 <= j < i && (#[trigger] self@.enrollments[j]).id == id@
                        ==> registry::device_by_id(
                        self@.devices,
                        self@.enrollments[j].device,
                    ) is None,
            decreases self.enrollments.len() - i,
        {
            assert(self@.enrollments[i as int] == self.enrollments@[i as int]@);
            if same_text(self.enrollments[i].id.as_str(), id) {
                match self.show(i, now) {
                    Some(shown) => return Ok(shown),
                    None => {},
                }
            }
            i += 1;
        }
        Err(DeviceError::UnknownEnrollment)
    }
}

fn insert_number(numbers: &mut Vec<i64>, number: i64) -> (k: usize)
    requires
        forall|a: int, b: int| #![trigger old(numbers)@[a], old(numbers)@[b]]
            0 <= a < b < old(numbers)@.len() ==> old(numbers)@[a] <= old(numbers)@[b],
    ensures
        k <= old(numbers)@.len(),
        final(numbers)@ == old(numbers)@.insert(k as int, number),
        forall|a: int, b: int| #![trigger final(numbers)@[a], final(numbers)@[b]]
            0 <= a < b < final(numbers)@.len() ==> final(numbers)@[a] <= final(numbers)@[b],
{
    let ghost before = numbers@;
    let mut k: usize = 0;
    while k < numbers.len() && numbers[k] <= number
        invariant
            k <= numbers.len(),
            numbers@ == before,
            forall|a: int| 0 <= a < k ==> #[trigger] before[a] <= number,
        decreases numbers.len() - k,
    {
        k += 1;
    }
    numbers.insert(k, number);
    proof {
        let after = numbers@;
        assert forall|a: int, b: int| #![trigger after[a], after[b]] 0 <= a < b
            < after.len() implies after[a] <= after[b] by {
            let x = if a < k {
                a
            } else {
                a - 1
            };
            let y = if b < k {
                b
            } else {
                b - 1
            };
            if a == k {
                assert(after[b] == before[y]);
                assert(before[k as int] <= before[y]);
            } else if b == k {
                assert(after[a] == before[x]);
            } else {
                assert(after[a] == before[x]);
                assert(after[b] == before[y]);
            }
        }
    }
    k
}

/// Calls `openssl::memcmp::eq`, which compares two byte strings of one length in a time
/// that does not depend on where they differ.
#[verifier::external_body]
fn constant_time_eq(a: &[u8], b: &[u8]) -> (same: bool)
    requires
        a@.len() == b@.len(),
    ensures
        same == (a@ == b@),
{
    openssl::memcmp::eq(a, b)
}

fn same_secret(a: &str, b: &str) -> (same: bool)
    ensures
        same == (a@ == b@),
{
    let x = a.as_bytes();
    let y = b.as_bytes();
    if x.len() != y.len() {
        return false;
    }
    let same = constant_time_eq(x, y);
    proof {
        if same {
            encode_utf8_decode_utf8(a@);
            encode_utf8_decode_utf8(b@);
        }
    }
    same
}

impl AuthState {
    /// Gives a verified device access, once the administrator has compared its
    /// fingerprint.
    pub fn approve(&mut self, id: &str, fingerprint: &str, now: i64) -> (result: Result<
        (),
        DeviceError,
    >)
        ensures
            gives(
                result,
                if exists|i: int|
                    0 <= i < old(self)@.enrollments.len() && registry::approvable(
                        old(self)@,
                        #[trigger] old(self)@.enrollments[i],
                        id@,
                        fingerprint@,
                        now as int,
                    ) {
                    None
                } else {
                    Some(DeviceError::NotVerified)
                },
            ),
            match result {
                Ok(_) => final(self)@ == (Roster {
                    enrollments: registry::approved(old(self)@.enrollments, id@, now as int),
                    ..old(self)@
                }),
                Err(_) => *final(self) == *old(self),
            },
    {
        let mut found = false;
        let mut i: usize = 0;
        while i < self.enrollments.len()
            invariant
                i <= self.enrollments.len(),
                *self == *old(self),
                found == exists|j: int|
                    0 <= j < i && registry::approvable(
                        self@,
                        #[trigger] self@.enrollments[j],
                        id@,
                        fingerprint@,
                        now as int,
                    ),
            decreases self.enrollments.len() - i,
        {
            let row = &self.enrollments[i];
            assert(self@.enrollments[i as int] == row@);
            let fits = match &row.fingerprint {
                Some(f) => same_text(f.as_str(), fingerprint),
                None => false,
            };
            if fits && same_text(row.id.as_str(), id) && row.verified_at.is_some() && row.expires_at
                > now && self.device_in_service(row.device_id) {
                assert(registry::approvable(
                    self@,
                    self@.enrollments[i as int],
                    id@,
                    fingerprint@,
                    now as int,
                ));
                found = true;
            }
            i += 1;
        }
        if !found {
            return Err(DeviceError::NotVerified);
        }
        let mut i: usize = 0;
        while i < self.enrollments.len()
            invariant
                i <= self.enrollments.len() == old(self).enrollments.len(),
                forall|j: int|
                    0 <= j < i ==> (#[trigger] self.enrollments@[j])@ == registry::approved(
                        old(self)@.enrollments,
                        id@,
                        now as int,
                    )[j],
                forall|j: int|
                    i <= j < self.enrollments@.len() ==> #[trigger] self.enrollments@[j] == old(
                        self,
                    ).enrollments@[j],
                self.public_url == old(self).public_url,
                self.ek_roots == old(self).ek_roots,
                self.devices == old(self).devices,
                self.sessions == old(self).sessions,
                self.nonces == old(self).nonces,
            decreases self.enrollments.len() - i,
        {
            if same_text(self.enrollments[i].id.as_str(), id) {
                let mut row = copy_enrollment(&self.enrollments[i]);
                row.approved_at = Some(now);
                row.activation_hash = None;
                row.challenge = None;
                self.enrollments.set(i, row);
            }
            i += 1;
        }
        assert(self@.enrollments =~= registry::approved(old(self)@.enrollments, id@, now as int));
        Ok(())
    }

    /// Withdraws an invitation. Access that was given is revoked instead.
    pub fn cancel(&mut self, id: &str) -> (result: Result<(), DeviceError>)
        ensures
            gives(
                result,
                if registry::cancel_count(old(self)@.enrollments, id@) == 1 {
                    None
                } else {
                    Some(DeviceError::NotCancellable)
                },
            ),
            final(self)@ == (Roster {
                enrollments: registry::cancelled(old(self)@.enrollments, id@),
                ..old(self)@
            }),
    {
        let changed = self.cancel_rows(id);
        if changed != 1 {
            return Err(DeviceError::NotCancellable);
        }
        Ok(())
    }

    fn cancel_rows(&mut self, id: &str) -> (changed: usize)
        ensures
            changed == registry::cancel_count(old(self)@.enrollments, id@),
            final(self)@.enrollments == registry::cancelled(old(self)@.enrollments, id@),
            final(self).public_url == old(self).public_url,
            final(self).ek_roots == old(self).ek_roots,
            final(self).devices == old(self).devices,
            final(self).sessions == old(self).sessions,
            final(self).nonces == old(self).nonces,
    {
        let ghost rows = self@.enrollments;
        let mut changed: usize = 0;
        let mut i: usize = 0;
        while i < self.enrollments.len()
            invariant
                changed <= i <= self.enrollments.len() == old(self).enrollments.len(),
                rows == old(self)@.enrollments,
                changed == registry::cancel_count(rows.take(i as int), id@),
                forall|j: int|
                    0 <= j < i ==> (#[trigger] self.enrollments@[j])@ == registry::cancelled(
                        rows,
                        id@,
                    )[j],
                forall|j: int|
                    i <= j < self.enrollments@.len() ==> #[trigger] self.enrollments@[j] == old(
                        self,
                    ).enrollments@[j],
                self.public_url == old(self).public_url,
                self.ek_roots == old(self).ek_roots,
                self.devices == old(self).devices,
                self.sessions == old(self).sessions,
                self.nonces == old(self).nonces,
            decreases self.enrollments.len() - i,
        {
            assert(rows.take(i as int + 1).drop_last() =~= rows.take(i as int));
            assert(rows[i as int] == self.enrollments@[i as int]@);
            if same_text(self.enrollments[i].id.as_str(), id)
                && self.enrollments[i].approved_at.is_none() && self.enrollments[i].expires_at > 0 {
                let mut row = copy_enrollment(&self.enrollments[i]);
                row.expires_at = 0;
                row.activation_hash = None;
                row.challenge = None;
                self.enrollments.set(i, row);
                changed += 1;
            }
            i += 1;
        }
        assert(rows.take(rows.len() as int) =~= rows);
        assert(self@.enrollments =~= registry::cancelled(rows, id@));
        changed
    }

    /// The first look at a request to enroll: the trusted roots, and the enrollment that
    /// the invitation opens.
    pub fn enroll_lookup(&self, invitation: &str, now: i64) -> (result: Result<
        (String, String),
        ApiError,
    >)
        ensures
            answers(
                result,
                if self@.ek_roots is None || registry::start_of(
                    self@,
                    invitation@,
                    now as int,
                ) is None {
                    Some(registry::unauthenticated())
                } else {
                    None
                },
            ),
            result matches Ok((roots, id)) ==> Some(roots@) == self@.ek_roots && id@
                == self@.enrollments[registry::start_of(self@, invitation@, now as int)->0].id,
    {
        let roots = match copy_opt_text(&self.ek_roots) {
            Some(roots) => roots,
            None => return Err(auth_error()),
        };
        let wanted_hash = hash(invitation.as_bytes());
        let ghost wanted = |e: Enrolled|
            e.invitation_hash == hash_text(encode_utf8(invitation@)) && registry::startable(
                self@,
                e,
                now as int,
            );
        let mut i: usize = 0;
        while i < self.enrollments.len()
            invariant
                i <= self.enrollments.len(),
                Some(roots@) == self@.ek_roots,
                wanted_hash@ == hash_text(encode_utf8(invitation@)),
                wanted == (|e: Enrolled|
                    e.invitation_hash == hash_text(encode_utf8(invitation@)) && registry::startable(
                        self@,
                        e,
                        now as int,
                    )),
                forall|j: int| 0 <= j < i ==> !wanted(#[trigger] self@.enrollments[j]),
            decreases self.enrollments.len() - i,
        {
            let row = &self.enrollments[i];
            assert(self@.enrollments[i as int] == row@);
            if same_text(row.invitation_hash.as_str(), wanted_hash.as_str()) && row.expires_at > now
                && row.verified_at.is_none() && self.device_in_service(row.device_id) {
                proof {
                    registry::lemma_first_is(self@.enrollments, wanted, i as int);
                }
                return Ok((roots, row.id.clone()));
            }
            i += 1;
        }
        proof {
            registry::lemma_first_none(self@.enrollments, wanted);
        }
        Err(auth_error())
    }

    fn find_open(&self, id: &str, now: i64) -> (found: Option<usize>)
        ensures
            match found {
                Some(i) => i < self.enrollments@.len() && registry::open_of(self@, id@, now as int)
                    == Some(i as int),
                None => registry::open_of(self@, id@, now as int) is None,
            },
    {
        let ghost wanted = |e: Enrolled| e.id == id@ && registry::startable(self@, e, now as int);
        let mut i: usize = 0;
        while i < self.enrollments.len()
            invariant
                i <= self.enrollments.len(),
                wanted == (|e: Enrolled|
                    e.id == id@ && registry::startable(self@, e, now as int)),
                forall|j: int| 0 <= j < i ==> !wanted(#[trigger] self@.enrollments[j]),
            decreases self.enrollments.len() - i,
        {
            let row = &self.enrollments[i];
            assert(self@.enrollments[i as int] == row@);
            if same_text(row.id.as_str(), id) && row.expires_at > now && row.verified_at.is_none()
                && self.device_in_service(row.device_id) {
                proof {
                    registry::lemma_first_is(self@.enrollments, wanted, i as int);
                }
                return Some(i);
            }
            i += 1;
        }
        proof {
            registry::lemma_first_none(self@.enrollments, wanted);
        }
        None
    }

    /// Binds an enrollment to the first key that asks with its invitation, and returns
    /// the challenge. The same key gets the same challenge again; another key is refused.
    pub fn enroll_bind(
        &mut self,
        id: &str,
        public: String,
        fingerprint: String,
        ek_fingerprint: String,
        activation_hash: String,
        challenge: EnrollChallenge,
        now: i64,
    ) -> (result: Result<EnrollChallenge, ApiError>)
        ensures
            answers(result, registry::bind_refusal(old(self)@, id@, public@, now as int)),
            match result {
                Ok(given) => {
                    let e = old(self)@.enrollments[registry::open_of(
                        old(self)@,
                        id@,
                        now as int,
                    )->0];
                    match e.public {
                        Some(_) => Some(given@) == e.challenge && *final(self) == *old(self),
                        None => given@ == challenge@ && final(self)@ == (Roster {
                            enrollments: registry::bound(
                                old(self)@.enrollments,
                                id@,
                                public@,
                                fingerprint@,
                                ek_fingerprint@,
                                activation_hash@,
                                challenge@,
                            ),
                            ..old(self)@
                        }),
                    }
                },
                Err(_) => *final(self) == *old(self),
            },
    {
        let index: usize = match self.find_open(id, now) {
            Some(i) => i,
            None => return Err(auth_error()),
        };
        assert(self@.enrollments[index as int] == self.enrollments@[index as int]@);
        match &self.enrollments[index].public {
            Some(bound) => {
                if !same_text(bound.as_str(), public.as_str()) {
                    return Err(ApiError::conflict("invitation already bound to another key"));
                }
                return match &self.enrollments[index].challenge {
                    Some(c) => Ok(copy_challenge(c)),
                    None => Err(ApiError::internal()),
                };
            },
            None => {},
        }
        self.bind_rows(id, &public, &fingerprint, &ek_fingerprint, &activation_hash, &challenge);
        Ok(challenge)
    }

    fn bind_rows(
        &mut self,
        id: &str,
        public: &String,
        fingerprint: &String,
        ek_fingerprint: &String,
        activation_hash: &String,
        challenge: &EnrollChallenge,
    )
        ensures
            final(self)@ == (Roster {
                enrollments: registry::bound(
                    old(self)@.enrollments,
                    id@,
                    public@,
                    fingerprint@,
                    ek_fingerprint@,
                    activation_hash@,
                    challenge@,
                ),
                ..old(self)@
            }),
    {
        let ghost goal = registry::bound(
            self@.enrollments,
            id@,
            public@,
            fingerprint@,
            ek_fingerprint@,
            activation_hash@,
            challenge@,
        );
        let mut i: usize = 0;
        while i < self.enrollments.len()
            invariant
                i <= self.enrollments.len() == old(self).enrollments.len(),
                goal == registry::bound(
                    old(self)@.enrollments,
                    id@,
                    public@,
                    fingerprint@,
                    ek_fingerprint@,
                    activation_hash@,
                    challenge@,
                ),
                forall|j: int| 0 <= j < i ==> (#[trigger] self.enrollments@[j])@ == goal[j],
                forall|j: int|
                    i <= j < self.enrollments@.len() ==> #[trigger] self.enrollments@[j] == old(
                        self,
                    ).enrollments@[j],
                self.public_url == old(self).public_url,
                self.ek_roots == old(self).ek_roots,
                self.devices == old(self).devices,
                self.sessions == old(self).sessions,
                self.nonces == old(self).nonces,
            decreases self.enrollments.len() - i,
        {
            if same_text(self.enrollments[i].id.as_str(), id) {
                let mut row = copy_enrollment(&self.enrollments[i]);
                row.public = Some(public.clone());
                row.fingerprint = Some(fingerprint.clone());
                row.ek_fingerprint = Some(ek_fingerprint.clone());
                row.activation_hash = Some(activation_hash.clone());
                row.challenge = Some(copy_challenge(challenge));
                self.enrollments.set(i, row);
            }
            i += 1;
        }
        assert(self@.enrollments =~= goal);
    }

    fn find_answerable(&self, id: &str, now: i64) -> (found: Option<usize>)
        ensures
            match found {
                Some(i) => i < self.enrollments@.len() && registry::answerable(
                    self@,
                    id@,
                    now as int,
                ) == Some(i as int),
                None => registry::answerable(self@, id@, now as int) is None,
            },
    {
        let ghost wanted = |e: Enrolled|
            e.id == id@ && e.expires_at > now as int && e.approved_at is None
                && registry::in_service(self@.devices, e.device);
        let mut i: usize = 0;
        while i < self.enrollments.len()
            invariant
                i <= self.enrollments.len(),
                wanted == (|e: Enrolled|
                    e.id == id@ && e.expires_at > now as int && e.approved_at is None
                        && registry::in_service(self@.devices, e.device)),
                forall|j: int| 0 <= j < i ==> !wanted(#[trigger] self@.enrollments[j]),
            decreases self.enrollments.len() - i,
        {
            let row = &self.enrollments[i];
            assert(self@.enrollments[i as int] == row@);
            if same_text(row.id.as_str(), id) && row.expires_at > now && row.approved_at.is_none()
                && self.device_in_service(row.device_id) {
                proof {
                    registry::lemma_first_is(self@.enrollments, wanted, i as int);
                }
                return Some(i);
            }
            i += 1;
        }
        proof {
            registry::lemma_first_none(self@.enrollments, wanted);
        }
        None
    }

    /// Takes the answer to a challenge. The device then waits for its approval.
    pub fn enroll_finish(&mut self, id: String, activation: &str, now: i64) -> (result: Result<
        Enrollment,
        ApiError,
    >)
        requires
            now <= i64::MAX - APPROVAL_SECONDS,
        ensures
            answers(
                result,
                registry::finish_error(old(self)@, id@, hex_bytes(activation@), now as int),
            ),
            match result {
                Ok(done) => {
                    &&& done.id@ == id@
                    &&& Some(done.fingerprint@) == old(self)@.enrollments[registry::answerable(
                        old(self)@,
                        id@,
                        now as int,
                    )->0].fingerprint
                    &&& done.status@ == "pending-approval"@
                    &&& final(self)@ == (Roster {
                        enrollments: registry::attested(old(self)@.enrollments, id@, now as int),
                        ..old(self)@
                    })
                },
                Err(_) => *final(self) == *old(self),
            },
    {
        let answer = match hex_decode(activation) {
            Some(answer) => answer,
            None => return Err(auth_error()),
        };
        if answer.len() != 32 {
            return Err(auth_error());
        }
        let index: usize = match self.find_answerable(id.as_str(), now) {
            Some(i) => i,
            None => return Err(auth_error()),
        };
        assert(self@.enrollments[index as int] == self.enrollments@[index as int]@);
        let expected = copy_opt_text(&self.enrollments[index].activation_hash);
        let fingerprint = copy_opt_text(&self.enrollments[index].fingerprint);
        match (expected, fingerprint) {
            (Some(expected), Some(fingerprint)) => {
                let given = hash(answer.as_slice());
                if !same_secret(given.as_str(), expected.as_str()) {
                    return Err(auth_error());
                }
                self.attest_rows(id.as_str(), now);
                Ok(Enrollment { id, fingerprint, status: "pending-approval".to_owned() })
            },
            _ => Err(ApiError::internal()),
        }
    }

    fn attest_rows(&mut self, id: &str, now: i64)
        requires
            now <= i64::MAX - APPROVAL_SECONDS,
        ensures
            final(self)@ == (Roster {
                enrollments: registry::attested(old(self)@.enrollments, id@, now as int),
                ..old(self)@
            }),
    {
        let ghost goal = registry::attested(self@.enrollments, id@, now as int);
        let mut i: usize = 0;
        while i < self.enrollments.len()
            invariant
                i <= self.enrollments.len() == old(self).enrollments.len(),
                now <= i64::MAX - APPROVAL_SECONDS,
                goal == registry::attested(old(self)@.enrollments, id@, now as int),
                forall|j: int| 0 <= j < i ==> (#[trigger] self.enrollments@[j])@ == goal[j],
                forall|j: int|
                    i <= j < self.enrollments@.len() ==> #[trigger] self.enrollments@[j] == old(
                        self,
                    ).enrollments@[j],
                self.public_url == old(self).public_url,
                self.ek_roots == old(self).ek_roots,
                self.devices == old(self).devices,
                self.sessions == old(self).sessions,
                self.nonces == old(self).nonces,
            decreases self.enrollments.len() - i,
        {
            if same_text(self.enrollments[i].id.as_str(), id) {
                let mut row = copy_enrollment(&self.enrollments[i]);
                if row.verified_at.is_none() {
                    row.verified_at = Some(now);
                    row.expires_at = now + APPROVAL_SECONDS;
                }
                row.challenge = None;
                self.enrollments.set(i, row);
            }
            i += 1;
        }
        assert(self@.enrollments =~= goal);
    }
}

/// Why an address or a set of roots is not taken on.
pub open spec fn configure_error(url: Seq<char>, pem: Seq<u8>) -> Option<DeviceError> {
    match address_of(url) {
        None => Some(DeviceError::InvalidUrl),
        Some(a) => if !protected(a) {
            Some(DeviceError::HttpsRequired)
        } else if a.username.len() > 0 || a.has_password || a.has_query || a.has_fragment || a.path
            != "/"@ {
            Some(DeviceError::NotAnOrigin)
        } else if pem_error(pem) is Some {
            Some(DeviceError::InvalidRoots)
        } else if pem_certificates(pem)->0.len() == 0 {
            Some(DeviceError::NoRoots)
        } else if !valid_utf8(pem) {
            Some(DeviceError::InvalidRoots)
        } else {
            None
        },
    }
}

/// What is ready once a request to enroll has passed every check: all that the challenge
/// is made from, and all that is recorded.
pub struct Prepared {
    pub id: String,
    pub ek: EkKey,
    /// The TPM name of the key in hexadecimal.
    pub name: String,
    pub fingerprint: String,
    pub ek_fingerprint: String,
    pub activation: String,
    /// The bytes of the activation secret.
    pub secret: Vec<u8>,
    pub activation_hash: String,
}

/// Puts together what a challenge needs, given what the endorsement certificates amount to
/// and a fresh activation secret. Whatever is wrong with them or with the key, the device
/// only learns that it was not authenticated.
pub fn prepare(
    id: String,
    request: &EnrollStart,
    decoded: &Option<TpmPublic>,
    ek: Result<EkKey, DeviceError>,
    secret: Result<String, AuthError>,
) -> (result: Result<Prepared, ApiError>)
    ensures
        answers(
            result,
            if ek is Err || signing_error(request.public@, *decoded) is Some || secret is Err
                || hex_bytes(secret->Ok_0@) is None {
                Some(registry::unauthenticated())
            } else {
                None
            },
        ),
        result matches Ok(ready) ==> {
            &&& ready.id == id
            &&& ek == Ok::<EkKey, DeviceError>(ready.ek)
            &&& secret == Ok::<String, AuthError>(ready.activation)
            &&& ready.fingerprint@ == hash_text(p256_der(decoded->0.x@, decoded->0.y@)->0)
            &&& ready.name@ == hex_text(seq![0u8, 0x0bu8] + sha256(decoded->0.canonical@))
            &&& Some(ready.secret@) == hex_bytes(ready.activation@)
            &&& ready.ek_fingerprint@ == hash_text(ready.ek@.der)
            &&& ready.activation_hash@ == hash_text(hex_bytes(ready.activation@)->0)
        },
{
    let ek = match ek {
        Ok(ek) => ek,
        Err(_) => return Err(auth_error()),
    };
    let print = match fingerprint(request.public.as_str(), decoded) {
        Ok(print) => print,
        Err(_) => return Err(auth_error()),
    };
    let name = match key_name(request.public.as_str(), decoded) {
        Ok(name) => name,
        Err(_) => return Err(auth_error()),
    };
    let activation = match secret {
        Ok(activation) => activation,
        Err(_) => return Err(auth_error()),
    };
    let secret = match hex_decode(activation.as_str()) {
        Some(bytes) => bytes,
        None => return Err(auth_error()),
    };
    let activation_hash = hash(secret.as_slice());
    let ek_fingerprint = hash(ek.der.as_slice());
    Ok(
        Prepared {
            id,
            ek,
            name: hex_encode(name.as_slice()),
            fingerprint: print,
            ek_fingerprint,
            activation,
            secret,
            activation_hash,
        },
    )
}

/// A token for a device that is known by a key of its own instead of a TPM.
pub struct NewDevice {
    pub row_id: i64,
    pub token: String,
    pub token_hash: String,
}

/// Why no such device is added. `allowed` is the setting that permits them.
pub open spec fn add_error(r: Roster, name: Seq<char>, allowed: Option<Seq<char>>) -> Option<
    DeviceError,
> {
    if trim_white(name).len() == 0 {
        Some(DeviceError::EmptyName)
    } else if allowed is None {
        Some(DeviceError::Storage)
    } else if allowed != Some("1"@) {
        Some(DeviceError::LegacyDisabled)
    } else if registry::device_by_name(r.devices, name) is Some || registry::last_device(r.devices)
        >= i64::MAX {
        Some(DeviceError::Storage)
    } else {
        None
    }
}

impl AuthState {
    /// Takes on the public address of the server and the roots of trust.
    pub fn configure(&mut self, public_url: &str, pem: Vec<u8>) -> (result: Result<(), DeviceError>)
        ensures
            gives(result, configure_error(public_url@, pem@)),
            match result {
                Ok(_) => final(self)@ == (Roster {
                    public_url: Some(trim_end_of(address_of(public_url@)->0.text, '/')),
                    ek_roots: final(self)@.ek_roots,
                    ..old(self)@
                }) && final(self)@.ek_roots is Some && encode_utf8(final(self)@.ek_roots->0) == pem@,
                Err(_) => *final(self) == *old(self),
            },
    {
        let parts = match parse_url(public_url) {
            Some(parts) => parts,
            None => return Err(DeviceError::InvalidUrl),
        };
        if !parts.is_protected() {
            return Err(DeviceError::HttpsRequired);
        }
        if !parts.username.as_str().is_empty() || parts.has_password || parts.has_query
            || parts.has_fragment || !same_text(parts.path.as_str(), "/") {
            return Err(DeviceError::NotAnOrigin);
        }
        match read_ek_chain(pem.as_slice()) {
            Err(_) => return Err(DeviceError::InvalidRoots),
            Ok(roots) => {
                if roots.len() == 0 {
                    return Err(DeviceError::NoRoots);
                }
            },
        }
        match utf8_text(pem) {
            None => Err(DeviceError::InvalidRoots),
            Some(roots) => {
                proof {
                    encode_utf8_valid_utf8(roots@);
                }
                self.public_url = Some(without_trailing(parts.text.as_str(), '/'));
                self.ek_roots = Some(roots);
                Ok(())
            },
        }
    }

    /// The public address of the server.
    pub fn public_url(&self) -> (result: Result<String, DeviceError>)
        ensures
            gives(
                result,
                if self@.public_url is None {
                    Some(DeviceError::NoPublicUrl)
                } else {
                    None
                },
            ),
            result matches Ok(url) ==> Some(url@) == self@.public_url,
    {
        match copy_opt_text(&self.public_url) {
            Some(url) => Ok(url),
            None => Err(DeviceError::NoPublicUrl),
        }
    }

    /// Checks a request to enroll in full: the invitation, the endorsement certificates,
    /// the device key, and a fresh activation secret. It fails where one of them is not in
    /// order, or where the system has no random source.
    pub fn enroll_start(&self, request: &EnrollStart, decoded: &Option<TpmPublic>, now: i64) -> (result:
        Result<Prepared, ApiError>)
        ensures
            match result {
                Ok(ready) => {
                    &&& self@.ek_roots is Some
                    &&& registry::start_of(self@, request.invitation@, now as int) matches Some(i)
                        && ready.id@ == self@.enrollments[i].id
                    &&& ek_error(
                        texts(request.ek_chain@),
                        chain_verdict(self@.ek_roots->0, texts(request.ek_chain@), now as int),
                    ) is None
                    &&& certificate_key(certificates_of(texts(request.ek_chain@))[0]) == Some(
                        ready.ek@,
                    )
                    &&& signing_error(request.public@, *decoded) is None
                    &&& ready.fingerprint@ == hash_text(p256_der(decoded->0.x@, decoded->0.y@)->0)
                    &&& ready.name@ == hex_text(seq![0u8, 0x0bu8] + sha256(decoded->0.canonical@))
                    &&& Some(ready.secret@) == hex_bytes(ready.activation@)
                    &&& ready.ek_fingerprint@ == hash_text(ready.ek@.der)
                    &&& is_hex_of(ready.activation@, 32)
                    &&& ready.activation_hash@ == hash_text(hex_bytes(ready.activation@)->0)
                },
                Err(e) => e@ == registry::unauthenticated(),
            },
    {
        let (roots, id) = self.enroll_lookup(request.invitation.as_str(), now)?;
        let ek = verify_ek_at(roots.as_str(), &request.ek_chain, now);
        prepare(id, request, decoded, ek, random_secret())
    }

    /// Adds a device that is known by a token, where the setting permits it. It has no
    /// enrollment, and so no access to files.
    pub fn add_device(&mut self, name: &str, allowed: &Option<String>, now: i64) -> (result: Result<
        NewDevice,
        DeviceError,
    >)
        ensures
            gives(result, add_error(old(self)@, name@, opt_text(*allowed))),
            match result {
                Ok(new) => {
                    &&& new.row_id == registry::last_device(old(self)@.devices) + 1
                    &&& is_hex_of(new.token@, 32)
                    &&& new.token_hash@ == hash_text(encode_utf8(new.token@))
                    &&& final(self)@ == (Roster {
                        devices: old(self)@.devices.push(
                            Device {
                                id: new.row_id as int,
                                name: name@,
                                created_at: now as int,
                                revoked_at: None,
                            },
                        ),
                        ..old(self)@
                    })
                },
                Err(_) => *final(self) == *old(self),
            },
    {
        if trimmed(name).as_str().is_empty() {
            return Err(DeviceError::EmptyName);
        }
        match allowed {
            None => return Err(DeviceError::Storage),
            Some(value) => {
                if !same_text(value.as_str(), "1") {
                    return Err(DeviceError::LegacyDisabled);
                }
            },
        }
        let last = self.last_device();
        if self.find_name(name).is_some() || last == i64::MAX {
            return Err(DeviceError::Storage);
        }
        let mut token = random_uuid();
        let second = random_uuid();
        let ghost front = token@;
        token.append(second.as_str());
        proof {
            lemma_hex_join(front, second@, 16, 16);
        }
        let token_hash = hash(token.as_str().as_bytes());
        let ghost before = device_rows(self.devices@);
        let row = DeviceRow {
            id: last + 1,
            name: name.to_owned(),
            created_at: now,
            revoked_at: None,
        };
        self.devices.push(row);
        assert(device_rows(self.devices@) =~= before.push(row@));
        Ok(NewDevice { row_id: last + 1, token, token_hash })
    }
}

/// A database whose devices carry keys of their own is not opened any more.
pub fn check_database(device_columns: &Vec<String>) -> (result: Result<(), DeviceError>)
    ensures
        gives(
            result,
            if texts(device_columns@).contains("token_hash"@) {
                Some(DeviceError::ObsoleteDatabase)
            } else {
                None
            },
        ),
{
    let mut i: usize = 0;
    while i < device_columns.len()
        invariant
            i <= device_columns.len(),
            forall|j: int| 0 <= j < i ==> (#[trigger] texts(device_columns@)[j]) != "token_hash"@,
        decreases device_columns.len() - i,
    {
        assert(texts(device_columns@)[i as int] == device_columns@[i as int]@);
        if same_text(device_columns[i].as_str(), "token_hash") {
            return Err(DeviceError::ObsoleteDatabase);
        }
        i += 1;
    }
    Ok(())
}

/// Registering a code again under the same name while it waits, however it is typed, gives
/// the same enrollment and adds nothing. Under any other name it is refused.
pub proof fn law_registering_again_adds_nothing(
    r: Roster,
    name: Seq<char>,
    code: Seq<char>,
    id: Seq<char>,
    now: int,
    again: Seq<char>,
    other_id: Seq<char>,
    later: int,
    other: Seq<char>,
)
    requires
        registry::sound(r),
        pair_error(r, name, code, id, now) is None,
        crate::pairing::folded(again) == crate::pairing::folded(code),
        now <= later,
        ({
            let next = after_pairing(r, name, code, id, now);
            let i = paired(next, crate::pairing::folded(code))->0;
            later < next.enrollments[i].expires_at
        }),
    ensures
        ({
            let next = after_pairing(r, name, code, id, now);
            &&& registry::sound(next)
            &&& pair_error(next, name, again, other_id, later) is None
            &&& pair_id(next, again, other_id) == pair_id(r, code, id)
            &&& after_pairing(next, name, again, other_id, later) == next
            &&& other != name ==> pair_error(next, other, again, other_id, later) == Some(
                DeviceError::PairingCodeUsed,
            )
        }),
{
    let folded = crate::pairing::folded(code);
    let next = after_pairing(r, name, code, id, now);
    if paired(r, folded) is None {
        registry::law_invitation_keeps_sound(r, name, folded, id, now);
        let wanted = |e: Enrolled|
            e.invitation_hash == hash_text(encode_utf8(folded)) && registry::device_by_id(
                next.devices,
                e.device,
            ) is Some;
        let n = r.enrollments.len() as int;
        let number = registry::device_number(r.devices, name);
        let named = |d: Device| d.name == name;
        registry::lemma_first_found(r.devices, named);
        let d = if registry::device_by_name(r.devices, name) is Some {
            first(r.devices, named)->0
        } else {
            r.devices.len() as int
        };
        assert(next.devices[d].id == number && next.devices[d].name == name);
        registry::lemma_device_at(next, d);
        assert forall|j: int| 0 <= j < n implies !wanted(#[trigger] next.enrollments[j]) by {
            assert(next.enrollments[j] == r.enrollments[j]);
        }
        assert(wanted(next.enrollments[n]));
        registry::lemma_first_is(next.enrollments, wanted, n);
    } else {
        let wanted = |e: Enrolled|
            e.invitation_hash == hash_text(encode_utf8(folded)) && registry::device_by_id(
                r.devices,
                e.device,
            ) is Some;
        registry::lemma_first_found(r.enrollments, wanted);
    }
}

/// A code whose enrollment was approved, or whose time is over, is refused under every name.
pub proof fn law_spent_code_is_refused(
    r: Roster,
    name: Seq<char>,
    code: Seq<char>,
    id: Seq<char>,
    now: int,
)
    requires
        crate::pairing::code_ok(crate::pairing::folded(code)),
        paired(r, crate::pairing::folded(code)) is Some,
        ({
            let e = r.enrollments[paired(r, crate::pairing::folded(code))->0];
            e.approved_at is Some || e.expires_at <= now
        }),
    ensures
        pair_error(r, name, code, id, now) == Some(DeviceError::PairingCodeUsed),
{
}

/// A code that some enrollment has may be registered again exactly under the name of its device,
/// while that enrollment is open and not approved; it keeps its enrollment.
pub proof fn law_open_code_is_registered_again(
    r: Roster,
    i: int,
    d: int,
    name: Seq<char>,
    code: Seq<char>,
    id: Seq<char>,
    now: int,
)
    requires
        registry::sound(r),
        0 <= i < r.enrollments.len(),
        0 <= d < r.devices.len(),
        r.devices[d].id == r.enrollments[i].device,
        crate::pairing::code_ok(crate::pairing::folded(code)),
        r.enrollments[i].invitation_hash == hash_text(encode_utf8(crate::pairing::folded(code))),
    ensures
        pair_error(r, name, code, id, now) is None <==> r.devices[d].name == name
            && r.enrollments[i].approved_at is None && r.enrollments[i].expires_at > now,
        pair_error(r, name, code, id, now) matches Some(e) ==> e == DeviceError::PairingCodeUsed,
        pair_id(r, code, id) == r.enrollments[i].id,
        after_pairing(r, name, code, id, now) == r,
{
    let secret = hash_text(encode_utf8(crate::pairing::folded(code)));
    let wanted = |e: Enrolled|
        e.invitation_hash == secret && registry::device_by_id(r.devices, e.device) is Some;
    registry::lemma_device_at(r, d);
    registry::lemma_first_found(r.enrollments, wanted);
    assert(wanted(r.enrollments[i]));
    let k = first(r.enrollments, wanted)->0;
    if k < i {
        assert(r.enrollments[k].invitation_hash != r.enrollments[i].invitation_hash);
    } else if i < k {
        assert(r.enrollments[i].invitation_hash != r.enrollments[k].invitation_hash);
    }
}

/// A code that no enrollment has is registered as an invitation with that code; text that is no
/// code is refused.
pub proof fn law_new_code_is_an_invitation(
    r: Roster,
    name: Seq<char>,
    code: Seq<char>,
    id: Seq<char>,
    now: int,
)
    requires
        forall|i: int|
            0 <= i < r.enrollments.len() ==> (#[trigger] r.enrollments[i]).invitation_hash
                != hash_text(encode_utf8(crate::pairing::folded(code))),
    ensures
        crate::pairing::code_ok(crate::pairing::folded(code)) ==> pair_error(
            r,
            name,
            code,
            id,
            now,
        ) == registry::invitation_error(r, name, crate::pairing::folded(code), id, now),
        !crate::pairing::code_ok(crate::pairing::folded(code)) ==> pair_error(
            r,
            name,
            code,
            id,
            now,
        ) == Some(DeviceError::InvalidPairingCode),
        pair_id(r, code, id) == id,
        after_pairing(r, name, code, id, now) == registry::after_invitation(
            r,
            name,
            crate::pairing::folded(code),
            id,
            now,
        ),
{
    registry::lemma_first_none(
        r.enrollments,
        |e: Enrolled|
            e.invitation_hash == hash_text(encode_utf8(crate::pairing::folded(code)))
                && registry::device_by_id(r.devices, e.device) is Some,
    );
}

/// Whoever waits for a code to be registered hears 202 until it is, 204 while its enrollment is
/// open, and 410 once it is approved or its time is over.
pub proof fn law_waiting_for_a_code(r: Roster, i: int, code: Seq<char>, now: int)
    requires
        registry::sound(r),
    ensures
        (forall|k: int|
            0 <= k < r.enrollments.len() ==> (#[trigger] r.enrollments[k]).invitation_hash
                != hash_text(encode_utf8(code))) <==> ready_status(r, code, now) == 202,
        0 <= i < r.enrollments.len() && r.enrollments[i].invitation_hash == hash_text(
            encode_utf8(code),
        ) ==> ready_status(r, code, now) == (if r.enrollments[i].expires_at > now
            && r.enrollments[i].approved_at is None {
            204int
        } else {
            410
        }),
{
    let wanted = |e: Enrolled| e.invitation_hash == hash_text(encode_utf8(code));
    registry::lemma_first_found(r.enrollments, wanted);
    match first(r.enrollments, wanted) {
        Some(k) => {
            assert(r.enrollments[k].invitation_hash == hash_text(encode_utf8(code)));
            if 0 <= i < r.enrollments.len() && r.enrollments[i].invitation_hash == hash_text(
                encode_utf8(code),
            ) {
                if k < i {
                    assert(r.enrollments[k].invitation_hash != r.enrollments[i].invitation_hash);
                } else if i < k {
                    assert(r.enrollments[i].invitation_hash != r.enrollments[k].invitation_hash);
                }
            }
        },
        None => {
            assert forall|k: int| 0 <= k < r.enrollments.len() implies (
            #[trigger] r.enrollments[k]).invitation_hash != hash_text(encode_utf8(code)) by {
                assert(!wanted(r.enrollments[k]));
            }
        },
    }
}

/// The list of enrollments holds every one of them, under the name of its device and with its
/// state, and nothing else.
pub proof fn law_every_enrollment_is_listed(
    shown: Seq<DeviceEnrollment>,
    r: Roster,
    now: int,
    order: Seq<int>,
    k: int,
    d: int,
)
    requires
        registry::sound(r),
        lists_as(shown, r, now, order),
        0 <= k < r.enrollments.len(),
        0 <= d < r.devices.len(),
        r.devices[d].id == r.enrollments[k].device,
    ensures
        exists|i: int|
            0 <= i < shown.len() && order[i] == k && (#[trigger] shown[i]).id@ == r.enrollments[k].id
                && shown[i].name@ == r.devices[d].name && opt_text(shown[i].fingerprint)
                == r.enrollments[k].fingerprint && shown[i].status@ == registry::status_of(
                r.devices,
                r.enrollments[k],
                now,
            ),
{
    registry::lemma_device_at(r, d);
    assert(order.contains(k));
    let i = choose|i: int| 0 <= i < order.len() && order[i] == k;
    assert(shows(shown[i], r, r.enrollments[order[i]], now));
}

/// The name of a row is 32 digits in five groups, with hyphens between them.
pub proof fn law_row_name_has_its_form(id: Seq<char>, digits: Seq<char>, i: int)
    requires
        row_id(id, digits),
    ensures
        id.len() == 36,
        id[8] == '-' && id[13] == '-' && id[18] == '-' && id[23] == '-',
        0 <= i < 8 ==> id[i] == digits[i],
        8 < i < 13 ==> id[i] == digits[i - 1],
        13 < i < 18 ==> id[i] == digits[i - 2],
        18 < i < 23 ==> id[i] == digits[i - 3],
        23 < i < 36 ==> id[i] == digits[i - 4],
{
    reveal_strlit("-");
    let bytes = choose|bytes: Seq<u8>| bytes.len() == 16 && digits == #[trigger] hex_text(bytes);
    assert(digits.len() == 32);
}

/// A server is configured exactly with an origin that nobody can listen in on, without
/// credentials, query, fragment or path, and with at least one trusted root.
pub proof fn law_protected_origin_is_configured(url: Seq<char>, pem: Seq<u8>)
    ensures
        configure_error(url, pem) is None <==> ({
            &&& address_of(url) is Some
            &&& address_of(url)->0.scheme == "https"@ || (address_of(url)->0.scheme == "http"@ && (
            address_of(url)->0.host == Some("127.0.0.1"@) || address_of(url)->0.host == Some(
                "localhost"@,
            ) || address_of(url)->0.host == Some("[::1]"@)))
            &&& address_of(url)->0.username.len() == 0
            &&& !address_of(url)->0.has_password
            &&& !address_of(url)->0.has_query
            &&& !address_of(url)->0.has_fragment
            &&& address_of(url)->0.path == "/"@
            &&& pem_error(pem) is None
            &&& pem_certificates(pem)->0.len() > 0
            &&& valid_utf8(pem)
        }),
{
}

/// A device may be added without an invitation exactly where that was allowed, its name is not
/// blank and not in use, and a number is left.
pub proof fn law_allowed_device_is_added(r: Roster, name: Seq<char>, allowed: Option<Seq<char>>)
    requires
        registry::sound(r),
    ensures
        add_error(r, name, allowed) is None <==> trim_white(name).len() > 0 && allowed == Some(
            "1"@,
        ) && registry::last_device(r.devices) < i64::MAX && forall|d: int|
            0 <= d < r.devices.len() ==> (#[trigger] r.devices[d]).name != name,
        trim_white(name).len() > 0 && allowed is Some && allowed != Some("1"@) ==> add_error(
            r,
            name,
            allowed,
        ) == Some(DeviceError::LegacyDisabled),
{
    let wanted = |x: Device| x.name == name;
    registry::lemma_first_found(r.devices, wanted);
    match first(r.devices, wanted) {
        Some(d) => {
            assert(r.devices[d].name == name);
        },
        None => {
            assert forall|d: int| 0 <= d < r.devices.len() implies (#[trigger] r.devices[d]).name
                != name by {
                assert(!wanted(r.devices[d]));
            }
        },
    }
}

} // verus!
