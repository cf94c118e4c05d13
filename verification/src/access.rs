//! Which signed requests are let in, and how access ends.
use vstd::prelude::*;
use vstd::utf8::*;

use crate::auth_protocol::{
    fresh, headers_error, law_nonce_outlives_proof, Claimed, Proof, Session, TpmPublic,
    NONCE_SECONDS, SESSION_SECONDS,
};
use crate::catalog;
use crate::catalog::{lemma_filter_step, Refusal};
use crate::device_auth::{
    auth_error, nonce_rows, session_rows, AuthState, DeviceRow, NonceRow, SessionRow,
};
use crate::digest::{hash, hash_text};
use crate::registry;
use crate::registry::{Device, Enrolled, Opened, Roster, Used};
use crate::server::{answers, ApiError};
use crate::text::{copy_opt_text, joined, same_text, without_prefix};

verus! {

/// A device that asks, as far as its row tells.
pub struct Caller {
    pub public: String,
    pub origin: String,
    pub device_id: i64,
}

/// Why a device is turned away before its proof is looked at.
pub open spec fn caller_refusal(r: Roster, enrollment: Seq<char>) -> Option<Refusal> {
    match registry::access_of(r, enrollment) {
        None => Some(registry::without_access()),
        Some(i) => if r.enrollments[i].public is None || r.public_url is None {
            Some(registry::unauthenticated())
        } else {
            None
        },
    }
}

/// The session token in an authorization header. A request for a new session carries
/// none; every other request carries one.
pub open spec fn bound_token(authorization: Seq<char>, is_session: bool) -> Option<Seq<char>> {
    if is_session {
        if authorization.len() == 0 {
            Some(Seq::empty())
        } else {
            None
        }
    } else if "MySync "@.is_prefix_of(authorization) {
        Some(authorization.skip("MySync "@.len() as int))
    } else {
        None
    }
}

/// A request as it arrived.
pub struct SignedRequest {
    pub authorization: String,
    pub is_session: bool,
    pub method: String,
    pub path_and_query: String,
}

/// Why a signed request is not taken for one of its device: its headers are not authentic or
/// not fresh, or its device or session is not in order.
pub open spec fn identity_refusal(
    r: Roster,
    c: Claimed,
    signature: Seq<char>,
    public: Seq<char>,
    origin: Seq<char>,
    decoded: Option<TpmPublic>,
    request: SignedRequest,
    now: int,
) -> Option<Refusal> {
    let token = bound_token(request.authorization@, request.is_session);
    if token is None {
        Some(registry::unauthenticated())
    } else if headers_error(
        c,
        signature,
        public,
        decoded,
        request.method@,
        origin + request.path_and_query@,
        token->0,
        now,
    ) is Some {
        Some(registry::unauthenticated())
    } else {
        registry::active_refusal(r, c.device, token->0, request.is_session, now)
    }
}

/// Why a request of a device is not let in all the same: too many are under way, or its
/// nonce was used before.
pub open spec fn reservation_refusal(r: Roster, c: Claimed, permit: bool, now: int) -> Option<
    Refusal,
> {
    if !permit {
        Some(catalog::refusal(429, "too many signed requests in flight"@))
    } else if registry::nonce_used(registry::remembered(r.nonces, now), c.device, c.nonce) {
        Some(registry::unauthenticated())
    } else {
        None
    }
}

/// Why a signed request is not let in. `permit` is false where too many are under way.
pub open spec fn admission_refusal(
    r: Roster,
    c: Claimed,
    signature: Seq<char>,
    public: Seq<char>,
    origin: Seq<char>,
    decoded: Option<TpmPublic>,
    request: SignedRequest,
    permit: bool,
    now: int,
) -> Option<Refusal> {
    match identity_refusal(r, c, signature, public, origin, decoded, request, now) {
        Some(refusal) => Some(refusal),
        None => reservation_refusal(r, c, permit, now),
    }
}

/// The nonces once a request was let in.
pub open spec fn nonces_after(nonces: Seq<Used>, c: Claimed, now: int) -> Seq<Used> {
    registry::remembered(nonces, now).push(
        Used { enrollment: c.device, nonce: c.nonce, expires_at: now + NONCE_SECONDS },
    )
}

/// Why a request that was let in is turned down once its body has arrived.
pub open spec fn completion_refusal(
    r: Roster,
    c: Claimed,
    body: Seq<u8>,
    token: Seq<char>,
    is_session: bool,
    now: int,
) -> Option<Refusal> {
    if c.body_sha256 != hash_text(body) {
        Some(registry::unauthenticated())
    } else {
        registry::active_refusal(r, c.device, token, is_session, now)
    }
}

impl AuthState {
    fn find_access(&self, enrollment: &str) -> (found: Option<usize>)
        ensures
            match found {
                Some(i) => i < self.enrollments@.len() && registry::access_of(self@, enrollment@)
                    == Some(i as int),
                None => registry::access_of(self@, enrollment@) is None,
            },
    {
        let ghost wanted = |e: Enrolled| e.id == enrollment@ && registry::has_access(self@, e);
        let mut i: usize = 0;
        while i < self.enrollments.len()
            invariant
                i <= self.enrollments.len(),
                wanted == (|e: Enrolled| e.id == enrollment@ && registry::has_access(self@, e)),
                forall|j: int| 0 <= j < i ==> !wanted(#[trigger] self@.enrollments[j]),
            decreases self.enrollments.len() - i,
        {
            let row = &self.enrollments[i];
            assert(self@.enrollments[i as int] == row@);
            if same_text(row.id.as_str(), enrollment) && row.approved_at.is_some()
                && self.device_in_service(row.device_id) {
                proof {
                    registry::lemma_first_is(self@.enrollments, wanted, i as int);
                }
                return Some(i);
            }
            i += 1;
        }
        proof {
            registry::lemma_first_none(self@.enrollments, wanted);
        }
        None
    }

    /// The key and the number of the device behind an enrollment, and the address under
    /// which clients know this server.
    pub fn caller(&self, enrollment: &str) -> (result: Result<Caller, ApiError>)
        ensures
            answers(result, caller_refusal(self@, enrollment@)),
            result matches Ok(caller) ==> {
                let e = self@.enrollments[registry::access_of(self@, enrollment@)->0];
                &&& Some(caller.public@) == e.public
                &&& Some(caller.origin@) == self@.public_url
                &&& caller.device_id == e.device
            },
    {
        let index: usize = match self.find_access(enrollment) {
            Some(i) => i,
            None => return Err(ApiError(403, "device not approved or revoked".to_owned())),
        };
        assert(self@.enrollments[index as int] == self.enrollments@[index as int]@);
        let public = copy_opt_text(&self.enrollments[index].public);
        let origin = copy_opt_text(&self.public_url);
        match (public, origin) {
            (Some(public), Some(origin)) => Ok(
                Caller { public, origin, device_id: self.enrollments[index].device_id },
            ),
            _ => Err(auth_error()),
        }
    }

    /// Checks that the device still has access, and that the session is its own and has
    /// not expired.
    pub fn check_active_session(
        &self,
        enrollment: &str,
        token: &str,
        is_session: bool,
        now: i64,
    ) -> (result: Result<(), ApiError>)
        ensures
            answers(
                result,
                registry::active_refusal(self@, enrollment@, token@, is_session, now as int),
            ),
    {
        if self.find_access(enrollment).is_none() {
            return Err(auth_error());
        }
        if is_session {
            return Ok(());
        }
        let token_hash = hash(token.as_bytes());
        let mut i: usize = 0;
        while i < self.sessions.len()
            invariant
                i <= self.sessions.len(),
                !is_session,
                registry::access_of(self@, enrollment@) is Some,
                token_hash@ == hash_text(encode_utf8(token@)),
                forall|j: int|
                    0 <= j < i ==> !((#[trigger] self@.sessions[j]).token_hash == hash_text(
                        encode_utf8(token@),
                    ) && self@.sessions[j].enrollment == enrollment@ && self@.sessions[j].expires_at
                        > now),
            decreases self.sessions.len() - i,
        {
            let row = &self.sessions[i];
            assert(self@.sessions[i as int] == row@);
            if row.expires_at > now && same_text(row.token_hash.as_str(), token_hash.as_str())
                && same_text(row.enrollment_id.as_str(), enrollment) {
                return Ok(());
            }
            i += 1;
        }
        Err(auth_error())
    }

    fn forget_nonces(&mut self, now: i64)
        ensures
            final(self)@ == (Roster {
                nonces: registry::remembered(old(self)@.nonces, now as int),
                ..old(self)@
            }),
    {
        let ghost start = self@.nonces;
        let ghost keep = |u: Used| u.expires_at > now as int;
        let ghost mut seen: int = 0;
        let mut i: usize = 0;
        assert(start.take(0).filter(keep) =~= Seq::<Used>::empty()) by {
            reveal(Seq::filter);
        }
        while i < self.nonces.len()
            invariant
                i <= self.nonces.len(),
                0 <= seen <= start.len(),
                start.len() - seen == self.nonces.len() - i,
                start == old(self)@.nonces,
                keep == (|u: Used| u.expires_at > now as int),
                nonce_rows(self.nonces@).take(i as int) == start.take(seen).filter(keep),
                nonce_rows(self.nonces@).skip(i as int) == start.skip(seen),
                self.public_url == old(self).public_url,
                self.ek_roots == old(self).ek_roots,
                self.devices == old(self).devices,
                self.enrollments == old(self).enrollments,
                self.sessions == old(self).sessions,
            decreases self.nonces.len() - i,
        {
            let ghost rows = nonce_rows(self.nonces@);
            proof {
                assert(rows.skip(i as int)[0] == start.skip(seen)[0]);
                assert(rows[i as int] == start[seen]);
                assert(rows.skip(i as int).skip(1) =~= start.skip(seen).skip(1));
                assert(start.skip(seen).skip(1) =~= start.skip(seen + 1));
                lemma_filter_step(start, seen, keep);
                seen = seen + 1;
            }
            if self.nonces[i].expires_at <= now {
                self.nonces.remove(i);
                assert(nonce_rows(self.nonces@) =~= rows.remove(i as int));
                assert(nonce_rows(self.nonces@).take(i as int) =~= rows.take(i as int));
                assert(nonce_rows(self.nonces@).skip(i as int) =~= rows.skip(i as int).skip(1));
            } else {
                assert(rows.take(i as int + 1) =~= rows.take(i as int).push(rows[i as int]));
                assert(rows.skip(i as int + 1) =~= rows.skip(i as int).skip(1));
                i += 1;
            }
        }
        assert(nonce_rows(self.nonces@).take(i as int) =~= nonce_rows(self.nonces@));
        assert(start.take(seen) =~= start);
    }

    fn replayed(&self, enrollment: &str, nonce: &str, now: i64) -> (yes: bool)
        ensures
            yes == registry::nonce_used(
                registry::remembered(self@.nonces, now as int),
                enrollment@,
                nonce@,
            ),
    {
        let ghost rows = self@.nonces;
        let ghost keep = |u: Used| u.expires_at > now as int;
        let mut found = false;
        let mut i: usize = 0;
        assert(rows.take(0).filter(keep) =~= Seq::<Used>::empty()) by {
            reveal(Seq::filter);
        }
        while i < self.nonces.len()
            invariant
                i <= self.nonces.len(),
                rows == self@.nonces,
                keep == (|u: Used| u.expires_at > now as int),
                found == registry::nonce_used(
                    rows.take(i as int).filter(keep),
                    enrollment@,
                    nonce@,
                ),
            decreases self.nonces.len() - i,
        {
            let row = &self.nonces[i];
            let ghost before = rows.take(i as int).filter(keep);
            let ghost after = rows.take(i as int + 1).filter(keep);
            assert(rows[i as int] == row@);
            proof {
                lemma_filter_step(rows, i as int, keep);
                if found {
                    let j = choose|j: int|
                        0 <= j < before.len() && (#[trigger] before[j]).enrollment == enrollment@
                            && before[j].nonce == nonce@;
                    assert(after[j] == before[j]);
                }
                if registry::nonce_used(after, enrollment@, nonce@) && !found {
                    let j = choose|j: int|
                        0 <= j < after.len() && (#[trigger] after[j]).enrollment == enrollment@
                            && after[j].nonce == nonce@;
                    if j < before.len() {
                        assert(after[j] == before[j]);
                    }
                }
            }
            if row.expires_at > now && same_text(row.enrollment_id.as_str(), enrollment)
                && same_text(row.nonce.as_str(), nonce) {
                assert(after[after.len() - 1] == row@);
                found = true;
            }
            i += 1;
        }
        assert(rows.take(rows.len() as int) =~= rows);
        found
    }

    /// Checks that a signed request comes from its device: its headers are authentic and
    /// fresh, its device and session are in order. Returns the session token.
    pub fn authenticate(
        &self,
        signed: &Proof,
        caller: &Caller,
        decoded: &Option<TpmPublic>,
        request: &SignedRequest,
        now: i64,
    ) -> (result: Result<String, ApiError>)
        ensures
            answers(
                result,
                identity_refusal(
                    self@,
                    signed.claims@,
                    signed.signature@,
                    caller.public@,
                    caller.origin@,
                    *decoded,
                    *request,
                    now as int,
                ),
            ),
            result matches Ok(token) ==> Some(token@) == bound_token(
                request.authorization@,
                request.is_session,
            ),
    {
        let token = if request.is_session {
            if !request.authorization.as_str().is_empty() {
                return Err(auth_error());
            }
            String::new()
        } else {
            match without_prefix(request.authorization.as_str(), "MySync ") {
                Some(token) => {
                    assert(token@ =~= request.authorization@.skip("MySync "@.len() as int));
                    token
                },
                None => return Err(auth_error()),
            }
        };
        assert(Some(token@) == bound_token(request.authorization@, request.is_session));
        let url = joined(caller.origin.as_str(), request.path_and_query.as_str());
        let checked = signed.verify_headers_at(
            caller.public.as_str(),
            decoded,
            request.method.as_str(),
            url.as_str(),
            token.as_str(),
            now,
        );
        if checked.is_err() {
            return Err(auth_error());
        }
        let device = signed.claims.device.as_str();
        self.check_active_session(device, token.as_str(), request.is_session, now)?;
        Ok(token)
    }

    /// Uses up the nonce of a request of a device, where there is room for the request and
    /// the nonce is new.
    pub fn reserve(&mut self, signed: &Proof, permit: bool, now: i64) -> (result: Result<
        (),
        ApiError,
    >)
        requires
            now <= i64::MAX - NONCE_SECONDS,
        ensures
            answers(result, reservation_refusal(old(self)@, signed.claims@, permit, now as int)),
            match result {
                Ok(_) => final(self)@ == (Roster {
                    nonces: nonces_after(old(self)@.nonces, signed.claims@, now as int),
                    ..old(self)@
                }),
                Err(_) => *final(self) == *old(self),
            },
    {
        let device = signed.claims.device.as_str();
        if !permit {
            return Err(ApiError(429, "too many signed requests in flight".to_owned()));
        }
        if self.replayed(device, signed.claims.nonce.as_str(), now) {
            return Err(auth_error());
        }
        self.forget_nonces(now);
        let ghost before = nonce_rows(self.nonces@);
        let row = NonceRow {
            enrollment_id: signed.claims.device.clone(),
            nonce: signed.claims.nonce.clone(),
            expires_at: now + NONCE_SECONDS,
        };
        self.nonces.push(row);
        assert(nonce_rows(self.nonces@) =~= before.push(row@));
        Ok(())
    }

    /// Lets a signed request in: its headers are authentic and fresh, its device and
    /// session are in order, there is room for it, and its nonce is new. The nonce is used
    /// up from here on, whatever becomes of the body. Returns the session token.
    pub fn let_in(
        &mut self,
        signed: &Proof,
        caller: &Caller,
        decoded: &Option<TpmPublic>,
        request: &SignedRequest,
        permit: bool,
        now: i64,
    ) -> (result: Result<String, ApiError>)
        requires
            now <= i64::MAX - NONCE_SECONDS,
        ensures
            answers(
                result,
                admission_refusal(
                    old(self)@,
                    signed.claims@,
                    signed.signature@,
                    caller.public@,
                    caller.origin@,
                    *decoded,
                    *request,
                    permit,
                    now as int,
                ),
            ),
            match result {
                Ok(token) => {
                    &&& Some(token@) == bound_token(request.authorization@, request.is_session)
                    &&& final(self)@ == (Roster {
                        nonces: nonces_after(old(self)@.nonces, signed.claims@, now as int),
                        ..old(self)@
                    })
                },
                Err(_) => *final(self) == *old(self),
            },
    {
        let token = self.authenticate(signed, caller, decoded, request, now)?;
        self.reserve(signed, permit, now)?;
        Ok(token)
    }

    /// The last check of a request, once its body has arrived.
    pub fn complete(
        &self,
        signed: &Proof,
        body: &[u8],
        token: &str,
        is_session: bool,
        now: i64,
    ) -> (result: Result<(), ApiError>)
        ensures
            answers(
                result,
                completion_refusal(
                    self@,
                    signed.claims@,
                    body@,
                    token@,
                    is_session,
                    now as int,
                ),
            ),
    {
        if signed.verify_body(body).is_err() {
            return Err(auth_error());
        }
        self.check_active_session(signed.claims.device.as_str(), token, is_session, now)
    }

    fn drop_expired_sessions(&mut self, now: i64)
        ensures
            final(self)@ == (Roster {
                sessions: registry::running(old(self)@.sessions, now as int),
                ..old(self)@
            }),
    {
        let ghost start = self@.sessions;
        let ghost keep = |s: Opened| s.expires_at > now as int;
        let ghost mut seen: int = 0;
        let mut i: usize = 0;
        assert(start.take(0).filter(keep) =~= Seq::<Opened>::empty()) by {
            reveal(Seq::filter);
        }
        while i < self.sessions.len()
            invariant
                i <= self.sessions.len(),
                0 <= seen <= start.len(),
                start.len() - seen == self.sessions.len() - i,
                start == old(self)@.sessions,
                keep == (|s: Opened| s.expires_at > now as int),
                session_rows(self.sessions@).take(i as int) == start.take(seen).filter(keep),
                session_rows(self.sessions@).skip(i as int) == start.skip(seen),
                self.public_url == old(self).public_url,
                self.ek_roots == old(self).ek_roots,
                self.devices == old(self).devices,
                self.enrollments == old(self).enrollments,
                self.nonces == old(self).nonces,
            decreases self.sessions.len() - i,
        {
            let ghost rows = session_rows(self.sessions@);
            proof {
                assert(rows.skip(i as int)[0] == start.skip(seen)[0]);
                assert(rows[i as int] == start[seen]);
                assert(rows.skip(i as int).skip(1) =~= start.skip(seen).skip(1));
                assert(start.skip(seen).skip(1) =~= start.skip(seen + 1));
                lemma_filter_step(start, seen, keep);
                seen = seen + 1;
            }
            if self.sessions[i].expires_at <= now {
                self.sessions.remove(i);
                assert(session_rows(self.sessions@) =~= rows.remove(i as int));
                assert(session_rows(self.sessions@).take(i as int) =~= rows.take(i as int));
                assert(session_rows(self.sessions@).skip(i as int) =~= rows.skip(i as int).skip(1));
            } else {
                assert(rows.take(i as int + 1) =~= rows.take(i as int).push(rows[i as int]));
                assert(rows.skip(i as int + 1) =~= rows.skip(i as int).skip(1));
                i += 1;
            }
        }
        assert(session_rows(self.sessions@).take(i as int) =~= session_rows(self.sessions@));
        assert(start.take(seen) =~= start);
    }

    fn has_token(&self, token_hash: &str) -> (yes: bool)
        ensures
            yes == exists|i: int|
                0 <= i < self@.sessions.len() && (#[trigger] self@.sessions[i]).token_hash
                    == token_hash@,
    {
        let mut i: usize = 0;
        while i < self.sessions.len()
            invariant
                i <= self.sessions.len(),
                forall|j: int|
                    0 <= j < i ==> (#[trigger] self@.sessions[j]).token_hash != token_hash@,
            decreases self.sessions.len() - i,
        {
            assert(self@.sessions[i as int] == self.sessions@[i as int]@);
            if same_text(self.sessions[i].token_hash.as_str(), token_hash) {
                return true;
            }
            i += 1;
        }
        false
    }

    /// Opens a session for an enrollment. Only the digest of the token is kept.
    pub fn session(&mut self, enrollment: &str, token: String, now: i64) -> (result: Result<
        Session,
        ApiError,
    >)
        requires
            now <= i64::MAX - SESSION_SECONDS,
        ensures
            ({
                let rest = registry::running(old(self)@.sessions, now as int);
                let digest = hash_text(encode_utf8(token@));
                &&& answers(
                    result,
                    if exists|i: int| 0 <= i < rest.len() && (#[trigger] rest[i]).token_hash == digest {
                        Some(catalog::internal())
                    } else {
                        None
                    },
                )
                &&& match result {
                    Ok(session) => {
                        &&& session.token@ == token@
                        &&& session.expires_at == now + 15 * 60
                        &&& final(self)@ == (Roster {
                            sessions: rest.push(
                                Opened {
                                    token_hash: digest,
                                    enrollment: enrollment@,
                                    expires_at: now + 15 * 60,
                                },
                            ),
                            ..old(self)@
                        })
                    },
                    Err(_) => final(self)@ == (Roster { sessions: rest, ..old(self)@ }),
                }
            }),
    {
        self.drop_expired_sessions(now);
        let token_hash = hash(token.as_str().as_bytes());
        let ghost before = session_rows(self.sessions@);
        if self.has_token(token_hash.as_str()) {
            return Err(ApiError::internal());
        }
        assert forall|i: int| 0 <= i < before.len() implies (#[trigger] before[i]).token_hash
            != hash_text(encode_utf8(token@)) by {
            assert(self@.sessions[i] == before[i]);
        }
        let expires_at: i64 = now + SESSION_SECONDS;
        let row = SessionRow { token_hash, enrollment_id: enrollment.to_owned(), expires_at };
        self.sessions.push(row);
        assert(session_rows(self.sessions@) =~= before.push(row@));
        assert(before == registry::running(old(self)@.sessions, now as int));
        Ok(Session { token, expires_at })
    }
}

/// Revokes the device of this name, once, and ends the sessions of everything it
/// enrolled. Tells whether there was such a device in service.
pub fn revoke_device(state: &mut AuthState, name: &str, now: i64) -> (found: bool)
    ensures
        found == exists|i: int|
            0 <= i < old(state)@.devices.len() && (#[trigger] old(state)@.devices[i]).name == name@
                && old(state)@.devices[i].revoked_at is None,
        final(state)@ == (Roster {
            devices: registry::revoked(old(state)@.devices, name@, now as int),
            sessions: old(state)@.sessions.filter(
                |s: Opened| !registry::belongs(old(state)@, s.enrollment, name@),
            ),
            ..old(state)@
        }),
{
    let ghost before = state@;
    state.end_sessions(name);
    state.mark_revoked(name, now)
}

impl AuthState {
    fn has_device_named(&self, id: i64, name: &str) -> (yes: bool)
        ensures
            yes == registry::device_named(self@.devices, id as int, name@),
    {
        let mut i: usize = 0;
        while i < self.devices.len()
            invariant
                i <= self.devices.len(),
                forall|j: int|
                    0 <= j < i ==> !((#[trigger] self@.devices[j]).id == id
                        && self@.devices[j].name == name@),
            decreases self.devices.len() - i,
        {
            assert(self@.devices[i as int] == self.devices@[i as int]@);
            if self.devices[i].id == id && same_text(self.devices[i].name.as_str(), name) {
                return true;
            }
            i += 1;
        }
        false
    }

    fn enrolled_by(&self, enrollment: &str, name: &str) -> (yes: bool)
        ensures
            yes == registry::belongs(self@, enrollment@, name@),
    {
        let mut i: usize = 0;
        while i < self.enrollments.len()
            invariant
                i <= self.enrollments.len(),
                forall|j: int|
                    0 <= j < i ==> !((#[trigger] self@.enrollments[j]).id == enrollment@
                        && registry::device_named(
                        self@.devices,
                        self@.enrollments[j].device,
                        name@,
                    )),
            decreases self.enrollments.len() - i,
        {
            assert(self@.enrollments[i as int] == self.enrollments@[i as int]@);
            if same_text(self.enrollments[i].id.as_str(), enrollment) && self.has_device_named(
                self.enrollments[i].device_id,
                name,
            ) {
                return true;
            }
            i += 1;
        }
        false
    }

    fn end_sessions(&mut self, name: &str)
        ensures
            final(self)@ == (Roster {
                sessions: old(self)@.sessions.filter(
                    |s: Opened| !registry::belongs(old(self)@, s.enrollment, name@),
                ),
                ..old(self)@
            }),
            final(self).devices == old(self).devices,
    {
        let ghost whole = self@;
        let ghost start = self@.sessions;
        let ghost keep = |s: Opened| !registry::belongs(whole, s.enrollment, name@);
        let ghost mut seen: int = 0;
        let mut i: usize = 0;
        assert(start.take(0).filter(keep) =~= Seq::<Opened>::empty()) by {
            reveal(Seq::filter);
        }
        while i < self.sessions.len()
            invariant
                i <= self.sessions.len(),
                0 <= seen <= start.len(),
                start.len() - seen == self.sessions.len() - i,
                whole == old(self)@,
                start == old(self)@.sessions,
                keep == (|s: Opened| !registry::belongs(whole, s.enrollment, name@)),
                session_rows(self.sessions@).take(i as int) == start.take(seen).filter(keep),
                session_rows(self.sessions@).skip(i as int) == start.skip(seen),
                self.public_url == old(self).public_url,
                self.ek_roots == old(self).ek_roots,
                self.devices == old(self).devices,
                self.enrollments == old(self).enrollments,
                self.nonces == old(self).nonces,
            decreases self.sessions.len() - i,
        {
            let ghost rows = session_rows(self.sessions@);
            proof {
                assert(rows.skip(i as int)[0] == start.skip(seen)[0]);
                assert(rows[i as int] == start[seen]);
                assert(rows.skip(i as int).skip(1) =~= start.skip(seen).skip(1));
                assert(start.skip(seen).skip(1) =~= start.skip(seen + 1));
                lemma_filter_step(start, seen, keep);
                seen = seen + 1;
            }
            let ends = self.enrolled_by(self.sessions[i].enrollment_id.as_str(), name);
            assert(ends == registry::belongs(whole, rows[i as int].enrollment, name@));
            if ends {
                self.sessions.remove(i);
                assert(session_rows(self.sessions@) =~= rows.remove(i as int));
                assert(session_rows(self.sessions@).take(i as int) =~= rows.take(i as int));
                assert(session_rows(self.sessions@).skip(i as int) =~= rows.skip(i as int).skip(1));
            } else {
                assert(rows.take(i as int + 1) =~= rows.take(i as int).push(rows[i as int]));
                assert(rows.skip(i as int + 1) =~= rows.skip(i as int).skip(1));
                i += 1;
            }
        }
        assert(session_rows(self.sessions@).take(i as int) =~= session_rows(self.sessions@));
        assert(start.take(seen) =~= start);
    }

    fn mark_revoked(&mut self, name: &str, now: i64) -> (found: bool)
        ensures
            found == exists|i: int|
                0 <= i < old(self)@.devices.len() && (#[trigger] old(self)@.devices[i]).name == name@
                    && old(self)@.devices[i].revoked_at is None,
            final(self)@ == (Roster {
                devices: registry::revoked(old(self)@.devices, name@, now as int),
                ..old(self)@
            }),
    {
        let ghost rows = self@.devices;
        let ghost goal = registry::revoked(rows, name@, now as int);
        let mut found = false;
        let mut i: usize = 0;
        while i < self.devices.len()
            invariant
                i <= self.devices.len() == old(self).devices.len(),
                rows == old(self)@.devices,
                goal == registry::revoked(rows, name@, now as int),
                found == exists|j: int|
                    0 <= j < i && (#[trigger] rows[j]).name == name@ && rows[j].revoked_at is None,
                forall|j: int| 0 <= j < i ==> (#[trigger] self.devices@[j])@ == goal[j],
                forall|j: int|
                    i <= j < self.devices@.len() ==> #[trigger] self.devices@[j] == old(
                        self,
                    ).devices@[j],
                self.public_url == old(self).public_url,
                self.ek_roots == old(self).ek_roots,
                self.enrollments == old(self).enrollments,
                self.sessions == old(self).sessions,
                self.nonces == old(self).nonces,
            decreases self.devices.len() - i,
        {
            assert(rows[i as int] == self.devices@[i as int]@);
            if same_text(self.devices[i].name.as_str(), name) && self.devices[i].revoked_at.is_none() {
                let row = DeviceRow {
                    id: self.devices[i].id,
                    name: self.devices[i].name.clone(),
                    created_at: self.devices[i].created_at,
                    revoked_at: Some(now),
                };
                self.devices.set(i, row);
                found = true;
            }
            i += 1;
        }
        assert(self@.devices =~= goal);
        found
    }
}

/// A device as an administrator sees it: number, name, and whether it was revoked.
pub open spec fn summary_of(d: Device) -> (int, Seq<char>, bool) {
    (d.id, d.name, d.revoked_at is Some)
}

pub open spec fn summary_view(row: (i64, String, bool)) -> (int, Seq<char>, bool) {
    (row.0 as int, row.1@, row.2)
}

/// All devices, by number.
pub fn list_devices(state: &AuthState) -> (shown: Vec<(i64, String, bool)>)
    ensures
        forall|i: int, j: int| 0 <= i < j < shown@.len() ==> shown@[i].0 <= shown@[j].0,
        shown@.map_values(|row: (i64, String, bool)| summary_view(row)).to_multiset()
            == state@.devices.map_values(|d: Device| summary_of(d)).to_multiset(),
{
    let ghost rows = state@.devices;
    let ghost show = |d: Device| summary_of(d);
    let ghost see = |row: (i64, String, bool)| summary_view(row);
    let mut shown: Vec<(i64, String, bool)> = Vec::new();
    let mut i: usize = 0;
    assert(shown@.map_values(see) =~= rows.take(0).map_values(show));
    while i < state.devices.len()
        invariant
            i <= state.devices.len(),
            rows == state@.devices,
            show == (|d: Device| summary_of(d)),
            see == (|row: (i64, String, bool)| summary_view(row)),
            forall|a: int, b: int| 0 <= a < b < shown@.len() ==> shown@[a].0 <= shown@[b].0,
            shown@.map_values(see).to_multiset() == rows.take(i as int).map_values(
                show,
            ).to_multiset(),
        decreases state.devices.len() - i,
    {
        let device = &state.devices[i];
        assert(rows[i as int] == device@);
        let row = (device.id, device.name.clone(), device.revoked_at.is_some());
        let mut k: usize = 0;
        while k < shown.len() && shown[k].0 <= row.0
            invariant
                k <= shown.len(),
                forall|a: int| 0 <= a < k ==> (#[trigger] shown@[a]).0 <= row.0,
            decreases shown.len() - k,
        {
            k += 1;
        }
        proof {
            let before = shown@;
            let after = shown@.insert(k as int, row);
            let seen = before.map_values(see);
            assert(after.map_values(see) =~= seen.insert(k as int, summary_of(device@)));
            vstd::seq_lib::to_multiset_insert(seen, k as int, summary_of(device@));
            let taken = rows.take(i as int).map_values(show);
            assert(rows.take(i as int + 1).map_values(show) =~= taken.push(summary_of(device@)));
            taken.to_multiset_ensures();
            assert forall|a: int, b: int| 0 <= a < b < after.len() implies after[a].0
                <= after[b].0 by {
                let x = if a < k {
                    a
                } else {
                    a - 1
                };
                let y = if b < k {
                    b
                } else {
                    b - 1
                };
                if a == k {
                    assert(after[b] == before[y]);
                    assert(before[k as int].0 <= before[y].0 || y == k);
                } else if b == k {
                    assert(after[a] == before[x]);
                } else {
                    assert(after[a] == before[x]);
                    assert(after[b] == before[y]);
                }
            }
        }
        shown.insert(k, row);
        i += 1;
    }
    assert(rows.take(rows.len() as int) =~= rows);
    shown
}

/// A nonce that was used, and is not yet forgotten, stays remembered when another
/// request is let in.
pub proof fn law_used_nonce_is_kept(nonces: Seq<Used>, used: Used, c: Claimed, now: int)
    requires
        nonces.contains(used),
        used.expires_at > now,
    ensures
        nonces_after(nonces, c, now).contains(used),
{
    let keep = |u: Used| u.expires_at > now;
    let i = choose|i: int| 0 <= i < nonces.len() && nonces[i] == used;
    lemma_filter_contains(nonces, keep, i);
    let kept = registry::remembered(nonces, now);
    let k = choose|k: int| 0 <= k < kept.len() && kept[k] == used;
    assert(nonces_after(nonces, c, now)[k] == used);
}

proof fn lemma_filter_contains(nonces: Seq<Used>, keep: spec_fn(Used) -> bool, i: int)
    requires
        0 <= i < nonces.len(),
        keep(nonces[i]),
    ensures
        nonces.filter(keep).contains(nonces[i]),
    decreases nonces.len(),
{
    reveal(Seq::filter);
    let front = nonces.drop_last();
    if i < front.len() {
        assert(front[i] == nonces[i]);
        lemma_filter_contains(front, keep, i);
        let k = choose|k: int|
            0 <= k < front.filter(keep).len() && front.filter(keep)[k] == nonces[i];
        assert(nonces.filter(keep)[k] == nonces[i]);
    } else {
        assert(nonces.filter(keep)[nonces.filter(keep).len() - 1] == nonces[i]);
    }
}

/// A request that was let in is never let in again: while its nonce is remembered it is
/// a replay, and after that it has expired.
pub proof fn law_request_is_let_in_once(
    r: Roster,
    c: Claimed,
    signature: Seq<char>,
    public: Seq<char>,
    origin: Seq<char>,
    decoded: Option<TpmPublic>,
    request: SignedRequest,
    permit: bool,
    accepted: int,
    later: int,
)
    requires
        fresh(c.issued_at, accepted),
        accepted <= later,
        later < accepted + NONCE_SECONDS ==> r.nonces.contains(
            Used {
                enrollment: c.device,
                nonce: c.nonce,
                expires_at: accepted + NONCE_SECONDS,
            },
        ),
    ensures
        admission_refusal(
            r,
            c,
            signature,
            public,
            origin,
            decoded,
            request,
            permit,
            later,
        ) is Some,
{
    if later >= accepted + NONCE_SECONDS {
        law_nonce_outlives_proof(c.issued_at, accepted, later);
    } else {
        let used = Used {
            enrollment: c.device,
            nonce: c.nonce,
            expires_at: accepted + NONCE_SECONDS,
        };
        let i = choose|i: int| 0 <= i < r.nonces.len() && r.nonces[i] == used;
        lemma_filter_contains(r.nonces, |u: Used| u.expires_at > later, i);
        let kept = registry::remembered(r.nonces, later);
        let k = choose|k: int| 0 <= k < kept.len() && kept[k] == used;
        assert(kept[k].enrollment == c.device && kept[k].nonce == c.nonce);
        assert(registry::nonce_used(kept, c.device, c.nonce));
    }
}

/// The nonces after further requests were let in, each with the second of its admission.
pub open spec fn nonces_through(nonces: Seq<Used>, admitted: Seq<(Claimed, int)>) -> Seq<Used>
    decreases admitted.len(),
{
    if admitted.len() == 0 {
        nonces
    } else {
        nonces_after(
            nonces_through(nonces, admitted.drop_last()),
            admitted.last().0,
            admitted.last().1,
        )
    }
}

proof fn lemma_nonce_survives(nonces: Seq<Used>, used: Used, admitted: Seq<(Claimed, int)>)
    requires
        nonces.contains(used),
        forall|i: int| 0 <= i < admitted.len() ==> (#[trigger] admitted[i]).1 < used.expires_at,
    ensures
        nonces_through(nonces, admitted).contains(used),
    decreases admitted.len(),
{
    if admitted.len() > 0 {
        let front = admitted.drop_last();
        assert forall|i: int| 0 <= i < front.len() implies (#[trigger] front[i]).1
            < used.expires_at by {
            assert(front[i] == admitted[i]);
        }
        lemma_nonce_survives(nonces, used, front);
        assert(admitted[admitted.len() - 1].1 < used.expires_at);
        law_used_nonce_is_kept(
            nonces_through(nonces, front),
            used,
            admitted.last().0,
            admitted.last().1,
        );
    }
}

/// Once a request was let in, whatever becomes of its body, no later request with its proof
/// is, however many others come between, on a clock that does not go back. Where there is
/// room, it is answered that it is not authenticated.
pub proof fn law_proof_is_spent(
    before: Roster,
    r: Roster,
    c: Claimed,
    signature: Seq<char>,
    public: Seq<char>,
    origin: Seq<char>,
    decoded: Option<TpmPublic>,
    request: SignedRequest,
    accepted: int,
    between: Seq<(Claimed, int)>,
    again: SignedRequest,
    permit: bool,
    later: int,
)
    requires
        admission_refusal(
            before,
            c,
            signature,
            public,
            origin,
            decoded,
            request,
            true,
            accepted,
        ) is None,
        accepted <= later,
        forall|i: int| 0 <= i < between.len() ==> accepted <= (#[trigger] between[i]).1 <= later,
        r.nonces == nonces_through(nonces_after(before.nonces, c, accepted), between),
    ensures
        admission_refusal(r, c, signature, public, origin, decoded, again, permit, later) is Some,
        permit ==> admission_refusal(
            r,
            c,
            signature,
            public,
            origin,
            decoded,
            again,
            permit,
            later,
        ) == Some(registry::unauthenticated()),
{
    let first = nonces_after(before.nonces, c, accepted);
    let used = Used {
        enrollment: c.device,
        nonce: c.nonce,
        expires_at: accepted + NONCE_SECONDS,
    };
    assert(first[first.len() - 1] == used);
    if later < accepted + NONCE_SECONDS {
        lemma_nonce_survives(first, used, between);
    }
    law_request_is_let_in_once(
        r,
        c,
        signature,
        public,
        origin,
        decoded,
        again,
        permit,
        accepted,
        later,
    );
}

/// A session is good only for the enrollment it was opened for, and a request on any
/// other enrollment is refused with it.
pub proof fn law_session_serves_one_enrollment(
    r: Roster,
    enrollment: Seq<char>,
    token: Seq<char>,
    now: int,
)
    requires
        forall|i: int|
            0 <= i < r.sessions.len() && (#[trigger] r.sessions[i]).token_hash == hash_text(
                encode_utf8(token),
            ) ==> r.sessions[i].enrollment != enrollment || r.sessions[i].expires_at <= now,
    ensures
        registry::active_refusal(r, enrollment, token, false, now) == Some(
            registry::unauthenticated(),
        ),
{
}

/// A request whose body is the one that was signed is completed, for every body, exactly where
/// its device and session would still be let on. Another body is answered 401.
pub proof fn law_signed_body_is_accepted(
    r: Roster,
    c: Claimed,
    body: Seq<u8>,
    token: Seq<char>,
    is_session: bool,
    now: int,
)
    ensures
        c.body_sha256 == hash_text(body) && registry::active_refusal(
            r,
            c.device,
            token,
            is_session,
            now,
        ) is None ==> completion_refusal(r, c, body, token, is_session, now) is None,
        c.body_sha256 == hash_text(body) ==> completion_refusal(r, c, body, token, is_session, now)
            == registry::active_refusal(r, c.device, token, is_session, now),
        c.body_sha256 != hash_text(body) ==> (completion_refusal(
            r,
            c,
            body,
            token,
            is_session,
            now,
        ) matches Some(why) && why.status == 401),
{
}

/// A signed request of an approved device, in a session of its own that runs, is completed with
/// the body that was signed, whatever the body is, and with no other.
pub proof fn law_approved_device_completes_its_request(
    r: Roster,
    i: int,
    c: Claimed,
    body: Seq<u8>,
    token: Seq<char>,
    is_session: bool,
    now: int,
)
    requires
        registry::sound(r),
        0 <= i < r.enrollments.len(),
        c.device == r.enrollments[i].id,
    ensures
        completion_refusal(r, c, body, token, is_session, now) is None <==> c.body_sha256
            == hash_text(body) && r.enrollments[i].approved_at is Some && registry::serves(
            r,
            r.enrollments[i].device,
        ) && (is_session || exists|s: int|
            0 <= s < r.sessions.len() && (#[trigger] r.sessions[s]).enrollment == c.device
                && r.sessions[s].token_hash == hash_text(encode_utf8(token))
                && r.sessions[s].expires_at > now),
{
    registry::law_running_session_is_let_on(r, i, token, is_session, now);
}

/// A caller is known exactly where its enrollment has access, its key is on file and the server
/// has a public address. One without access is answered 403.
pub proof fn law_enrolled_caller_is_known(r: Roster, i: int)
    requires
        registry::sound(r),
        0 <= i < r.enrollments.len(),
    ensures
        ({
            let e = r.enrollments[i];
            let admitted = e.approved_at is Some && registry::serves(r, e.device);
            &&& caller_refusal(r, e.id) is None <==> admitted && e.public is Some
                && r.public_url is Some
            &&& !admitted ==> (caller_refusal(r, e.id) matches Some(why) && why.status == 403)
            &&& admitted ==> registry::access_of(r, e.id) == Some(i)
        }),
{
    registry::law_approved_device_has_access(r, i);
}

/// The token stands behind the scheme of the header. A request that opens a session carries no
/// such header; every other request carries one.
pub proof fn law_token_stands_behind_its_scheme(token: Seq<char>, authorization: Seq<char>)
    ensures
        bound_token("MySync "@ + token, false) == Some(token),
        bound_token(authorization, false) matches Some(t) ==> authorization == "MySync "@ + t,
        bound_token(authorization, true) is Some <==> authorization.len() == 0,
        bound_token(authorization, true) matches Some(t) ==> t.len() == 0,
{
    let scheme = "MySync "@;
    let header = scheme + token;
    assert(scheme.is_prefix_of(header)) by {
        assert(header.subrange(0, scheme.len() as int) =~= scheme);
    }
    assert(header.skip(scheme.len() as int) =~= token);
    if scheme.is_prefix_of(authorization) {
        assert(authorization.subrange(0, scheme.len() as int) =~= scheme);
        assert(authorization =~= scheme + authorization.skip(scheme.len() as int));
    }
}

/// The identity of a request is accepted exactly where it carries a token, its proof is right for
/// the address it was sent to, and its device and session are let on; any other is 401.
pub proof fn law_right_proof_is_accepted(
    r: Roster,
    c: Claimed,
    signature: Seq<char>,
    public: Seq<char>,
    origin: Seq<char>,
    decoded: Option<TpmPublic>,
    request: SignedRequest,
    token: Seq<char>,
    now: int,
)
    requires
        request.is_session ==> request.authorization@.len() == 0 && token.len() == 0,
        !request.is_session ==> request.authorization@ == "MySync "@ + token,
    ensures
        identity_refusal(r, c, signature, public, origin, decoded, request, now) is None
            <==> headers_error(
            c,
            signature,
            public,
            decoded,
            request.method@,
            origin + request.path_and_query@,
            token,
            now,
        ) is None && registry::active_refusal(r, c.device, token, request.is_session, now) is None,
        identity_refusal(r, c, signature, public, origin, decoded, request, now) matches Some(why)
            ==> why.status == 401,
{
    law_token_stands_behind_its_scheme(token, request.authorization@);
    if request.is_session {
        assert(token =~= Seq::<char>::empty());
    }
}

/// A request is taken exactly where there is a place for it and its nonce was not used by the
/// same device within its time. 429 stands for the place, 401 for the nonce.
pub proof fn law_fresh_nonce_is_taken(r: Roster, c: Claimed, permit: bool, now: int)
    ensures
        reservation_refusal(r, c, permit, now) is None <==> permit && forall|i: int|
            0 <= i < r.nonces.len() ==> !((#[trigger] r.nonces[i]).enrollment == c.device
                && r.nonces[i].nonce == c.nonce && r.nonces[i].expires_at > now),
        !permit ==> (reservation_refusal(r, c, permit, now) matches Some(why) && why.status == 429),
        permit && reservation_refusal(r, c, permit, now) is Some ==> (reservation_refusal(
            r,
            c,
            permit,
            now,
        ) matches Some(why) && why.status == 401),
{
    let rest = registry::remembered(r.nonces, now);
    if registry::nonce_used(rest, c.device, c.nonce) {
        let k = choose|k: int|
            0 <= k < rest.len() && (#[trigger] rest[k]).enrollment == c.device && rest[k].nonce
                == c.nonce;
        assert(rest.contains(rest[k]));
        catalog::lemma_filter_members(r.nonces, |u: Used| u.expires_at > now, rest[k]);
        let i = choose|i: int| 0 <= i < r.nonces.len() && r.nonces[i] == rest[k];
        assert(r.nonces[i].enrollment == c.device);
    } else {
        assert forall|i: int| 0 <= i < r.nonces.len() implies !((#[trigger] r.nonces[i]).enrollment
            == c.device && r.nonces[i].nonce == c.nonce && r.nonces[i].expires_at > now) by {
            if r.nonces[i].expires_at > now {
                catalog::lemma_filter_members(r.nonces, |u: Used| u.expires_at > now, r.nonces[i]);
                assert(r.nonces.contains(r.nonces[i]));
                let k = choose|k: int| 0 <= k < rest.len() && rest[k] == r.nonces[i];
                assert(rest[k] == r.nonces[i]);
            }
        }
    }
}

/// A request is let in exactly where its identity is accepted and it is taken.
pub proof fn law_request_is_let_in(
    r: Roster,
    c: Claimed,
    signature: Seq<char>,
    public: Seq<char>,
    origin: Seq<char>,
    decoded: Option<TpmPublic>,
    request: SignedRequest,
    permit: bool,
    now: int,
)
    ensures
        admission_refusal(r, c, signature, public, origin, decoded, request, permit, now) is None
            <==> identity_refusal(r, c, signature, public, origin, decoded, request, now) is None
            && permit && forall|i: int|
            0 <= i < r.nonces.len() ==> !((#[trigger] r.nonces[i]).enrollment == c.device
                && r.nonces[i].nonce == c.nonce && r.nonces[i].expires_at > now),
{
    law_fresh_nonce_is_taken(r, c, permit, now);
}

/// The nonces that are known after a request are those whose time is not over and its own, for
/// two minutes.
pub proof fn law_nonce_is_kept_for_its_time(nonces: Seq<Used>, c: Claimed, now: int, used: Used)
    ensures
        nonces_after(nonces, c, now).contains(used) <==> (nonces.contains(used) && used.expires_at
            > now) || (used.enrollment == c.device && used.nonce == c.nonce && used.expires_at
            == now + 120),
{
    let rest = registry::remembered(nonces, now);
    let own = Used { enrollment: c.device, nonce: c.nonce, expires_at: now + NONCE_SECONDS };
    catalog::lemma_filter_members(nonces, |u: Used| u.expires_at > now, used);
    let all = rest.push(own);
    if all.contains(used) {
        let i = choose|i: int| 0 <= i < all.len() && all[i] == used;
        if i < rest.len() {
            assert(rest[i] == used);
        }
    }
    if rest.contains(used) {
        let i = choose|i: int| 0 <= i < rest.len() && rest[i] == used;
        assert(all[i] == used);
    }
    assert(all[rest.len() as int] == own);
}

/// What is shown of a device: its number, its name, and whether it was revoked.
pub proof fn law_device_line_tells_the_device(d: Device)
    ensures
        summary_of(d).0 == d.id,
        summary_of(d).1 == d.name,
        summary_of(d).2 <==> d.revoked_at is Some,
{
}

} // verus!
