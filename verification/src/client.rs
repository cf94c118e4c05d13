//! The client: its configuration, how it is enrolled, what a run consists of, and what it
//! tells about the folder.
use vstd::prelude::*;

use crate::auth_protocol::{
    p256_der, signing_error, AuthError, EnrollChallenge, EnrollFinish, EnrollStart, Enrollment,
    TpmPublic,
};
use crate::digest::{hash_text, hex_encode, hex_text};
use crate::catalog::lemma_filter_step;
use crate::keyed::{distinct, keyed};
use crate::model::{Entry, Manifest};
use crate::origin_auth::{pin_error, public_key, OriginError};
use crate::reconcile::{
    at, find_local, local_rows, state_rows, Known, LocalFile, LocalState, SeenRow,
};
use crate::registry::{self, Roster};
use crate::text::{
    joined, same_bytes, same_text, texts, trim_end_of, trim_white, trimmed, without_trailing,
};
use crate::tpm::{Held, Identity};
use crate::transfer::SessionCache;
use crate::url::{address_of, opt_address, parse_url, protected, Address, UrlParts};

pub use crate::reconcile::SyncReport;

verus! {

/// What a client keeps about itself. The folder is held as the bytes of its path.
pub struct ClientConfig {
    pub server: String,
    pub server_public_key: String,
    pub identity: Option<Identity>,
    pub root: Vec<u8>,
    pub auto_update: bool,
    pub update_public_key: String,
}

/// Why the client does not go on.
#[derive(Clone, Copy, Debug, PartialEq, Eq, Structural)]
pub enum ClientError {
    InvalidUrl,
    InsecureUrl,
    DecoratedUrl,
    NoIdentity,
    Pin(OriginError),
    ConfigInside,
    ServerHasFiles,
    OtherServer,
    AlreadyEnrolled,
    OtherPending,
    NoPending,
    Fingerprint(AuthError),
    UnexpectedFingerprint,
    KeptChanging,
    WatcherStopped,
    PairingGone,
    PairingTimeout,
    PairingRefused,
}

pub open spec fn client_message(error: ClientError) -> Seq<char> {
    match error {
        ClientError::InvalidUrl => "invalid server URL"@,
        ClientError::InsecureUrl =>
            "server URL must use HTTPS (HTTP is allowed only on loopback)"@,
        ClientError::DecoratedUrl =>
            "server URL must not contain credentials, a query, or a fragment"@,
        ClientError::NoIdentity => "device key is empty"@,
        ClientError::Pin(e) => crate::origin_auth::origin_message(e),
        ClientError::ConfigInside => "config must be outside the synchronized folder"@,
        ClientError::ServerHasFiles =>
            "server already contains files; use 'connect' for this device"@,
        ClientError::OtherServer => "enrollment must keep the configured server and folder"@,
        ClientError::AlreadyEnrolled =>
            "client is already TPM-enrolled; revoke it before creating a new identity"@,
        ClientError::OtherPending => "another enrollment is already pending"@,
        ClientError::NoPending => "no pending enrollment"@,
        ClientError::Fingerprint(e) => crate::auth_protocol::auth_message(e),
        ClientError::UnexpectedFingerprint => "server returned an unexpected device fingerprint"@,
        ClientError::KeptChanging => "files kept changing during sync; retry shortly"@,
        ClientError::WatcherStopped => "filesystem watcher stopped"@,
        ClientError::PairingGone => "pairing was cancelled or has expired; start again"@,
        ClientError::PairingTimeout => "pairing is not approved yet; run setup again to go on"@,
        ClientError::PairingRefused => "server refused the pairing check"@,
    }
}

impl ClientError {
    /// What the user reads.
    pub fn message(&self) -> (text: &'static str)
        ensures
            text@ == client_message(*self),
    {
        match self {
            ClientError::InvalidUrl => "invalid server URL",
            ClientError::InsecureUrl => {
                "server URL must use HTTPS (HTTP is allowed only on loopback)"
            },
            ClientError::DecoratedUrl => {
                "server URL must not contain credentials, a query, or a fragment"
            },
            ClientError::NoIdentity => "device key is empty",
            ClientError::Pin(e) => e.message(),
            ClientError::ConfigInside => "config must be outside the synchronized folder",
            ClientError::ServerHasFiles => {
                "server already contains files; use 'connect' for this device"
            },
            ClientError::OtherServer => "enrollment must keep the configured server and folder",
            ClientError::AlreadyEnrolled => {
                "client is already TPM-enrolled; revoke it before creating a new identity"
            },
            ClientError::OtherPending => "another enrollment is already pending",
            ClientError::NoPending => "no pending enrollment",
            ClientError::Fingerprint(e) => e.message(),
            ClientError::UnexpectedFingerprint => {
                "server returned an unexpected device fingerprint"
            },
            ClientError::KeptChanging => "files kept changing during sync; retry shortly",
            ClientError::WatcherStopped => "filesystem watcher stopped",
            ClientError::PairingGone => "pairing was cancelled or has expired; start again",
            ClientError::PairingTimeout => "pairing is not approved yet; run setup again to go on",
            ClientError::PairingRefused => "server refused the pairing check",
        }
    }
}

/// A call that ends as `error` says.
pub open spec fn gives_up<T>(result: Result<T, ClientError>, error: Option<ClientError>) -> bool {
    match result {
        Ok(_) => error is None,
        Err(e) => error == Some(e),
    }
}

/// A client updates itself unless it is told not to.
pub fn default_auto_update() -> (yes: bool)
    ensures
        yes,
{
    true
}

/// The release key that a client believes unless it is told another, from the text that
/// is built into the program.
pub fn default_update_public_key(embedded: &str) -> (key: String)
    ensures
        key@ == trim_white(embedded@),
{
    trimmed(embedded)
}

/// Why an address is not that of a server.
pub open spec fn server_error(address: Option<Address>) -> Option<ClientError> {
    match address {
        None => Some(ClientError::InvalidUrl),
        Some(a) => if !protected(a) {
            Some(ClientError::InsecureUrl)
        } else if a.has_query || a.has_fragment || a.username.len() > 0 || a.has_password {
            Some(ClientError::DecoratedUrl)
        } else {
            None
        },
    }
}

/// Checks the address of a server: nobody may listen in on the way to it, and it holds
/// nothing but the way.
pub fn check_server(parts: &Option<UrlParts>) -> (result: Result<(), ClientError>)
    ensures
        gives_up(result, server_error(opt_address(*parts))),
{
    match parts {
        None => Err(ClientError::InvalidUrl),
        Some(url) => {
            if !url.is_protected() {
                return Err(ClientError::InsecureUrl);
            }
            if url.has_query || url.has_fragment || !url.username.as_str().is_empty()
                || url.has_password {
                return Err(ClientError::DecoratedUrl);
            }
            Ok(())
        },
    }
}

/// What a client needs to talk to its server.
pub struct Api {
    pub base: String,
    pub server_key: Vec<u8>,
    pub session: SessionCache,
}

/// Why a client cannot talk to a server.
pub open spec fn api_error(
    server: Seq<char>,
    pin: Seq<char>,
    has_identity: bool,
) -> Option<ClientError> {
    if server_error(address_of(server)) is Some {
        server_error(address_of(server))
    } else if !has_identity {
        Some(ClientError::NoIdentity)
    } else {
        match pin_error(pin) {
            Some(e) => Some(ClientError::Pin(e)),
            None => None,
        }
    }
}

impl Api {
    /// Checks a configuration before anything is sent.
    pub fn new(config: &ClientConfig) -> (result: Result<Self, ClientError>)
        ensures
            gives_up(
                result,
                api_error(
                    config.server@,
                    config.server_public_key@,
                    config.identity is Some,
                ),
            ),
            result matches Ok(api) ==> api.base@ == trim_end_of(config.server@, '/') && Some(
                api.server_key@,
            ) == crate::digest::hex_bytes(trim_white(config.server_public_key@))
                && api.server_key@.len() == 32 && crate::keys::ed25519_decodes(api.server_key@)
                && api.session.current is None,
    {
        let parts = parse_url(config.server.as_str());
        check_server(&parts)?;
        if config.identity.is_none() {
            return Err(ClientError::NoIdentity);
        }
        match public_key(config.server_public_key.as_str()) {
            Err(e) => Err(ClientError::Pin(e)),
            Ok(key) => Ok(
                Api {
                    base: without_trailing(config.server.as_str(), '/'),
                    server_key: key,
                    session: SessionCache::new(),
                },
            ),
        }
    }

    /// The address of a resource.
    pub fn url(&self, path: &str) -> (url: String)
        ensures
            url@ == self.base@ + path@,
    {
        joined(self.base.as_str(), path)
    }
}

impl ClientConfig {
    /// Pins another key of the server, which the administrator has handed over.
    pub fn trust_server(&mut self, key: &str) -> (result: Result<(), ClientError>)
        ensures
            gives_up(
                result,
                match pin_error(key@) {
                    Some(e) => Some(ClientError::Pin(e)),
                    None => None,
                },
            ),
            match result {
                Ok(_) => final(self).server_public_key@ == key@ && final(self).server == old(self).server && final(self).identity == old(self).identity && final(self).root == old(self).root && final(self).auto_update == old(self).auto_update && final(self).update_public_key == old(self).update_public_key,
                Err(_) => *final(self) == *old(self),
            },
    {
        match public_key(key) {
            Err(e) => Err(ClientError::Pin(e)),
            Ok(_) => {
                self.server_public_key = key.to_owned();
                Ok(())
            },
        }
    }
}

/// Checks that the configuration does not lie in the folder that it is about.
pub fn check_config_place(inside: bool) -> (result: Result<(), ClientError>)
    ensures
        gives_up(
            result,
            if inside {
                Some(ClientError::ConfigInside)
            } else {
                None
            },
        ),
{
    if inside {
        Err(ClientError::ConfigInside)
    } else {
        Ok(())
    }
}

pub open spec fn has_live_entry(entries: Seq<Entry>) -> bool {
    exists|i: int| 0 <= i < entries.len() && !(#[trigger] entries[i]).deleted
}

/// A first device begins on an empty server; deletions do not count.
pub fn check_first_device(first_device: bool, manifest: &Manifest) -> (result: Result<
    (),
    ClientError,
>)
    ensures
        gives_up(
            result,
            if first_device && has_live_entry(manifest.entries@) {
                Some(ClientError::ServerHasFiles)
            } else {
                None
            },
        ),
{
    if !first_device {
        return Ok(());
    }
    let mut i: usize = 0;
    while i < manifest.entries.len()
        invariant
            i <= manifest.entries.len(),
            first_device,
            forall|j: int| 0 <= j < i ==> (#[trigger] manifest.entries@[j]).deleted,
        decreases manifest.entries.len() - i,
    {
        if !manifest.entries[i].deleted {
            return Err(ClientError::ServerHasFiles);
        }
        i += 1;
    }
    Ok(())
}

/// A configuration as plain values.
pub struct Settings {
    pub server: Seq<char>,
    pub server_public_key: Seq<char>,
    pub identity: Option<Held>,
    pub root: Seq<u8>,
    pub auto_update: bool,
    pub update_public_key: Seq<char>,
}

impl View for ClientConfig {
    type V = Settings;

    open spec fn view(&self) -> Settings {
        Settings {
            server: self.server@,
            server_public_key: self.server_public_key@,
            identity: match self.identity {
                Some(identity) => Some(identity@),
                None => None,
            },
            root: self.root@,
            auto_update: self.auto_update,
            update_public_key: self.update_public_key@,
        }
    }
}

/// An enrollment that has been begun and not yet activated, as it is kept on disk.
pub struct PendingEnrollment {
    pub config: ClientConfig,
    pub challenge: Option<EnrollChallenge>,
}

/// An enrollment under way.
pub struct Enroller {
    pub server: String,
    pub server_public_key: String,
    pub root: Vec<u8>,
    pub invitation: String,
    pub auto_update: bool,
    pub update_public_key: String,
    pub pending: Option<PendingEnrollment>,
}

/// What an enrollment needs next.
#[derive(Clone, Copy, Debug, PartialEq, Eq, Structural)]
pub enum EnrollNeed {
    /// A key of the TPM.
    Identity,
    /// The certificates of the TPM, and with them a challenge of the server.
    Certificate,
    /// The TPM's answer to the challenge, and with it the server's confirmation.
    Activation,
}

/// Why an enrollment is not begun.
pub open spec fn enroll_error(
    inside: bool,
    previous: Option<ClientConfig>,
    pending: Option<PendingEnrollment>,
    server: Seq<char>,
    root: Seq<u8>,
) -> Option<ClientError> {
    if inside {
        Some(ClientError::ConfigInside)
    } else if previous is Some && (previous->0.root@ != root || trim_end_of(
        previous->0.server@,
        '/',
    ) != trim_end_of(server, '/')) {
        Some(ClientError::OtherServer)
    } else if previous is Some && previous->0.identity is Some {
        Some(ClientError::AlreadyEnrolled)
    } else if pending is Some && (pending->0.config.root@ != root || pending->0.config.server@
        != server) {
        Some(ClientError::OtherPending)
    } else {
        None
    }
}

/// What an enrollment needs next, as far as it has got. What is pending must still describe
/// a server to talk to.
pub open spec fn need_of(pending: Option<PendingEnrollment>) -> Result<EnrollNeed, ClientError> {
    match pending {
        None => Ok(EnrollNeed::Identity),
        Some(p) => match api_error(
            p.config.server@,
            p.config.server_public_key@,
            p.config.identity is Some,
        ) {
            Some(e) => Err(e),
            None => Ok(
                if p.challenge is None {
                    EnrollNeed::Certificate
                } else {
                    EnrollNeed::Activation
                },
            ),
        },
    }
}

/// Why the fingerprint that the server has enrolled is not that of a key.
pub open spec fn confirmation_error(
    public: Seq<char>,
    fingerprint: Seq<char>,
    decoded: Option<TpmPublic>,
) -> Option<ClientError> {
    match signing_error(public, decoded) {
        Some(e) => Some(ClientError::Fingerprint(e)),
        None => if fingerprint != hash_text(p256_der(decoded->0.x@, decoded->0.y@)->0) {
            Some(ClientError::UnexpectedFingerprint)
        } else {
            None
        },
    }
}

impl Enroller {
    /// The configuration that the enrollment leads to.
    pub open spec fn settings(self, identity: Held) -> Settings {
        Settings {
            server: self.server@,
            server_public_key: self.server_public_key@,
            identity: Some(identity),
            root: self.root@,
            auto_update: self.auto_update,
            update_public_key: self.update_public_key@,
        }
    }

    /// Everything but what is pending.
    pub open spec fn same_request(self, other: Self) -> bool {
        &&& self.server == other.server
        &&& self.server_public_key == other.server_public_key
        &&& self.root == other.root
        &&& self.invitation == other.invitation
        &&& self.auto_update == other.auto_update
        &&& self.update_public_key == other.update_public_key
    }

    /// Begins an enrollment, or goes on with the one that is pending. `inside` tells that
    /// the configuration lies in the folder; `previous` is what is configured already.
    pub fn begin(
        inside: bool,
        previous: Option<ClientConfig>,
        pending: Option<PendingEnrollment>,
        server: String,
        server_public_key: String,
        root: Vec<u8>,
        invitation: String,
        embedded_key: &str,
    ) -> (result: Result<Self, ClientError>)
        ensures
            gives_up(result, enroll_error(inside, previous, pending, server@, root@)),
            result matches Ok(e) ==> {
                &&& e.server == server
                &&& e.server_public_key == server_public_key
                &&& e.root == root
                &&& e.invitation == invitation
                &&& e.pending == pending
                &&& e.auto_update == (previous is None || previous->0.auto_update)
                &&& e.update_public_key@ == match previous {
                    Some(config) => config.update_public_key@,
                    None => trim_white(embedded_key@),
                }
            },
    {
        if inside {
            return Err(ClientError::ConfigInside);
        }
        let mut auto_update = default_auto_update();
        let mut update_public_key = default_update_public_key(embedded_key);
        match previous {
            Some(config) => {
                let old_server = without_trailing(config.server.as_str(), '/');
                let new_server = without_trailing(server.as_str(), '/');
                if !same_bytes(config.root.as_slice(), root.as_slice()) || !same_text(
                    old_server.as_str(),
                    new_server.as_str(),
                ) {
                    return Err(ClientError::OtherServer);
                }
                if config.identity.is_some() {
                    return Err(ClientError::AlreadyEnrolled);
                }
                auto_update = config.auto_update;
                update_public_key = config.update_public_key;
            },
            None => {},
        }
        match &pending {
            Some(value) => {
                if !same_bytes(value.config.root.as_slice(), root.as_slice()) || !same_text(
                    value.config.server.as_str(),
                    server.as_str(),
                ) {
                    return Err(ClientError::OtherPending);
                }
            },
            None => {},
        }
        Ok(
            Enroller {
                server,
                server_public_key,
                root,
                invitation,
                auto_update,
                update_public_key,
                pending,
            },
        )
    }

    /// What comes next. What is pending must still describe a server to talk to.
    pub fn need(&self) -> (result: Result<EnrollNeed, ClientError>)
        ensures
            result == need_of(self.pending),
    {
        match &self.pending {
            None => Ok(EnrollNeed::Identity),
            Some(pending) => {
                match Api::new(&pending.config) {
                    Ok(_) => {},
                    Err(e) => return Err(e),
                }
                if pending.challenge.is_none() {
                    Ok(EnrollNeed::Certificate)
                } else {
                    Ok(EnrollNeed::Activation)
                }
            },
        }
    }

    /// Takes in a key that the TPM has made. It is pending from then on.
    pub fn identity_created(&mut self, identity: Identity) -> (result: Result<(), ClientError>)
        requires
            old(self).pending is None,
        ensures
            final(self).same_request(*old(self)),
            gives_up(
                result,
                api_error(old(self).server@, old(self).server_public_key@, true),
            ),
            match result {
                Ok(_) => final(self).pending matches Some(pending) && pending.challenge is None
                    && pending.config@ == old(self).settings(identity@),
                Err(_) => final(self).pending is None,
            },
    {
        let mut root: Vec<u8> = Vec::new();
        root.extend_from_slice(self.root.as_slice());
        assert(root@ =~= self.root@);
        let config = ClientConfig {
            server: self.server.as_str().to_owned(),
            server_public_key: self.server_public_key.as_str().to_owned(),
            identity: Some(identity),
            root,
            auto_update: self.auto_update,
            update_public_key: self.update_public_key.as_str().to_owned(),
        };
        match Api::new(&config) {
            Ok(_) => {},
            Err(e) => return Err(e),
        }
        self.pending = Some(PendingEnrollment { config, challenge: None });
        Ok(())
    }

    /// The request for a challenge: the key, and the certificates of the TPM, its own
    /// first.
    pub fn start_request(&self, leaf: &[u8], chain: &Vec<Vec<u8>>) -> (request: EnrollStart)
        requires
            self.pending is Some,
            self.pending->0.config.identity is Some,
        ensures
            request.invitation@ == self.invitation@,
            request.public@ == self.pending->0.config.identity->0.public@,
            texts(request.ek_chain@) == seq![hex_text(leaf@)] + chain@.map_values(
                |der: Vec<u8>| hex_text(der@),
            ),
    {
        let public = match &self.pending {
            Some(pending) => match &pending.config.identity {
                Some(identity) => identity.public.as_str().to_owned(),
                None => String::new(),
            },
            None => String::new(),
        };
        let ghost write = |der: Vec<u8>| hex_text(der@);
        let mut ek_chain: Vec<String> = Vec::new();
        ek_chain.push(hex_encode(leaf));
        let mut i: usize = 0;
        assert(texts(ek_chain@) =~= seq![hex_text(leaf@)] + chain@.take(0).map_values(write));
        while i < chain.len()
            invariant
                i <= chain.len(),
                write == (|der: Vec<u8>| hex_text(der@)),
                texts(ek_chain@) == seq![hex_text(leaf@)] + chain@.take(i as int).map_values(write),
            decreases chain.len() - i,
        {
            let ghost before = ek_chain@;
            ek_chain.push(hex_encode(chain[i].as_slice()));
            proof {
                assert(texts(ek_chain@) =~= texts(before).push(hex_text(chain@[i as int]@)));
                assert(chain@.take(i + 1).map_values(write) =~= chain@.take(i as int).map_values(
                    write,
                ).push(hex_text(chain@[i as int]@)));
                assert(texts(ek_chain@) =~= seq![hex_text(leaf@)] + chain@.take(i + 1).map_values(
                    write,
                ));
            }
            i += 1;
        }
        assert(chain@.take(i as int) =~= chain@);
        EnrollStart { invitation: self.invitation.as_str().to_owned(), public, ek_chain }
    }

    /// Takes in the server's challenge, under whose name the device goes from then on.
    pub fn challenged(&mut self, challenge: EnrollChallenge)
        requires
            old(self).pending is Some,
            old(self).pending->0.config.identity is Some,
        ensures
            final(self).same_request(*old(self)),
            final(self).pending matches Some(pending) && pending.challenge == Some(challenge)
                && pending.config@ == (Settings {
                identity: Some(
                    Held {
                        device: challenge.id@,
                        ..old(self).pending->0.config.identity->0@
                    },
                ),
                ..old(self).pending->0.config@
            }),
    {
        let mut pending = None;
        std::mem::swap(&mut self.pending, &mut pending);
        let PendingEnrollment { config, challenge: _ } = pending.unwrap();
        let ClientConfig {
            server,
            server_public_key,
            identity,
            root,
            auto_update,
            update_public_key,
        } = config;
        let Identity { device: _, public, private, ek_kind, tcti } = identity.unwrap();
        let identity = Identity {
            device: challenge.id.as_str().to_owned(),
            public,
            private,
            ek_kind,
            tcti,
        };
        let config = ClientConfig {
            server,
            server_public_key,
            identity: Some(identity),
            root,
            auto_update,
            update_public_key,
        };
        self.pending = Some(PendingEnrollment { config, challenge: Some(challenge) });
    }

    /// The answer to the challenge.
    pub fn finish_request(&self, activation: String) -> (request: EnrollFinish)
        requires
            self.pending is Some,
            self.pending->0.challenge is Some,
        ensures
            request.id@ == self.pending->0.challenge->0.id@,
            request.activation == activation,
    {
        let id = match &self.pending {
            Some(pending) => match &pending.challenge {
                Some(challenge) => challenge.id.as_str().to_owned(),
                None => String::new(),
            },
            None => String::new(),
        };
        EnrollFinish { id, activation }
    }

    /// Checks that what the server has enrolled is this device's key. `decoded` is the
    /// public area of the key as the TPM library reads it.
    pub fn finished(&self, enrollment: &Enrollment, decoded: &Option<TpmPublic>) -> (result: Result<
        (),
        ClientError,
    >)
        requires
            self.pending is Some,
            self.pending->0.config.identity is Some,
        ensures
            gives_up(
                result,
                confirmation_error(
                    self.pending->0.config.identity->0.public@,
                    enrollment.fingerprint@,
                    *decoded,
                ),
            ),
    {
        match &self.pending {
            Some(pending) => match &pending.config.identity {
                Some(identity) => match identity.fingerprint(decoded) {
                    Err(e) => Err(ClientError::Fingerprint(e)),
                    Ok(own) => if !same_text(enrollment.fingerprint.as_str(), own.as_str()) {
                        Err(ClientError::UnexpectedFingerprint)
                    } else {
                        Ok(())
                    },
                },
                None => Ok(()),
            },
            None => Ok(()),
        }
    }
}

/// An enrollment that is run again with the same server and folder, while it waits for its
/// approval, goes on with the key that is pending: no key is made and no challenge is asked
/// for. The server accepts the same answer again and gives the same identifier and the same
/// fingerprint, which the client accepts again.
pub proof fn law_repeated_enrollment_is_the_same(
    inside: bool,
    previous: Option<ClientConfig>,
    pending: PendingEnrollment,
    server: Seq<char>,
    root: Seq<u8>,
    r: Roster,
    answer: Seq<u8>,
    decoded: Option<TpmPublic>,
    now: int,
    later: int,
)
    requires
        enroll_error(inside, previous, None, server, root) is None,
        pending.config.server@ == server,
        pending.config.root@ == root,
        need_of(Some(pending)) == Ok::<EnrollNeed, ClientError>(EnrollNeed::Activation),
        registry::sound(r),
        registry::finish_error(r, pending.challenge->0.id@, Some(answer), now) is None,
        ({
            let e = r.enrollments[registry::answerable(r, pending.challenge->0.id@, now)->0];
            &&& confirmation_error(
                pending.config.identity->0.public@,
                e.fingerprint->0,
                decoded,
            ) is None
            &&& later < if e.verified_at is None {
                now + registry::APPROVAL_SECONDS
            } else {
                e.expires_at
            }
        }),
        now <= later,
    ensures
        ({
            let id = pending.challenge->0.id@;
            let i = registry::answerable(r, id, now)->0;
            let next = Roster { enrollments: registry::attested(r.enrollments, id, now), ..r };
            &&& enroll_error(inside, previous, Some(pending), server, root) is None
            &&& need_of(Some(pending)) == Ok::<EnrollNeed, ClientError>(EnrollNeed::Activation)
            &&& registry::finish_error(next, id, Some(answer), later) is None
            &&& registry::answerable(next, id, later) == Some(i)
            &&& next.enrollments[i].id == r.enrollments[i].id
            &&& next.enrollments[i].fingerprint == r.enrollments[i].fingerprint
            &&& registry::attested(next.enrollments, id, later) == next.enrollments
            &&& confirmation_error(
                pending.config.identity->0.public@,
                next.enrollments[i].fingerprint->0,
                decoded,
            ) is None
        }),
{
    let id = pending.challenge->0.id@;
    registry::law_answering_again_changes_nothing(r, id, answer, now, later, None);
    registry::lemma_first_found(
        r.enrollments,
        |e: registry::Enrolled|
            e.id == id && e.expires_at > now && e.approved_at is None && registry::in_service(
                r.devices,
                e.device,
            ),
    );
}

/// The configuration that an approved enrollment leads to, once the server lets the device
/// in with it.
pub fn activated(pending: Option<PendingEnrollment>) -> (result: Result<
    (Api, ClientConfig),
    ClientError,
>)
    ensures
        gives_up(
            result,
            match pending {
                None => Some(ClientError::NoPending),
                Some(p) => api_error(
                    p.config.server@,
                    p.config.server_public_key@,
                    p.config.identity is Some,
                ),
            },
        ),
        result matches Ok((api, config)) ==> Some(config) == (match pending {
            Some(p) => Some(p.config),
            None => None,
        }) && api.base@ == trim_end_of(config.server@, '/'),
{
    match pending {
        None => Err(ClientError::NoPending),
        Some(p) => match Api::new(&p.config) {
            Ok(api) => Ok((api, p.config)),
            Err(e) => Err(e),
        },
    }
}

/// The passes of one run.
pub struct Rounds {
    pub left: u8,
}

impl Rounds {
    /// A run makes up to five passes.
    pub fn new() -> (rounds: Self)
        ensures
            rounds.left == 5,
    {
        Rounds { left: 5 }
    }

    /// After a pass: whether the run is over. It fails where the last pass still asks for
    /// another.
    pub fn after_pass(&mut self, again: bool) -> (result: Result<bool, ClientError>)
        requires
            old(self).left > 0,
        ensures
            final(self).left == old(self).left - 1,
            gives_up(
                result,
                if again && old(self).left == 1 {
                    Some(ClientError::KeptChanging)
                } else {
                    None
                },
            ),
            result matches Ok(over) ==> over == !again,
    {
        self.left = self.left - 1;
        if !again {
            return Ok(true);
        }
        if self.left == 0 {
            return Err(ClientError::KeptChanging);
        }
        Ok(false)
    }
}

/// What the client tells about the folder.
pub struct Status {
    pub local_files: usize,
    pub remote_files: usize,
    pub pending_local: usize,
    pub conflicts: usize,
    pub generation: i64,
}

/// A file of the folder that is not what was seen last.
pub open spec fn edited(state: Map<Seq<char>, Known>, path: Seq<char>, digest: Seq<char>) -> bool {
    match at(state, path) {
        Some(known) => known.sha256 != Some(digest),
        None => true,
    }
}

/// A file that was seen last and is gone from the folder.
pub open spec fn vanished(
    local: Map<Seq<char>, Seq<char>>,
    path: Seq<char>,
    known: Known,
) -> bool {
    known.sha256 is Some && !local.contains_key(path)
}

pub open spec fn edited_count(
    local: Seq<(Seq<char>, Seq<char>)>,
    state: Map<Seq<char>, Known>,
) -> nat {
    local.filter(|row: (Seq<char>, Seq<char>)| edited(state, row.0, row.1)).len()
}

pub open spec fn vanished_count(
    state: Seq<(Seq<char>, Known)>,
    local: Map<Seq<char>, Seq<char>>,
) -> nat {
    state.filter(|row: (Seq<char>, Known)| vanished(local, row.0, row.1)).len()
}

pub open spec fn live_count(entries: Seq<Entry>) -> nat {
    entries.filter(|e: Entry| !e.deleted).len()
}

fn count_edited(local: &Vec<LocalFile>, state: &LocalState) -> (n: usize)
    ensures
        n == edited_count(local_rows(local@), state@),
        n <= local@.len(),
{
    let ghost rows = local_rows(local@);
    let ghost keep = |row: (Seq<char>, Seq<char>)| edited(state@, row.0, row.1);
    let mut n: usize = 0;
    let mut i: usize = 0;
    proof {
        reveal(Seq::filter);
        assert(rows.take(0) =~= Seq::empty());
    }
    while i < local.len()
        invariant
            i <= local.len(),
            n <= i,
            rows == local_rows(local@),
            keep == (|row: (Seq<char>, Seq<char>)| edited(state@, row.0, row.1)),
            n == rows.take(i as int).filter(keep).len(),
        decreases local.len() - i,
    {
        let file = &local[i];
        proof {
            lemma_filter_step(rows, i as int, keep);
            assert(rows[i as int] == (file.path@, file.sha256@));
        }
        let same = match state.find(file.path.as_str()) {
            Some(seen) => match &seen.sha256 {
                Some(digest) => same_text(digest.as_str(), file.sha256.as_str()),
                None => false,
            },
            None => false,
        };
        if !same {
            n += 1;
        }
        i += 1;
    }
    assert(rows.take(i as int) =~= rows);
    n
}

fn count_vanished(local: &Vec<LocalFile>, state: &LocalState) -> (n: usize)
    ensures
        n == vanished_count(state_rows(state.entries@), keyed(local_rows(local@))),
        n <= state.entries@.len(),
{
    let ghost rows = state_rows(state.entries@);
    let ghost files = keyed(local_rows(local@));
    let ghost keep = |row: (Seq<char>, Known)| vanished(files, row.0, row.1);
    let mut n: usize = 0;
    let mut i: usize = 0;
    proof {
        reveal(Seq::filter);
        assert(rows.take(0) =~= Seq::empty());
    }
    while i < state.entries.len()
        invariant
            i <= state.entries.len(),
            n <= i,
            rows == state_rows(state.entries@),
            files == keyed(local_rows(local@)),
            keep == (|row: (Seq<char>, Known)| vanished(files, row.0, row.1)),
            n == rows.take(i as int).filter(keep).len(),
        decreases state.entries.len() - i,
    {
        let row: &SeenRow = &state.entries[i];
        proof {
            lemma_filter_step(rows, i as int, keep);
            assert(rows[i as int] == (row.path@, row.seen@));
        }
        if row.seen.sha256.is_some() && find_local(local, row.path.as_str()).is_none() {
            n += 1;
        }
        i += 1;
    }
    assert(rows.take(i as int) =~= rows);
    n
}

fn count_live(entries: &Vec<Entry>) -> (n: usize)
    ensures
        n == live_count(entries@),
{
    let ghost keep = |e: Entry| !e.deleted;
    let mut n: usize = 0;
    let mut i: usize = 0;
    proof {
        reveal(Seq::filter);
        assert(entries@.take(0) =~= Seq::empty());
    }
    while i < entries.len()
        invariant
            i <= entries.len(),
            n <= i,
            keep == (|e: Entry| !e.deleted),
            n == entries@.take(i as int).filter(keep).len(),
        decreases entries.len() - i,
    {
        proof {
            lemma_filter_step(entries@, i as int, keep);
        }
        if !entries[i].deleted {
            n += 1;
        }
        i += 1;
    }
    assert(entries@.take(i as int) =~= entries@);
    n
}

/// Compares the folder with what was seen last, and counts what the server has.
pub fn status(
    local: &Vec<LocalFile>,
    state: &LocalState,
    manifest: &Manifest,
    conflicts: usize,
) -> (status: Status)
    requires
        state.wf(),
        distinct(local_rows(local@)),
        local@.len() + state.entries@.len() <= usize::MAX,
    ensures
        status.local_files == local@.len(),
        status.remote_files == live_count(manifest.entries@),
        status.pending_local == edited_count(local_rows(local@), state@) + vanished_count(
            state_rows(state.entries@),
            keyed(local_rows(local@)),
        ),
        status.conflicts == conflicts,
        status.generation == manifest.generation,
{
    let changed = count_edited(local, state);
    let deleted = count_vanished(local, state);
    Status {
        local_files: local.len(),
        remote_files: count_live(&manifest.entries),
        pending_local: changed + deleted,
        conflicts,
        generation: manifest.generation,
    }
}

/// What wakes the daemon.
#[derive(Clone, Copy, Debug, PartialEq, Eq, Structural)]
pub enum DaemonEvent {
    /// The poll is due.
    Poll,
    /// The watcher has seen something, or has gone away.
    Watched { alive: bool },
    /// The check for a new release is due.
    UpdateDue,
    /// The check has ended: a new client was installed, or not.
    UpdateChecked { installed: bool },
    /// The daemon is asked to end.
    Terminated,
}

/// What the daemon does.
#[derive(Clone, Copy, Debug, PartialEq, Eq, Structural)]
pub enum DaemonAction {
    Sync,
    /// Wait until the folder is quiet, forget what was seen meanwhile, and synchronize.
    SettleThenSync,
    CheckUpdate,
    Stop,
}

pub open spec fn daemon_error(event: DaemonEvent) -> Option<ClientError> {
    if event == (DaemonEvent::Watched { alive: false }) {
        Some(ClientError::WatcherStopped)
    } else {
        None
    }
}

/// What the daemon does when something wakes it.
pub fn daemon_step(event: DaemonEvent, auto_update: bool) -> (result: Result<
    DaemonAction,
    ClientError,
>)
    ensures
        gives_up(result, daemon_error(event)),
        result matches Ok(action) ==> action == match event {
            DaemonEvent::Poll => DaemonAction::Sync,
            DaemonEvent::Watched { .. } => DaemonAction::SettleThenSync,
            DaemonEvent::UpdateDue => if auto_update {
                DaemonAction::CheckUpdate
            } else {
                DaemonAction::Sync
            },
            DaemonEvent::UpdateChecked { installed } => if installed {
                DaemonAction::Stop
            } else {
                DaemonAction::Sync
            },
            DaemonEvent::Terminated => DaemonAction::Stop,
        },
{
    match event {
        DaemonEvent::Poll => Ok(DaemonAction::Sync),
        DaemonEvent::Watched { alive } => if alive {
            Ok(DaemonAction::SettleThenSync)
        } else {
            Err(ClientError::WatcherStopped)
        },
        DaemonEvent::UpdateDue => if auto_update {
            Ok(DaemonAction::CheckUpdate)
        } else {
            Ok(DaemonAction::Sync)
        },
        DaemonEvent::UpdateChecked { installed } => if installed {
            Ok(DaemonAction::Stop)
        } else {
            Ok(DaemonAction::Sync)
        },
        DaemonEvent::Terminated => Ok(DaemonAction::Stop),
    }
}

/// A server address is accepted exactly where nobody can listen in on it and it carries neither
/// credentials nor a query nor a fragment.
pub proof fn law_plain_protected_address_is_accepted(address: Option<Address>)
    ensures
        server_error(address) is None <==> address is Some && protected(address->0)
            && !address->0.has_query && !address->0.has_fragment && address->0.username.len() == 0
            && !address->0.has_password,
        address is None <==> server_error(address) == Some(ClientError::InvalidUrl),
        address is Some && !protected(address->0) <==> server_error(address) == Some(
            ClientError::InsecureUrl,
        ),
{
}

/// A client can talk to a server exactly where its address is accepted, the client has an
/// identity and the key of the server is accepted.
pub proof fn law_configured_client_can_talk(server: Seq<char>, pin: Seq<char>, has_identity: bool)
    ensures
        api_error(server, pin, has_identity) is None <==> server_error(address_of(server)) is None
            && has_identity && pin_error(pin) is None,
{
}

/// An enrollment may begin exactly where the configuration is outside the folder, a client that
/// was configured before keeps server and folder and is not enrolled, and an enrollment that is
/// under way is of the same server and folder.
pub proof fn law_enrollment_may_begin(
    inside: bool,
    previous: Option<ClientConfig>,
    pending: Option<PendingEnrollment>,
    server: Seq<char>,
    root: Seq<u8>,
)
    ensures
        enroll_error(inside, previous, pending, server, root) is None <==> !inside && (
        previous is Some ==> previous->0.root@ == root && trim_end_of(previous->0.server@, '/')
            == trim_end_of(server, '/') && previous->0.identity is None) && (pending is Some
            ==> pending->0.config.root@ == root && pending->0.config.server@ == server),
        inside <==> enroll_error(inside, previous, pending, server, root) == Some(
            ClientError::ConfigInside,
        ),
{
}

/// What an enrollment needs next: an identity where there is none, then the certificate of the
/// chip until the server sent its challenge, then the answer to it.
pub proof fn law_enrollment_goes_step_by_step(pending: PendingEnrollment)
    ensures
        need_of(None) == Ok::<EnrollNeed, ClientError>(EnrollNeed::Identity),
        ({
            let error = api_error(
                pending.config.server@,
                pending.config.server_public_key@,
                pending.config.identity is Some,
            );
            &&& error is None && pending.challenge is None ==> need_of(Some(pending)) == Ok::<
                EnrollNeed,
                ClientError,
            >(EnrollNeed::Certificate)
            &&& error is None && pending.challenge is Some ==> need_of(Some(pending)) == Ok::<
                EnrollNeed,
                ClientError,
            >(EnrollNeed::Activation)
            &&& error is Some ==> need_of(Some(pending)) == Err::<EnrollNeed, ClientError>(error->0)
        }),
{
}

/// The server confirms an enrollment exactly with the fingerprint of the client's own key.
pub proof fn law_own_fingerprint_confirms(
    public: Seq<char>,
    fingerprint: Seq<char>,
    decoded: Option<TpmPublic>,
)
    ensures
        confirmation_error(public, fingerprint, decoded) is None <==> signing_error(
            public,
            decoded,
        ) is None && fingerprint == hash_text(p256_der(decoded->0.x@, decoded->0.y@)->0),
        signing_error(public, decoded) is None && fingerprint != hash_text(
            p256_der(decoded->0.x@, decoded->0.y@)->0,
        ) ==> confirmation_error(public, fingerprint, decoded) == Some(
            ClientError::UnexpectedFingerprint,
        ),
{
}

/// A server is new to its first device exactly where all that it lists is deleted.
pub proof fn law_first_device_finds_no_files(entries: Seq<Entry>)
    ensures
        !has_live_entry(entries) <==> forall|i: int|
            0 <= i < entries.len() ==> (#[trigger] entries[i]).deleted,
        live_count(entries) == 0 <==> !has_live_entry(entries),
{
    lemma_none_left(entries, |e: Entry| !e.deleted);
}

proof fn lemma_none_left<T>(s: Seq<T>, keep: spec_fn(T) -> bool)
    ensures
        s.filter(keep).len() == 0 <==> forall|i: int| 0 <= i < s.len() ==> !keep(#[trigger] s[i]),
{
    let kept = s.filter(keep);
    if kept.len() == 0 {
        assert forall|i: int| 0 <= i < s.len() implies !keep(#[trigger] s[i]) by {
            crate::catalog::lemma_filter_members(s, keep, s[i]);
            assert(s.contains(s[i]));
        }
    } else {
        crate::catalog::lemma_filter_members(s, keep, kept[0]);
        assert(kept.contains(kept[0]));
        let i = choose|i: int| 0 <= i < s.len() && s[i] == kept[0];
        assert(keep(s[i]));
    }
}

/// Nothing is pending exactly where every local file is as it was seen last and every file that
/// was seen last is still there.
pub proof fn law_nothing_is_pending(
    local: Seq<(Seq<char>, Seq<char>)>,
    state: Seq<(Seq<char>, Known)>,
)
    requires
        distinct(local),
        distinct(state),
    ensures
        edited_count(local, keyed(state)) + vanished_count(state, keyed(local)) == 0 <==> (forall|
            i: int,
        |
            0 <= i < local.len() ==> keyed(state).contains_key((#[trigger] local[i]).0) && keyed(
                state,
            )[local[i].0].sha256 == Some(local[i].1)) && (forall|i: int|
            0 <= i < state.len() && (#[trigger] state[i]).1.sha256 is Some ==> keyed(
                local,
            ).contains_key(state[i].0)),
{
    let changed = |row: (Seq<char>, Seq<char>)| edited(keyed(state), row.0, row.1);
    let gone = |row: (Seq<char>, Known)| vanished(keyed(local), row.0, row.1);
    lemma_none_left(local, changed);
    lemma_none_left(state, gone);
    if local.filter(changed).len() == 0 {
        assert forall|i: int| 0 <= i < local.len() implies keyed(state).contains_key(
            (#[trigger] local[i]).0,
        ) && keyed(state)[local[i].0].sha256 == Some(local[i].1) by {
            assert(!changed(local[i]));
        }
    } else {
        let i = choose|i: int| 0 <= i < local.len() && changed(#[trigger] local[i]);
        assert(!(keyed(state).contains_key(local[i].0) && keyed(state)[local[i].0].sha256 == Some(
            local[i].1,
        )));
    }
    if state.filter(gone).len() == 0 {
        assert forall|i: int|
            0 <= i < state.len() && (#[trigger] state[i]).1.sha256 is Some implies keyed(
            local,
        ).contains_key(state[i].0) by {
            assert(!gone(state[i]));
        }
    } else {
        let i = choose|i: int| 0 <= i < state.len() && gone(#[trigger] state[i]);
        assert(state[i].1.sha256 is Some && !keyed(local).contains_key(state[i].0));
    }
}

/// The daemon gives up only where the watcher of the folder stopped.
pub proof fn law_daemon_gives_up_without_its_watcher(event: DaemonEvent)
    ensures
        daemon_error(event) is Some <==> event == (DaemonEvent::Watched { alive: false }),
{
}

} // verus!
