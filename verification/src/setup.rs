//! The guided first run of a client: it shows a code, waits until the administrator has
//! typed it in and has approved the key, and ends with the first synchronization.
use vstd::prelude::*;

use crate::client::{api_error, check_server, gives_up, ClientConfig, ClientError};
use crate::origin_auth::public_key;
use crate::text::{same_bytes, same_text, trim_end_of, without_trailing};
use crate::url::parse_url;

verus! {

/// One run waits at most this long.
pub const SETUP_SECONDS: u64 = 1800;

/// A code that was shown and not yet used up, with what it was shown for.
pub struct PendingPair {
    pub server: String,
    pub server_public_key: String,
    pub root: Vec<u8>,
    pub code: String,
}

/// Where a run begins.
pub enum SetupStart {
    /// The client is enrolled: it only synchronizes.
    Enrolled,
    /// A code was shown before and still stands.
    Resume { code: String },
    /// A code has to be made.
    Fresh,
}

/// Why a run does not begin.
pub open spec fn begin_error(
    previous: Option<ClientConfig>,
    pair: Option<PendingPair>,
    server: Seq<char>,
    key: Seq<char>,
    root: Seq<u8>,
) -> Option<ClientError> {
    if previous is Some && (previous->0.root@ != root || trim_end_of(previous->0.server@, '/')
        != trim_end_of(server, '/')) {
        Some(ClientError::OtherServer)
    } else if previous is Some && previous->0.identity is Some {
        None
    } else if api_error(server, key, true) is Some {
        api_error(server, key, true)
    } else if pair is Some && (pair->0.root@ != root || pair->0.server@ != server
        || pair->0.server_public_key@ != key) {
        Some(ClientError::OtherPending)
    } else {
        None
    }
}

/// Begins a run with what is configured already, and with the code that is pending. The
/// server's address and its public key are checked before a code is shown.
pub fn begin(
    previous: &Option<ClientConfig>,
    pair: &Option<PendingPair>,
    server: &str,
    key: &str,
    root: &[u8],
) -> (result: Result<SetupStart, ClientError>)
    ensures
        gives_up(result, begin_error(*previous, *pair, server@, key@, root@)),
        result matches Ok(start) ==> match start {
            SetupStart::Enrolled => previous is Some && previous->0.identity is Some,
            SetupStart::Resume { code } => !(previous is Some && previous->0.identity is Some)
                && pair is Some && code@ == pair->0.code@,
            SetupStart::Fresh => !(previous is Some && previous->0.identity is Some)
                && pair is None,
        },
{
    if let Some(config) = previous {
        let old_server = without_trailing(config.server.as_str(), '/');
        let new_server = without_trailing(server, '/');
        if !same_bytes(config.root.as_slice(), root) || !same_text(
            old_server.as_str(),
            new_server.as_str(),
        ) {
            return Err(ClientError::OtherServer);
        }
        if config.identity.is_some() {
            return Ok(SetupStart::Enrolled);
        }
    }
    check_server(&parse_url(server))?;
    match public_key(key) {
        Ok(_) => {},
        Err(e) => return Err(ClientError::Pin(e)),
    }
    match pair {
        Some(p) => {
            if !same_bytes(p.root.as_slice(), root) || !same_text(p.server.as_str(), server)
                || !same_text(p.server_public_key.as_str(), key) {
                return Err(ClientError::OtherPending);
            }
            Ok(SetupStart::Resume { code: p.code.as_str().to_owned() })
        },
        None => Ok(SetupStart::Fresh),
    }
}

/// What has happened.
#[derive(Clone, Copy, Debug, PartialEq, Eq, Structural)]
pub enum SetupEvent {
    /// The server's answer to the question whether the code was typed in.
    Answered { status: u16 },
    /// The TPM has proved itself.
    Enrolled,
    /// The server gives no access yet.
    Refused,
    /// The server gives access.
    Approved,
}

/// What the server's answer to a request for access means. `None` where it is neither yes
/// nor no.
pub open spec fn access_of(status: u16) -> Option<SetupEvent> {
    if status == 401 || status == 403 {
        Some(SetupEvent::Refused)
    } else if 200 <= status < 300 {
        Some(SetupEvent::Approved)
    } else {
        None
    }
}

/// What the server's answer to a request for access means.
pub fn access_event(status: u16) -> (event: Option<SetupEvent>)
    ensures
        event == access_of(status),
{
    if status == 401 || status == 403 {
        Some(SetupEvent::Refused)
    } else if status >= 200 && status < 300 {
        Some(SetupEvent::Approved)
    } else {
        None
    }
}

/// What to do next.
#[derive(Clone, Copy, Debug, PartialEq, Eq, Structural)]
pub enum SetupAction {
    /// Ask the server whether the code was typed in.
    Ask,
    /// Pause, and ask then.
    Wait,
    /// Prove the TPM to the server.
    Enroll,
    /// Ask for access with the enrolled key.
    Activate,
    /// Synchronize for the first time and forget the code.
    Sync,
    /// Forget the code: it is of no use any more.
    Discard,
}

/// A run that is under way.
#[derive(Clone, Copy, Debug, PartialEq, Eq, Structural)]
pub struct Setup {
    /// There is a key with which access can be asked for.
    pub has_key: bool,
    /// The TPM has proved itself in this run.
    pub enrolled: bool,
    /// The server has said that the code is used up, and access was not asked for since.
    pub gone: bool,
}

/// What follows an event, and the run after it. A code is used up where the device is
/// approved, too: so a client that has a key asks for access once more before it gives up.
pub open spec fn follows(run: Setup, event: SetupEvent, late: bool) -> (
    Setup,
    Result<SetupAction, ClientError>,
) {
    let calm = Setup { gone: false, ..run };
    let pause = if late {
        Err(ClientError::PairingTimeout)
    } else {
        Ok(SetupAction::Wait)
    };
    match event {
        SetupEvent::Answered { status } => if status == 410 {
            if run.has_key {
                (Setup { gone: true, ..run }, Ok(SetupAction::Activate))
            } else {
                (calm, Ok(SetupAction::Discard))
            }
        } else if status == 204 {
            (
                calm,
                Ok(
                    if run.enrolled {
                        SetupAction::Activate
                    } else {
                        SetupAction::Enroll
                    },
                ),
            )
        } else if status == 202 || status == 429 {
            (calm, pause)
        } else {
            (calm, Err(ClientError::PairingRefused))
        },
        SetupEvent::Enrolled => (
            Setup { has_key: true, enrolled: true, gone: false },
            Ok(SetupAction::Activate),
        ),
        SetupEvent::Refused => if run.gone {
            (calm, Ok(SetupAction::Discard))
        } else {
            (calm, pause)
        },
        SetupEvent::Approved => (calm, Ok(SetupAction::Sync)),
    }
}

impl Setup {
    /// A run begins. `has_key` tells that an earlier run has got as far as a key; then the
    /// device may have been approved meanwhile.
    pub fn new(has_key: bool) -> (begun: (Self, SetupAction))
        ensures
            begun.0 == (Setup { has_key, enrolled: false, gone: false }),
            begun.1 == if has_key {
                SetupAction::Activate
            } else {
                SetupAction::Ask
            },
    {
        let action = if has_key {
            SetupAction::Activate
        } else {
            SetupAction::Ask
        };
        (Setup { has_key, enrolled: false, gone: false }, action)
    }

    /// Goes on after an event, `elapsed` seconds into the run.
    pub fn advance(&mut self, event: SetupEvent, elapsed: u64) -> (result: Result<
        SetupAction,
        ClientError,
    >)
        ensures
            (*final(self), result) == follows(*old(self), event, elapsed >= 30 * 60),
    {
        let gone = self.gone;
        self.gone = false;
        let late = elapsed >= SETUP_SECONDS;
        match event {
            SetupEvent::Answered { status } => match status {
                410 => if self.has_key {
                    self.gone = true;
                    Ok(SetupAction::Activate)
                } else {
                    Ok(SetupAction::Discard)
                },
                204 => if self.enrolled {
                    Ok(SetupAction::Activate)
                } else {
                    Ok(SetupAction::Enroll)
                },
                202 | 429 => pause(late),
                _ => Err(ClientError::PairingRefused),
            },
            SetupEvent::Enrolled => {
                self.has_key = true;
                self.enrolled = true;
                Ok(SetupAction::Activate)
            },
            SetupEvent::Refused => if gone {
                Ok(SetupAction::Discard)
            } else {
                pause(late)
            },
            SetupEvent::Approved => Ok(SetupAction::Sync),
        }
    }
}

fn pause(late: bool) -> (result: Result<SetupAction, ClientError>)
    ensures
        result == if late {
            Err(ClientError::PairingTimeout)
        } else {
            Ok::<SetupAction, ClientError>(SetupAction::Wait)
        },
{
    if late {
        Err(ClientError::PairingTimeout)
    } else {
        Ok(SetupAction::Wait)
    }
}

/// The first synchronization comes with the approval and never before it.
pub proof fn law_approval_comes_before_the_first_sync(run: Setup, event: SetupEvent, late: bool)
    ensures
        follows(run, event, late).1 == Ok::<SetupAction, ClientError>(SetupAction::Sync) <==> event
            is Approved,
{
}

/// A code is forgotten only after the server has said that it is used up, and, where there
/// is a key, has refused access after that.
pub proof fn law_code_is_kept_while_it_is_of_use(
    run: Setup,
    first: SetupEvent,
    second: SetupEvent,
    late: bool,
)
    requires
        follows(follows(run, first, late).0, second, late).1 == Ok::<SetupAction, ClientError>(
            SetupAction::Discard,
        ),
    ensures
        second == (SetupEvent::Answered { status: 410 }) || (second is Refused && first == (
        SetupEvent::Answered { status: 410 })),
{
}

/// A run that has lasted long enough does not pause again.
pub proof fn law_a_run_ends(run: Setup, event: SetupEvent)
    ensures
        follows(run, event, true).1 != Ok::<SetupAction, ClientError>(SetupAction::Wait),
{
}

/// A setup may begin exactly where a client that was configured before keeps its server and its
/// folder and, unless that client is enrolled, the address and the key are acceptable and a
/// pairing that is under way is of the same server, key and folder.
pub proof fn law_setup_may_begin(
    previous: Option<ClientConfig>,
    pair: Option<PendingPair>,
    server: Seq<char>,
    key: Seq<char>,
    root: Seq<u8>,
)
    ensures
        begin_error(previous, pair, server, key, root) is None <==> (previous is Some
            ==> previous->0.root@ == root && trim_end_of(previous->0.server@, '/') == trim_end_of(
            server,
            '/',
        )) && ((previous is Some && previous->0.identity is Some) || (api_error(
            server,
            key,
            true,
        ) is None && (pair is Some ==> pair->0.root@ == root && pair->0.server@ == server
            && pair->0.server_public_key@ == key))),
        previous is Some && (previous->0.root@ != root || trim_end_of(previous->0.server@, '/')
            != trim_end_of(server, '/')) <==> begin_error(previous, pair, server, key, root)
            == Some(ClientError::OtherServer),
{
}

/// A check of the access is taken for a refusal or an approval by its status.
pub proof fn law_status_tells_the_access(status: u16)
    ensures
        access_of(status) == Some(SetupEvent::Refused) <==> status == 401 || status == 403,
        access_of(status) == Some(SetupEvent::Approved) <==> 200 <= status < 300,
        access_of(status) is None <==> !(status == 401 || status == 403 || 200 <= status < 300),
{
}

/// While the code is not registered, or the server is busy, the client waits, unless it waited
/// too long. Once the code is registered it enrolls, or goes on where it did so before.
pub proof fn law_setup_waits_for_the_code(run: Setup, status: u16, late: bool)
    ensures
        ({
            let next = follows(run, SetupEvent::Answered { status }, late).1;
            &&& status == 202 || status == 429 ==> next == (if late {
                Err::<SetupAction, ClientError>(ClientError::PairingTimeout)
            } else {
                Ok(SetupAction::Wait)
            })
            &&& status == 204 ==> next == Ok::<SetupAction, ClientError>(
                if run.enrolled {
                    SetupAction::Activate
                } else {
                    SetupAction::Enroll
                },
            )
            &&& status == 410 ==> next == Ok::<SetupAction, ClientError>(
                if run.has_key {
                    SetupAction::Activate
                } else {
                    SetupAction::Discard
                },
            )
            &&& status != 202 && status != 429 && status != 204 && status != 410 ==> next == Err::<
                SetupAction,
                ClientError,
            >(ClientError::PairingRefused)
        }),
{
}

/// A client that enrolled activates its key and holds it from then on; one that is refused waits
/// for the approval, unless the code is gone or it waited too long; one that is approved
/// synchronizes.
pub proof fn law_setup_waits_for_the_approval(run: Setup, late: bool)
    ensures
        follows(run, SetupEvent::Enrolled, late).1 == Ok::<SetupAction, ClientError>(
            SetupAction::Activate,
        ),
        follows(run, SetupEvent::Enrolled, late).0.has_key,
        follows(run, SetupEvent::Enrolled, late).0.enrolled,
        follows(run, SetupEvent::Refused, late).1 == (if run.gone {
            Ok::<SetupAction, ClientError>(SetupAction::Discard)
        } else if late {
            Err(ClientError::PairingTimeout)
        } else {
            Ok(SetupAction::Wait)
        }),
        follows(run, SetupEvent::Approved, late).1 == Ok::<SetupAction, ClientError>(
            SetupAction::Sync,
        ),
{
}

/// What a run knows of its key is not forgotten, and that the code is gone is known exactly where
/// the server just said so of a client that has a key.
pub proof fn law_run_remembers_its_key(run: Setup, event: SetupEvent, late: bool)
    ensures
        run.has_key ==> follows(run, event, late).0.has_key,
        run.enrolled ==> follows(run, event, late).0.enrolled,
        !run.has_key && follows(run, event, late).0.has_key ==> event is Enrolled,
        follows(run, event, late).0.gone <==> run.has_key && event == (SetupEvent::Answered {
            status: 410,
        }),
{
}

} // verus!
