//! What the administrator's commands decide.
use vstd::prelude::*;

use crate::device_auth::DeviceEnrollment;
use crate::text::{copy_opt_text, opt_text, same_text};

verus! {

/// Why a pairing ends.
#[derive(Clone, Copy, Debug, PartialEq, Eq, Structural)]
pub enum PairError {
    NoTerminal,
    NoFingerprint,
    Ended,
    AlreadyApproved,
    TimedOut,
    Cancelled,
}

pub open spec fn pair_message(error: PairError) -> Seq<char> {
    match error {
        PairError::NoTerminal => "device pair requires an interactive terminal"@,
        PairError::NoFingerprint => "verified enrollment has no fingerprint"@,
        PairError::Ended => "pairing request expired or was cancelled"@,
        PairError::AlreadyApproved => "device is already approved"@,
        PairError::TimedOut =>
            "timed out waiting for TPM proof; rerun this command with the same code to resume"@,
        PairError::Cancelled => "pairing cancelled; the client was not approved"@,
    }
}

impl PairError {
    /// What the administrator reads.
    pub fn message(&self) -> (text: &'static str)
        ensures
            text@ == pair_message(*self),
    {
        match self {
            PairError::NoTerminal => "device pair requires an interactive terminal",
            PairError::NoFingerprint => "verified enrollment has no fingerprint",
            PairError::Ended => "pairing request expired or was cancelled",
            PairError::AlreadyApproved => "device is already approved",
            PairError::TimedOut => {
                "timed out waiting for TPM proof; rerun this command with the same code to resume"
            },
            PairError::Cancelled => "pairing cancelled; the client was not approved",
        }
    }
}

/// What is known of a pairing by its enrollment: an end, or the fingerprint to compare, or
/// nothing yet.
pub open spec fn pairing_state(
    status: Seq<char>,
    fingerprint: Option<Seq<char>>,
    late: bool,
) -> Result<Option<Seq<char>>, PairError> {
    if status == "pending-approval"@ {
        match fingerprint {
            Some(text) => Ok(Some(text)),
            None => Err(PairError::NoFingerprint),
        }
    } else if status == "expired"@ || status == "revoked"@ {
        Err(PairError::Ended)
    } else if status == "approved"@ {
        Err(PairError::AlreadyApproved)
    } else if late {
        Err(PairError::TimedOut)
    } else {
        Ok(None)
    }
}

/// Looks at an enrollment that the administrator waits for; `late` tells that the wait has
/// been long enough. Nothing means: wait on.
pub fn pair_progress(entry: &DeviceEnrollment, late: bool) -> (result: Result<
    Option<String>,
    PairError,
>)
    ensures
        match result {
            Ok(fingerprint) => pairing_state(
                entry.status@,
                opt_text(entry.fingerprint),
                late,
            ) == Ok::<Option<Seq<char>>, PairError>(opt_text(fingerprint)),
            Err(e) => pairing_state(entry.status@, opt_text(entry.fingerprint), late) == Err::<
                Option<Seq<char>>,
                PairError,
            >(e),
        },
{
    let status = entry.status.as_str();
    if same_text(status, "pending-approval") {
        return match &entry.fingerprint {
            Some(_) => Ok(copy_opt_text(&entry.fingerprint)),
            None => Err(PairError::NoFingerprint),
        };
    }
    if same_text(status, "expired") || same_text(status, "revoked") {
        return Err(PairError::Ended);
    }
    if same_text(status, "approved") {
        return Err(PairError::AlreadyApproved);
    }
    if late {
        return Err(PairError::TimedOut);
    }
    Ok(None)
}

/// Whether an answer approves a device. Anything but a clear yes does not.
pub fn approves(answer: &str) -> (yes: bool)
    ensures
        yes == (answer@ == "y"@ || answer@ == "Y"@ || answer@ == "yes"@ || answer@ == "YES"@),
{
    same_text(answer, "y") || same_text(answer, "Y") || same_text(answer, "yes") || same_text(
        answer,
        "YES",
    )
}

/// The administrator is shown a fingerprint exactly where the key was proved and waits for the
/// approval; a pairing that is over, approved or late ends the wait, and any other goes on.
pub proof fn law_proved_key_is_shown(status: Seq<char>, fingerprint: Option<Seq<char>>, late: bool)
    ensures
        status == "pending-approval"@ && fingerprint is Some ==> pairing_state(
            status,
            fingerprint,
            late,
        ) == Ok::<Option<Seq<char>>, PairError>(fingerprint),
        status == "pending-approval"@ && fingerprint is None ==> pairing_state(
            status,
            fingerprint,
            late,
        ) == Err::<Option<Seq<char>>, PairError>(PairError::NoFingerprint),
        status == "expired"@ || status == "revoked"@ ==> pairing_state(status, fingerprint, late)
            == Err::<Option<Seq<char>>, PairError>(PairError::Ended),
        status == "approved"@ ==> pairing_state(status, fingerprint, late) == Err::<
            Option<Seq<char>>,
            PairError,
        >(PairError::AlreadyApproved),
        status == "invited"@ ==> pairing_state(status, fingerprint, late) == (if late {
            Err::<Option<Seq<char>>, PairError>(PairError::TimedOut)
        } else {
            Ok(None)
        }),
{
    reveal_strlit("pending-approval");
    reveal_strlit("expired");
    reveal_strlit("revoked");
    reveal_strlit("approved");
    reveal_strlit("invited");
    assert("invited"@.len() != "pending-approval"@.len());
    assert("invited"@[0] != "expired"@[0] && "invited"@[0] != "revoked"@[0]);
    assert("approved"@.len() == 8 && "expired"@.len() == 7 && "revoked"@.len() == 7
        && "pending-approval"@.len() == 16);
}

} // verus!
