//! Upgrading a session token to an access token, and polling for the usage
//! of a request.
//!
//! The upgrade sends one request carrying a UUID and a PKCE challenge, then
//! polls up to five times: an answer of 200 carries the token, 404 means
//! "not yet" (wait a second and poll again), anything else ends the
//! attempt.  The usage poll asks up to five times for the latest usage
//! events and takes the token usage of the first event once it has one.
//! The requests themselves are sent by the caller; here are what they carry
//! and what each answer leads to.
use vstd::prelude::*;
use vstd::string::StringExecFns;

verus! {

/// How many polls an upgrade or a usage query makes at most.
pub const POLL_MAX_ATTEMPTS: usize = 5;

/// The JSON body of an upgrade request: `{"uuid":"<uuid>","challenge":"<challenge>"}`.
pub open spec fn upgrade_body_text(uuid: Seq<char>, challenge: Seq<char>) -> Seq<char> {
    "{\"uuid\":\""@ + uuid + "\",\"challenge\":\""@ + challenge + "\"}"@
}

/// The referer of an upgrade request: the login page with the challenge and
/// the UUID in its query.
pub open spec fn upgrade_referer_text(uuid: Seq<char>, challenge: Seq<char>) -> Seq<char> {
    "https://cursor.com/loginDeepControl?challenge="@ + challenge + "&uuid="@ + uuid
        + "&mode=login"@
}

/// What an upgrade request carries besides its fixed headers.
pub struct TokenUpgradeRequest {
    /// The JSON body.
    pub body: String,
    /// The `Referer` header.
    pub referer: String,
}

/// The body and referer of an upgrade request for `uuid` and `challenge`.
pub fn build_token_upgrade_request(uuid: &str, challenge: &str) -> (r: TokenUpgradeRequest)
    ensures
        r.body@ == upgrade_body_text(uuid@, challenge@),
        r.referer@ == upgrade_referer_text(uuid@, challenge@),
{
    let mut body = String::from_str("{\"uuid\":\"");
    body.append(uuid);
    body.append("\",\"challenge\":\"");
    body.append(challenge);
    body.append("\"}");
    let mut referer = String::from_str("https://cursor.com/loginDeepControl?challenge=");
    referer.append(challenge);
    referer.append("&uuid=");
    referer.append(uuid);
    referer.append("&mode=login");
    TokenUpgradeRequest { body, referer }
}

/// Where an upgrade stands.
#[derive(Debug, Clone, Copy, PartialEq, Eq, Structural)]
pub enum UpgradeState {
    /// The upgrade request is out; its answer is awaited.
    Requested,
    /// A poll is out; `left` polls may be sent, this one included.
    Polling { left: usize },
    /// The token came with the last answer.
    Done,
    /// The upgrade failed.
    Failed,
}

/// What came back for the request that is out.
#[derive(Debug, Clone, Copy, PartialEq, Eq, Structural)]
pub enum UpgradeEvent {
    /// An answer with this HTTP status.
    Status(u16),
    /// The request could not be sent or had no answer.
    SendFailed,
}

/// What the caller does next.
#[derive(Debug, Clone, Copy, PartialEq, Eq, Structural)]
pub enum UpgradeAction {
    /// Send the first poll.
    Poll,
    /// Wait a second, then send the next poll.
    WaitThenPoll,
    /// Wait a second, then give up.
    WaitThenGiveUp,
    /// Read the access token from the answer's JSON.
    ReadToken,
    /// Give up: no token.
    GiveUp,
}

/// The next state and action of an upgrade, for what came back.
pub open spec fn upgrade_transition(state: UpgradeState, event: UpgradeEvent) -> (
    UpgradeState,
    UpgradeAction,
) {
    match (state, event) {
        (UpgradeState::Requested, UpgradeEvent::Status(s)) => if 200 <= s < 300 {
            (UpgradeState::Polling { left: POLL_MAX_ATTEMPTS }, UpgradeAction::Poll)
        } else {
            (UpgradeState::Failed, UpgradeAction::GiveUp)
        },
        (UpgradeState::Polling { left }, UpgradeEvent::Status(s)) => if s == 200 {
            (UpgradeState::Done, UpgradeAction::ReadToken)
        } else if s == 404 {
            if left > 1 {
                (UpgradeState::Polling { left: (left - 1) as usize }, UpgradeAction::WaitThenPoll)
            } else {
                (UpgradeState::Failed, UpgradeAction::WaitThenGiveUp)
            }
        } else {
            (UpgradeState::Failed, UpgradeAction::GiveUp)
        },
        (UpgradeState::Requested, UpgradeEvent::SendFailed) => (
            UpgradeState::Failed,
            UpgradeAction::GiveUp,
        ),
        (UpgradeState::Polling { .. }, UpgradeEvent::SendFailed) => (
            UpgradeState::Failed,
            UpgradeAction::GiveUp,
        ),
        (UpgradeState::Done, _) => (UpgradeState::Done, UpgradeAction::GiveUp),
        (UpgradeState::Failed, _) => (UpgradeState::Failed, UpgradeAction::GiveUp),
    }
}

/// One step of an upgrade: the state and action after `event`.  A success
/// status (2xx) for the upgrade request starts the polls; a poll answered
/// 200 carries the token, 404 waits for the next poll (five at most), any
/// other answer or a failed send ends the upgrade.
pub fn upgrade_step(state: UpgradeState, event: UpgradeEvent) -> (r: (UpgradeState, UpgradeAction))
    requires
        state matches UpgradeState::Polling { left } ==> 1 <= left <= POLL_MAX_ATTEMPTS,
    ensures
        r == upgrade_transition(state, event),
        r.0 matches UpgradeState::Polling { left } ==> 1 <= left <= POLL_MAX_ATTEMPTS,
{
    match (state, event) {
        (UpgradeState::Requested, UpgradeEvent::Status(s)) => if 200 <= s && s < 300 {
            (UpgradeState::Polling { left: POLL_MAX_ATTEMPTS }, UpgradeAction::Poll)
        } else {
            (UpgradeState::Failed, UpgradeAction::GiveUp)
        },
        (UpgradeState::Polling { left }, UpgradeEvent::Status(s)) => if s == 200 {
            (UpgradeState::Done, UpgradeAction::ReadToken)
        } else if s == 404 {
            if left > 1 {
                (UpgradeState::Polling { left: left - 1 }, UpgradeAction::WaitThenPoll)
            } else {
                (UpgradeState::Failed, UpgradeAction::WaitThenGiveUp)
            }
        } else {
            (UpgradeState::Failed, UpgradeAction::GiveUp)
        },
        (UpgradeState::Requested, UpgradeEvent::SendFailed) => (
            UpgradeState::Failed,
            UpgradeAction::GiveUp,
        ),
        (UpgradeState::Polling { .. }, UpgradeEvent::SendFailed) => (
            UpgradeState::Failed,
            UpgradeAction::GiveUp,
        ),
        (UpgradeState::Done, _) => (UpgradeState::Done, UpgradeAction::GiveUp),
        (UpgradeState::Failed, _) => (UpgradeState::Failed, UpgradeAction::GiveUp),
    }
}

/// The state after a run of events from the start.
pub open spec fn upgrade_after(events: Seq<UpgradeEvent>) -> UpgradeState
    decreases events.len(),
{
    if events.len() == 0 {
        UpgradeState::Requested
    } else {
        upgrade_transition(upgrade_after(events.drop_last()), events.last()).0
    }
}

/// An upgrade sends one upgrade request and at most five polls: while it
/// polls, the answers received so far and the polls still allowed add up to
/// six; it awaits the upgrade answer only before any event; and after more
/// than six answers it has ended, in `Done` or `Failed`.
pub proof fn lemma_upgrade_ends(events: Seq<UpgradeEvent>)
    ensures
        upgrade_after(events) matches UpgradeState::Polling { left } ==> 1 <= left
            <= POLL_MAX_ATTEMPTS && events.len() + left == 1 + POLL_MAX_ATTEMPTS,
        upgrade_after(events) is Requested ==> events.len() == 0,
        events.len() > 1 + POLL_MAX_ATTEMPTS ==> (upgrade_after(events) is Done
            || upgrade_after(events) is Failed),
    decreases events.len(),
{
    if events.len() > 0 {
        lemma_upgrade_ends(events.drop_last());
    }
}

/// What a usage poll leads to.
pub enum UsagePoll<T> {
    /// The first event had a token usage: this one.
    Found(T),
    /// Not yet: poll again, with `left` polls still allowed.
    Again { left: usize },
    /// No usage: the request failed or the polls ran out.
    NotFound,
}

/// One step of the usage poll.  `left` polls were allowed before this one;
/// `fetched` is `None` when the request failed, else the token usage of the
/// first event returned, if any.
pub fn usage_poll_step<T>(left: usize, fetched: Option<Option<T>>) -> (r: UsagePoll<T>)
    requires
        1 <= left <= POLL_MAX_ATTEMPTS,
    ensures
        match fetched {
            None => r is NotFound,
            Some(Some(u)) => r == UsagePoll::Found(u),
            Some(None) => if left > 1 {
                r == UsagePoll::<T>::Again { left: (left - 1) as usize }
            } else {
                r is NotFound
            },
        },
{
    match fetched {
        None => UsagePoll::NotFound,
        Some(Some(u)) => UsagePoll::Found(u),
        Some(None) => if left > 1 {
            UsagePoll::Again { left: left - 1 }
        } else {
            UsagePoll::NotFound
        },
    }
}

} // verus!
