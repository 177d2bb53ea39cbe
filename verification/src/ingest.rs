//! Taking registrations in.
//!
//! Whoever listens on the transport hands each thing that arrives to
//! `examine`, which decides what is to become of it, and then lets the store
//! carry the decision out; `SessionTracker::ingest` does both. Nothing that
//! arrives can do more than register one session: what cannot be used is
//! skipped, what is turned down leaves the store as it was.

use crate::details::{
    checks_into, resolved_client, session_key, validation_error, SessionDetails, SessionError,
    SessionResult, StationToDetector,
};
use crate::parse::parse_ip_text;
use crate::tracker::{expiry_after, merged, SessionTracker};
use vstd::prelude::*;

verus! {

/// What the transport delivered.
#[derive(Debug)]
pub enum IngestEvent {
    /// The transport failed to deliver a message.
    ReceiveFailed,
    /// A message came, and its payload could not be had.
    PayloadUnreadable,
    /// A payload came that is no registration.
    DecodeFailed,
    /// A registration came.
    Registration(StationToDetector),
}

/// What is to become of an event.
#[derive(Clone, Copy, Debug)]
pub enum IngestAction {
    /// The event holds no registration: leave the store as it is.
    Skip,
    /// The registration is turned down: leave the store as it is.
    Reject(SessionError),
    /// The registration is accepted: register the session.
    Apply(SessionDetails),
}

/// The key of the session that the accepted registration `msg` registers.
pub open spec fn registration_key(msg: StationToDetector) -> Seq<char> {
    let phantom = parse_ip_text(msg.phantom_ip@).unwrap();
    session_key(
        resolved_client(msg.client_ip@, phantom).unwrap(),
        phantom,
        msg.phantom_port as nat,
    )
}

/// Whether `action` is what is to become of `event`: an event without a
/// registration is skipped, a registration is turned down with its
/// validation error or applied with the details that it was checked into.
pub open spec fn action_for(event: IngestEvent, action: IngestAction) -> bool {
    match action {
        IngestAction::Skip => !(event is Registration),
        IngestAction::Reject(e) => event matches IngestEvent::Registration(msg) && checks_into(
            msg.client_ip@,
            msg.phantom_ip@,
            msg.phantom_port,
            msg.timeout_ns,
            Err(e),
        ),
        IngestAction::Apply(d) => event matches IngestEvent::Registration(msg) && checks_into(
            msg.client_ip@,
            msg.phantom_ip@,
            msg.phantom_port,
            msg.timeout_ns,
            Ok(d),
        ),
    }
}

/// The store `m` after `action` was carried out at the instant `now`.
pub open spec fn applied(m: Map<Seq<char>, u64>, action: IngestAction, now: u64) -> Map<
    Seq<char>,
    u64,
> {
    match action {
        IngestAction::Apply(d) => merged(m, d.key(), expiry_after(now, d.timeout)),
        _ => m,
    }
}

/// The store `m` after `event` came at the instant `now`: an accepted
/// registration is merged in, anything else changes nothing.
pub open spec fn ingested(m: Map<Seq<char>, u64>, event: IngestEvent, now: u64) -> Map<
    Seq<char>,
    u64,
> {
    match event {
        IngestEvent::Registration(msg) => if validation_error(msg.client_ip@, msg.phantom_ip@)
            is None {
            merged(m, registration_key(msg), expiry_after(now, msg.timeout_ns))
        } else {
            m
        },
        _ => m,
    }
}

/// Carrying out the action for an event changes the store as the event
/// does.
pub proof fn lemma_applied_is_ingested(
    m: Map<Seq<char>, u64>,
    event: IngestEvent,
    action: IngestAction,
    now: u64,
)
    requires
        action_for(event, action),
    ensures
        applied(m, action, now) == ingested(m, event, now),
{
}

/// Decides what is to become of `event`. The store is not looked at.
pub fn examine(event: &IngestEvent) -> (r: IngestAction)
    ensures
        action_for(*event, r),
{
    match event {
        IngestEvent::Registration(msg) => match SessionResult::from(msg) {
            Ok(d) => IngestAction::Apply(d),
            Err(e) => IngestAction::Reject(e),
        },
        _ => IngestAction::Skip,
    }
}

impl SessionTracker {
    /// Carries `action` out at the instant `now`.
    pub fn apply_at(&mut self, action: &IngestAction, now: u64)
        requires
            old(self).wf(),
        ensures
            final(self).wf(),
            final(self)@ == applied(old(self)@, *action, now),
    {
        match action {
            IngestAction::Apply(d) => self.insert_session_at(*d, now),
            _ => {},
        }
    }

    /// Carries `action` out at the present instant.
    pub fn apply(&mut self, action: &IngestAction)
        requires
            old(self).wf(),
        ensures
            final(self).wf(),
            exists|now: u64| final(self)@ == #[trigger] applied(old(self)@, *action, now),
    {
        match action {
            IngestAction::Apply(d) => {
                self.insert_session(*d);
                proof {
                    let now = choose|now: u64|
                        self@ == merged(old(self)@, d.key(), #[trigger] expiry_after(now, d.timeout));
                    assert(self@ == applied(old(self)@, *action, now));
                }
            },
            _ => {
                assert(self@ == applied(old(self)@, *action, 0));
            },
        }
    }

    /// Decides what is to become of `event`, which came at the instant
    /// `now`, and carries it out.
    pub fn ingest_at(&mut self, event: &IngestEvent, now: u64) -> (r: IngestAction)
        requires
            old(self).wf(),
        ensures
            final(self).wf(),
            action_for(*event, r),
            final(self)@ == ingested(old(self)@, *event, now),
    {
        let action = examine(event);
        self.apply_at(&action, now);
        proof {
            lemma_applied_is_ingested(old(self)@, *event, action, now);
        }
        action
    }

    /// Decides what is to become of `event`, which came just now, and
    /// carries it out.
    pub fn ingest(&mut self, event: &IngestEvent) -> (r: IngestAction)
        requires
            old(self).wf(),
        ensures
            final(self).wf(),
            action_for(*event, r),
            exists|now: u64| final(self)@ == #[trigger] ingested(old(self)@, *event, now),
    {
        let action = examine(event);
        self.apply(&action);
        proof {
            let now = choose|now: u64| self@ == #[trigger] applied(old(self)@, action, now);
            lemma_applied_is_ingested(old(self)@, *event, action, now);
            assert(self@ == ingested(old(self)@, *event, now));
        }
        action
    }
}

} // verus!
