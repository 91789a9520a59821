use vstd::prelude::*;

use crate::state::{rung, ReindexTrigger};

verus! {

/// The event type that a webhook delivery announces.
#[derive(Clone, Copy, Debug, PartialEq, Eq, Structural)]
pub enum EventKind {
    Push,
    Other,
}

/// A webhook delivery, as far as the decision needs it: the announced
/// event type, and whether the payload is that of a push.
#[derive(Clone, Copy, Debug, PartialEq, Eq, Structural)]
pub struct GithubEvent {
    pub kind: EventKind,
    pub payload_is_push: bool,
}

/// The answer to a webhook delivery.
#[derive(Clone, Copy, Debug, PartialEq, Eq, Structural)]
pub enum WebhookStatus {
    Accepted,
    BadRequest,
}

/// Handles a webhook delivery: a push asks for a rebuild and is accepted;
/// anything else is a bad request and changes nothing.
pub fn handle_github_webhook(trigger: &mut ReindexTrigger, evt: &GithubEvent) -> (r: WebhookStatus)
    ensures
        r == WebhookStatus::Accepted <==> (evt.kind == EventKind::Push && evt.payload_is_push),
        r == WebhookStatus::Accepted ==> *final(trigger) == rung(*old(trigger)),
        r == WebhookStatus::BadRequest ==> *final(trigger) == *old(trigger),
{
    match evt.kind {
        EventKind::Push => {},
        _ => return WebhookStatus::BadRequest,
    }
    if !evt.payload_is_push {
        return WebhookStatus::BadRequest;
    }
    trigger.trigger();
    WebhookStatus::Accepted
}

} // verus!
