//! Plain data the engine hands the presentation layer: DOM update
//! instructions, notifications, and the response envelopes around them.
//! The presentation layer serialises and renders these; nothing here
//! touches the store.

use vstd::prelude::*;

verus! {

/// A transient message for the user, with an optional display duration
/// in milliseconds.
#[derive(Debug)]
pub struct Notification {
    pub message: String,
    pub notification_type: String,
    pub duration: Option<u32>,
}

/// One DOM mutation: place `html` at `target` using `action` (such as
/// "replace").
#[derive(Debug)]
pub struct DomUpdate {
    pub html: String,
    pub target: String,
    pub action: String,
}

/// A full-page response: the DOM updates to apply, and an optional
/// notification to show.
#[derive(Debug)]
pub struct PageResponse {
    pub updates: Vec<DomUpdate>,
    pub notification: Option<Notification>,
}

/// A task-command response, the same shape as [`PageResponse`]: kept
/// apart so command handlers can evolve it independently.
#[derive(Debug)]
pub struct TaskResponse {
    pub updates: Vec<DomUpdate>,
    pub notification: Option<Notification>,
}

impl PageResponse {
    /// A response carrying the one update and no notification.
    pub fn new(update: DomUpdate) -> (r: Self)
        ensures
            r.updates@.len() == 1,
            r.updates@[0] == update,
            r.notification is None,
    {
        let mut updates: Vec<DomUpdate> = Vec::new();
        updates.push(update);
        PageResponse { updates, notification: None }
    }

    /// A response carrying the one update and a notification built from
    /// the given message, type and duration.
    pub fn with_notification(
        update: DomUpdate,
        message: String,
        notification_type: &str,
        duration: Option<u32>,
    ) -> (r: Self)
        ensures
            r.updates@.len() == 1,
            r.updates@[0] == update,
            r.notification is Some,
            r.notification->0.message == message,
            r.notification->0.notification_type@ == notification_type@,
            r.notification->0.duration == duration,
    {
        let mut updates: Vec<DomUpdate> = Vec::new();
        updates.push(update);
        PageResponse {
            updates,
            notification: Some(
                Notification { message, notification_type: notification_type.to_owned(), duration },
            ),
        }
    }
}

} // verus!
