//! Terminal focus, as the input thread observes it and the event loop consults it.
//!
//! The input thread records focus changes as soon as it reads them, even while the event loop
//! is busy or its bounded input queue is full; focus changes never occupy queue capacity.
use std::sync::atomic::AtomicBool;
use std::sync::Arc;
use vstd::prelude::*;

verus! {

/// A terminal input event, as far as focus tracking tells events apart.
#[derive(Clone, Copy, Debug, PartialEq, Eq, Structural)]
pub enum InputKind {
    /// The terminal gained focus.
    FocusGained,
    /// The terminal lost focus.
    FocusLost,
    /// Any other event: a key, the mouse, a resize, a paste.
    Other,
}

/// What became of an attempt to queue an event for the event loop.
#[derive(Clone, Copy, Debug, PartialEq, Eq, Structural)]
pub enum SendOutcome {
    /// The event was queued.
    Sent,
    /// The queue was full and the event was dropped.
    Full,
    /// The event loop no longer receives events.
    Disconnected,
}

/// The focus state an event reports, if it reports one.
pub open spec fn reported_focus(kind: InputKind) -> Option<bool> {
    match kind {
        InputKind::FocusGained => Some(true),
        InputKind::FocusLost => Some(false),
        InputKind::Other => None,
    }
}

/// The focus state `kind` reports, if it reports one.
pub fn focus_change(kind: InputKind) -> (r: Option<bool>)
    ensures
        r == reported_focus(kind),
{
    match kind {
        InputKind::FocusGained => Some(true),
        InputKind::FocusLost => Some(false),
        InputKind::Other => None,
    }
}

/// Whether an event goes to the event loop's queue: focus changes are consumed by the tracker.
pub fn is_queued(kind: InputKind) -> (r: bool)
    ensures
        r == (kind == InputKind::Other),
{
    match kind {
        InputKind::Other => true,
        _ => false,
    }
}

/// Whether the input thread keeps reading after a send attempt: a full queue drops the event,
/// a disconnected one ends forwarding.
pub fn keeps_reading_after(outcome: SendOutcome) -> (r: bool)
    ensures
        r == (outcome != SendOutcome::Disconnected),
{
    match outcome {
        SendOutcome::Disconnected => false,
        _ => true,
    }
}

/// Whether the input thread keeps reading after handling an event of `kind`; `outcome` is what
/// became of queueing it, and matters only for events that are queued.
pub fn keeps_forwarding(kind: InputKind, outcome: SendOutcome) -> (r: bool)
    ensures
        r == (kind != InputKind::Other || outcome != SendOutcome::Disconnected),
{
    if !is_queued(kind) {
        return true;
    }
    keeps_reading_after(outcome)
}

/// The latest known focus state of the terminal, shared by every clone.
///
/// Another thread may change the state at any moment, so nothing is promised of what a read
/// returns.
#[derive(Clone)]
pub struct TerminalFocus(Arc<AtomicBool>);

impl Default for TerminalFocus {
    /// A tracker that starts out focussed.
    fn default() -> (f: TerminalFocus) {
        TerminalFocus::new()
    }
}

impl TerminalFocus {
    /// A tracker that starts out focussed.
    pub fn new() -> (f: TerminalFocus) {
        TerminalFocus(Arc::new(AtomicBool::new(true)))
    }

    /// The latest recorded focus state.
    pub fn is_focussed(&self) -> (r: bool) {
        self.0.load(std::sync::atomic::Ordering::Relaxed)
    }

    /// Record the focus state that `kind` reports; other events leave it as it is.
    pub fn observe(&self, kind: InputKind) {
        match focus_change(kind) {
            Some(value) => self.0.store(value, std::sync::atomic::Ordering::Relaxed),
            None => {},
        }
    }
}

} // verus!
