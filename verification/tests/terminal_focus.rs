use crossbeam::channel::{bounded, Sender, TrySendError};
use dua::focus::{focus_change, is_queued, keeps_forwarding, keeps_reading_after, InputKind, SendOutcome, TerminalFocus};

fn forward_event(sender: &Sender<InputKind>, focus: &TerminalFocus, kind: InputKind) -> bool {
    focus.observe(kind);
    if !is_queued(kind) {
        return true;
    }
    let outcome = match sender.try_send(kind) {
        Ok(()) => SendOutcome::Sent,
        Err(TrySendError::Full(_)) => SendOutcome::Full,
        Err(TrySendError::Disconnected(_)) => SendOutcome::Disconnected,
    };
    keeps_reading_after(outcome)
}

#[test]
fn cloned_focus_tracker_observes_changes_immediately() {
    let app_focus = TerminalFocus::default();
    let input_focus = app_focus.clone();

    input_focus.observe(InputKind::FocusLost);
    assert!(!app_focus.is_focussed());
    input_focus.observe(InputKind::FocusGained);
    assert!(app_focus.is_focussed());
}

#[test]
fn focus_changes_bypass_a_full_bounded_event_queue() {
    let focus = TerminalFocus::default();
    let (sender, receiver) = bounded(1);
    assert!(forward_event(&sender, &focus, InputKind::Other));
    assert!(forward_event(&sender, &focus, InputKind::FocusLost));
    assert!(forward_event(&sender, &focus, InputKind::FocusGained));
    assert!(focus.is_focussed());
    assert!(matches!(receiver.try_recv(), Ok(InputKind::Other)));
    assert!(receiver.try_recv().is_err());
}

#[test]
fn focus_events_report_their_state_and_others_none() {
    assert_eq!(focus_change(InputKind::FocusGained), Some(true));
    assert_eq!(focus_change(InputKind::FocusLost), Some(false));
    assert_eq!(focus_change(InputKind::Other), None);
    let focus = TerminalFocus::default();
    focus.observe(InputKind::FocusLost);
    focus.observe(InputKind::Other);
    assert!(!focus.is_focussed());
}

#[test]
fn only_a_disconnected_queue_ends_forwarding() {
    assert!(keeps_forwarding(InputKind::Other, SendOutcome::Full));
    assert!(keeps_forwarding(InputKind::Other, SendOutcome::Sent));
    assert!(!keeps_forwarding(InputKind::Other, SendOutcome::Disconnected));
    assert!(keeps_forwarding(InputKind::FocusLost, SendOutcome::Disconnected));
    let (sender, receiver) = bounded::<InputKind>(1);
    drop(receiver);
    assert!(!forward_event(&sender, &TerminalFocus::default(), InputKind::Other));
}
