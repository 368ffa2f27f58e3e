use image_index::broker::{
    submission_registration, CompletionAction, CompletionEvent, IntakeEvent, ResponseHandler,
};

fn running_broker() -> ResponseHandler<u32> {
    ResponseHandler::new()
}

/// A registered id completed once fires its responder exactly once with the
/// payload; afterwards the id is gone, and completing it again yields
/// nothing.
#[test]
fn exactly_once_delivery() {
    let mut broker = running_broker();
    broker.register(String::from("req-1"), 71);

    let action = broker.completion_step(CompletionEvent::Response(
        String::from("req-1"),
        vec![1, 2, 3],
    ));
    match action {
        CompletionAction::Respond(handle, payload) => {
            assert_eq!(handle, 71);
            assert_eq!(payload, vec![1, 2, 3]);
        },
        _ => panic!("a registered id must fire its responder"),
    }

    // The id is absent now: a second completion takes nothing out.
    let again = broker.completion_step(CompletionEvent::Response(
        String::from("req-1"),
        vec![9],
    ));
    assert!(matches!(again, CompletionAction::Ignore));
    assert!(broker.complete(&String::from("req-1")).is_none());
}

/// A completion for an id nobody registered is discarded: no error, no
/// change — everything registered before is still deliverable.
#[test]
fn unknown_completion_is_harmless() {
    let mut broker = running_broker();
    broker.register(String::from("a"), 1);
    broker.register(String::from("b"), 2);

    assert!(broker.complete(&String::from("never-registered")).is_none());
    let action =
        broker.completion_step(CompletionEvent::Response(String::from("ghost"), vec![0]));
    assert!(matches!(action, CompletionAction::Ignore));

    assert_eq!(broker.complete(&String::from("a")), Some(1));
    assert_eq!(broker.complete(&String::from("b")), Some(2));
}

/// Three requests, the worker answers two, then the broker shuts down: two
/// responders fire; the third is abandoned without error.
#[test]
fn scenario_partial_completion_then_shutdown() {
    let mut broker = running_broker();
    let mut fired: Vec<u32> = Vec::new();

    for (id, handle) in [("r1", 10), ("r2", 20), ("r3", 30)] {
        let cont = broker.intake_step(IntakeEvent::Request(String::from(id), handle));
        assert!(cont);
    }

    for id in ["r1", "r3"] {
        let action =
            broker.completion_step(CompletionEvent::Response(String::from(id), vec![42]));
        match action {
            CompletionAction::Respond(handle, _) => fired.push(handle),
            _ => panic!("registered ids must fire"),
        }
    }

    broker.stop();
    // Both loops observe the stop and exit; late events are dropped.
    assert!(!broker.intake_step(IntakeEvent::Request(String::from("r4"), 40)));
    assert!(matches!(
        broker.completion_step(CompletionEvent::Response(String::from("r2"), vec![7])),
        CompletionAction::Exit
    ));
    broker.shutdown();

    assert_eq!(fired, vec![10, 30]);
    // The abandoned responder is gone for good.
    assert!(broker.complete(&String::from("r2")).is_none());
}

/// An id reused while outstanding overwrites the earlier registration.
#[test]
fn reused_id_overwrites() {
    let mut broker = running_broker();
    broker.register(String::from("dup"), 1);
    broker.register(String::from("dup"), 2);
    assert_eq!(broker.complete(&String::from("dup")), Some(2));
    assert!(broker.complete(&String::from("dup")).is_none());
}

/// The loops go around on a timeout and exit on a closed channel.
#[test]
fn timeouts_and_closure() {
    let mut broker = running_broker();
    assert!(broker.intake_step(IntakeEvent::TimedOut));
    assert!(matches!(
        broker.completion_step(CompletionEvent::TimedOut),
        CompletionAction::Ignore
    ));
    assert!(!broker.intake_step(IntakeEvent::Closed));

    let mut broker2 = running_broker();
    assert!(matches!(
        broker2.completion_step(CompletionEvent::Closed),
        CompletionAction::Exit
    ));
}

/// A request whose send failed registers no responder; a sent one files
/// exactly its pair.
#[test]
fn failed_submission_registers_nothing() {
    assert_eq!(
        submission_registration(true, String::from("ok"), 1),
        Some((String::from("ok"), 1))
    );
    assert_eq!(submission_registration(false, String::from("lost"), 2), None);
}

/// The life cycle runs one way: Running, then Stopping, then Stopped.
#[test]
fn phase_transitions_are_one_way() {
    let mut broker = running_broker();
    broker.register(String::from("kept"), 5);

    broker.stop();
    broker.stop();
    // Stopping leaves the table alone: shutdown is what abandons it.
    assert_eq!(broker.complete(&String::from("kept")), Some(5));

    broker.shutdown();
    assert!(!broker.intake_step(IntakeEvent::Request(String::from("late"), 6)));
    assert!(matches!(
        broker.completion_step(CompletionEvent::TimedOut),
        CompletionAction::Exit
    ));
    // A stopped broker stays stopped.
    broker.stop();
    assert!(!broker.intake_step(IntakeEvent::TimedOut));
}
