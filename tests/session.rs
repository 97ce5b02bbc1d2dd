use sozu_prometheus_connector::session::{
    Action, ChannelState, Event, Reply, Session, SessionError, MAX_PROCESSING_WAITS,
};

/// A transport that fails its first `failures` open or exchange attempts,
/// and records what it was asked to do.
struct Stub {
    failures: usize,
    first_open_fails: bool,
    processing_replies: u32,
    log: Vec<&'static str>,
}

impl Stub {
    fn new(failures: usize) -> Stub {
        Stub { failures, first_open_fails: false, processing_replies: 0, log: Vec::new() }
    }

    fn failing(&mut self) -> bool {
        if self.failures > 0 {
            self.failures -= 1;
            true
        } else {
            false
        }
    }

    fn perform(&mut self, action: Action) -> Event {
        match action {
            Action::Open => {
                self.log.push("open");
                if self.first_open_fails {
                    Event::OpenFailed
                } else {
                    Event::Opened
                }
            }
            Action::Reopen => {
                self.log.push("reopen");
                Event::Opened
            }
            Action::Send => {
                self.log.push("send");
                if self.failing() {
                    Event::SendFailed
                } else {
                    Event::Sent
                }
            }
            Action::Receive => {
                self.log.push("receive");
                if self.processing_replies > 0 {
                    self.processing_replies -= 1;
                    Event::Received(Reply::Processing)
                } else {
                    Event::Received(Reply::Metrics)
                }
            }
            Action::Deliver | Action::Fail(_) => unreachable!(),
        }
    }
}

/// Runs one call to its end, counting the resurrections it asked for.
fn query(session: &mut Session, stub: &mut Stub) -> (Result<(), SessionError>, u32) {
    let mut reopens = 0;
    let mut action = session.begin();
    loop {
        match action {
            Action::Deliver => return (Ok(()), reopens),
            Action::Fail(e) => return (Err(e), reopens),
            Action::Reopen => reopens += 1,
            _ => {}
        }
        assert!(session.resurrections <= 3);
        let event = stub.perform(action);
        action = session.step(event);
    }
}

#[test]
fn succeeds_after_two_failed_exchanges() {
    let mut session = Session::new();
    let mut stub = Stub::new(2);
    let (result, reopens) = query(&mut session, &mut stub);
    assert_eq!(result, Ok(()));
    assert_eq!(reopens, 2);
    assert!(session.resurrections <= 3);
    assert_eq!(session.channel, ChannelState::Connected);
    assert!(session.is_idle());
}

#[test]
fn always_failing_transport_is_exhausted_after_three_retries() {
    let mut session = Session::new();
    let mut stub = Stub::new(usize::MAX);
    let (result, reopens) = query(&mut session, &mut stub);
    assert_eq!(result, Err(SessionError::Exhausted));
    assert_eq!(reopens, 3);
    assert_eq!(stub.log.iter().filter(|a| **a == "send").count(), 4);
    assert_eq!(session.channel, ChannelState::Failed);
    // The next call starts over by opening a channel.
    assert_eq!(session.begin(), Action::Open);
}

#[test]
fn first_open_failure_is_a_connect_error() {
    let mut session = Session::new();
    let mut stub = Stub::new(0);
    stub.first_open_fails = true;
    let (result, reopens) = query(&mut session, &mut stub);
    assert_eq!(result, Err(SessionError::Connect));
    assert_eq!(reopens, 0);
    assert_eq!(stub.log, vec!["open"]);
}

#[test]
fn failed_reopen_uses_the_budget() {
    let mut session = Session::new();
    assert_eq!(session.begin(), Action::Open);
    assert_eq!(session.step(Event::Opened), Action::Send);
    assert_eq!(session.step(Event::SendFailed), Action::Reopen);
    assert_eq!(session.step(Event::OpenFailed), Action::Reopen);
    assert_eq!(session.step(Event::OpenFailed), Action::Reopen);
    assert_eq!(session.step(Event::OpenFailed), Action::Fail(SessionError::Exhausted));
}

#[test]
fn failure_replies_and_unexpected_content_are_retried() {
    let mut session = Session::new();
    session.begin();
    session.step(Event::Opened);
    assert_eq!(session.step(Event::Sent), Action::Receive);
    assert_eq!(session.step(Event::Received(Reply::Failure)), Action::Reopen);
    assert_eq!(session.step(Event::Opened), Action::Send);
    assert_eq!(session.step(Event::Sent), Action::Receive);
    assert_eq!(session.step(Event::Received(Reply::Unexpected)), Action::Reopen);
    assert_eq!(session.step(Event::Opened), Action::Send);
    assert_eq!(session.step(Event::Sent), Action::Receive);
    assert_eq!(session.step(Event::ReceiveFailed), Action::Reopen);
    assert_eq!(session.resurrections, 3);
}

#[test]
fn processing_replies_are_read_through() {
    let mut session = Session::new();
    let mut stub = Stub::new(0);
    stub.processing_replies = 5;
    let (result, reopens) = query(&mut session, &mut stub);
    assert_eq!(result, Ok(()));
    assert_eq!(reopens, 0);
    assert_eq!(stub.log, vec!["open", "send", "receive", "receive", "receive", "receive", "receive", "receive"]);
}

#[test]
fn endless_processing_counts_as_a_failure() {
    let mut session = Session::new();
    session.begin();
    session.step(Event::Opened);
    assert_eq!(session.step(Event::Sent), Action::Receive);
    for _ in 0..MAX_PROCESSING_WAITS {
        assert_eq!(session.step(Event::Received(Reply::Processing)), Action::Receive);
    }
    assert_eq!(session.step(Event::Received(Reply::Processing)), Action::Reopen);
}

#[test]
fn open_channel_is_reused_by_the_next_call() {
    let mut session = Session::new();
    let mut stub = Stub::new(0);
    assert_eq!(query(&mut session, &mut stub).0, Ok(()));
    assert_eq!(query(&mut session, &mut stub).0, Ok(()));
    // Each call's send is answered before the next call begins.
    assert_eq!(stub.log, vec!["open", "send", "receive", "send", "receive"]);
}
