use voxygen::client_init::{
    auth_server_trusted, poll_outcome, question_outcome, trust_question, AttemptOutcome, AuthTrust, ConnectAction,
    ConnectEvent, ConnectLoop, ConnectStage, Error, Msg, TryRecv, FOUR_MINUTES_RETRIES,
    RETRY_DELAY_SECS,
};

type Ev = ConnectEvent<&'static str, u8, u16>;
type Act = ConnectAction<&'static str, u8, u16>;

#[test]
fn only_a_trusted_answer_about_the_same_server_counts() {
    assert!(auth_server_trusted(Some(AuthTrust("auth.example".to_string(), true)), "auth.example"));
    assert!(!auth_server_trusted(Some(AuthTrust("auth.example".to_string(), false)), "auth.example"));
    assert!(!auth_server_trusted(Some(AuthTrust("other.example".to_string(), true)), "auth.example"));
    assert!(!auth_server_trusted(None, "auth.example"));
    assert_eq!(trust_question("auth.example"), "auth.example");
}

#[test]
fn polling_gives_nothing_while_running() {
    let r: Option<Msg<u8, u8, u8>> = poll_outcome(TryRecv::Empty);
    assert!(r.is_none());
    match poll_outcome::<u8, u8, u8>(TryRecv::Disconnected) {
        Some(Msg::Done(Err(Error::ClientCrashed))) => {},
        _ => panic!("a crash was expected"),
    }
    match poll_outcome::<u8, u8, u8>(TryRecv::Received(Ok(4))) {
        Some(Msg::Done(Ok(4))) => {},
        _ => panic!("the client was expected"),
    }
    match poll_outcome::<u8, u8, u8>(TryRecv::Received(Err(Error::ServerNotFound))) {
        Some(Msg::Done(Err(Error::ServerNotFound))) => {},
        _ => panic!("the error was expected"),
    }
}

#[test]
fn trust_questions_come_on_their_own() {
    match question_outcome::<u8, u8, u8>(TryRecv::Received("auth.example".to_string())) {
        Some(Msg::IsAuthTrusted(s)) => assert_eq!(s, "auth.example"),
        _ => panic!("a question was expected"),
    }
    assert!(question_outcome::<u8, u8, u8>(TryRecv::Empty).is_none());
    assert!(question_outcome::<u8, u8, u8>(TryRecv::Disconnected).is_none());
}

#[test]
fn cancelling_before_an_attempt_reports_no_server() {
    let mut l = ConnectLoop::new();
    let a: Act = l.step(Ev::Ready { cancelled: true });
    assert_eq!(a, ConnectAction::Report(Err(Error::ServerNotFound)));
    assert_eq!(l.stage, ConnectStage::Finished);
    assert!(!l.takes(&Ev::Ready { cancelled: false }));
}

#[test]
fn a_connection_ends_the_loop_with_the_client() {
    let mut l = ConnectLoop::new();
    let a: Act = l.step(Ev::Ready { cancelled: false });
    assert_eq!(a, ConnectAction::Attempt);
    assert_eq!(l.attempts, 1);
    let a: Act = l.step(Ev::Attempted(AttemptOutcome::Unreachable));
    assert_eq!(a, ConnectAction::Wait { secs: RETRY_DELAY_SECS });
    let a: Act = l.step(Ev::Ready { cancelled: false });
    assert_eq!(a, ConnectAction::Attempt);
    let a: Act = l.step(Ev::Attempted(AttemptOutcome::Connected("client")));
    assert_eq!(a, ConnectAction::Report(Ok("client")));
    assert_eq!(l.attempts, 2);
}

#[test]
fn other_errors_end_the_loop_at_once() {
    let mut l = ConnectLoop::new();
    let _: Act = l.step(Ev::Ready { cancelled: false });
    let a: Act = l.step(Ev::Attempted(AttemptOutcome::Failed { error: 3, mismatched_server_info: Some(9) }));
    assert_eq!(a, ConnectAction::Report(Err(Error::ClientError { error: 3, mismatched_server_info: Some(9) })));
    assert!(!l.takes(&Ev::Ready { cancelled: false }));
}

#[test]
fn an_unreachable_server_is_given_up_after_all_retries() {
    let mut l = ConnectLoop::new();
    let mut attempts = 0;
    loop {
        match l.step(Ev::Ready { cancelled: false }) {
            ConnectAction::Attempt => attempts += 1,
            ConnectAction::Report(r) => {
                assert_eq!(r, Err(Error::ServerNotFound));
                break;
            },
            ConnectAction::Wait { .. } => panic!("no wait before an attempt"),
        }
        let a: Act = l.step(Ev::Attempted(AttemptOutcome::Unreachable));
        assert_eq!(a, ConnectAction::Wait { secs: 5 });
    }
    assert_eq!(attempts, FOUR_MINUTES_RETRIES);
    assert_eq!(l.attempts, 48);
}

#[test]
fn every_run_reports_once_at_its_end() {
    // cancel after a few unreachable attempts
    let mut l = ConnectLoop::new();
    let mut actions: Vec<Act> = Vec::new();
    for round in 0..3 {
        actions.push(l.step(Ev::Ready { cancelled: round == 2 }));
        if l.stage == ConnectStage::Finished {
            break;
        }
        actions.push(l.step(Ev::Attempted(AttemptOutcome::Unreachable)));
    }
    assert_eq!(actions.len(), 5);
    assert_eq!(actions[4], ConnectAction::Report(Err(Error::ServerNotFound)));
    assert!(actions[..4].iter().all(|a| !matches!(a, ConnectAction::Report(_))));
    assert!(!l.takes(&Ev::Attempted(AttemptOutcome::Unreachable)));
}
