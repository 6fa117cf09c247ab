use login_ng_broker::cli::{CommandLineConversation, PamLoginError, TrivialCommandLineConversationPrompter};
use login_ng_broker::node::{NodeState, NodeStop, PollEvent, SessionNodeRestart, SessionStalledReason};
use std::time::Duration;

#[test]
fn trivial_prompter_answers_fixed_values() {
    let mut p = TrivialCommandLineConversationPrompter::new(Some("alice".to_string()), None);
    assert_eq!(p.echo_on_prompt(&"login:".to_string()), Some("alice".to_string()));
    assert_eq!(p.echo_off_prompt(&"password:".to_string()), None);
    let mut q = TrivialCommandLineConversationPrompter::new(None, Some("pw".to_string()));
    assert_eq!(q.echo_on_prompt(&"login:".to_string()), None);
    assert_eq!(q.echo_off_prompt(&"password:".to_string()), Some("pw".to_string()));
}

#[test]
fn conversation_holds_answerer_and_recorder() {
    let mut c: CommandLineConversation<u8, Vec<String>> = CommandLineConversation::new(Some(3), None);
    assert!(c.recorder_mut().is_none());
    c.attach_recorder(vec!["x".to_string()]);
    assert_eq!(c.recorder_mut().map(|r| r.len()), Some(1));
    assert_eq!(c.answerer_mut().map(|a| *a), Some(3));
}

#[test]
fn pam_errors_have_messages() {
    assert_eq!(PamLoginError::SetPrompt("x".to_string()).message(), "Error setting login prompt: x");
    assert_eq!(PamLoginError::Authentication("bad".to_string()).message(), "Error authenticating the user: bad");
    assert_eq!(PamLoginError::Validation("v".to_string()).message(), "Error validating the user: ");
    assert_eq!(PamLoginError::Open("o".to_string()).message(), "Error opening session: o");
    assert_eq!(PamLoginError::GetUser("g".to_string()).message(), "Error obtaining the user from PAM: g");
    assert_eq!(PamLoginError::Execution("e".to_string()).message(), "Error executing command: ");
    assert_eq!(PamLoginError::UnknownUsername.message(), "Unable to find the username");
}

#[test]
fn restart_policies() {
    let r = SessionNodeRestart::new(3, Duration::from_millis(250));
    assert_eq!(r.max_times(), 3);
    assert_eq!(r.delay(), Duration::from_millis(250));
    assert_eq!(SessionNodeRestart::no_restart().max_times(), 0);
    assert_eq!(SessionNodeRestart::no_restart().delay(), Duration::from_secs(5));
    assert_eq!(SessionNodeRestart::default().max_times(), u64::MAX);
    assert_eq!(SessionNodeRestart::default().delay(), Duration::from_secs(5));
}

#[test]
fn stopped_process_decisions() {
    let r = SessionNodeRestart::new(2, Duration::from_secs(1));
    assert_eq!(r.stall_reason(0, NodeStop::Errored), None);
    assert_eq!(r.stall_reason(2, NodeStop::Errored), Some(SessionStalledReason::RestartedTooManyTimes));
    assert_eq!(r.stall_reason(5, NodeStop::Completed { success: true }), Some(SessionStalledReason::TerminatedSuccessfully));
    assert_eq!(r.stall_reason(1, NodeStop::Completed { success: false }), None);
    assert_eq!(r.stall_reason(2, NodeStop::Completed { success: false }), Some(SessionStalledReason::RestartedTooManyTimes));
    assert_eq!(r.stall_reason(0, NodeStop::Manual), Some(SessionStalledReason::UserRequested));
    assert!(r.restart_now(0, NodeStop::Errored, true));
    assert!(!r.restart_now(0, NodeStop::Errored, false));
    assert!(!r.restart_now(0, NodeStop::Manual, true));
    assert!(!SessionNodeRestart::no_restart().restart_now(0, NodeStop::Errored, true));
}

#[test]
fn poll_steps_follow_the_process() {
    let r = SessionNodeRestart::new(1, Duration::from_secs(1));
    assert_eq!(r.poll_step(0, NodeState::Ready, PollEvent::Spawned { ok: true }), (NodeState::Running, None));
    assert_eq!(r.poll_step(0, NodeState::Ready, PollEvent::Spawned { ok: false }), (NodeState::Stopped(NodeStop::Errored), None));
    assert_eq!(r.poll_step(0, NodeState::Running, PollEvent::StillRunning), (NodeState::Running, None));
    assert_eq!(
        r.poll_step(0, NodeState::Running, PollEvent::Exited { success: false }),
        (NodeState::Stopped(NodeStop::Completed { success: false }), None)
    );
    assert_eq!(r.poll_step(0, NodeState::Running, PollEvent::WaitFailed), (NodeState::Stopped(NodeStop::Errored), None));
    let stopped = NodeState::Stopped(NodeStop::Errored);
    assert_eq!(r.poll_step(0, stopped, PollEvent::Checked { delay_elapsed: true }), (NodeState::Ready, None));
    assert_eq!(r.poll_step(0, stopped, PollEvent::Checked { delay_elapsed: false }), (stopped, None));
    assert_eq!(
        r.poll_step(1, stopped, PollEvent::Checked { delay_elapsed: true }),
        (stopped, Some(SessionStalledReason::RestartedTooManyTimes))
    );
    let done = NodeState::Stopped(NodeStop::Completed { success: true });
    assert_eq!(
        r.poll_step(0, done, PollEvent::Checked { delay_elapsed: true }),
        (done, Some(SessionStalledReason::TerminatedSuccessfully))
    );
    assert_eq!(r.poll_step(0, NodeState::Ready, PollEvent::StillRunning), (NodeState::Ready, None));
}
