use pw_engine::bot_runner::{kill_succeeded, kill_verdict, KillVerdict, ProcessStatus};

#[test]
fn killing_an_exited_process_succeeds() {
    // The process exited on its own; whatever the signalling layer would
    // have said, the kill request must report success.
    let v = kill_verdict(ProcessStatus::Exited, false);
    assert_eq!(v, KillVerdict::AlreadyDead);
    assert!(kill_succeeded(&v));
    let v2 = kill_verdict(ProcessStatus::Exited, true);
    assert!(kill_succeeded(&v2));
}

#[test]
fn killing_a_running_process_follows_the_signal() {
    let v = kill_verdict(ProcessStatus::Running, true);
    assert_eq!(v, KillVerdict::Killed);
    assert!(kill_succeeded(&v));
    let v2 = kill_verdict(ProcessStatus::Running, false);
    assert_eq!(v2, KillVerdict::Failed);
    assert!(!kill_succeeded(&v2));
}
