use airpcez::process::{finished_status, push_log_line, ProcStatus, SupervisorState, LOG_CAPACITY};

#[test]
fn log_keeps_the_newest_lines() {
    let mut logs: Vec<String> = Vec::new();
    for i in 0..(LOG_CAPACITY + 3) {
        push_log_line(&mut logs, format!("line {i}"));
    }
    assert_eq!(logs.len(), LOG_CAPACITY);
    assert_eq!(logs[0], "line 3");
    assert_eq!(logs[LOG_CAPACITY - 1], format!("line {}", LOG_CAPACITY + 2));
}

#[test]
fn finished_status_cases() {
    assert_eq!(finished_status(Ok((true, Some(0)))), ProcStatus::Exited(0));
    assert_eq!(finished_status(Ok((false, Some(3)))), ProcStatus::Exited(3));
    assert_eq!(finished_status(Ok((false, None))), ProcStatus::Exited(-1));
    assert_eq!(finished_status(Err("boom".into())), ProcStatus::Crashed("boom".into()));
}

#[test]
fn supervisor_state_lifecycle() {
    let mut s = SupervisorState::new();
    assert_eq!(s.status, ProcStatus::Stopped);
    assert!(!s.take_stop());
    s.started();
    assert_eq!(s.status, ProcStatus::Running);
    s.output_line("hello-airpcez".into());
    assert!(s.take_stop());
    assert!(!s.take_stop());
    s.killed();
    assert_eq!(s.status, ProcStatus::Stopped);
    assert_eq!(s.logs, vec!["hello-airpcez".to_string()]);
    s.started();
    s.exited(Ok((false, Some(2))));
    assert_eq!(s.status, ProcStatus::Exited(2));
    assert!(!s.take_stop());
}
