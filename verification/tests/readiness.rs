use netlab::readiness::{next, on_event, read_mode, read_step, EventAction, ReadMode, ReadOutcome, ReadStep, SERVER};

#[test]
fn mode_from_command_line() {
    let edge: Vec<String> = vec!["prog".into(), "-e".into()];
    let level: Vec<String> = vec!["prog".into()];
    let other: Vec<String> = vec!["prog".into(), "-x".into(), "-e".into()];
    assert_eq!(read_mode(&edge), ReadMode::Edge);
    assert_eq!(read_mode(&level), ReadMode::Level);
    assert_eq!(read_mode(&other), ReadMode::Level);
}

#[test]
fn tokens_count_up() {
    let mut current = SERVER + 1;
    assert_eq!(next(&mut current), 1);
    assert_eq!(next(&mut current), 2);
    assert_eq!(current, 3);
}

#[test]
fn events() {
    assert_eq!(on_event(SERVER, false, true, ReadMode::Edge), EventAction::Accept);
    assert_eq!(on_event(4, true, true, ReadMode::Edge), EventAction::Read(ReadMode::Edge));
    assert_eq!(on_event(4, false, true, ReadMode::Level), EventAction::Ignore);
    assert_eq!(on_event(4, true, false, ReadMode::Level), EventAction::Ignore);
}

#[test]
fn level_reads_once_edge_drains() {
    assert_eq!(read_step(ReadMode::Level, ReadOutcome::Read(8)), ReadStep::ReportAndStop);
    assert_eq!(read_step(ReadMode::Edge, ReadOutcome::Read(8)), ReadStep::ReportAndContinue);
    assert_eq!(read_step(ReadMode::Level, ReadOutcome::Read(0)), ReadStep::Closed { deregister: true });
    assert_eq!(read_step(ReadMode::Edge, ReadOutcome::Read(0)), ReadStep::Closed { deregister: false });
    assert_eq!(read_step(ReadMode::Edge, ReadOutcome::WouldBlock), ReadStep::Stop);
    assert_eq!(read_step(ReadMode::Level, ReadOutcome::Interrupted), ReadStep::Retry);
    assert_eq!(read_step(ReadMode::Edge, ReadOutcome::Failed), ReadStep::Fail);
}
