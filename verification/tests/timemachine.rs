use tmignore::commands::watcher::{
    watch_timemachine, TimeMachineControl, TimeMachineInput, TimeMachineWatch,
};
use tmignore::commands::event::Event;
use tmignore::path::FilePath;
use tmignore::timemachine::{
    add_exclusions, exclude_path, is_time_machine_running, log_status, parse_running,
    remove_exclusions, request_text, status_from_output, ExcludePathError,
};

fn p(text: &str) -> FilePath {
    FilePath::new(text)
}

fn running() -> Result<String, String> {
    Ok("Backup session status:\n{\n    Running = 1;\n}".to_string())
}

fn not_running() -> Result<String, String> {
    Ok("Backup session status:\n{\n    Running = 0;\n}".to_string())
}

fn status_error() -> Result<String, String> {
    Err("can't determine the Time Machine status".to_string())
}

#[test]
fn test_parse_running() {
    assert_eq!(true, parse_running("Backup session status:\n{\n    Running = 1;\n}"));
    assert_eq!(false, parse_running("Backup session status:\n{\n    Running = 0;\n}"));
    assert_eq!(false, parse_running(""));
}

#[test]
fn test_is_time_machine_running_true() {
    assert_eq!(true, is_time_machine_running(running()).unwrap());
}

#[test]
fn test_is_time_machine_running_false() {
    assert_eq!(false, is_time_machine_running(not_running()).unwrap());
}

#[test]
fn test_is_time_machine_running_error_propagates() {
    assert!(is_time_machine_running(status_error()).is_err());
}

#[test]
fn test_status_from_output_success() {
    assert_eq!(
        "    Running = 1;",
        status_from_output(true, "exit status: 0", &b"    Running = 1;".to_vec(), &Vec::new())
            .unwrap()
    );
}

#[test]
fn test_status_from_output_non_zero_exit() {
    let result = status_from_output(false, "exit status: 1", &Vec::new(), &b"boom".to_vec());
    assert!(result.is_err());
    assert_eq!("tmutil status exited with exit status: 1: boom", result.unwrap_err());
}

#[test]
fn test_log_status() {
    assert_eq!((true, None), log_status(Ok(true)));
    assert_eq!((false, None), log_status(Ok(false)));
    assert_eq!(
        (
            false,
            Some("Failed to query Time Machine status: can't determine".to_string())
        ),
        log_status(Err("can't determine".to_string()))
    );
}

#[test]
fn a_status_other_than_zero_is_an_error() {
    assert!(add_exclusions(&vec![p("/x/file")], &vec![0]).is_empty());
    assert!(remove_exclusions(&vec![p("/x/file")], &vec![0]).is_empty());
    let errors = add_exclusions(&vec![p("/a"), p("/b"), p("/c")], &vec![0, -43, 2]);
    assert_eq!(2, errors.len());
    assert_eq!(p("/b"), errors[0].path);
    assert_eq!("OS Status -43", errors[0].message);
    assert_eq!(p("/c"), errors[1].path);
    assert_eq!("OS Status 2", errors[1].message);
}

#[test]
fn a_path_that_is_no_text_is_an_error() {
    let path = FilePath::from_bytes(vec![47, 255]);
    assert_eq!(Err(ExcludePathError::InvalidUtf8), request_text(&path));
    assert_eq!(Err(ExcludePathError::InvalidUtf8), exclude_path(&path, 0));
    let errors = remove_exclusions(&vec![path], &vec![0]);
    assert_eq!("Invalid UTF-8", errors[0].message);
    assert_eq!(Ok("/é".to_string()), request_text(&p("/é")));
    assert_eq!(Err(ExcludePathError::Os(1)), exclude_path(&p("/é"), 1));
}

#[test]
fn output_that_is_no_text_is_read_as_far_as_it_is() {
    let read = status_from_output(true, "", &vec![82, 255, 10], &Vec::new()).unwrap();
    assert_eq!("R\u{FFFD}\n", read);
}

#[test]
fn the_watch_of_a_backup_ends_when_the_backup_does() {
    let resume = TimeMachineInput::Control(TimeMachineControl::ResumeMonitoring);
    let stop = TimeMachineInput::Control(TimeMachineControl::Shutdown);
    let (watch, told) = watch_timemachine(TimeMachineWatch::Idle, resume);
    assert_eq!(TimeMachineWatch::Asking, watch);
    assert!(told.is_none());
    let (watch, told) = watch_timemachine(watch, TimeMachineInput::Status(true));
    assert_eq!(TimeMachineWatch::Pausing, watch);
    assert!(told.is_none());
    let (watch, _) = watch_timemachine(watch, TimeMachineInput::Timeout);
    assert_eq!(TimeMachineWatch::Asking, watch);
    let (watch, told) = watch_timemachine(watch, TimeMachineInput::Status(false));
    assert_eq!(TimeMachineWatch::Idle, watch);
    assert!(matches!(told, Some(Event::TimeMachineBackupFinished)));
    let (watch, _) = watch_timemachine(watch, stop);
    assert_eq!(TimeMachineWatch::Stopped, watch);
    let (watch, _) = watch_timemachine(TimeMachineWatch::Pausing, stop);
    assert_eq!(TimeMachineWatch::Stopped, watch);
    let (watch, _) = watch_timemachine(TimeMachineWatch::Pausing, resume);
    assert_eq!(TimeMachineWatch::Asking, watch);
    let (watch, _) = watch_timemachine(TimeMachineWatch::Idle, TimeMachineInput::ControlDropped);
    assert_eq!(TimeMachineWatch::Stopped, watch);
}
