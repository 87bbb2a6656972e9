use mmlx::viewer::logger::{LogLevel, Logger, LoggerOutput, WriteErrorAction};

#[test]
fn test_writer_receives_output() {
    let logger = Logger::with_writer(Vec::<u8>::new());
    assert!(matches!(logger.output(), LoggerOutput::Writer(_)));
    assert_eq!(logger.info(), Some(LogLevel::Info));
}

#[test]
fn test_noop_avoids_formatting() {
    let logger = Logger::<Vec<u8>>::new_noop();
    assert!(matches!(logger.output(), LoggerOutput::Noop));
    assert_eq!(logger.info(), None);
    assert_eq!(logger.error(), None);
}

#[test]
fn test_broken_pipe_handled_without_exit_when_disabled() {
    let logger = Logger::with_writer_and_exit_on_broken_pipe(Vec::<u8>::new(), false);
    assert_eq!(logger.on_write_error(true), WriteErrorAction::Ignore);
}

#[test]
fn test_broken_pipe_error_propagates_when_not_broken_pipe() {
    let logger = Logger::with_writer_and_exit_on_broken_pipe(Vec::<u8>::new(), false);
    assert_eq!(logger.on_write_error(false), WriteErrorAction::Propagate);
    let exiting = Logger::with_writer(Vec::<u8>::new());
    assert_eq!(exiting.on_write_error(false), WriteErrorAction::Propagate);
    assert_eq!(exiting.on_write_error(true), WriteErrorAction::ExitQuietly);
}
