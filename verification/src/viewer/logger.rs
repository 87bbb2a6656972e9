//! Where log lines go and what a failed write means; the writing itself is the caller's.
use vstd::prelude::*;

verus! {

/// Where a logger writes.
pub enum LoggerOutput<W> {
    /// Standard output.
    Stdout,
    /// Standard error.
    Stderr,
    /// Nowhere: nothing is formatted.
    Noop,
    /// A writer of the caller's.
    Writer(W),
}

/// The level of a log line.
#[derive(Clone, Copy, Debug, PartialEq, Eq, Structural)]
pub enum LogLevel {
    Info,
    Warn,
    Error,
    Debug,
}

/// What a failed write leads to.
#[derive(Clone, Copy, Debug, PartialEq, Eq, Structural)]
pub enum WriteErrorAction {
    /// The reader of a pipe went away: end the process quietly with success.
    ExitQuietly,
    /// The reader of a pipe went away: carry on as if the line was written.
    Ignore,
    /// Any other failure: report it to the caller.
    Propagate,
}

/// A log line to write: its level, or nothing for a logger that writes nowhere.
pub type LogLine = Option<LogLevel>;

/// A logger's destination and its policy on a reader that closes the pipe.
pub struct Logger<W> {
    output: LoggerOutput<W>,
    exit_on_broken_pipe: bool,
}

impl<W> Logger<W> {
    /// The destination.
    pub fn output(&self) -> (output: &LoggerOutput<W>)
        ensures
            *output == self.output_spec(),
    {
        &self.output
    }

    pub closed spec fn output_spec(&self) -> LoggerOutput<W> {
        self.output
    }

    pub closed spec fn exits_on_broken_pipe(&self) -> bool {
        self.exit_on_broken_pipe
    }

    /// Whether a write to a closed pipe ends the process.
    pub fn exit_on_broken_pipe(&self) -> (exits: bool)
        ensures
            exits == self.exits_on_broken_pipe(),
    {
        self.exit_on_broken_pipe
    }

    /// A logger to standard output, or to nowhere on a dry run; it exits on a closed pipe.
    pub fn new_stdout(dry_run: bool) -> (logger: Self)
        ensures
            logger.output_spec() == (if dry_run {
                LoggerOutput::<W>::Noop
            } else {
                LoggerOutput::<W>::Stdout
            }),
            logger.exits_on_broken_pipe(),
    {
        Logger {
            output: if dry_run {
                LoggerOutput::Noop
            } else {
                LoggerOutput::Stdout
            },
            exit_on_broken_pipe: true,
        }
    }

    /// A logger to standard error, or to nowhere on a dry run; it exits on a closed pipe.
    pub fn new_stderr(dry_run: bool) -> (logger: Self)
        ensures
            logger.output_spec() == (if dry_run {
                LoggerOutput::<W>::Noop
            } else {
                LoggerOutput::<W>::Stderr
            }),
            logger.exits_on_broken_pipe(),
    {
        Logger {
            output: if dry_run {
                LoggerOutput::Noop
            } else {
                LoggerOutput::Stderr
            },
            exit_on_broken_pipe: true,
        }
    }

    /// A logger that writes nowhere.
    pub fn new_noop() -> (logger: Self)
        ensures
            logger.output_spec() == LoggerOutput::<W>::Noop,
            logger.exits_on_broken_pipe(),
    {
        Logger { output: LoggerOutput::Noop, exit_on_broken_pipe: true }
    }

    /// A logger to `writer`; it exits on a closed pipe.
    pub fn with_writer(writer: W) -> (logger: Self)
        ensures
            logger.output_spec() == LoggerOutput::Writer(writer),
            logger.exits_on_broken_pipe(),
    {
        Logger { output: LoggerOutput::Writer(writer), exit_on_broken_pipe: true }
    }

    /// A logger to `writer`, exiting on a closed pipe only when asked to.
    pub fn with_writer_and_exit_on_broken_pipe(writer: W, exit_on_broken_pipe: bool) -> (logger:
        Self)
        ensures
            logger.output_spec() == LoggerOutput::Writer(writer),
            logger.exits_on_broken_pipe() == exit_on_broken_pipe,
    {
        Logger { output: LoggerOutput::Writer(writer), exit_on_broken_pipe }
    }

    /// Choose whether a closed pipe ends the process.
    pub fn set_exit_on_broken_pipe(&mut self, v: bool)
        ensures
            final(self).exits_on_broken_pipe() == v,
            final(self).output_spec() == old(self).output_spec(),
    {
        self.exit_on_broken_pipe = v;
    }

    /// The line a log call at `level` writes: nothing when the logger writes nowhere.
    pub fn line(&self, level: LogLevel) -> (line: LogLine)
        ensures
            line == (if self.output_spec() is Noop {
                None
            } else {
                Some(level)
            }),
    {
        match self.output {
            LoggerOutput::Noop => None,
            _ => Some(level),
        }
    }

    /// The line an informational log call writes.
    pub fn info(&self) -> (line: LogLine)
        ensures
            line == (if self.output_spec() is Noop {
                None
            } else {
                Some(LogLevel::Info)
            }),
    {
        self.line(LogLevel::Info)
    }

    /// The line a warning writes.
    pub fn warn(&self) -> (line: LogLine)
        ensures
            line == (if self.output_spec() is Noop {
                None
            } else {
                Some(LogLevel::Warn)
            }),
    {
        self.line(LogLevel::Warn)
    }

    /// The line an error report writes.
    pub fn error(&self) -> (line: LogLine)
        ensures
            line == (if self.output_spec() is Noop {
                None
            } else {
                Some(LogLevel::Error)
            }),
    {
        self.line(LogLevel::Error)
    }

    /// The line a debug message writes.
    pub fn debug(&self) -> (line: LogLine)
        ensures
            line == (if self.output_spec() is Noop {
                None
            } else {
                Some(LogLevel::Debug)
            }),
    {
        self.line(LogLevel::Debug)
    }

    /// What a failed write leads to: a closed pipe ends the process quietly or is ignored, as
    /// the logger was told; any other failure goes back to the caller.
    pub fn on_write_error(&self, broken_pipe: bool) -> (action: WriteErrorAction)
        ensures
            action == (if !broken_pipe {
                WriteErrorAction::Propagate
            } else if self.exits_on_broken_pipe() {
                WriteErrorAction::ExitQuietly
            } else {
                WriteErrorAction::Ignore
            }),
    {
        if !broken_pipe {
            WriteErrorAction::Propagate
        } else if self.exit_on_broken_pipe {
            WriteErrorAction::ExitQuietly
        } else {
            WriteErrorAction::Ignore
        }
    }
}

} // verus!
