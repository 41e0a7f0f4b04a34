//! The decisions of a recording session: which command runs, and what the
//! relay loop between the terminal and the recorded program does with each
//! outcome of polling, reading and waiting.
use vstd::prelude::*;

verus! {

/// The program to record: the given command, or `btop` when none is given.
pub fn command_or_default(command: Vec<String>) -> (cmd: Vec<String>)
    ensures
        command@.len() > 0 ==> cmd@ == command@,
        command@.len() == 0 ==> cmd@.len() == 1 && cmd@[0]@ == "btop"@,
{
    if command.len() == 0 {
        let mut cmd: Vec<String> = Vec::new();
        cmd.push(String::from_str("btop"));
        cmd
    } else {
        command
    }
}

/// How a non-blocking read ended.
#[derive(Debug, Clone, Copy, PartialEq, Eq, Structural)]
pub enum ReadOutcome {
    /// This many bytes were read.
    Data(usize),
    /// End of file.
    Eof,
    /// Nothing to read right now (`EAGAIN`).
    WouldBlock,
    /// `EIO`, which a pseudo-terminal reports once its other side is closed.
    IoError,
    /// Any other error.
    OtherError,
}

/// What to do after reading the program's output.
#[derive(Debug, Clone, Copy, PartialEq, Eq, Structural)]
pub enum OutputStep {
    /// Record the bytes as an output event and show them.
    Record(usize),
    /// Nothing now.
    Wait,
    /// The session is over.
    Stop,
    /// Give up with an error.
    Fail,
}

/// Reading the program's output: data is recorded, end of file ends the
/// session, `EAGAIN`/`EIO` end it once the program has exited and are
/// otherwise waited out, and other errors fail.
pub open spec fn output_step_of(outcome: ReadOutcome, child_exited: bool) -> OutputStep {
    match outcome {
        ReadOutcome::Data(n) => if n == 0 {
            OutputStep::Stop
        } else {
            OutputStep::Record(n)
        },
        ReadOutcome::Eof => OutputStep::Stop,
        ReadOutcome::WouldBlock | ReadOutcome::IoError => if child_exited {
            OutputStep::Stop
        } else {
            OutputStep::Wait
        },
        ReadOutcome::OtherError => OutputStep::Fail,
    }
}

pub fn on_output_read(outcome: ReadOutcome, child_exited: bool) -> (step: OutputStep)
    ensures
        step == output_step_of(outcome, child_exited),
{
    match outcome {
        ReadOutcome::Data(n) => if n == 0 {
            OutputStep::Stop
        } else {
            OutputStep::Record(n)
        },
        ReadOutcome::Eof => OutputStep::Stop,
        ReadOutcome::WouldBlock | ReadOutcome::IoError => if child_exited {
            OutputStep::Stop
        } else {
            OutputStep::Wait
        },
        ReadOutcome::OtherError => OutputStep::Fail,
    }
}

/// What to do after reading the user's input.
#[derive(Debug, Clone, Copy, PartialEq, Eq, Structural)]
pub enum InputStep {
    /// Pass the bytes on to the program.
    Relay(usize),
    Wait,
    Stop,
    Fail,
}

/// Reading the user's input: data is passed on, end of file ends the
/// session, `EAGAIN` is waited out, and any other error fails.
pub open spec fn input_step_of(outcome: ReadOutcome) -> InputStep {
    match outcome {
        ReadOutcome::Data(n) => if n == 0 {
            InputStep::Stop
        } else {
            InputStep::Relay(n)
        },
        ReadOutcome::Eof => InputStep::Stop,
        ReadOutcome::WouldBlock => InputStep::Wait,
        ReadOutcome::IoError | ReadOutcome::OtherError => InputStep::Fail,
    }
}

pub fn on_input_read(outcome: ReadOutcome) -> (step: InputStep)
    ensures
        step == input_step_of(outcome),
{
    match outcome {
        ReadOutcome::Data(n) => if n == 0 {
            InputStep::Stop
        } else {
            InputStep::Relay(n)
        },
        ReadOutcome::Eof => InputStep::Stop,
        ReadOutcome::WouldBlock => InputStep::Wait,
        ReadOutcome::IoError | ReadOutcome::OtherError => InputStep::Fail,
    }
}

/// What to do at the end of one round of the relay loop.
#[derive(Debug, Clone, Copy, PartialEq, Eq, Structural)]
pub enum RoundEnd {
    /// Ask whether the program has exited, then go on.
    CheckChild,
    /// The session is over.
    Stop,
}

/// A hang-up of the program's terminal ends the session; otherwise, once
/// the program has exited, the round that drained its last output ends it.
pub open spec fn round_end_of(hung_up: bool, child_exited: bool) -> RoundEnd {
    if hung_up || child_exited {
        RoundEnd::Stop
    } else {
        RoundEnd::CheckChild
    }
}

pub fn end_round(hung_up: bool, child_exited: bool) -> (r: RoundEnd)
    ensures
        r == round_end_of(hung_up, child_exited),
{
    if hung_up || child_exited {
        RoundEnd::Stop
    } else {
        RoundEnd::CheckChild
    }
}

/// Once the program has exited, the end of the round stops the session, and
/// so does a read of its output that finds nothing (`EAGAIN`) or fails with
/// `EIO`.
pub proof fn lemma_exit_ends_session(hung_up: bool)
    ensures
        round_end_of(hung_up, true) == RoundEnd::Stop,
        output_step_of(ReadOutcome::WouldBlock, true) == OutputStep::Stop,
        output_step_of(ReadOutcome::IoError, true) == OutputStep::Stop,
{
}

} // verus!
