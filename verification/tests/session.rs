use termrec::session::{
    command_or_default, end_round, on_input_read, on_output_read, InputStep, OutputStep, ReadOutcome, RoundEnd,
};

#[test]
fn default_command_is_btop() {
    assert_eq!(command_or_default(vec![]), vec!["btop".to_string()]);
    let cmd = vec!["top".to_string(), "-d".to_string(), "1".to_string()];
    assert_eq!(command_or_default(cmd.clone()), cmd);
}

#[test]
fn output_reads() {
    assert_eq!(on_output_read(ReadOutcome::Data(12), false), OutputStep::Record(12));
    assert_eq!(on_output_read(ReadOutcome::Data(12), true), OutputStep::Record(12));
    assert_eq!(on_output_read(ReadOutcome::Data(0), false), OutputStep::Stop);
    assert_eq!(on_output_read(ReadOutcome::Eof, false), OutputStep::Stop);
    assert_eq!(on_output_read(ReadOutcome::WouldBlock, false), OutputStep::Wait);
    assert_eq!(on_output_read(ReadOutcome::WouldBlock, true), OutputStep::Stop);
    assert_eq!(on_output_read(ReadOutcome::IoError, false), OutputStep::Wait);
    assert_eq!(on_output_read(ReadOutcome::IoError, true), OutputStep::Stop);
    assert_eq!(on_output_read(ReadOutcome::OtherError, true), OutputStep::Fail);
}

#[test]
fn input_reads() {
    assert_eq!(on_input_read(ReadOutcome::Data(3)), InputStep::Relay(3));
    assert_eq!(on_input_read(ReadOutcome::Data(0)), InputStep::Stop);
    assert_eq!(on_input_read(ReadOutcome::Eof), InputStep::Stop);
    assert_eq!(on_input_read(ReadOutcome::WouldBlock), InputStep::Wait);
    assert_eq!(on_input_read(ReadOutcome::IoError), InputStep::Fail);
    assert_eq!(on_input_read(ReadOutcome::OtherError), InputStep::Fail);
}

#[test]
fn rounds_end_after_exit_or_hang_up() {
    assert_eq!(end_round(false, false), RoundEnd::CheckChild);
    assert_eq!(end_round(true, false), RoundEnd::Stop);
    assert_eq!(end_round(false, true), RoundEnd::Stop);
    assert_eq!(end_round(true, true), RoundEnd::Stop);
}
