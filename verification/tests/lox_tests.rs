use delo::lox::{error, Clock};

#[test]
fn error_reports_line_and_message() {
    assert_eq!(error(3, "Unexpected character."), "[line 3] Error: Unexpected character.");
}

#[test]
fn clock_takes_no_arguments() {
    let clock = Clock;
    assert_eq!(clock.arity(), 0);
    assert_eq!(clock.to_string(), "<native fn>");
}
