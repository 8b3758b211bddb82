use minigrep::error::{exit_status, EXIT_FAILURE, EXIT_SUCCESS};
use minigrep::{Config, Error};

#[test]
fn missing_argument_has_a_reason() {
    assert_eq!(Error::MissingArgument.reason(), "not enough arguments");
}

#[test]
fn missing_argument_is_reported_as_a_parsing_problem() {
    assert_eq!(
        Error::MissingArgument.report(),
        "Problem parsing arguments: not enough arguments"
    );
}

#[test]
fn io_error_keeps_its_reason() {
    let error = Error::Io(String::from("No such file or directory (os error 2)"));
    assert_eq!(error.reason(), "No such file or directory (os error 2)");
}

#[test]
fn io_error_is_reported_as_an_application_error() {
    let error = Error::Io(String::from("No such file or directory (os error 2)"));
    assert_eq!(
        error.report(),
        "Application Error: No such file or directory (os error 2)"
    );
}

#[test]
fn io_error_with_an_empty_reason_still_has_its_heading() {
    assert_eq!(Error::Io(String::new()).report(), "Application Error: ");
}

#[test]
fn a_completed_run_exits_with_zero() {
    assert_eq!(exit_status(&Ok(())), 0);
    assert_eq!(EXIT_SUCCESS, 0);
}

#[test]
fn a_failed_run_exits_with_one() {
    assert_eq!(exit_status(&Err(Error::MissingArgument)), 1);
    assert_eq!(exit_status(&Err(Error::Io(String::from("unreadable")))), 1);
    assert_eq!(EXIT_FAILURE, 1);
}

#[test]
fn a_short_argument_list_ends_in_a_report_and_status_one() {
    let args = vec![String::from("minigrep"), String::from("needle")];
    let outcome = Config::new(&args).map(|_| ());
    assert_eq!(exit_status(&outcome), 1);
    match outcome {
        Err(error) => assert_eq!(
            error.report(),
            "Problem parsing arguments: not enough arguments"
        ),
        Ok(()) => panic!("two arguments are not enough"),
    }
}
