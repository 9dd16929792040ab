use ezbin::{parse_args, Command, UsageError};

fn args(v: &[&str]) -> Vec<String> {
    v.iter().map(|s| s.to_string()).collect()
}

#[test]
fn output_and_inputs() {
    match parse_args(&args(&["-o", "out.bin", "a.ezbin", "b.ezbin"])) {
        Ok(Command::Build { inputs, output }) => {
            assert_eq!(inputs, args(&["a.ezbin", "b.ezbin"]));
            assert_eq!(output, "out.bin");
        }
        _ => panic!("expected a build"),
    }
    match parse_args(&args(&["a", "-o", "x", "b", "-o", "y"])) {
        Ok(Command::Build { inputs, output }) => {
            assert_eq!(inputs, args(&["a", "b"]));
            assert_eq!(output, "y");
        }
        _ => panic!("expected a build"),
    }
}

#[test]
fn missing_output_is_a_usage_error() {
    assert!(matches!(parse_args(&args(&["a.ezbin"])), Err(UsageError::MissingOutput)));
    assert!(matches!(parse_args(&args(&["a.ezbin", "-o"])), Err(UsageError::MissingOutput)));
}

#[test]
fn help_wins() {
    assert!(matches!(parse_args(&args(&[])), Ok(Command::Help)));
    assert!(matches!(parse_args(&args(&["a", "--help", "-o", "x"])), Ok(Command::Help)));
}
