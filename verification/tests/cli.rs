use titan::cli::{parse_args, CliError, Invocation, ToolMode, UsageProblem};

fn parse(args: &[&str]) -> Result<Invocation, CliError> {
    parse_args(&args.iter().map(|a| a.to_string()).collect())
}

#[test]
fn help_version_and_tools() {
    assert_eq!(parse(&[]), Ok(Invocation::Help));
    assert_eq!(parse(&["--help"]), Ok(Invocation::Help));
    assert_eq!(parse(&["--version"]), Ok(Invocation::Version));
    assert_eq!(parse(&["--project", "demo", "--help"]), Ok(Invocation::Help));
    assert_eq!(parse(&["--project", "demo", "--version"]), Ok(Invocation::Version));
    assert_eq!(
        parse(&["game", "--level", "one"]),
        Ok(Invocation::Launch { project: None, mode: ToolMode::Game, first_argument: 1 })
    );
    assert_eq!(
        parse(&["--project", "demo", "edit", "--help"]),
        Ok(Invocation::Launch { project: Some(1), mode: ToolMode::Edit, first_argument: 3 })
    );
    assert_eq!(ToolMode::Game.protocol_name(), "command");
    assert_eq!(ToolMode::Edit.protocol_name(), "editor");
}

#[test]
fn malformed_command_lines_are_refused() {
    assert_eq!(parse(&["--project"]), Err(CliError::Usage(UsageProblem::MissingProject)));
    assert_eq!(parse(&["--project", ""]), Err(CliError::Usage(UsageProblem::EmptyProject)));
    assert_eq!(parse(&["--project", "demo"]), Err(CliError::Usage(UsageProblem::MissingCommand)));
    assert_eq!(
        parse(&["--project", "demo", "--project", "again", "game"]),
        Err(CliError::Usage(UsageProblem::RepeatedProject))
    );
    assert_eq!(parse(&["--help", "extra"]), Err(CliError::UnexpectedArgument(1)));
    assert_eq!(parse(&["--project", "demo", "--version", "x"]), Err(CliError::UnexpectedArgument(3)));
    assert_eq!(parse(&["build"]), Err(CliError::UnsupportedArgument(0)));
    assert_eq!(parse(&["--project", "demo", "run"]), Err(CliError::UnsupportedArgument(2)));
    assert_eq!(
        UsageProblem::MissingCommand.message(),
        "error: expected 'game' or 'edit' after --project <directory>.\nTry 'titan --help' for usage."
    );
}
