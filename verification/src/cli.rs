//! The command line of the `titan` tool: help, version, or launching a
//! project's game or editor tooling with the remaining arguments.
use vstd::prelude::*;

use vstd::string::StringExecFns;

verus! {

/// Which project tool to launch.
#[derive(Clone, Copy, Debug, PartialEq, Eq, Structural)]
pub enum ToolMode {
    Game,
    Edit,
}

impl ToolMode {
    /// The tool's protocol command name.
    pub fn protocol_name(self) -> (r: &'static str)
        ensures
            r@ == match self {
                ToolMode::Game => "command"@,
                ToolMode::Edit => "editor"@,
            },
    {
        match self {
            ToolMode::Game => "command",
            ToolMode::Edit => "editor",
        }
    }
}

/// What the command line asks for. Positions index the arguments.
#[derive(Clone, Copy, Debug, PartialEq, Eq, Structural)]
pub enum Invocation {
    Help,
    Version,
    /// Launch a tool in the project at argument `project` (or the current
    /// directory), passing it the arguments from `first_argument` on.
    Launch { project: Option<usize>, mode: ToolMode, first_argument: usize },
}

/// A malformed use of `--project` or of the command.
#[derive(Clone, Copy, Debug, PartialEq, Eq, Structural)]
pub enum UsageProblem {
    MissingProject,
    EmptyProject,
    MissingCommand,
    RepeatedProject,
}

/// Why a command line is refused.
#[derive(Clone, Copy, Debug, PartialEq, Eq, Structural)]
pub enum CliError {
    Usage(UsageProblem),
    /// The argument at this position follows `--help` or `--version`.
    UnexpectedArgument(usize),
    /// The argument at this position is no command.
    UnsupportedArgument(usize),
}

pub open spec fn problem_text(p: UsageProblem) -> Seq<char> {
    match p {
        UsageProblem::MissingProject => "--project requires a directory."@,
        UsageProblem::EmptyProject => "--project requires a non-empty directory."@,
        UsageProblem::MissingCommand => "expected 'game' or 'edit' after --project <directory>."@,
        UsageProblem::RepeatedProject => "--project may be specified only once, before game or edit."@,
    }
}

impl UsageProblem {
    /// The full message, with the usage hint.
    pub fn message(self) -> (r: String)
        ensures
            r@ == "error: "@ + problem_text(self) + "\nTry 'titan --help' for usage."@,
    {
        let text = match self {
            UsageProblem::MissingProject => "--project requires a directory.",
            UsageProblem::EmptyProject => "--project requires a non-empty directory.",
            UsageProblem::MissingCommand => "expected 'game' or 'edit' after --project <directory>.",
            UsageProblem::RepeatedProject => "--project may be specified only once, before game or edit.",
        };
        "error: ".to_owned().concat(text).concat("\nTry 'titan --help' for usage.")
    }
}

/// What the text arguments `args` ask for. An optional `--project
/// <directory>` comes first; then `--help`, `--version`, `game` or `edit`.
/// Help and version take nothing after them; a tool takes everything after.
pub open spec fn parse_spec(args: Seq<Seq<char>>) -> Result<Invocation, CliError> {
    if args.len() == 0 {
        Ok(Invocation::Help)
    } else if args[0] == "--project"@ && args.len() < 2 {
        Err(CliError::Usage(UsageProblem::MissingProject))
    } else if args[0] == "--project"@ && args[1].len() == 0 {
        Err(CliError::Usage(UsageProblem::EmptyProject))
    } else if args[0] == "--project"@ && args.len() < 3 {
        Err(CliError::Usage(UsageProblem::MissingCommand))
    } else {
        let c: int = if args[0] == "--project"@ {
            2
        } else {
            0
        };
        let project: Option<usize> = if args[0] == "--project"@ {
            Some(1usize)
        } else {
            None
        };
        let command = args[c];
        if command == "--help"@ || command == "--version"@ {
            if args.len() > c + 1 {
                Err(CliError::UnexpectedArgument((c + 1) as usize))
            } else if command == "--help"@ {
                Ok(Invocation::Help)
            } else {
                Ok(Invocation::Version)
            }
        } else if command == "--project"@ {
            Err(CliError::Usage(UsageProblem::RepeatedProject))
        } else if command == "game"@ {
            Ok(Invocation::Launch { project, mode: ToolMode::Game, first_argument: (c + 1) as usize })
        } else if command == "edit"@ {
            Ok(Invocation::Launch { project, mode: ToolMode::Edit, first_argument: (c + 1) as usize })
        } else {
            Err(CliError::UnsupportedArgument(c as usize))
        }
    }
}

/// A tool launch keeps the project directory given before the command,
/// whichever tool is chosen, and runs in the current directory without one;
/// the tool's arguments start right after its command word, which names the
/// tool. Choosing `game` or `edit` changes nothing but the mode.
pub proof fn law_project_is_kept_for_every_tool(args: Seq<Seq<char>>)
    ensures
        parse_spec(args) matches Ok(Invocation::Launch { project, mode, first_argument }) ==> {
            &&& (project == Some(1usize) <==> args[0] == "--project"@)
            &&& (project is None <==> args[0] != "--project"@)
            &&& first_argument == if project is Some { 3usize } else { 1usize }
            &&& args[first_argument - 1] == match mode {
                ToolMode::Game => "game"@,
                ToolMode::Edit => "edit"@,
            }
        },
        args.len() >= 3 && args[0] == "--project"@ && args[1].len() > 0 && args[2] == "game"@ ==> parse_spec(
            args,
        ) == Ok::<Invocation, CliError>(
            Invocation::Launch { project: Some(1usize), mode: ToolMode::Game, first_argument: 3 },
        ),
{
    reveal_strlit("--project");
    reveal_strlit("game");
    reveal_strlit("edit");
    reveal_strlit("--help");
    reveal_strlit("--version");
    assert("game"@.len() == 4);
    assert("game"@ != "--help"@);
    assert("game"@ != "--version"@);
    assert("game"@ != "--project"@);
}

/// Help and version answer only when their flag is the last argument; an
/// argument after them is refused at its own position; a refused command is
/// the argument at its position, which is no command word.
pub proof fn law_answers_name_their_flags(args: Seq<Seq<char>>)
    ensures
        parse_spec(args) == Ok::<Invocation, CliError>(Invocation::Help) ==> args.len() == 0 || args.last()
            == "--help"@,
        parse_spec(args) == Ok::<Invocation, CliError>(Invocation::Version) ==> args.last() == "--version"@,
        parse_spec(args) matches Err(CliError::UnexpectedArgument(i)) ==> 0 < i < args.len() && (args[i - 1]
            == "--help"@ || args[i - 1] == "--version"@),
        parse_spec(args) matches Err(CliError::UnsupportedArgument(i)) ==> i < args.len() && args[i as int]
            != "game"@ && args[i as int] != "edit"@ && args[i as int] != "--help"@ && args[i as int] != "--version"@,
{
}

fn is(arg: &String, word: &str) -> (r: bool)
    ensures
        r == (arg@ == word@),
{
    let expected = word.to_owned();
    *arg == expected
}

/// Reads the command line, given each argument's text.
pub fn parse_args(args: &Vec<String>) -> (r: Result<Invocation, CliError>)
    ensures
        r == parse_spec(args@.map_values(|a: String| a@)),
        r matches Ok(Invocation::Launch { project, mode, first_argument }) ==> {
            &&& (project == Some(1usize) <==> args@[0]@ == "--project"@)
            &&& (project is None <==> args@[0]@ != "--project"@)
            &&& first_argument == if project is Some { 3usize } else { 1usize }
            &&& args@[first_argument - 1]@ == match mode {
                ToolMode::Game => "game"@,
                ToolMode::Edit => "edit"@,
            }
        },
{
    proof {
        law_project_is_kept_for_every_tool(args@.map_values(|a: String| a@));
    }
    let ghost view = args@.map_values(|a: String| a@);
    let n = args.len();
    if n == 0 {
        return Ok(Invocation::Help);
    }
    let with_project = is(&args[0], "--project");
    if with_project && n < 2 {
        return Err(CliError::Usage(UsageProblem::MissingProject));
    }
    if with_project && args[1].as_str().is_empty() {
        return Err(CliError::Usage(UsageProblem::EmptyProject));
    }
    if with_project && n < 3 {
        return Err(CliError::Usage(UsageProblem::MissingCommand));
    }
    let c: usize = if with_project {
        2
    } else {
        0
    };
    let project = if with_project {
        Some(1usize)
    } else {
        None
    };
    let command = &args[c];
    if is(command, "--help") || is(command, "--version") {
        if n > c + 1 {
            return Err(CliError::UnexpectedArgument(c + 1));
        }
        if is(command, "--help") {
            return Ok(Invocation::Help);
        }
        return Ok(Invocation::Version);
    }
    if is(command, "--project") {
        return Err(CliError::Usage(UsageProblem::RepeatedProject));
    }
    if is(command, "game") {
        return Ok(Invocation::Launch { project, mode: ToolMode::Game, first_argument: c + 1 });
    }
    if is(command, "edit") {
        return Ok(Invocation::Launch { project, mode: ToolMode::Edit, first_argument: c + 1 });
    }
    Err(CliError::UnsupportedArgument(c))
}

} // verus!
