//! The command lines of the compiler tool and of the project manager.
use vstd::prelude::*;
use crate::text::owned;

verus! {

#[derive(Debug, Clone, Copy, PartialEq, Eq, Structural)]
pub enum CommandLineError {
    BuildHasJustTwoArg,
    NoFileSpecifiedForBuild,
    NoSuchCommand,
    ErrorCreatingDirectory,
    ErrorCreatingFile,
    InvalidCommand,
    ErrorFindingDirectory,
}

pub open spec fn command_line_message(e: CommandLineError) -> Seq<char> {
    match e {
        CommandLineError::BuildHasJustTwoArg => "Build only has two arguments"@,
        CommandLineError::NoFileSpecifiedForBuild => "No file specified for build"@,
        CommandLineError::NoSuchCommand => "Command does not exist"@,
        CommandLineError::ErrorCreatingDirectory => "Error occured while creating directory"@,
        CommandLineError::ErrorCreatingFile => "Error occured while creating file"@,
        CommandLineError::InvalidCommand =>
            "Command not formmated correctly, use 'vertex help' for more information"@,
        CommandLineError::ErrorFindingDirectory => "Error occured while finding directory"@,
    }
}

impl CommandLineError {
    /// The human-readable message of this error.
    pub fn message(&self) -> (s: String)
        ensures
            s@ == command_line_message(*self),
    {
        match self {
            CommandLineError::BuildHasJustTwoArg => owned("Build only has two arguments"),
            CommandLineError::NoFileSpecifiedForBuild => owned("No file specified for build"),
            CommandLineError::NoSuchCommand => owned("Command does not exist"),
            CommandLineError::ErrorCreatingDirectory => owned(
                "Error occured while creating directory",
            ),
            CommandLineError::ErrorCreatingFile => owned("Error occured while creating file"),
            CommandLineError::InvalidCommand => owned(
                "Command not formmated correctly, use 'vertex help' for more information",
            ),
            CommandLineError::ErrorFindingDirectory => owned(
                "Error occured while finding directory",
            ),
        }
    }
}

/// One argument of `build`: `-d` turns debugging on; the first other argument that is
/// not empty names the source and the next the output; one more is refused.
pub open spec fn build_arg(st: (bool, Seq<char>, Seq<char>), a: Seq<char>) -> Option<(bool, Seq<char>, Seq<char>)> {
    if a == "-d"@ {
        Some((true, st.1, st.2))
    } else if st.1.len() == 0 {
        Some((st.0, a, st.2))
    } else if st.2.len() == 0 {
        Some((st.0, st.1, a))
    } else {
        None
    }
}

pub open spec fn build_args_from(st: (bool, Seq<char>, Seq<char>), args: Seq<Seq<char>>) -> Option<(bool, Seq<char>, Seq<char>)>
    decreases args.len(),
{
    if args.len() == 0 {
        Some(st)
    } else {
        match build_arg(st, args[0]) {
            Some(st2) => build_args_from(st2, args.drop_first()),
            None => None,
        }
    }
}

/// The debug flag, the source and the output named by the arguments of `build`.
pub open spec fn spec_build_args(args: Seq<Seq<char>>) -> Result<(bool, Seq<char>, Seq<char>), CommandLineError> {
    match build_args_from((false, seq![], seq![]), args) {
        Some(st) => if st.1.len() == 0 || st.2.len() == 0 {
            Err(CommandLineError::BuildHasJustTwoArg)
        } else {
            Ok(st)
        },
        None => Err(CommandLineError::BuildHasJustTwoArg),
    }
}

/// The arguments other than the `-d` flag, in order.
pub open spec fn non_flags(args: Seq<Seq<char>>) -> Seq<Seq<char>>
    decreases args.len(),
{
    if args.len() == 0 {
        seq![]
    } else if args[0] == "-d"@ {
        non_flags(args.drop_first())
    } else {
        seq![args[0]] + non_flags(args.drop_first())
    }
}

/// The names already read in a reading state.
pub open spec fn names_read(st: (bool, Seq<char>, Seq<char>)) -> Seq<Seq<char>> {
    if st.1.len() == 0 {
        seq![]
    } else if st.2.len() == 0 {
        seq![st.1]
    } else {
        seq![st.1, st.2]
    }
}

proof fn lemma_build_args_from(st: (bool, Seq<char>, Seq<char>), args: Seq<Seq<char>>)
    requires
        st.1.len() == 0 ==> st.2.len() == 0,
        forall|i: int| 0 <= i < args.len() ==> args[i].len() > 0,
    ensures
        ({
            let all = names_read(st) + non_flags(args);
            build_args_from(st, args) == if all.len() > 2 {
                None
            } else {
                Some(
                    (
                        st.0 || args.contains("-d"@),
                        if all.len() >= 1 { all[0] } else { seq![] },
                        if all.len() >= 2 { all[1] } else { seq![] },
                    ),
                )
            }
        }),
    decreases args.len(),
{
    if args.len() == 0 {
        assert(names_read(st) + non_flags(args) =~= names_read(st));
        assert(!args.contains("-d"@));
    } else {
        let rest = args.drop_first();
        assert forall|i: int| 0 <= i < rest.len() implies rest[i].len() > 0 by {
            assert(rest[i] == args[i + 1]);
        }
        assert(args.contains("-d"@) <==> (args[0] == "-d"@ || rest.contains("-d"@))) by {
            if rest.contains("-d"@) {
                let j = choose|j: int| 0 <= j < rest.len() && rest[j] == "-d"@;
                assert(args[j + 1] == "-d"@);
            }
            if args.contains("-d"@) && args[0] != "-d"@ {
                let j = choose|j: int| 0 <= j < args.len() && args[j] == "-d"@;
                assert(rest[j - 1] == "-d"@);
            }
        }
        match build_arg(st, args[0]) {
            Some(st2) => {
                lemma_build_args_from(st2, rest);
                if args[0] == "-d"@ {
                    assert(names_read(st2) + non_flags(rest) =~= names_read(st) + non_flags(args));
                } else {
                    assert(names_read(st2) + non_flags(rest) =~= names_read(st) + non_flags(args));
                }
            },
            None => {
                assert((names_read(st) + non_flags(args)).len() > 2);
            },
        }
    }
}

/// `build` takes exactly two names besides the `-d` flag, the source first and then the
/// output, and turns debugging on when the flag is among its arguments; anything else is
/// refused. Arguments are taken to be non-empty, as a command line gives them.
pub proof fn lemma_build_args_characterised(args: Seq<Seq<char>>)
    requires
        forall|i: int| 0 <= i < args.len() ==> args[i].len() > 0,
    ensures
        spec_build_args(args) == if non_flags(args).len() == 2 {
            Ok((args.contains("-d"@), non_flags(args)[0], non_flags(args)[1]))
        } else {
            Err::<(bool, Seq<char>, Seq<char>), CommandLineError>(CommandLineError::BuildHasJustTwoArg)
        },
{
    let st = (false, Seq::<char>::empty(), Seq::<char>::empty());
    lemma_build_args_from(st, args);
    assert(names_read(st) + non_flags(args) =~= non_flags(args));
    let n = non_flags(args);
    if n.len() == 2 {
        lemma_non_flags_nonempty(args);
        assert(n[0].len() > 0 && n[1].len() > 0);
    } else if n.len() == 1 {
        lemma_non_flags_nonempty(args);
        assert(n[0].len() > 0);
    }
}

proof fn lemma_non_flags_nonempty(args: Seq<Seq<char>>)
    requires
        forall|i: int| 0 <= i < args.len() ==> args[i].len() > 0,
    ensures
        forall|i: int| 0 <= i < non_flags(args).len() ==> non_flags(args)[i].len() > 0,
    decreases args.len(),
{
    if args.len() > 0 {
        let rest = args.drop_first();
        assert forall|i: int| 0 <= i < rest.len() implies rest[i].len() > 0 by {
            assert(rest[i] == args[i + 1]);
        }
        lemma_non_flags_nonempty(rest);
        assert(args[0].len() > 0);
        if args[0] == "-d"@ {
            assert(non_flags(args) == non_flags(rest));
        } else {
            let n = non_flags(args);
            assert(n == seq![args[0]] + non_flags(rest));
            assert forall|i: int| 0 <= i < n.len() implies n[i].len() > 0 by {
                if i == 0 {
                    assert(n[0] == args[0]);
                } else {
                    assert(n[i] == non_flags(rest)[i - 1]);
                }
            }
        }
    }
}

pub open spec fn strings_of(args: Seq<String>) -> Seq<Seq<char>> {
    args.map_values(|s: String| s@)
}

/// Reads the arguments of `build` and `exec`: the debug flag, the source and the output.
pub fn parse_build_args(args: &[String]) -> (r: Result<(bool, String, String), CommandLineError>)
    ensures
        match r {
            Ok((d, s, o)) => Ok((d, s@, o@)),
            Err(e) => Err(e),
        } == spec_build_args(strings_of(args@)),
{
    let ghost all = strings_of(args@);
    let mut debug = false;
    let mut source = String::new();
    let mut output = String::new();
    let flag = owned("-d");
    assert(all.skip(0) =~= all);
    let mut i: usize = 0;
    while i < args.len()
        invariant
            all == strings_of(args@),
            i <= args@.len(),
            flag@ == "-d"@,
            build_args_from((false, seq![], seq![]), all) == build_args_from(
                (debug, source@, output@),
                all.skip(i as int),
            ),
        decreases args@.len() - i,
    {
        proof {
            assert(all.skip(i as int)[0] == args@[i as int]@);
            assert(all.skip(i as int).drop_first() =~= all.skip(i + 1));
        }
        if args[i] == flag {
            debug = true;
        } else if source.as_str().is_empty() {
            source = args[i].clone();
        } else if output.as_str().is_empty() {
            output = args[i].clone();
        } else {
            return Err(CommandLineError::BuildHasJustTwoArg);
        }
        i = i + 1;
    }
    assert(all.skip(i as int) =~= seq![]);
    if source.as_str().is_empty() || output.as_str().is_empty() {
        return Err(CommandLineError::BuildHasJustTwoArg);
    }
    Ok((debug, source, output))
}

/// Whether `-d` is among the arguments.
pub fn parse_flags(args: &Vec<String>) -> (r: bool)
    ensures
        r == strings_of(args@).contains("-d"@),
{
    let flag = owned("-d");
    let mut i: usize = 0;
    while i < args.len()
        invariant
            i <= args@.len(),
            flag@ == "-d"@,
            forall|j: int| 0 <= j < i ==> args@[j]@ != "-d"@,
        decreases args@.len() - i,
    {
        if args[i] == flag {
            assert(strings_of(args@)[i as int] == "-d"@);
            return true;
        }
        i = i + 1;
    }
    proof {
        if strings_of(args@).contains("-d"@) {
            let j = choose|j: int| 0 <= j < strings_of(args@).len() && strings_of(args@)[j] == "-d"@;
            assert(args@[j]@ == "-d"@);
        }
    }
    false
}

/// What the compiler tool was asked to do.
pub enum ToolCommand {
    /// Compile `source` into `out/<output>`.
    Build { debug: bool, source: String, output: String },
    /// Run compiled code.
    Run { path: String },
    /// Compile, then run what was compiled.
    Exec { debug: bool, source: String, output: String },
    /// Explain an error code.
    Explain { code: String },
    /// `error` without exactly one code: print how it is used.
    ExplainUsage,
    Help,
}

pub enum ToolCommandV {
    Build(bool, Seq<char>, Seq<char>),
    Run(Seq<char>),
    Exec(bool, Seq<char>, Seq<char>),
    Explain(Seq<char>),
    ExplainUsage,
    Help,
}

impl View for ToolCommand {
    type V = ToolCommandV;

    open spec fn view(&self) -> ToolCommandV {
        match self {
            ToolCommand::Build { debug, source, output } => ToolCommandV::Build(*debug, source@, output@),
            ToolCommand::Run { path } => ToolCommandV::Run(path@),
            ToolCommand::Exec { debug, source, output } => ToolCommandV::Exec(*debug, source@, output@),
            ToolCommand::Explain { code } => ToolCommandV::Explain(code@),
            ToolCommand::ExplainUsage => ToolCommandV::ExplainUsage,
            ToolCommand::Help => ToolCommandV::Help,
        }
    }
}

/// The command that the compiler tool's arguments (the program's name first) ask for.
pub open spec fn spec_tool_command(args: Seq<Seq<char>>) -> Result<ToolCommandV, CommandLineError> {
    if args.len() < 2 {
        Err(CommandLineError::NoSuchCommand)
    } else if args[1] == "build"@ || args[1] == "exec"@ {
        match spec_build_args(args.skip(2)) {
            Ok((d, s, o)) => Ok(
                if args[1] == "build"@ {
                    ToolCommandV::Build(d, s, o)
                } else {
                    ToolCommandV::Exec(d, s, o)
                },
            ),
            Err(e) => Err(e),
        }
    } else if args[1] == "run"@ {
        if args.len() != 3 {
            Err(CommandLineError::NoFileSpecifiedForBuild)
        } else {
            Ok(ToolCommandV::Run(args[2]))
        }
    } else if args[1] == "error"@ {
        if args.len() != 3 {
            Ok(ToolCommandV::ExplainUsage)
        } else {
            Ok(ToolCommandV::Explain(args[2]))
        }
    } else if args[1] == "help"@ {
        Ok(ToolCommandV::Help)
    } else {
        Err(CommandLineError::NoSuchCommand)
    }
}

/// Decides what the compiler tool's arguments (the program's name first) ask for.
pub fn tool_command(args: &Vec<String>) -> (r: Result<ToolCommand, CommandLineError>)
    ensures
        match r {
            Ok(c) => Ok(c@),
            Err(e) => Err(e),
        } == spec_tool_command(strings_of(args@)),
{
    if args.len() < 2 {
        return Err(CommandLineError::NoSuchCommand);
    }
    let cmd = &args[1];
    let is_build = *cmd == owned("build");
    let is_exec = *cmd == owned("exec");
    if is_build || is_exec {
        let rest = &args.as_slice()[2..args.len()];
        assert(strings_of(rest@) =~= strings_of(args@).skip(2));
        let (debug, source, output) = match parse_build_args(rest) {
            Ok(x) => x,
            Err(e) => {
                return Err(e);
            },
        };
        if is_build {
            Ok(ToolCommand::Build { debug, source, output })
        } else {
            Ok(ToolCommand::Exec { debug, source, output })
        }
    } else if *cmd == owned("run") {
        if args.len() != 3 {
            return Err(CommandLineError::NoFileSpecifiedForBuild);
        }
        Ok(ToolCommand::Run { path: args[2].clone() })
    } else if *cmd == owned("error") {
        if args.len() != 3 {
            return Ok(ToolCommand::ExplainUsage);
        }
        Ok(ToolCommand::Explain { code: args[2].clone() })
    } else if *cmd == owned("help") {
        Ok(ToolCommand::Help)
    } else {
        Err(CommandLineError::NoSuchCommand)
    }
}

/// What the project manager was asked to do.
pub enum ProjectCommand {
    Help,
    /// Create a project, when a name is given.
    Create { name: Option<String> },
    Build { debug: bool },
    Clear,
}

pub enum ProjectCommandV {
    Help,
    Create(Option<Seq<char>>),
    Build(bool),
    Clear,
}

impl View for ProjectCommand {
    type V = ProjectCommandV;

    open spec fn view(&self) -> ProjectCommandV {
        match self {
            ProjectCommand::Help => ProjectCommandV::Help,
            ProjectCommand::Create { name } => ProjectCommandV::Create(
                match name {
                    Some(n) => Some(n@),
                    None => None,
                },
            ),
            ProjectCommand::Build { debug } => ProjectCommandV::Build(*debug),
            ProjectCommand::Clear => ProjectCommandV::Clear,
        }
    }
}

/// The command that the project manager's arguments (the program's name first) ask for.
pub open spec fn spec_project_command(args: Seq<Seq<char>>) -> Result<ProjectCommandV, CommandLineError> {
    if args.len() < 2 {
        Err(CommandLineError::InvalidCommand)
    } else if args[1] == "help"@ {
        Ok(ProjectCommandV::Help)
    } else if args[1] == "create"@ {
        Ok(ProjectCommandV::Create(if args.len() > 2 { Some(args[2]) } else { None }))
    } else if args[1] == "build"@ {
        Ok(ProjectCommandV::Build(args.contains("-d"@)))
    } else if args[1] == "clear"@ {
        Ok(ProjectCommandV::Clear)
    } else {
        Err(CommandLineError::NoSuchCommand)
    }
}

/// Decides what the project manager's arguments (the program's name first) ask for.
pub fn project_command(args: &Vec<String>) -> (r: Result<ProjectCommand, CommandLineError>)
    ensures
        match r {
            Ok(c) => Ok(c@),
            Err(e) => Err(e),
        } == spec_project_command(strings_of(args@)),
{
    if args.len() < 2 {
        return Err(CommandLineError::InvalidCommand);
    }
    let cmd = &args[1];
    if *cmd == owned("help") {
        Ok(ProjectCommand::Help)
    } else if *cmd == owned("create") {
        let name = if args.len() > 2 {
            Some(args[2].clone())
        } else {
            None
        };
        Ok(ProjectCommand::Create { name })
    } else if *cmd == owned("build") {
        Ok(ProjectCommand::Build { debug: parse_flags(args) })
    } else if *cmd == owned("clear") {
        Ok(ProjectCommand::Clear)
    } else {
        Err(CommandLineError::NoSuchCommand)
    }
}

} // verus!
