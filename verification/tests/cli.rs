use vertex::cli::{parse_build_args, parse_flags, project_command, tool_command, CommandLineError, ProjectCommand, ToolCommand};

fn strings(v: &[&str]) -> Vec<String> {
    v.iter().map(|s| s.to_string()).collect()
}

#[test]
fn build_arguments_are_source_then_output() {
    let (d, s, o) = parse_build_args(&strings(&["main.vtx", "main.out"])).unwrap();
    assert!(!d);
    assert_eq!(s, "main.vtx");
    assert_eq!(o, "main.out");
    let (d, s, o) = parse_build_args(&strings(&["-d", "a", "b"])).unwrap();
    assert!(d);
    assert_eq!((s.as_str(), o.as_str()), ("a", "b"));
    let (d, _, _) = parse_build_args(&strings(&["a", "b", "-d"])).unwrap();
    assert!(d);
}

#[test]
fn build_needs_exactly_two_names() {
    assert_eq!(parse_build_args(&strings(&["a"])).unwrap_err(), CommandLineError::BuildHasJustTwoArg);
    assert_eq!(parse_build_args(&strings(&[])).unwrap_err(), CommandLineError::BuildHasJustTwoArg);
    assert_eq!(
        parse_build_args(&strings(&["a", "b", "c"])).unwrap_err(),
        CommandLineError::BuildHasJustTwoArg
    );
}

#[test]
fn debug_flag_is_found_anywhere() {
    assert!(parse_flags(&strings(&["vertex", "build", "-d"])));
    assert!(!parse_flags(&strings(&["vertex", "build"])));
}

#[test]
fn tool_commands_are_recognised() {
    match tool_command(&strings(&["vertexC", "build", "a.vtx", "a.out"])).unwrap() {
        ToolCommand::Build { debug, source, output } => {
            assert!(!debug);
            assert_eq!(source, "a.vtx");
            assert_eq!(output, "a.out");
        },
        _ => panic!("expected a build"),
    }
    assert!(matches!(
        tool_command(&strings(&["vertexC", "exec", "-d", "a", "b"])).unwrap(),
        ToolCommand::Exec { debug: true, .. }
    ));
    match tool_command(&strings(&["vertexC", "run", "out/a.out"])).unwrap() {
        ToolCommand::Run { path } => assert_eq!(path, "out/a.out"),
        _ => panic!("expected a run"),
    }
    assert_eq!(
        tool_command(&strings(&["vertexC", "run"])).err(),
        Some(CommandLineError::NoFileSpecifiedForBuild)
    );
    assert!(matches!(tool_command(&strings(&["vertexC", "error"])).unwrap(), ToolCommand::ExplainUsage));
    assert!(matches!(tool_command(&strings(&["vertexC", "help"])).unwrap(), ToolCommand::Help));
    assert_eq!(tool_command(&strings(&["vertexC"])).err(), Some(CommandLineError::NoSuchCommand));
    assert_eq!(tool_command(&strings(&["vertexC", "fly"])).err(), Some(CommandLineError::NoSuchCommand));
}

#[test]
fn project_commands_are_recognised() {
    assert!(matches!(project_command(&strings(&["vertex", "help"])).unwrap(), ProjectCommand::Help));
    match project_command(&strings(&["vertex", "create", "demo"])).unwrap() {
        ProjectCommand::Create { name } => assert_eq!(name, Some("demo".to_string())),
        _ => panic!("expected a create"),
    }
    assert!(matches!(
        project_command(&strings(&["vertex", "build", "-d"])).unwrap(),
        ProjectCommand::Build { debug: true }
    ));
    assert!(matches!(project_command(&strings(&["vertex", "clear"])).unwrap(), ProjectCommand::Clear));
    assert_eq!(project_command(&strings(&["vertex"])).err(), Some(CommandLineError::InvalidCommand));
    assert_eq!(project_command(&strings(&["vertex", "x"])).err(), Some(CommandLineError::NoSuchCommand));
}

#[test]
fn command_line_error_messages() {
    assert_eq!(CommandLineError::BuildHasJustTwoArg.message(), "Build only has two arguments");
    assert_eq!(CommandLineError::NoSuchCommand.message(), "Command does not exist");
    assert_eq!(
        CommandLineError::InvalidCommand.message(),
        "Command not formmated correctly, use 'vertex help' for more information"
    );
}
