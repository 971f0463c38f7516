use connector::apply_patch::{working_directory, ApplyPatchOutput};
use connector::computer::batch::Output;
use connector::computer::Capability;
use connector::execution::{
    answer, check, command_script_name, unix_invocation, windows_command_script,
    windows_invocation, Ended, RunArgs, RunOutput, MAX_TIMEOUT,
};
use connector::failure::Failure;
use connector::gateway::links::Links;
use connector::mcp::{
    client_tool, client_tools, computer_result, coordinates, gateway_tool, gateway_tools, interruption_message,
    invoke, relay, relay_failure, respond, screenshot_result, tool_error, Answer, Call, ClientAnswer,
    ClientEnvironment, Content, Interruption, Request, Served, Tool,
};
use connector::screenshot::Screenshot;

#[test]
fn exposes_run_tools_and_client_environment() {
    assert!(gateway_tool("run").is_some());
    assert!(gateway_tool("apply_patch").is_some());
    assert!(gateway_tool("bash").is_none());

    assert!(gateway_tool("screenshot").is_some());
    assert!(gateway_tool("computer").is_some());

    assert!(client_tool("run").is_some());
    assert!(client_tool("apply_patch").is_some());
    assert!(client_tool("screenshot").is_some());
    assert!(client_tool("computer").is_some());
    assert!(client_tool("bash").is_none());
    let environment = ClientEnvironment::current("linux", false, Capability::default());
    assert_eq!(
        environment,
        ClientEnvironment {
            system: "linux".to_string(),
            shell: "bash".to_string(),
            computer: Capability::default(),
        }
    );
    assert_eq!(ClientEnvironment::current("windows", true, Capability::default()).shell, "pwsh");
}

fn linked(name: &str) -> Links {
    let mut links = Links::new();
    assert!(links.let_in(name));
    links.establish(
        name,
        "id",
        ClientEnvironment::current("linux", false, Capability::default()),
    );
    links
}

#[test]
fn client_listing_contains_name_system_and_shell() {
    let links = linked("build-server");
    match invoke(&links, Call::Clients) {
        Answer::Listed(clients) => {
            assert_eq!(clients.len(), 1);
            assert_eq!(clients[0].name, "build-server");
            assert_eq!(clients[0].system, "linux");
            assert_eq!(clients[0].shell, "bash");
            assert!(!clients[0].computer.available);
            assert_eq!(
                clients[0].computer.reason.as_deref(),
                Some("client did not advertise desktop input")
            );
            assert!(clients[0].computer.backend.is_none());
        }
        _ => panic!("a list"),
    }
}

#[test]
fn calls_go_to_the_client_that_they_name() {
    let links = linked("a");
    let call = |client: &str| Call::Screenshot { client: client.to_string() };
    assert!(matches!(
        invoke(&links, call("a")),
        Answer::Relay { client, request: Request::Screenshot } if client == "a"
    ));
    let run = Call::Run { client: "a".to_string(), args: command("ls", Some(7), None) };
    match invoke(&links, run) {
        Answer::Relay { client, request } => {
            assert_eq!((client.as_str(), request.tool().name()), ("a", "run"));
            assert!(matches!(request, Request::Run(args) if args.command == "ls" && args.timeout == Some(7)));
        }
        _ => panic!("handed on"),
    }
    assert!(relay(Call::Clients).is_none());
    match invoke(&links, call("b")) {
        Answer::Unavailable(message) => assert_eq!(message, "client 'b' is not connected"),
        _ => panic!("unavailable"),
    }
    assert_eq!(relay_failure(Tool::Run, "gone"), "client became unavailable: gone");
    assert_eq!(relay_failure(Tool::Screenshot, "gone"), "screenshot unavailable: gone");
    assert!(relay_failure(Tool::Computer, "gone").starts_with("desktop batch interrupted"));
}

#[test]
fn tools_say_what_they_do() {
    assert_eq!(gateway_tools().len(), 5);
    assert_eq!(client_tools().len(), 4);
    for tool in gateway_tools() {
        assert!(gateway_tool(tool.name()) == Some(tool));
        assert!(!tool.description(true).is_empty());
    }
    for tool in gateway_tools() {
        let security = tool.security(true).unwrap();
        assert_eq!((security.scheme, security.scope), ("oauth2", "control"));
        assert!(tool.security(false).is_none());
    }
    assert_eq!(coordinates(), "screenshot pixels; origin at top-left");
    assert!(Tool::Run.annotations().is_none());
    assert!(Tool::ApplyPatch.annotations().unwrap().destructive);
    assert!(Tool::Screenshot.annotations().unwrap().read_only);
    assert!(Tool::Computer.annotations().unwrap().open_world);
}

fn image() -> Screenshot {
    Screenshot {
        data: vec![255, 254, 253, 252],
        mime_type: "image/png",
        backend: "grim",
        width: 2,
        height: 3,
        source_width: 2,
        source_height: 3,
    }
}

#[test]
fn screenshots_are_answered_in_base64() {
    let result = screenshot_result(&image());
    assert!(!result.is_error);
    assert!(matches!(result.content[0], Content::Size { width: 2, height: 3 }));
    match &result.content[1] {
        Content::Image { data, mime_type } => {
            assert_eq!(data, "//79/A==");
            assert_eq!(mime_type, "image/png");
        }
        _ => panic!("an image"),
    }
    assert_eq!(result.structured.unwrap().size, Some((2, 3)));
    assert!(tool_error("no".to_string()).is_error);
}

#[test]
fn batches_tell_how_far_they_got() {
    let done = computer_result(&Output { completed: 2, error: None, screenshot: Ok(image()) });
    assert!(!done.is_error);
    assert_eq!(done.content.len(), 3);
    let stopped = computer_result(&Output {
        completed: 1,
        error: Some("stuck".to_string()),
        screenshot: Ok(image()),
    });
    assert!(stopped.is_error);
    let blind = computer_result(&Output {
        completed: 2,
        error: None,
        screenshot: Err("dark".to_string()),
    });
    assert!(blind.is_error);
    match &blind.content[1] {
        Content::Text(text) => assert_eq!(text, "Final screenshot failed: dark"),
        _ => panic!("a text"),
    }
    assert_eq!(blind.structured.unwrap().screenshot_error.as_deref(), Some("dark"));
    assert!(interruption_message(Interruption::Disconnected).starts_with("client disconnected"));
    assert!(interruption_message(Interruption::Cancelled).starts_with("desktop batch cancelled"));
    assert_eq!(
        interruption_message(Interruption::BeforeExecution),
        "batch cancelled before execution"
    );
}

fn command(command: &str, timeout: Option<u64>, cwd: Option<&str>) -> RunArgs {
    RunArgs {
        command: command.to_string(),
        cwd: cwd.map(|s| s.to_string()),
        timeout,
        stdin: None,
    }
}

#[test]
fn commands_run_in_a_fresh_login_shell() {
    let invocation = unix_invocation(&command("ls", None, None), true).unwrap();
    assert_eq!(invocation.program, "bash");
    assert_eq!(invocation.args, ["-lc", "exec 2>&1\nls"]);
    assert_eq!(invocation.timeout, 60);
    let invocation = windows_invocation(&command("ls", Some(5), None), true, "C:\\s.ps1").unwrap();
    assert_eq!(invocation.program, "pwsh");
    assert!(invocation.args.contains(&"C:\\s.ps1".to_string()));
    assert_eq!(invocation.timeout, 5);
    assert!(windows_command_script("Get-Item").contains("Get-Item"));
    assert_ne!(command_script_name(), command_script_name());
}

#[test]
fn commands_are_checked_before_they_run() {
    assert_eq!(check(&command("ls", Some(MAX_TIMEOUT), None), true).unwrap(), MAX_TIMEOUT);
    assert!(check(&command("ls", Some(MAX_TIMEOUT + 1), None), true).is_err());
    assert!(check(&command("ls", Some(0), None), true).is_err());
    assert!(check(&command("ls", None, Some("/missing")), false).is_err());
}

#[test]
fn execution_is_fresh_and_combines_output() {
    let ended =
        Ended::Exited { output: b"outerr".to_vec(), code: Some(7), signal: None };
    assert_eq!(
        answer(ended, false, 60).unwrap(),
        RunOutput { output: "outerr".to_string(), exit_code: 7 }
    );
    let stray = Ended::Exited { output: b"a\xffb".to_vec(), code: Some(0), signal: None };
    assert_eq!(answer(stray, false, 60).unwrap().output, "a\u{fffd}b");
    let killed = Ended::Exited { output: Vec::new(), code: None, signal: Some(9) };
    assert_eq!(answer(killed, false, 60).unwrap().exit_code, 137);
    assert!(answer(Ended::TimedOut, false, 60).unwrap_err().contains("60"));
    assert!(answer(Ended::NotStarted("no bash".to_string()), false, 60)
        .unwrap_err()
        .contains("no bash"));
    assert!(answer(Ended::Lost("pipe".to_string()), false, 60).unwrap_err().contains("pipe"));
}

fn error_text(answer: ClientAnswer) -> String {
    match answer {
        ClientAnswer::Tool(result) => {
            assert!(result.is_error);
            match &result.content[0] {
                Content::Text(text) => text.clone(),
                _ => panic!("a text"),
            }
        }
        _ => panic!("an error"),
    }
}

#[test]
fn clients_answer_every_call() {
    let output = RunOutput { output: "x".to_string(), exit_code: 7 };
    match respond(Served::Run(Ok(output))) {
        ClientAnswer::Run(output) => assert_eq!(output.exit_code, 7),
        _ => panic!("an output"),
    }
    assert_eq!(error_text(respond(Served::Run(Err("no".to_string())))), "no");
    let applied = ApplyPatchOutput { output: "Done!\n".to_string() };
    assert!(matches!(
        respond(Served::ApplyPatch(Ok(applied))),
        ClientAnswer::ApplyPatch(_)
    ));
    let failure = Failure::because("outer".to_string(), "inner");
    assert_eq!(error_text(respond(Served::ApplyPatch(Err(failure)))), "outer: inner");
    assert_eq!(
        error_text(respond(Served::PatchLost("gone".to_string()))),
        "patch task failed: gone"
    );
    assert_eq!(error_text(respond(Served::Screenshot(Err("dark".to_string())))), "dark");
    assert_eq!(error_text(respond(Served::Computer(Err("lost".to_string())))), "lost");
    assert!(matches!(respond(Served::Screenshot(Ok(image()))), ClientAnswer::Tool(_)));
}

#[test]
fn patches_start_from_a_directory_that_exists() {
    let here = || Ok("/here".to_string());
    assert_eq!(working_directory(Some("/w".to_string()), true, here()).unwrap(), "/w");
    assert_eq!(working_directory(None, false, here()).unwrap(), "/here");
    assert_eq!(
        working_directory(Some("/w".to_string()), false, here()).unwrap_err().chain(),
        "working directory does not exist: /w"
    );
    assert_eq!(
        working_directory(None, false, Err("gone".to_string())).unwrap_err().chain(),
        "determining current directory: gone"
    );
}
