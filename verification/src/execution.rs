//! Running one command in a fresh shell: what is run, and what is answered.
use vstd::prelude::*;

use crate::bytes;
use crate::crypto;
use crate::text;
use crate::text::Text;

verus! {

/// How long a command may take when nothing is said, in seconds.
pub const DEFAULT_TIMEOUT: u64 = 60;

/// How long a command may be given, in seconds.
pub const MAX_TIMEOUT: u64 = 3600;

/// A command, where it runs, how long it may take and what it reads.
#[derive(Debug, Clone)]
pub struct RunArgs {
    pub command: String,
    pub cwd: Option<String>,
    pub timeout: Option<u64>,
    pub stdin: Option<String>,
}

/// What a command printed, and its exit code.
#[derive(Debug, Clone, PartialEq, Eq)]
pub struct RunOutput {
    pub output: String,
    pub exit_code: i32,
}

/// The call of a shell.
#[derive(Debug)]
pub struct Invocation {
    pub program: &'static str,
    pub args: Vec<String>,
    pub timeout: u64,
}

/// How long a command may take.
pub open spec fn allowed(timeout: Option<u64>) -> u64 {
    match timeout {
        Some(t) => t,
        None => DEFAULT_TIMEOUT,
    }
}

/// Why a command is refused, given whether its directory exists.
pub open spec fn refusal(timeout: Option<u64>, cwd: Option<Text>, cwd_exists: bool) -> Option<
    Text,
> {
    if allowed(timeout) == 0 || allowed(timeout) > MAX_TIMEOUT {
        Some("timeout must be between 1 and 3600 seconds"@)
    } else if cwd is Some && !cwd_exists {
        Some("working directory does not exist: "@ + cwd->0)
    } else {
        None
    }
}

/// What the shell of a Unix client is given: both outputs are one.
pub open spec fn unix_script(command: Text) -> Text {
    "exec 2>&1\n"@ + command
}

/// What the shell of a Windows client is given: all outputs are one, and the
/// exit code is that of the last program where the command failed.
pub open spec fn windows_script(command: Text) -> Text {
    "$global:LASTEXITCODE = 0\n& {\n"@ + command
        + "\n} *>&1\n$connectorSucceeded = $?\nif (-not $connectorSucceeded) {\n    if ($LASTEXITCODE -ne 0) { exit $LASTEXITCODE }\n    exit 1\n}\nexit 0\n"@
}

/// Checks a command; `cwd_exists` tells whether its directory is one.
pub fn check(args: &RunArgs, cwd_exists: bool) -> (r: Result<u64, String>)
    ensures
        match r {
            Ok(timeout) => refusal(args.timeout, text::opt_text(args.cwd), cwd_exists) is None
                && timeout == allowed(args.timeout),
            Err(e) => refusal(args.timeout, text::opt_text(args.cwd), cwd_exists) == Some(e@),
        },
{
    let timeout = match args.timeout {
        Some(t) => t,
        None => DEFAULT_TIMEOUT,
    };
    if timeout == 0 || timeout > MAX_TIMEOUT {
        return Err("timeout must be between 1 and 3600 seconds".to_string());
    }
    if let Some(cwd) = &args.cwd {
        if !cwd_exists {
            let mut message = "working directory does not exist: ".to_string();
            message.append(cwd.as_str());
            return Err(message);
        }
    }
    Ok(timeout)
}

/// The call of the shell for a command on a Unix client.
pub fn unix_invocation(args: &RunArgs, cwd_exists: bool) -> (r: Result<Invocation, String>)
    ensures
        match r {
            Ok(call) => refusal(args.timeout, text::opt_text(args.cwd), cwd_exists) is None
                && call.program@ == "bash"@ && text::strings(call.args@)
                == seq!["-lc"@, unix_script(args.command@)] && call.timeout == allowed(
                args.timeout,
            ),
            Err(e) => refusal(args.timeout, text::opt_text(args.cwd), cwd_exists) == Some(e@),
        },
{
    let timeout = match check(args, cwd_exists) {
        Ok(t) => t,
        Err(e) => {
            return Err(e);
        },
    };
    let mut script = "exec 2>&1\n".to_string();
    script.append(args.command.as_str());
    let mut words: Vec<String> = Vec::new();
    words.push("-lc".to_string());
    words.push(script);
    assert(text::strings(words@) =~= seq!["-lc"@, unix_script(args.command@)]);
    Ok(Invocation { program: "bash", args: words, timeout })
}

/// The script file for a command on a Windows client.
pub fn windows_command_script(command: &str) -> (r: String)
    ensures
        r@ == windows_script(command@),
{
    let mut script = "$global:LASTEXITCODE = 0\n& {\n".to_string();
    script.append(command);
    script.append(
        "\n} *>&1\n$connectorSucceeded = $?\nif (-not $connectorSucceeded) {\n    if ($LASTEXITCODE -ne 0) { exit $LASTEXITCODE }\n    exit 1\n}\nexit 0\n",
    );
    script
}

/// The call of the shell for a script file on a Windows client.
pub fn windows_invocation(args: &RunArgs, cwd_exists: bool, script: &str) -> (r: Result<
    Invocation,
    String,
>)
    ensures
        match r {
            Ok(call) => refusal(args.timeout, text::opt_text(args.cwd), cwd_exists) is None
                && call.program@ == "pwsh"@ && text::strings(call.args@) == seq![
                "-NoLogo"@,
                "-NoProfile"@,
                "-NonInteractive"@,
                "-ExecutionPolicy"@,
                "Bypass"@,
                "-File"@,
                script@,
            ] && call.timeout == allowed(args.timeout),
            Err(e) => refusal(args.timeout, text::opt_text(args.cwd), cwd_exists) == Some(e@),
        },
{
    let timeout = match check(args, cwd_exists) {
        Ok(t) => t,
        Err(e) => {
            return Err(e);
        },
    };
    let mut words: Vec<String> = Vec::new();
    words.push("-NoLogo".to_string());
    words.push("-NoProfile".to_string());
    words.push("-NonInteractive".to_string());
    words.push("-ExecutionPolicy".to_string());
    words.push("Bypass".to_string());
    words.push("-File".to_string());
    words.push(script.to_string());
    assert(text::strings(words@) =~= seq![
        "-NoLogo"@,
        "-NoProfile"@,
        "-NonInteractive"@,
        "-ExecutionPolicy"@,
        "Bypass"@,
        "-File"@,
        script@,
    ]);
    Ok(Invocation { program: "pwsh", args: words, timeout })
}

/// The name of a script file.
pub open spec fn script_name(token: Text) -> Text {
    "connector-command-"@ + token + ".ps1"@
}

/// A random name for a script file.
pub fn command_script_name() -> (r: String)
    ensures
        exists|token: Text| crypto::token_shaped(token) && r@ == #[trigger] script_name(token),
{
    let token = crypto::random_token();
    let mut out = "connector-command-".to_string();
    out.append(token.as_str());
    out.append(".ps1");
    assert(out@ == script_name(token@));
    out
}

/// How the shell ended.
#[derive(Debug)]
pub enum Ended {
    /// It could not be started.
    NotStarted(String),
    /// It ended by itself with a code, or through a signal, after it wrote bytes.
    Exited { output: Vec<u8>, code: Option<i32>, signal: Option<i32> },
    /// Nobody could tell how it ended.
    Lost(String),
    /// It took too long and was killed.
    TimedOut,
}

/// The exit code that is answered: the code; or that of a Unix shell for a
/// signal, and one on a Windows client.
pub open spec fn exit_code(code: Option<i32>, signal: Option<i32>, windows: bool) -> int {
    match code {
        Some(c) => c as int,
        None => if windows {
            1
        } else {
            128 + (match signal {
                Some(s) => s as int,
                None => 0,
            })
        },
    }
}

/// The shell of a client.
pub open spec fn shell_name(windows: bool) -> Text {
    if windows {
        "pwsh"@
    } else {
        "bash"@
    }
}

/// The shell of a client.
pub fn shell(windows: bool) -> (r: &'static str)
    ensures
        r@ == shell_name(windows),
{
    if windows {
        "pwsh"
    } else {
        "bash"
    }
}

/// What is answered for a command that ended: what it wrote and its exit code.
pub fn finished(output: String, code: Option<i32>, signal: Option<i32>, windows: bool) -> (r:
    RunOutput)
    requires
        signal matches Some(s) ==> 0 <= s < 128,
    ensures
        r.output@ == output@,
        r.exit_code == exit_code(code, signal, windows),
{
    let exit_code: i32 = match code {
        Some(c) => c,
        None => if windows {
            1
        } else {
            match signal {
                Some(s) => 128 + s,
                None => 128,
            }
        },
    };
    RunOutput { output, exit_code }
}

/// What is answered for a command. Any exit code is an answer; only a shell
/// that could not be run, waited for or finished in time is an error.
pub fn answer(ended: Ended, windows: bool, timeout: u64) -> (r: Result<RunOutput, String>)
    requires
        ended matches Ended::Exited { signal, .. } ==> (signal matches Some(s) ==> 0 <= s < 128),
    ensures
        match (ended, r) {
            (Ended::Exited { output, code, signal }, Ok(run)) => run.output@ == bytes::lossy_text(
                output@,
            ) && (vstd::utf8::valid_utf8(output@) ==> run.output@ == vstd::utf8::decode_utf8(
                output@,
            )) && run.exit_code == exit_code(code, signal, windows),
            (Ended::NotStarted(e), Err(message)) => message@ == "could not start "@ + shell_name(windows) + ": "@
                + e@,
            (Ended::Lost(e), Err(message)) => message@ == "could not wait for "@ + shell_name(windows) + ": "@
                + e@,
            (Ended::TimedOut, Err(message)) => message@ == "command timed out after "@
                + text::decimal(timeout as nat) + " seconds"@,
            _ => false,
        },
{
    match ended {
        Ended::Exited { output, code, signal } => {
            Ok(finished(bytes::text_of(&output), code, signal, windows))
        },
        Ended::NotStarted(e) => {
            let mut message = "could not start ".to_string();
            message.append(shell(windows));
            message.append(": ");
            message.append(e.as_str());
            Err(message)
        },
        Ended::Lost(e) => {
            let mut message = "could not wait for ".to_string();
            message.append(shell(windows));
            message.append(": ");
            message.append(e.as_str());
            Err(message)
        },
        Ended::TimedOut => {
            let seconds = text::number(timeout);
            let mut message = "command timed out after ".to_string();
            message.append(seconds.as_str());
            message.append(" seconds");
            Err(message)
        },
    }
}

/// No command runs longer than an hour.
pub proof fn commands_are_bounded(timeout: Option<u64>, cwd: Option<Text>, cwd_exists: bool)
    requires
        refusal(timeout, cwd, cwd_exists) is None,
    ensures
        1 <= allowed(timeout) <= 3_600,
{
}

/// A command with a timeout between a second and an hour, or with none, runs
/// wherever it is asked to, as long as that is no missing directory; any other
/// command is refused.
pub proof fn commands_run_where_they_can(timeout: Option<u64>, cwd: Option<Text>, cwd_exists: bool)
    ensures
        (timeout matches Some(t) ==> 1 <= t <= 3_600) && (cwd is None || cwd_exists) <==> refusal(
            timeout,
            cwd,
            cwd_exists,
        ) is None,
{
}

/// The words of a refusal tell what is wrong, the timeout before the directory:
/// those for a directory end with its name.
pub proof fn refusals_tell_what_is_wrong(timeout: Option<u64>, directory: Text, cwd: Option<Text>)
    ensures
        (timeout matches Some(t) && !(1 <= t <= 3_600)) ==> refusal(timeout, cwd, true) == Some(
            "timeout must be between 1 and 3600 seconds"@,
        ) && refusal(timeout, cwd, false) == refusal(timeout, cwd, true),
        (timeout matches Some(t) ==> 1 <= t <= 3_600) ==> (refusal(
            timeout,
            Some(directory),
            false,
        ) matches Some(words) && words.len() == 34 + directory.len() && words.take(34)
            == "working directory does not exist: "@ && words.skip(34) == directory),
{
    reveal_strlit("working directory does not exist: ");
    let words = "working directory does not exist: "@ + directory;
    assert(words.take(34) =~= "working directory does not exist: "@);
    assert(words.skip(34) =~= directory);
}

/// A command gets the time that it asks for, or a minute.
pub proof fn commands_get_their_time(timeout: Option<u64>)
    ensures
        timeout matches Some(t) ==> allowed(timeout) == t,
        timeout is None ==> allowed(timeout) == 60,
{
}

/// A shell is given the command as it stands: the Unix script is the command
/// after a line that joins both outputs, so different commands make different
/// scripts; the Windows script holds it between its own lines.
pub proof fn scripts_hold_the_command(command: Text)
    ensures
        unix_script(command).len() == 10 + command.len(),
        unix_script(command).take(10) == "exec 2>&1\n"@,
        unix_script(command).skip(10) == command,
        windows_script(command).take(29) == "$global:LASTEXITCODE = 0\n& {\n"@,
        windows_script(command).subrange(29, 29 + command.len() as int) == command,
        windows_script(command).skip(29 + command.len() as int)
            == "\n} *>&1\n$connectorSucceeded = $?\nif (-not $connectorSucceeded) {\n    if ($LASTEXITCODE -ne 0) { exit $LASTEXITCODE }\n    exit 1\n}\nexit 0\n"@,
{
    reveal_strlit("exec 2>&1\n");
    reveal_strlit("$global:LASTEXITCODE = 0\n& {\n");
    assert(unix_script(command).take(10) =~= "exec 2>&1\n"@);
    assert(unix_script(command).skip(10) =~= command);
    let script = windows_script(command);
    assert(script.take(29) =~= "$global:LASTEXITCODE = 0\n& {\n"@);
    assert(script.subrange(29, 29 + command.len() as int) =~= command);
    assert(script.skip(29 + command.len() as int)
        =~= "\n} *>&1\n$connectorSucceeded = $?\nif (-not $connectorSucceeded) {\n    if ($LASTEXITCODE -ne 0) { exit $LASTEXITCODE }\n    exit 1\n}\nexit 0\n"@);
}

/// The code that a shell ended with is answered as it is. A shell that a signal
/// ended has a code above 128 on a Unix client, another for each signal, and one
/// on a Windows client.
pub proof fn exit_codes_are_answered(code: i32, signal: i32, other: i32)
    requires
        0 < signal < 128,
        0 < other < 128,
    ensures
        forall|of: Option<i32>, windows: bool| #[trigger]
            exit_code(Some(code), of, windows) == code,
        exit_code(None, Some(signal), false) - signal == 128,
        exit_code(None, None, false) == 128,
        signal != other ==> exit_code(None, Some(signal), false) != exit_code(
            None,
            Some(other),
            false,
        ),
        exit_code(None, Some(signal), true) == 1,
        exit_code(None, None, true) == 1,
{
}

/// Windows clients run PowerShell, and all others Bash.
pub proof fn shells_belong_to_their_system(windows: bool)
    ensures
        windows ==> shell_name(windows) == "pwsh"@,
        !windows ==> shell_name(windows) == "bash"@,
{
}

} // verus!
