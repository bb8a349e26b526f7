//! Whether the host may be put to sleep, and with which command.

use vstd::prelude::*;

verus! {

/// Refusal while a game runs on the host.
pub const REASON_GAME_RUNNING: &'static str = "a game is running on the host";

/// Refusal while a streaming session is active or can be resumed.
pub const REASON_STREAMING: &'static str = "a streaming session is active on the host";

/// What a refusal to sleep says, where there is one. A running game is named
/// before a streaming session.
pub open spec fn refusal(running_appid: Option<u32>, streaming: bool) -> Option<Seq<char>> {
    if running_appid is Some {
        Some(REASON_GAME_RUNNING@)
    } else if streaming {
        Some(REASON_STREAMING@)
    } else {
        None
    }
}

/// Whether a request to sleep is refused: the reason, or `None` where the host
/// may sleep.
pub fn suspend_refusal(running_appid: Option<u32>, streaming: bool) -> (r: Option<&'static str>)
    ensures
        r is Some <==> refusal(running_appid, streaming) is Some,
        r matches Some(s) ==> refusal(running_appid, streaming) == Some(s@),
{
    if running_appid.is_some() {
        return Some(REASON_GAME_RUNNING);
    }
    if streaming {
        return Some(REASON_STREAMING);
    }
    None
}

/// Answer to a request to sleep.
#[derive(Debug, Clone, PartialEq, Eq)]
pub struct SleepResponse {
    pub ok: bool,
    pub reason: Option<String>,
}

/// What to do about a request to sleep.
#[derive(Debug, Clone, PartialEq, Eq)]
pub enum SleepDecision {
    /// Answer at once; the host stays awake.
    Refuse(SleepResponse),
    /// Start the suspend, then answer with [`sleep_dispatched`].
    Suspend,
}

/// Decides on a request to sleep from what runs on the host.
pub fn request_sleep(running_appid: Option<u32>, streaming: bool) -> (r: SleepDecision)
    ensures
        refusal(running_appid, streaming) is None <==> r == SleepDecision::Suspend,
        r matches SleepDecision::Refuse(resp) ==> !resp.ok && resp.reason is Some && refusal(
            running_appid,
            streaming,
        ) == Some(resp.reason->0@),
{
    match suspend_refusal(running_appid, streaming) {
        Some(reason) => SleepDecision::Refuse(
            SleepResponse { ok: false, reason: Some(reason.to_owned()) },
        ),
        None => SleepDecision::Suspend,
    }
}

/// The answer once the suspend was started, or `None` where it could not be,
/// which is an error and no answer.
pub fn sleep_dispatched(started: bool) -> (r: Option<SleepResponse>)
    ensures
        started ==> (r matches Some(resp) && resp.ok && resp.reason is None),
        !started ==> r is None,
{
    if started {
        Some(SleepResponse { ok: true, reason: None })
    } else {
        None
    }
}

/// Answer to a request to quit a game.
#[derive(Debug, Clone, PartialEq, Eq)]
pub struct QuitResponse {
    pub ok: bool,
    pub appid: u32,
    pub reason: Option<String>,
}

/// The answer to a request to quit `appid`: whether a process was signalled.
/// Nothing to quit is an answer too.
pub fn quit_response(appid: u32, signalled: bool) -> (r: QuitResponse)
    ensures
        r.appid == appid,
        r.ok == signalled,
        signalled ==> r.reason is None,
        !signalled ==> (r.reason matches Some(s) && s@ == "not running"@),
{
    if signalled {
        QuitResponse { ok: true, appid, reason: None }
    } else {
        QuitResponse { ok: false, appid, reason: Some("not running".to_owned()) }
    }
}

/// The operating systems that a host can run.
#[derive(Debug, Clone, Copy, PartialEq, Eq, Structural)]
pub enum HostOs {
    Linux,
    Windows,
    Other,
}

/// The PowerShell snippet that suspends a Windows host to RAM and leaves its
/// wake events armed. The entry point of `powrprof.dll` ignores its arguments
/// and hibernates, so it is not used.
pub const WINDOWS_SUSPEND: &'static str =
    "Add-Type -AssemblyName System.Windows.Forms; [System.Windows.Forms.Application]::SetSuspendState('Suspend', $false, $false)";

/// The arguments of `powershell` that suspend a Windows host: no profile, no
/// prompt.
pub fn windows_suspend_args() -> (r: [&'static str; 4])
    ensures
        r@[0]@ == "-NoProfile"@,
        r@[1]@ == "-NonInteractive"@,
        r@[2]@ == "-Command"@,
        r@[3]@ == WINDOWS_SUSPEND@,
{
    ["-NoProfile", "-NonInteractive", "-Command", WINDOWS_SUSPEND]
}

/// A program and its arguments.
#[derive(Debug, Clone, PartialEq, Eq)]
pub struct CommandLine {
    pub program: &'static str,
    pub args: Vec<&'static str>,
}

/// The command that suspends a host, or `None` where the operating system has
/// no such path.
pub fn suspend(os: HostOs) -> (r: Option<CommandLine>)
    ensures
        r is None <==> os == HostOs::Other,
        os == HostOs::Linux ==> (r matches Some(c) && c.program@ == "systemctl"@ && c.args@.len()
            == 1 && c.args@[0]@ == "suspend"@),
        os == HostOs::Windows ==> (r matches Some(c) && c.program@ == "powershell"@ && c.args@.len()
            == 4 && c.args@[0]@ == "-NoProfile"@ && c.args@[1]@ == "-NonInteractive"@
            && c.args@[2]@ == "-Command"@ && c.args@[3]@ == WINDOWS_SUSPEND@),
{
    match os {
        HostOs::Linux => {
            let mut args: Vec<&'static str> = Vec::new();
            args.push("suspend");
            Some(CommandLine { program: "systemctl", args })
        },
        HostOs::Windows => {
            let list = windows_suspend_args();
            let mut args: Vec<&'static str> = Vec::new();
            args.push(list[0]);
            args.push(list[1]);
            args.push(list[2]);
            args.push(list[3]);
            Some(CommandLine { program: "powershell", args })
        },
        HostOs::Other => None,
    }
}

/// A host on which a game runs or a stream is live is never suspended.
pub proof fn law_busy_host_stays_awake(running_appid: Option<u32>, streaming: bool)
    ensures
        refusal(running_appid, streaming) is None <==> running_appid is None && !streaming,
{
}

/// A refusal says why: the game before the stream.
pub proof fn law_refusals_say_why(appid: u32, streaming: bool)
    ensures
        refusal(Some(appid), streaming) == Some("a game is running on the host"@),
        refusal(None, true) == Some("a streaming session is active on the host"@),
        refusal(None, false) is None,
{
}

} // verus!
