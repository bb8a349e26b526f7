use tv_shell::power::{
    quit_response, request_sleep, sleep_dispatched, suspend, suspend_refusal, windows_suspend_args,
    HostOs, SleepDecision, REASON_GAME_RUNNING, REASON_STREAMING, WINDOWS_SUSPEND,
};

#[test]
fn no_refusal_when_idle() {
    assert_eq!(suspend_refusal(None, false), None);
}

#[test]
fn refuses_when_a_game_is_running() {
    assert_eq!(suspend_refusal(Some(730), false), Some(REASON_GAME_RUNNING));
    assert_eq!(suspend_refusal(Some(1), false), Some(REASON_GAME_RUNNING));
}

#[test]
fn refuses_when_streaming() {
    assert_eq!(suspend_refusal(None, true), Some(REASON_STREAMING));
}

#[test]
fn running_game_takes_precedence_over_streaming() {
    assert_eq!(suspend_refusal(Some(730), true), Some(REASON_GAME_RUNNING));
}

#[test]
fn refusal_reasons_are_distinct_and_human_readable() {
    assert_ne!(REASON_GAME_RUNNING, REASON_STREAMING);
    for reason in [REASON_GAME_RUNNING, REASON_STREAMING] {
        assert!(!reason.is_empty());
        assert!(reason.contains(' '), "{reason:?} should read as prose");
    }
}

#[test]
fn windows_snippet_uses_dotnet_setsuspendstate_not_rundll32() {
    assert!(!WINDOWS_SUSPEND.contains("rundll32"));
    assert!(!WINDOWS_SUSPEND.contains("powrprof"));
    assert!(WINDOWS_SUSPEND.contains("SetSuspendState"));
    assert!(WINDOWS_SUSPEND.contains("System.Windows.Forms"));
    assert!(WINDOWS_SUSPEND.contains("'Suspend'"));
    assert!(WINDOWS_SUSPEND.contains("$false, $false"));
}

#[test]
fn windows_suspend_argv_is_noninteractive_and_profile_free() {
    let args = windows_suspend_args();
    assert_eq!(args[0], "-NoProfile");
    assert_eq!(args[1], "-NonInteractive");
    assert_eq!(args[2], "-Command");
    assert_eq!(args[3], WINDOWS_SUSPEND);
}

#[test]
fn suspend_command_is_built_without_spawning() {
    for os in [HostOs::Linux, HostOs::Windows] {
        let cmd = suspend(os).expect("a supported host has a suspend command");
        let prog = cmd.program.to_string();
        assert!(!prog.is_empty());
        let args: Vec<String> = cmd.args.iter().map(|a| a.to_string()).collect();
        assert!(!args.is_empty(), "suspend command should carry arguments");
    }
}

#[test]
fn only_an_idle_host_goes_to_sleep() {
    assert_eq!(request_sleep(None, false), SleepDecision::Suspend);
    for (appid, streaming, reason) in [
        (Some(730), false, REASON_GAME_RUNNING),
        (Some(730), true, REASON_GAME_RUNNING),
        (None, true, REASON_STREAMING),
    ] {
        match request_sleep(appid, streaming) {
            SleepDecision::Refuse(r) => assert_eq!((r.ok, r.reason.as_deref()), (false, Some(reason))),
            SleepDecision::Suspend => panic!("a busy host stays awake"),
        }
    }
    assert!(sleep_dispatched(true).unwrap().ok);
    assert!(sleep_dispatched(false).is_none());
}

#[test]
fn commands_of_the_hosts() {
    let linux = suspend(HostOs::Linux).unwrap();
    assert_eq!((linux.program, linux.args.as_slice()), ("systemctl", ["suspend"].as_slice()));
    let windows = suspend(HostOs::Windows).unwrap();
    assert_eq!((windows.program, windows.args.as_slice()), ("powershell", windows_suspend_args().as_slice()));
    assert!(suspend(HostOs::Other).is_none());
    let quit = quit_response(7, false);
    assert_eq!((quit.ok, quit.appid, quit.reason.as_deref()), (false, 7, Some("not running")));
    assert!(quit_response(7, true).reason.is_none());
}
