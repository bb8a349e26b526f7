use tv_shell::workspaces::{
    move_command, switch_command, Registry, FIRST_APP_WORKSPACE, HOME_WORKSPACE,
};

#[test]
fn home_workspace_is_never_handed_to_an_app() {
    let mut r = Registry::new();
    for class in ["steam", "streaming_client", "tv.plex.Plex"] {
        assert_ne!(r.assign(class), Some(HOME_WORKSPACE));
    }
}

#[test]
fn each_class_gets_its_own_workspace() {
    let mut r = Registry::new();
    let steam = r.assign("steam").unwrap();
    let stream = r.assign("streaming_client").unwrap();
    assert_ne!(steam, stream);
}

#[test]
fn assignment_is_sticky_across_relaunch() {
    let mut r = Registry::new();
    let first = r.assign("steam").unwrap();
    r.assign("tv.plex.Plex").unwrap();
    assert_eq!(r.assign("steam"), Some(first));
}

#[test]
fn same_class_shares_a_workspace_so_dialogs_land_on_their_parent() {
    let mut r = Registry::new();
    assert_eq!(r.assign("steam"), r.assign("steam"));
}

#[test]
fn classless_window_is_not_assigned() {
    let mut r = Registry::new();
    assert_eq!(r.assign(""), None);
    assert_eq!(r.assign("steam"), Some(FIRST_APP_WORKSPACE));
}

#[test]
fn get_does_not_allocate() {
    let mut r = Registry::new();
    assert_eq!(r.get("steam"), None);
    assert_eq!(r.assign("steam"), Some(FIRST_APP_WORKSPACE));
    assert_eq!(r.get("steam"), Some(FIRST_APP_WORKSPACE));
}

#[test]
fn move_command_is_the_silent_form() {
    let cmd = move_command(3, "0x55f51a9aedc0");
    assert_eq!(
        cmd,
        "dispatch movetoworkspacesilent 3,address:0x55f51a9aedc0"
    );
}

#[test]
fn switch_command_shape() {
    assert_eq!(switch_command(HOME_WORKSPACE), "dispatch workspace 1");
    assert_eq!(switch_command(7), "dispatch workspace 7");
}
