use herdr::platform::host::{
    default_login_shell, detach_daemon_command, fallback_config_dir, is_server_not_running_error,
    restrict_socket_permissions, shell_command_runner, ConfigBase, ConfigDir, DaemonDetachment,
    SocketModeStep,
};
use herdr::platform::terminal::{
    enable_vt_input, supports_keyboard_enhancement, tolerates_unmatched_mouse_disable,
};
use herdr::platform::windows::console_mode::VtInputStep;
use herdr::platform::{HostOs, IoError, IoErrorKind};

fn some(text: &str) -> Option<String> {
    Some(text.to_string())
}

fn dir(base: ConfigBase, components: &[&str]) -> Option<ConfigDir> {
    let components = components.iter().map(|c| c.to_string()).collect();
    Some(ConfigDir { base, components })
}

#[test]
fn the_config_directory_follows_the_environment() {
    let windows = HostOs::Windows;
    assert_eq!(
        fallback_config_dir(windows, "herdr", some("C:\\A"), some("C:\\U")),
        dir(ConfigBase::Named("C:\\A".to_string()), &["herdr"])
    );
    assert_eq!(
        fallback_config_dir(windows, "herdr", None, some("C:\\U")),
        dir(ConfigBase::Named("C:\\U".to_string()), &[".config", "herdr"])
    );
    assert_eq!(
        fallback_config_dir(windows, "herdr", None, None),
        dir(ConfigBase::TempDir, &["herdr"])
    );
    assert_eq!(fallback_config_dir(HostOs::Unix, "herdr", some("/a"), some("/u")), None);
    assert_eq!(fallback_config_dir(HostOs::Other, "herdr", None, None), None);
}

#[test]
fn the_login_shell_follows_the_environment() {
    for os in [HostOs::Unix, HostOs::Windows, HostOs::Other] {
        assert_eq!(default_login_shell(os, some("/bin/zsh"), some("C:\\c.exe")), "/bin/zsh");
    }
    assert_eq!(default_login_shell(HostOs::Windows, None, some("C:\\c.exe")), "C:\\c.exe");
    assert_eq!(default_login_shell(HostOs::Windows, None, None), "cmd.exe");
    assert_eq!(default_login_shell(HostOs::Unix, None, some("C:\\c.exe")), "/bin/sh");
    assert_eq!(default_login_shell(HostOs::Other, None, None), "/bin/sh");
}

#[test]
fn a_command_string_is_run_by_the_shell_of_the_host() {
    let named = shell_command_runner(HostOs::Windows, some("C:\\c.exe"));
    assert_eq!(named, ("C:\\c.exe".to_string(), "/C"));
    let plain = shell_command_runner(HostOs::Windows, None);
    assert_eq!(plain, ("cmd.exe".to_string(), "/C"));
    let posix = shell_command_runner(HostOs::Unix, some("C:\\c.exe"));
    assert_eq!(posix, ("/bin/sh".to_string(), "-c"));
    assert_eq!(shell_command_runner(HostOs::Other, None), ("/bin/sh".to_string(), "-c"));
}

#[test]
fn socket_modes_are_set_on_unix_only() {
    let begin = |os| restrict_socket_permissions::<&str>(os, 0o600);
    assert_eq!(begin(HostOs::Unix), SocketModeStep::Stat(0o600));
    assert_eq!(begin(HostOs::Windows), SocketModeStep::Finish(Ok(())));
    assert_eq!(begin(HostOs::Other), SocketModeStep::Finish(Ok(())));
}

#[test]
fn a_socket_is_restricted_where_both_calls_succeed() {
    let begin = || restrict_socket_permissions::<&str>(HostOs::Unix, 0o600);
    let found = begin().next(Ok(()));
    assert_eq!(found, SocketModeStep::SetMode(0o600));
    assert_eq!(found.next(Ok(())), SocketModeStep::Finish(Ok(())));
    let refused = begin().next(Ok(())).next(Err("denied"));
    assert_eq!(refused, SocketModeStep::Finish(Err("denied")));
    let missing = begin().next(Err("missing"));
    assert_eq!(missing, SocketModeStep::Finish(Err("missing")));
    assert_eq!(missing.next(Err("late")), SocketModeStep::Finish(Err("missing")));
}

#[test]
fn daemons_are_detached_by_the_host() {
    assert_eq!(detach_daemon_command(HostOs::Unix), DaemonDetachment::ProcessGroup(0));
    assert_eq!(
        detach_daemon_command(HostOs::Windows),
        DaemonDetachment::CreationFlags(0x0800_0000 | 0x0000_0200)
    );
    assert_eq!(detach_daemon_command(HostOs::Other), DaemonDetachment::Unchanged);
}

#[test]
fn a_missing_server_is_recognised() {
    let error = |kind, os_code| IoError { kind, os_code };
    for os in [HostOs::Unix, HostOs::Windows, HostOs::Other] {
        assert!(is_server_not_running_error(os, &error(IoErrorKind::NotFound, None)));
        assert!(is_server_not_running_error(os, &error(IoErrorKind::ConnectionRefused, Some(1))));
        assert!(!is_server_not_running_error(os, &error(IoErrorKind::Interrupted, None)));
        assert!(!is_server_not_running_error(os, &error(IoErrorKind::Other, Some(5))));
    }
    for code in [10050, 10061, 10038, 2, 3] {
        let err = error(IoErrorKind::Other, Some(code));
        assert!(is_server_not_running_error(HostOs::Windows, &err));
        assert!(!is_server_not_running_error(HostOs::Unix, &err));
    }
    assert!(!is_server_not_running_error(HostOs::Windows, &error(IoErrorKind::Other, Some(10060))));
}

#[test]
fn terminal_abilities_follow_the_host() {
    assert_eq!(enable_vt_input(HostOs::Windows), VtInputStep::OpenStdInput);
    assert_eq!(enable_vt_input(HostOs::Unix), VtInputStep::Succeed);
    assert_eq!(enable_vt_input(HostOs::Other), VtInputStep::Succeed);
    assert!(!tolerates_unmatched_mouse_disable(HostOs::Windows));
    assert!(tolerates_unmatched_mouse_disable(HostOs::Unix));
    assert!(!supports_keyboard_enhancement(HostOs::Windows));
    assert!(supports_keyboard_enhancement(HostOs::Unix));
}
