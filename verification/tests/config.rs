use wg_subscriber::config::{
    backend_command, backend_log_level, backend_of_name, backend_poll, backend_poll_delay_ms,
    backend_wait, credentials, flag, get_port_range, get_userspace_backend_command, is_lan_switching_enabled, is_userspace,
    log_level, parse_backend, port_setting, secs_setting, text_setting, wg_cmd, wg_interface_type,
    Backend, BackendCommandError, PollStep, PortRange, WaitStep, DEFAULT_RELAY_CIDR_V4,
};

#[test]
fn flags_are_one_or_true() {
    assert!(flag(Some("1")) && flag(Some("true")));
    for off in [None, Some(""), Some("0"), Some("TRUE"), Some("yes"), Some("1 ")] {
        assert!(!flag(off));
    }
    assert!(is_lan_switching_enabled(Some("1")));
    assert!(!is_lan_switching_enabled(None));
}

#[test]
fn tool_and_type_follow_the_flag() {
    assert_eq!((wg_cmd(Some("1")), wg_interface_type(Some("1"))), ("awg", "amneziawg"));
    assert_eq!((wg_cmd(None), wg_interface_type(None)), ("wg", "wireguard"));
}

#[test]
fn backend_is_read_in_any_case() {
    assert_eq!(parse_backend(None).ok(), Some(Backend::Kernel));
    assert_eq!(parse_backend(Some("Kernel")).ok(), Some(Backend::Kernel));
    assert_eq!(parse_backend(Some("GOTATUN")).ok(), Some(Backend::Gotatun));
    assert_eq!(parse_backend(Some("AmneziaWG")).ok(), Some(Backend::AmneziaWG));
    assert_eq!(parse_backend(Some("Boring")).err().unwrap().name, "boring");
    assert_eq!(backend_of_name("Kernel").err().unwrap().name, "Kernel");
    assert!(!is_userspace(Backend::Kernel));
    assert!(is_userspace(Backend::Gotatun) && is_userspace(Backend::AmneziaWG));
}

#[test]
fn numbers_fall_back() {
    assert_eq!(port_setting(Some("7"), 1), 7);
    assert_eq!(port_setting(Some("65536"), 1), 1);
    assert_eq!(port_setting(Some(" 7"), 1), 1);
    assert_eq!(port_setting(None, 1), 1);
    assert_eq!(secs_setting(Some("+90"), 1), 90);
    assert_eq!(secs_setting(Some("-1"), 1), 1);
    assert_eq!(secs_setting(Some(""), 1), 1);
}

#[test]
fn texts_fall_back() {
    assert_eq!(text_setting(Some("x"), DEFAULT_RELAY_CIDR_V4), "x");
    assert_eq!(text_setting(Some(""), DEFAULT_RELAY_CIDR_V4), "");
    assert_eq!(text_setting(None, DEFAULT_RELAY_CIDR_V4), "10.254.1.0/24");
}

#[test]
fn port_range_is_put_in_order() {
    assert_eq!(get_port_range(None, None), (1024, 65535));
    assert_eq!(get_port_range(Some("2000"), Some("3000")), (2000, 3000));
    assert_eq!(get_port_range(Some("3000"), Some("2000")), (2000, 3000));
    assert_eq!(get_port_range(Some("x"), Some("80")), (80, 1024));
}

#[test]
fn credentials_come_in_pairs() {
    let some = |s: &str| Some(s.to_string());
    assert_eq!(credentials(some("u"), some("p")), Some(("u".to_string(), "p".to_string())));
    assert_eq!(credentials(some("u"), None), None);
    assert_eq!(credentials(None, some("p")), None);
}

#[test]
fn backend_command_is_split() {
    let command = |cmd| get_userspace_backend_command(Backend::Gotatun, cmd);
    assert_eq!(
        command(Some("/usr/bin/gotatun -loglevel='a b'")).ok().unwrap(),
        vec!["/usr/bin/gotatun", "-loglevel=a b"]
    );
    // Quotes that do not close leave the command whole.
    assert_eq!(command(Some("run 'it")).ok().unwrap(), vec!["run 'it"]);
    assert!(matches!(command(Some("  ")), Err(BackendCommandError::Empty)));
    assert!(matches!(command(None), Err(BackendCommandError::Unset("gotatun"))));
    assert!(matches!(
        get_userspace_backend_command(Backend::AmneziaWG, None),
        Err(BackendCommandError::Unset("amneziawg"))
    ));
}

#[test]
fn split_command_is_used() {
    assert_eq!(backend_command(Some(vec!["a".to_string()]), "b").ok().unwrap(), vec!["a"]);
    assert_eq!(backend_command(None, "b").ok().unwrap(), vec!["b"]);
    assert!(backend_command(Some(vec![]), "b").is_err());
}

#[test]
fn first_log_level_counts() {
    assert_eq!(log_level("debug,x=info"), "debug");
    assert_eq!(log_level("a;b,c"), "a");
    assert_eq!(log_level(",x"), "");
    assert_eq!(log_level("trace"), "trace");
    assert_eq!(backend_log_level(Some("WARN;x")), "warn");
    assert_eq!(backend_log_level(None), "info");
}

#[test]
fn backend_is_asked_less_and_less_often() {
    let delays: Vec<u64> = (1..=6).map(backend_poll_delay_ms).collect();
    assert_eq!(delays, vec![400, 800, 1600, 3200, 3200, 3200]);
}

#[test]
fn first_port_range_is_kept() {
    let mut range = PortRange::new();
    assert_eq!(range.get(Some("3000"), Some("2000")), (2000, 3000));
    assert_eq!(range.get(Some("1"), Some("2")), (2000, 3000));
    assert_eq!(range.get(None, None), (2000, 3000));
}

#[test]
fn backend_has_five_seconds_to_start() {
    let sec = 1_000_000_000;
    assert_eq!(backend_wait(sec, 6 * sec - 1, false, false), WaitStep::LookAgain);
    assert_eq!(backend_wait(sec, 6 * sec, false, false), WaitStep::LookLast);
    assert_eq!(backend_wait(sec, 2 * sec, true, false), WaitStep::LookLast);
}

#[test]
fn last_look_decides_on_the_backend() {
    let sec = 1_000_000_000;
    assert_eq!(backend_wait(sec, 7 * sec, true, true), WaitStep::Ready);
    assert_eq!(backend_wait(sec, 7 * sec, false, true), WaitStep::GiveUp);
    assert_eq!(backend_wait(sec, 2 * sec, true, true), WaitStep::Ready);
    assert_eq!(backend_wait(sec, 2 * sec, false, true), WaitStep::GiveUp);
}

#[test]
fn backend_is_asked_ten_times() {
    assert_eq!(backend_poll(10, true), PollStep::Ready);
    assert_eq!(backend_poll(9, false), PollStep::AskAgain);
    assert_eq!(backend_poll(10, false), PollStep::GiveUp);
}
