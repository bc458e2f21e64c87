use networkkit::daemon::{reply_outcome, reply_result, request_frame};
use networkkit::localnet::{LocalNetwork, ReceiveStep};
use networkkit::lang::{locale_for, t, t_fmt, Locale, Messages};
use networkkit::types::{IoErrorKind, NetworkError};
use networkkit::util::{check_output, rfkill_blocked, rfkill_entry, run, RfkillEntry};
use networkkit::NetworkKit;
use std::io;

#[test]
fn error_messages_localized() {
    let m = Messages::en_us();
    assert_eq!(NetworkError::NotAvailable.message(&m), t(&m, "not_available"));
    assert_eq!(
        NetworkError::PermissionDenied.message(&m),
        t(&m, "permission_denied")
    );
    assert_eq!(
        NetworkError::CommandFailed("boom".into()).message(&m),
        t_fmt(&m, "command_failed", "boom")
    );
}

#[test]
fn maps_io_error_kinds() {
    let denied = NetworkError::from_io(io::Error::new(io::ErrorKind::PermissionDenied, "nope"));
    assert!(matches!(denied, NetworkError::PermissionDenied));

    let timed_out = NetworkError::from_io(io::Error::new(io::ErrorKind::TimedOut, "slow"));
    assert!(matches!(timed_out, NetworkError::Timeout));
}

#[test]
fn missing_tool_maps_to_not_available() {
    // Starting a program that does not exist fails with `NotFound`.
    let spawn = io::Error::new(io::ErrorKind::NotFound, "No such file or directory");
    let err = run("definitely-not-a-real-tool-xyz", Err(NetworkError::from_spawn(spawn))).unwrap_err();
    assert!(matches!(err, NetworkError::NotAvailable));
}

#[test]
fn other_io_errors_keep_their_message() {
    match NetworkError::from_io(io::Error::new(io::ErrorKind::Other, "disk on fire")) {
        NetworkError::IoError(msg) => assert_eq!(msg, "disk on fire"),
        other => panic!("unexpected {:?}", other),
    }
    match NetworkError::from_io_kind(IoErrorKind::NotFound, "gone".to_string()) {
        NetworkError::IoError(msg) => assert_eq!(msg, "gone"),
        other => panic!("unexpected {:?}", other),
    }
    assert!(matches!(
        NetworkError::from_spawn_kind(IoErrorKind::TimedOut, String::new()),
        NetworkError::Timeout
    ));
}

#[test]
fn english_messages_and_placeholders() {
    let m = Messages::en_us();
    assert_eq!(t(&m, "timeout"), "Operation timed out");
    assert_eq!(t(&m, "no_such_key"), "no_such_key");
    assert_eq!(t_fmt(&m, "parse_error", "bad {} input"), "Parse error: bad {} input");
    assert_eq!(t_fmt(&m, "no {} {}", "x"), "no x {}");
    assert_eq!(
        NetworkError::IoError("eof".into()).message(&m),
        "I/O error: eof"
    );
    assert_eq!(m.get("io_error"), Some("I/O error: {}"));
    assert_eq!(m.get("nothing"), None);
}

#[test]
fn picks_locale_from_value() {
    assert_eq!(locale_for("de_DE.UTF-8"), Locale::DeDe);
    assert_eq!(locale_for("DE"), Locale::DeDe);
    assert_eq!(locale_for("en_US.UTF-8"), Locale::EnUs);
    assert_eq!(locale_for(""), Locale::EnUs);
    assert_eq!(Locale::DeDe.name(), "de_de");
    assert_eq!(Locale::EnUs.name(), "en_us");
}

#[test]
fn checks_command_output() {
    assert_eq!(check_output("ip", true, Some(0), b"hello", b"").unwrap(), "hello");
    match check_output("nmcli", false, Some(8), b"", b"  Error: no device \n") {
        Err(NetworkError::CommandFailed(msg)) => assert_eq!(msg, "nmcli: Error: no device"),
        other => panic!("unexpected {:?}", other),
    }
    match check_output("nmcli", false, Some(-3), b"", b" ") {
        Err(NetworkError::CommandFailed(msg)) => assert_eq!(msg, "nmcli: exit code -3"),
        other => panic!("unexpected {:?}", other),
    }
    match check_output("ip", false, None, b"", b"") {
        Err(NetworkError::CommandFailed(msg)) => assert_eq!(msg, "ip: exit code -1"),
        other => panic!("unexpected {:?}", other),
    }
}

#[test]
fn reads_rfkill_entries() {
    assert_eq!(rfkill_entry(Some("bluetooth\n"), Some("0\n"), Some("1\n"), "bluetooth"), Some(true));
    assert_eq!(rfkill_entry(Some("bluetooth"), Some("0"), None, "bluetooth"), Some(false));
    assert_eq!(rfkill_entry(Some("wlan"), Some("1"), Some("1"), "bluetooth"), None);
    assert_eq!(rfkill_entry(None, Some("1"), Some("1"), "bluetooth"), None);
}

#[test]
fn frames_daemon_requests_and_replies() {
    assert_eq!(
        request_frame("wifi_list", "{}").unwrap(),
        "{\"id\":1,\"op\":\"wifi_list\",\"params\":{}}\n"
    );
    assert_eq!(
        request_frame("a\"b\\c\n", "{}").unwrap(),
        "{\"id\":1,\"op\":\"a\\\"b\\\\c\\n\",\"params\":{}}\n"
    );
    assert!(reply_outcome(true, None).is_ok());
    match reply_outcome(false, None) {
        Err(NetworkError::CommandFailed(msg)) => assert_eq!(msg, "daemon error"),
        other => panic!("unexpected {:?}", other),
    }
    match reply_outcome(false, Some("busy".to_string())) {
        Err(NetworkError::CommandFailed(msg)) => assert_eq!(msg, "busy"),
        other => panic!("unexpected {:?}", other),
    }
    let _ = NetworkKit::new();
}

#[test]
fn rfkill_missing_returns_none_on_non_linux() {
    // Without `/sys/class/rfkill` there are no entries to read.
    let entries: Vec<RfkillEntry> = Vec::new();
    assert_eq!(rfkill_blocked(&entries, "bluetooth"), None);
}

#[test]
fn reply_result_reads_daemon_frames() {
    assert_eq!(
        reply_result("{\"id\":1,\"ok\":true,\"result\":{\"networks\":[]}}\n").unwrap(),
        "{\"networks\":[]}"
    );
    assert_eq!(reply_result("{\"ok\":true}").unwrap(), "null");
    match reply_result("{\"ok\":false,\"error\":\"busy\"}") {
        Err(NetworkError::CommandFailed(m)) => assert_eq!(m, "busy"),
        other => panic!("unexpected {:?}", other),
    }
    match reply_result("{\"ok\":\"yes\",\"result\":1}") {
        Err(NetworkError::CommandFailed(m)) => assert_eq!(m, "daemon error"),
        other => panic!("unexpected {:?}", other),
    }
    assert!(matches!(reply_result("not json"), Err(NetworkError::ParseError(_))));
}

#[test]
fn receive_loop_steps() {
    let lan = LocalNetwork::new();
    assert!(matches!(lan.receive_step(false, false, None), ReceiveStep::Finish));
    assert!(matches!(
        lan.receive_step(false, false, Some((IoErrorKind::Other, "reset".to_string()))),
        ReceiveStep::Finish
    ));
    assert!(matches!(lan.receive_step(true, false, None), ReceiveStep::Receive));
    assert!(matches!(lan.receive_step(true, true, None), ReceiveStep::Finish));
    assert!(matches!(
        lan.receive_step(true, false, Some((IoErrorKind::WouldBlock, "again".to_string()))),
        ReceiveStep::Receive
    ));
    assert!(matches!(
        lan.receive_step(true, true, Some((IoErrorKind::TimedOut, "slow".to_string()))),
        ReceiveStep::Finish
    ));
    match lan.receive_step(true, false, Some((IoErrorKind::Other, "reset".to_string()))) {
        ReceiveStep::Fail(NetworkError::IoError(m)) => assert_eq!(m, "reset"),
        other => panic!("unexpected {:?}", other),
    }
    assert!(matches!(
        lan.receive_step(true, true, Some((IoErrorKind::PermissionDenied, "no".to_string()))),
        ReceiveStep::Fail(NetworkError::PermissionDenied)
    ));
}
