use better_control_panel::codec::{decode_command, decode_reciver_command, encode_command,
    encode_reciver_command};
use better_control_panel::command::{Command, Level, LogMessageBuf, ReciverCommand};
use better_control_panel::ipc::Error;

fn sample_log_message() -> LogMessageBuf {
    LogMessageBuf {
        thread_name: Some("main".to_string()),
        thread_id: Some("ThreadId(1)".to_string()),
        level: Level::Info,
        message: "server started".to_string(),
        local_time: 1_700_000_000_123,
        module: Some("app::server".to_string()),
        file: Some("src/main.rs".to_string()),
        line: Some(42),
    }
}

#[test]
fn round_trip_exec() {
    let c = Command::Exec {
        app_id: "console_0.1.0_alice".to_string(),
        script: "1+1".to_string(),
    };
    let bytes = encode_command(&c);
    assert_eq!(decode_command(&bytes).unwrap(), c);
}

#[test]
fn round_trip_exec_empty_strings() {
    let c = Command::Exec { app_id: String::new(), script: String::new() };
    let bytes = encode_command(&c);
    assert_eq!(decode_command(&bytes).unwrap(), c);
}

#[test]
fn round_trip_exec_unicode() {
    let c = Command::Exec {
        app_id: "控制面板_0.1.0_alice".to_string(),
        script: "print(\"héllo → 世界\")".to_string(),
    };
    let bytes = encode_command(&c);
    assert_eq!(decode_command(&bytes).unwrap(), c);
}

#[test]
fn round_trip_args() {
    let c = Command::Args(vec!["--script".to_string(), "1+1".to_string()]);
    let bytes = encode_command(&c);
    assert_eq!(decode_command(&bytes).unwrap(), c);
}

#[test]
fn round_trip_args_empty_sequence() {
    let c = Command::Args(vec![]);
    let bytes = encode_command(&c);
    assert_eq!(decode_command(&bytes).unwrap(), c);
}

#[test]
fn round_trip_args_with_empty_and_unicode_entries() {
    let c = Command::Args(vec![String::new(), "–flag".to_string(), "värde".to_string()]);
    let bytes = encode_command(&c);
    assert_eq!(decode_command(&bytes).unwrap(), c);
}

#[test]
fn round_trip_exit() {
    let bytes = encode_command(&Command::Exit);
    assert_eq!(bytes, vec![2u8]);
    assert_eq!(decode_command(&bytes).unwrap(), Command::Exit);
}

#[test]
fn round_trip_reciver_log() {
    let c = ReciverCommand::Log {
        app_id: "gui_0.1.0_alice".to_string(),
        message: sample_log_message(),
    };
    let bytes = encode_reciver_command(&c);
    assert_eq!(decode_reciver_command(&bytes).unwrap(), c);
}

#[test]
fn round_trip_reciver_log_sparse_fields() {
    let c = ReciverCommand::Log {
        app_id: String::new(),
        message: LogMessageBuf {
            thread_name: None,
            thread_id: None,
            level: Level::Trace,
            message: String::new(),
            local_time: -1,
            module: None,
            file: None,
            line: None,
        },
    };
    let bytes = encode_reciver_command(&c);
    assert_eq!(decode_reciver_command(&bytes).unwrap(), c);
}

#[test]
fn round_trip_reciver_exec_result() {
    let c = ReciverCommand::ExecResult { result: "2".to_string() };
    let bytes = encode_reciver_command(&c);
    assert_eq!(decode_reciver_command(&bytes).unwrap(), c);
}

#[test]
fn round_trip_reciver_args_and_exit() {
    let c = ReciverCommand::Args(vec!["prog".to_string()]);
    let bytes = encode_reciver_command(&c);
    assert_eq!(decode_reciver_command(&bytes).unwrap(), c);
    let bytes = encode_reciver_command(&ReciverCommand::Exit);
    assert_eq!(bytes, vec![3u8]);
    assert_eq!(decode_reciver_command(&bytes).unwrap(), ReciverCommand::Exit);
}

#[test]
fn round_trip_every_level() {
    for level in [Level::Error, Level::Warn, Level::Info, Level::Debug, Level::Trace] {
        let mut m = sample_log_message();
        m.level = level;
        let c = ReciverCommand::Log { app_id: "x".to_string(), message: m };
        let bytes = encode_reciver_command(&c);
        assert_eq!(decode_reciver_command(&bytes).unwrap(), c);
    }
}

#[test]
fn exact_bytes_exec_result_empty() {
    let c = ReciverCommand::ExecResult { result: String::new() };
    let bytes = encode_reciver_command(&c);
    assert_eq!(bytes, vec![1u8, 0, 0, 0, 0, 0, 0, 0, 0]);
}

#[test]
fn exact_bytes_exec() {
    let c = Command::Exec { app_id: "ab".to_string(), script: "c".to_string() };
    let bytes = encode_command(&c);
    assert_eq!(
        bytes,
        vec![0u8, 2, 0, 0, 0, 0, 0, 0, 0, b'a', b'b', 1, 0, 0, 0, 0, 0, 0, 0, b'c']
    );
}

#[test]
fn decode_rejects_empty_input() {
    assert!(matches!(decode_command(&[]), Err(Error::DecodeError(_))));
    assert!(matches!(decode_reciver_command(&[]), Err(Error::DecodeError(_))));
}

#[test]
fn decode_rejects_unknown_tag() {
    assert!(matches!(decode_command(&[9u8]), Err(Error::DecodeError(_))));
    assert!(matches!(decode_reciver_command(&[9u8, 1, 2]), Err(Error::DecodeError(_))));
}

#[test]
fn decode_rejects_truncated_message() {
    let c = Command::Exec { app_id: "console".to_string(), script: "1+1".to_string() };
    let bytes = encode_command(&c);
    for cut in 1..bytes.len() {
        assert!(
            matches!(decode_command(&bytes[..cut]), Err(Error::DecodeError(_))),
            "a prefix of {cut} bytes must not decode"
        );
    }
}

#[test]
fn decode_rejects_trailing_bytes() {
    let mut bytes = encode_command(&Command::Exit);
    bytes.push(0);
    assert!(matches!(decode_command(&bytes), Err(Error::DecodeError(_))));
}

#[test]
fn decode_rejects_invalid_utf8_payload() {
    // Tag 0 (Exec), first field claims two bytes that are not UTF-8.
    let bytes = vec![0u8, 2, 0, 0, 0, 0, 0, 0, 0, 0xff, 0xfe];
    assert!(matches!(decode_command(&bytes), Err(Error::DecodeError(_))));
}

#[test]
fn decode_rejects_overlong_length_field() {
    // Tag 1 (Args) announcing far more entries than the message holds.
    let bytes = vec![1u8, 0xff, 0xff, 0xff, 0xff, 0xff, 0xff, 0xff, 0x7f];
    assert!(matches!(decode_command(&bytes), Err(Error::DecodeError(_))));
}
