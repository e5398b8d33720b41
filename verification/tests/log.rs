//! The log's record format.

use p2p_node::log::Log;

#[test]
fn log_keeps_its_name() {
    let log = Log::new("server.log");
    assert_eq!(log.name, "server.log".to_string());
}

#[test]
fn line_carries_timestamp_and_message() {
    let line = Log::format_line("2024-01-02 03:04:05", "Server started");
    assert_eq!(line, "[2024-01-02 03:04:05] Server started".to_string());
}

#[test]
fn shutdown_line_says_so() {
    let line = Log::shutdown_line("2024-01-02 03:04:05");
    assert_eq!(line, "[2024-01-02 03:04:05] Log stopped".to_string());
}
