use scpi::classify::is_query;
use scpi::exchange::exchange;
use scpi::exchange::exchange_after_write;
use scpi::exchange::normalize_command;
use scpi::exchange::response_of_read;
use scpi::exchange::ExchangeError;
use scpi::exchange::ExchangeStep;
use scpi::monitor::monitor_poll;
use scpi::monitor::monitor_verdict;
use scpi::monitor::MonitorVerdict;
use scpi::session::run_batch;
use scpi::session::session_exit_code;
use scpi::session::session_step;
use scpi::session::split_lines;
use scpi::session::SessionEvent;
use scpi::session::SessionState;
use scpi::transport::Connection;
use scpi::transport::PeekOutcome;
use scpi::transport::ReadOutcome;

#[test]
fn query_format() {
    assert!(is_query("DIAG:DEB:REG?"));
    assert!(is_query("DIAG:DEB:REG? 0x200"));
    assert!(is_query("DIAG:DEB:REG? 0x200\n"));
    assert!(is_query("*IDN?"));
    assert!(is_query("*IDN?\n"));

    assert!(!is_query(""));
    assert!(!is_query("*RST"));
    assert!(!is_query("*SAV\n"));
    assert!(!is_query("HELLO:WORLD \"GOODBYE\""));
    assert!(!is_query("HELLO:WORLD \"GOODBYE\"\n"));
}

#[test]
fn query_format_edges() {
    // Splitting is on the literal space: a leading space makes the first
    // token empty, while a tab stays inside the token and is trimmed.
    assert!(!is_query(" X?"));
    assert!(is_query("\tX?"));
    assert!(is_query("X?\t"));
    assert!(!is_query("X?\ty"));
    assert!(!is_query("   "));
    assert!(!is_query("\n"));
    // A lone question mark is its own token and counts as a query.
    assert!(is_query("? x"));
}

#[test]
fn response() {
    let mut mock_stream = Connection::new(String::from("123\n"), false, false);

    let response = exchange(&mut mock_stream, "QUERY?", 5)
        .expect("Failed to write test query")
        .expect("Did not get test query response");

    assert_eq!(response, "123");
    assert_eq!(mock_stream.outbound_text(), "QUERY?\n");
}

#[test]
fn normalization_is_idempotent_on_wire() {
    let mut bare = Connection::new(String::new(), false, false);
    let mut terminated = Connection::new(String::new(), false, false);

    exchange(&mut bare, "X?", 1).expect("write failed");
    exchange(&mut terminated, "X?\n", 1).expect("write failed");

    assert_eq!(bare.outbound_text(), "X?\n");
    assert_eq!(terminated.outbound_text(), "X?\n");
}

#[test]
fn normalize_command_terminates_once() {
    assert_eq!(normalize_command("X?"), "X?\n");
    assert_eq!(normalize_command("X?\n"), "X?\n");
    assert_eq!(normalize_command(""), "\n");
}

#[test]
fn non_query_never_reads() {
    let mut conn = Connection::new(String::from("MUST NOT BE READ\n"), false, false);

    let response = exchange(&mut conn, "*RST", 5).expect("write failed");

    assert_eq!(response, None);
    assert_eq!(conn.consumed_chars(), 0);
    assert_eq!(conn.outbound_text(), "*RST\n");
}

#[test]
fn timeout_is_not_fatal() {
    // Open connection, no reply within the deadline: no response, no error.
    let mut conn = Connection::new(String::new(), false, false);

    let result = exchange(&mut conn, "VOLT?", 1);

    assert_eq!(result, Ok(None));
    // The session goes on: the exchange outcome brings the machine back to
    // Ready, not to a terminated state.
    let next = session_step(SessionState::Exchanging, SessionEvent::ExchangeDone);
    assert_eq!(next, SessionState::Ready);
}

#[test]
fn write_failure_is_fatal() {
    let mut conn = Connection::new(String::from("123\n"), false, true);

    let result = exchange(&mut conn, "QUERY?", 5);

    assert_eq!(result, Err(ExchangeError::WriteFailed));
    assert_eq!(conn.outbound_text(), "");
    assert_eq!(conn.consumed_chars(), 0);
}

#[test]
fn write_failure_propagates_from_batch() {
    let mut conn = Connection::new(String::new(), false, true);
    let commands = vec![String::from("*RST"), String::from("VAL?")];

    let result = run_batch(&mut conn, &commands, 5);

    assert_eq!(result, Err(ExchangeError::WriteFailed));
}

#[test]
fn exchange_steps_after_write() {
    assert_eq!(exchange_after_write("A?", false), Err(ExchangeError::WriteFailed));
    assert_eq!(exchange_after_write("A", false), Err(ExchangeError::WriteFailed));
    assert_eq!(exchange_after_write("A?", true), Ok(ExchangeStep::AwaitReply));
    assert_eq!(exchange_after_write("A", true), Ok(ExchangeStep::Complete));
}

#[test]
fn read_outcomes_become_responses() {
    let resp = response_of_read(ReadOutcome::Line(String::from("  123\r\n")));
    assert_eq!(resp, Some(String::from("123")));
    // Only the surrounding blanks go; inner whitespace stays.
    let resp = response_of_read(ReadOutcome::Line(String::from("a b \n")));
    assert_eq!(resp, Some(String::from("a b")));
    assert_eq!(response_of_read(ReadOutcome::TimedOut), None);
    assert_eq!(response_of_read(ReadOutcome::Failed), None);
}

#[test]
fn closed_peer_hands_out_remaining_text() {
    // The peer sent a partial line and closed: the read drains what is there.
    let mut conn = Connection::new(String::from("123"), true, false);

    let response = exchange(&mut conn, "QUERY?", 5).expect("write failed");

    assert_eq!(response, Some(String::from("123")));
}

#[test]
fn monitor_sees_silent_disconnect() {
    let closed = Connection::new(String::new(), true, false);
    assert_eq!(monitor_poll(&closed), MonitorVerdict::ConnectionLost);

    let open = Connection::new(String::new(), false, false);
    assert_eq!(monitor_poll(&open), MonitorVerdict::Alive);

    // Data still waiting to be read keeps the session alive even after the
    // peer closed its end.
    let draining = Connection::new(String::from("42\n"), true, false);
    assert_eq!(monitor_poll(&draining), MonitorVerdict::Alive);
}

#[test]
fn monitor_verdicts() {
    assert_eq!(monitor_verdict(PeekOutcome::Closed), MonitorVerdict::ConnectionLost);
    assert_eq!(monitor_verdict(PeekOutcome::Data), MonitorVerdict::Alive);
    assert_eq!(monitor_verdict(PeekOutcome::WouldBlock), MonitorVerdict::Alive);
    assert_eq!(monitor_verdict(PeekOutcome::Failed), MonitorVerdict::Alive);
}

#[test]
fn disconnect_ends_session_before_next_command() {
    // The peer closes while the user is mid-keystroke: the monitor's next
    // probe sees end-of-stream, and its event terminates the session fatally
    // before any further command is exchanged.
    let conn = Connection::new(String::new(), true, false);
    let verdict = monitor_poll(&conn);
    assert_eq!(verdict, MonitorVerdict::ConnectionLost);

    let state = session_step(SessionState::Ready, SessionEvent::PeerDisconnected);
    assert_eq!(state, SessionState::TerminatedFatal);
    assert_ne!(session_exit_code(state), 0);
}

#[test]
fn session_state_machine() {
    let s = session_step(SessionState::Connecting, SessionEvent::Connected);
    assert_eq!(s, SessionState::Ready);
    let s = session_step(s, SessionEvent::InputLine);
    assert_eq!(s, SessionState::Exchanging);
    let s = session_step(s, SessionEvent::ExchangeDone);
    assert_eq!(s, SessionState::Ready);
    let s = session_step(s, SessionEvent::InputEnded);
    assert_eq!(s, SessionState::TerminatedNormal);
    assert_eq!(session_exit_code(s), 0);

    // Termination absorbs every further event.
    assert_eq!(session_step(s, SessionEvent::InputLine), SessionState::TerminatedNormal);

    let f = session_step(SessionState::Connecting, SessionEvent::ConnectFailed);
    assert_eq!(f, SessionState::TerminatedFatal);
    assert_eq!(session_exit_code(f), 1);
    let f = session_step(SessionState::Exchanging, SessionEvent::ExchangeFailed);
    assert_eq!(f, SessionState::TerminatedFatal);
    assert_eq!(session_step(f, SessionEvent::Connected), SessionState::TerminatedFatal);
}

#[test]
fn batch_replays_commands_in_order() {
    let mut conn = Connection::new(String::from("1\nok\n"), false, false);
    let commands = vec![
        String::from("*RST"),
        String::from("VAL?"),
        String::from("STAT?"),
        String::from("NAME?"),
    ];

    let responses = run_batch(&mut conn, &commands, 5).expect("batch failed");

    // Only the queries that got a line in time contribute a printed response.
    assert_eq!(responses, vec![String::from("1"), String::from("ok")]);
    assert_eq!(conn.outbound_text(), "*RST\nVAL?\nSTAT?\nNAME?\n");
}

#[test]
fn batch_of_nothing_does_nothing() {
    let mut conn = Connection::new(String::new(), false, false);
    let commands: Vec<String> = Vec::new();

    let responses = run_batch(&mut conn, &commands, 5).expect("batch failed");

    assert_eq!(responses, Vec::<String>::new());
    assert_eq!(conn.outbound_text(), "");
}

#[test]
fn split_lines_on_batch_text() {
    assert_eq!(split_lines("A\nB\n"), vec![String::from("A"), String::from("B")]);
    assert_eq!(split_lines("A\r\nB"), vec![String::from("A"), String::from("B")]);
    assert_eq!(split_lines("A\n\nB"), vec![String::from("A"), String::from(""), String::from("B")]);
    assert_eq!(split_lines(""), Vec::<String>::new());
    assert_eq!(split_lines("bare\r"), vec![String::from("bare\r")]);
}
