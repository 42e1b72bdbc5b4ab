use iznik_kit::pty::{escaped, exit_status, listened, next_wait, timed_out, Arrival, ExitStatus, Listening, PtyError};

#[test]
fn pty_bytes_are_escaped_as_escape_ascii_shows_them() {
    assert_eq!(escaped(b"plain"), "plain");
    assert_eq!(escaped(b"a\tb\r\n"), "a\\tb\\r\\n");
    assert_eq!(escaped(b"q\"'\\"), "q\\\"\\'\\\\");
    assert_eq!(escaped(&[0x00, 0x1b, 0x9d, 0xff]), "\\x00\\x1b\\x9d\\xff");
    let every: Vec<u8> = (0..=255).collect();
    assert_eq!(escaped(&every), every.escape_ascii().to_string());
}

#[test]
fn pty_quiet_is_waited_for_only_after_something_arrived() {
    assert_eq!(next_wait(b"", 50, 1_000), Some((1_000, false)));
    assert_eq!(next_wait(b"x", 50, 1_000), Some((50, true)));
    assert_eq!(next_wait(b"x", 2_000, 1_000), Some((1_000, false)));
    assert_eq!(next_wait(b"x", 50, 0), None);
}

#[test]
fn pty_the_cap_is_never_an_empty_success() {
    match listened(Vec::new(), false, Arrival::Silence) {
        Listening::Failed(PtyError::Timeout { received }) => assert_eq!(received, ""),
        other => panic!("expected a timeout, got {other:?}"),
    }
    match listened(b"seen\n".to_vec(), false, Arrival::Silence) {
        Listening::Failed(PtyError::Timeout { received }) => assert_eq!(received, "seen\\n"),
        other => panic!("expected a timeout, got {other:?}"),
    }
    match timed_out(b"\x07") {
        PtyError::Timeout { received } => assert_eq!(received, "\\x07"),
        other => panic!("expected a timeout, got {other:?}"),
    }
}

#[test]
fn pty_a_silent_exit_is_closed_not_an_empty_success() {
    match listened(Vec::new(), false, Arrival::Closed) {
        Listening::Failed(PtyError::Closed { received }) => assert_eq!(received, ""),
        other => panic!("expected a close, got {other:?}"),
    }
    match listened(b"bye".to_vec(), false, Arrival::Closed) {
        Listening::Quiet(held) => assert_eq!(held, b"bye"),
        other => panic!("expected quiet, got {other:?}"),
    }
}

#[test]
fn pty_quiet_after_output_ends_the_read_with_all_of_it() {
    let held = match listened(b"ab".to_vec(), true, Arrival::Chunk(b"cd".to_vec())) {
        Listening::Continue(held) => held,
        other => panic!("expected to go on, got {other:?}"),
    };
    assert_eq!(held, b"abcd");
    match listened(held, true, Arrival::Silence) {
        Listening::Quiet(all) => assert_eq!(all, b"abcd"),
        other => panic!("expected quiet, got {other:?}"),
    }
}

#[test]
fn pty_exit_statuses_never_fake_a_code() {
    assert_eq!(exit_status(None, 3), ExitStatus::Exited(3));
    assert_eq!(exit_status(Some("Killed".to_owned()), 0), ExitStatus::Signalled("Killed".to_owned()));
}

#[test]
fn pty_errors_read_as_sentences() {
    assert_eq!(
        PtyError::Spawn { program: "sh".to_owned(), detail: "no such file".to_owned() }.message(),
        "`sh` could not be spawned on a pseudoterminal: no such file"
    );
    assert_eq!(PtyError::Write { detail: "broken pipe".to_owned() }.message(), "the child could not be written to: broken pipe");
    assert_eq!(
        PtyError::Timeout { received: "x".to_owned() }.message(),
        "the cap elapsed before the child fell quiet; received `x`"
    );
    assert_eq!(PtyError::Closed { received: String::new() }.message(), "the child closed its terminal; received ``");
    assert_eq!(PtyError::Resize { detail: "bad".to_owned() }.message(), "the terminal could not be resized: bad");
    assert_eq!(PtyError::Wait { detail: "gone".to_owned() }.message(), "the child could not be waited for: gone");
}
