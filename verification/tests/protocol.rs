//! End-to-end tests of the connection driver: transcripts in, replies and
//! events out.

use smtp_core::machine::{ChunkOutcome, Connection};
use smtp_core::session::{Event, Phase, Reply};

fn codes(out: &ChunkOutcome) -> Vec<u16> {
    out.replies.iter().map(|r| r.code()).collect()
}

#[test]
fn end_to_end_scenario() {
    let mut conn = Connection::new(4096, false);
    let banner = conn.on_connect();
    assert_eq!(banner.code(), 220);
    let transcript =
        b"HELO a\r\nMAIL FROM:<x@y>\r\nRCPT TO:<p@q>\r\nDATA\r\nhello world\r\n.\r\nQUIT\r\n";
    let out = conn.handle_chunk(transcript);
    assert_eq!(codes(&out), vec![250, 250, 250, 354, 250, 221]);
    assert_eq!(out.events.len(), 2);
    match &out.events[0] {
        Event::TransactionCompleted(rec) => {
            assert_eq!(rec.sender, Some(b"x@y".to_vec()));
            assert_eq!(rec.recipients, vec![b"p@q".to_vec()]);
            assert_eq!(rec.body, b"hello world\r\n".to_vec());
        }
        Event::SessionClosed(_) => panic!("first event must be the completed transaction"),
    }
    match &out.events[1] {
        Event::SessionClosed(rec) => {
            assert_eq!(rec.sender, None);
            assert!(rec.recipients.is_empty());
            assert!(rec.body.is_empty());
        }
        Event::TransactionCompleted(_) => panic!("second event must be the session close"),
    }
    assert_eq!(conn.session.phase, Phase::Closed);
}

#[test]
fn chunk_boundary_independence() {
    let transcript: &[u8] =
        b"HELO a\r\nMAIL FROM:<x@y>\r\nRCPT TO:<p@q>\r\nDATA\r\nhello world\r\n.\r\nQUIT\r\n";
    let mut whole = Connection::new(4096, false);
    whole.on_connect();
    let expected = codes(&whole.handle_chunk(transcript));
    // Split at every byte offset, including mid-line and mid-terminator.
    for cut in 0..=transcript.len() {
        let mut conn = Connection::new(4096, false);
        conn.on_connect();
        let mut got = codes(&conn.handle_chunk(&transcript[..cut]));
        got.extend(codes(&conn.handle_chunk(&transcript[cut..])));
        assert_eq!(got, expected, "replies changed when split at offset {}", cut);
    }
    // One byte at a time.
    let mut conn = Connection::new(4096, false);
    conn.on_connect();
    let mut got = Vec::new();
    for b in transcript {
        got.extend(codes(&conn.handle_chunk(std::slice::from_ref(b))));
    }
    assert_eq!(got, expected);
}

#[test]
fn rcpt_before_mail_yields_503() {
    let mut conn = Connection::new(4096, false);
    conn.on_connect();
    let out = conn.handle_chunk(b"HELO a\r\nRCPT TO:<p@q>\r\n");
    assert_eq!(codes(&out), vec![250, 503]);
    assert_eq!(out.replies[1], Reply::BadSequence);
}

#[test]
fn rcpt_in_greeting_yields_503() {
    let mut conn = Connection::new(4096, false);
    conn.on_connect();
    let out = conn.handle_chunk(b"RCPT TO:<p@q>\r\nMAIL FROM:<x@y>\r\nDATA\r\n");
    // RCPT out of order, MAIL accepted, DATA without recipients rejected.
    assert_eq!(codes(&out), vec![503, 250, 503]);
}

#[test]
fn transaction_reset_after_acceptance() {
    let mut conn = Connection::new(4096, false);
    conn.on_connect();
    let first = conn.handle_chunk(
        b"MAIL FROM:<a@b>\r\nRCPT TO:<one@x>\r\nRCPT TO:<two@x>\r\nDATA\r\nbody one\r\n.\r\n",
    );
    assert_eq!(codes(&first), vec![250, 250, 250, 354, 250]);
    let second = conn.handle_chunk(b"MAIL FROM:<c@d>\r\nRCPT TO:<three@x>\r\nDATA\r\nbody two\r\n.\r\n");
    assert_eq!(codes(&second), vec![250, 250, 354, 250]);
    match &second.events[0] {
        Event::TransactionCompleted(rec) => {
            assert_eq!(rec.sender, Some(b"c@d".to_vec()));
            // Nothing of the first transaction carries over.
            assert_eq!(rec.recipients, vec![b"three@x".to_vec()]);
            assert_eq!(rec.body, b"body two\r\n".to_vec());
        }
        Event::SessionClosed(_) => panic!("expected a completed transaction"),
    }
}

#[test]
fn dot_stuffing_transparency() {
    let mut conn = Connection::new(4096, false);
    conn.on_connect();
    let out = conn.handle_chunk(b"MAIL FROM:<a@b>\r\nRCPT TO:<c@d>\r\nDATA\r\n..\r\n.leading\r\n.\r\n");
    assert_eq!(codes(&out), vec![250, 250, 354, 250]);
    match &out.events[0] {
        Event::TransactionCompleted(rec) => {
            // ".." is stored as "." and ".leading" as "leading"; the bare
            // "." terminated the body instead of being stored.
            assert_eq!(rec.body, b".\r\nleading\r\n".to_vec());
        }
        Event::SessionClosed(_) => panic!("expected a completed transaction"),
    }
}

#[test]
fn body_lines_are_not_commands() {
    let mut conn = Connection::new(4096, false);
    conn.on_connect();
    let out = conn.handle_chunk(b"MAIL FROM:<a@b>\r\nRCPT TO:<c@d>\r\nDATA\r\nQUIT\r\nDATA\r\n.\r\n");
    // The QUIT and DATA lines inside the body draw no reply and close nothing.
    assert_eq!(codes(&out), vec![250, 250, 354, 250]);
    match &out.events[0] {
        Event::TransactionCompleted(rec) => {
            assert_eq!(rec.body, b"QUIT\r\nDATA\r\n".to_vec());
        }
        Event::SessionClosed(_) => panic!("expected a completed transaction"),
    }
    assert_eq!(conn.session.phase, Phase::Ready);
}

#[test]
fn quit_is_terminal() {
    let mut conn = Connection::new(4096, false);
    conn.on_connect();
    let out = conn.handle_chunk(b"QUIT\r\n");
    assert_eq!(codes(&out), vec![221]);
    assert_eq!(conn.session.phase, Phase::Closed);
    let after = conn.handle_chunk(b"HELO a\r\nMAIL FROM:<x@y>\r\n");
    assert!(after.replies.is_empty());
    assert!(after.events.is_empty());
    assert_eq!(conn.session.phase, Phase::Closed);
}

#[test]
fn quit_reports_in_progress_transaction() {
    let mut conn = Connection::new(4096, false);
    conn.on_connect();
    let out = conn.handle_chunk(b"MAIL FROM:<x@y>\r\nRCPT TO:<p@q>\r\nQUIT\r\n");
    assert_eq!(codes(&out), vec![250, 250, 221]);
    assert_eq!(out.events.len(), 1);
    match &out.events[0] {
        Event::SessionClosed(rec) => {
            assert_eq!(rec.sender, Some(b"x@y".to_vec()));
            assert_eq!(rec.recipients, vec![b"p@q".to_vec()]);
        }
        Event::TransactionCompleted(_) => panic!("expected a session-closed event"),
    }
}

#[test]
fn oversized_line_guard() {
    let mut conn = Connection::new(8, false);
    conn.on_connect();
    let out = conn.handle_chunk(b"AAAAAAAAAAAAAAAA");
    assert_eq!(codes(&out), vec![500]);
    assert_eq!(out.replies[0], Reply::LineTooLong);
    // The buffer was discarded: memory stays bounded and the session
    // remains usable.
    assert!(conn.framer.buf.is_empty());
    let next = conn.handle_chunk(b"HELO a\r\n");
    assert_eq!(codes(&next), vec![250]);
}

#[test]
fn oversized_guard_fires_once_per_overflow() {
    let mut conn = Connection::new(8, false);
    conn.on_connect();
    let first = conn.handle_chunk(b"AAAAAAAAAAAAAAAA");
    assert_eq!(codes(&first), vec![500]);
    // The discarded tail is gone; a short new fragment fits again.
    let second = conn.handle_chunk(b"BBBB");
    assert!(second.replies.is_empty());
}

#[test]
fn disconnect_reports_partial_transaction() {
    let mut conn = Connection::new(4096, false);
    conn.on_connect();
    conn.handle_chunk(b"MAIL FROM:<x@y>\r\nRCPT TO:<p@q>\r\nDATA\r\nhalf a body\r\n");
    let ev = conn.on_disconnect();
    match ev {
        Some(Event::SessionClosed(rec)) => {
            assert_eq!(rec.sender, Some(b"x@y".to_vec()));
            assert_eq!(rec.recipients, vec![b"p@q".to_vec()]);
            assert_eq!(rec.body, b"half a body\r\n".to_vec());
        }
        _ => panic!("expected a session-closed event"),
    }
    assert_eq!(conn.session.phase, Phase::Closed);
    let ev2 = conn.on_disconnect();
    assert!(ev2.is_none());
}

#[test]
fn helo_resets_phase_but_not_transaction_fields() {
    let mut conn = Connection::new(4096, false);
    conn.on_connect();
    let out = conn.handle_chunk(b"MAIL FROM:<x@y>\r\nHELO again\r\nRCPT TO:<p@q>\r\n");
    // HELO returns the phase to Ready, so the RCPT is out of sequence.
    assert_eq!(codes(&out), vec![250, 250, 503]);
}

#[test]
fn escape_normalization_is_opt_in() {
    // Off by default: the four-byte text \r\n does not terminate a line.
    let mut plain = Connection::new(4096, false);
    plain.on_connect();
    let out = plain.handle_chunk(b"HELO a\\r\\n");
    assert!(out.replies.is_empty());
    // Opted in: the same bytes are treated as a terminated line.
    let mut normalizing = Connection::new(4096, true);
    normalizing.on_connect();
    let out = normalizing.handle_chunk(b"HELO a\\r\\n");
    assert_eq!(codes(&out), vec![250]);
}
