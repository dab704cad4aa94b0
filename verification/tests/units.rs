//! Unit tests of the framer, the parser and the encoder.

use smtp_core::framer::{unescape_bytes, LineFramer};
use smtp_core::parser::{parse, Command, ParseError};
use smtp_core::encoder::{encode_replies, encode_reply};
use smtp_core::session::Reply;

fn line_vecs(lines: &[&[u8]]) -> Vec<Vec<u8>> {
    lines.iter().map(|l| l.to_vec()).collect()
}

#[test]
fn framer_reassembles_split_lines() {
    let mut f = LineFramer::new(4096, false);
    let r1 = f.feed(b"HELO ex");
    assert!(r1.lines.is_empty());
    assert!(!r1.oversized);
    let r2 = f.feed(b"ample\r\nMAIL");
    assert_eq!(r2.lines, line_vecs(&[b"HELO example"]));
    let r3 = f.feed(b" FROM:<a@b>\r\n");
    assert_eq!(r3.lines, line_vecs(&[b"MAIL FROM:<a@b>"]));
    assert!(f.buf.is_empty());
}

#[test]
fn framer_splits_terminator_across_chunks() {
    let mut f = LineFramer::new(4096, false);
    let r1 = f.feed(b"one\r");
    assert!(r1.lines.is_empty());
    let r2 = f.feed(b"\ntwo\r\n");
    assert_eq!(r2.lines, line_vecs(&[b"one", b"two"]));
}

#[test]
fn framer_emits_empty_lines() {
    let mut f = LineFramer::new(4096, false);
    let r = f.feed(b"a\r\n\r\nb\r\n");
    assert_eq!(r.lines, line_vecs(&[b"a", b"", b"b"]));
}

#[test]
fn framer_discards_oversized_tail() {
    let mut f = LineFramer::new(4, false);
    let r = f.feed(b"toolong");
    assert!(r.lines.is_empty());
    assert!(r.oversized);
    assert!(f.buf.is_empty());
}

#[test]
fn framer_trailing_cr_does_not_count_against_the_bound() {
    let mut f = LineFramer::new(4, false);
    // Four bytes of content plus a pending CR: not oversized, and the
    // line completes on the next chunk.
    let r1 = f.feed(b"abcd\r");
    assert!(!r1.oversized);
    let r2 = f.feed(b"\n");
    assert_eq!(r2.lines, line_vecs(&[b"abcd"]));
}

#[test]
fn unescape_rewrites_textual_terminators() {
    let out = unescape_bytes(&b"a\\r\\nb".to_vec());
    assert_eq!(out, b"a\r\nb".to_vec());
    let out = unescape_bytes(&b"\\r\\n\\r\\n".to_vec());
    assert_eq!(out, b"\r\n\r\n".to_vec());
    let out = unescape_bytes(&b"no escapes".to_vec());
    assert_eq!(out, b"no escapes".to_vec());
    // A lone backslash-r is not an escape.
    let out = unescape_bytes(&b"a\\rb".to_vec());
    assert_eq!(out, b"a\\rb".to_vec());
}

#[test]
fn parse_accepts_known_verbs_case_insensitively() {
    assert!(matches!(parse(&b"HELO example".to_vec()), Ok(Command::Helo)));
    assert!(matches!(parse(&b"helo example".to_vec()), Ok(Command::Helo)));
    assert!(matches!(parse(&b"EhLo example".to_vec()), Ok(Command::Helo)));
    assert!(matches!(parse(&b"DATA".to_vec()), Ok(Command::Data)));
    assert!(matches!(parse(&b"quit".to_vec()), Ok(Command::Quit)));
}

#[test]
fn parse_extracts_mail_argument() {
    match parse(&b"MAIL FROM:<x@y>".to_vec()) {
        Ok(Command::Mail(a)) => assert_eq!(a, b"x@y".to_vec()),
        _ => panic!("expected a sender"),
    }
    match parse(&b"MAIL FROM:  plain@addr  ".to_vec()) {
        Ok(Command::Mail(a)) => assert_eq!(a, b"plain@addr".to_vec()),
        _ => panic!("expected a sender"),
    }
}

#[test]
fn parse_extracts_rcpt_argument() {
    match parse(&b"RCPT TO:<p@q>".to_vec()) {
        Ok(Command::Rcpt(a)) => assert_eq!(a, b"p@q".to_vec()),
        _ => panic!("expected a recipient"),
    }
}

#[test]
fn parse_rejects_unknown_verbs() {
    assert_eq!(parse(&b"NOOP".to_vec()), Err(ParseError::UnknownCommand));
    assert_eq!(parse(&b"EXPN list".to_vec()), Err(ParseError::UnknownCommand));
    assert_eq!(parse(&b"".to_vec()), Err(ParseError::UnknownCommand));
}

#[test]
fn parse_rejects_missing_prefixes() {
    assert_eq!(parse(&b"MAIL <x@y>".to_vec()), Err(ParseError::MalformedArgument));
    assert_eq!(parse(&b"MAIL TO:<x@y>".to_vec()), Err(ParseError::MalformedArgument));
    assert_eq!(parse(&b"RCPT <p@q>".to_vec()), Err(ParseError::MalformedArgument));
    assert_eq!(parse(&b"RCPT FROM:<p@q>".to_vec()), Err(ParseError::MalformedArgument));
}

#[test]
fn encoder_formats_replies() {
    assert_eq!(encode_reply(&Reply::Banner), b"220 SimpleSMTP Server Ready\r\n".to_vec());
    assert_eq!(
        encode_reply(&Reply::GreetingAck),
        b"250 Hello, pleased to meet you\r\n".to_vec()
    );
    assert_eq!(encode_reply(&Reply::SenderOk), b"250 Sender OK\r\n".to_vec());
    assert_eq!(encode_reply(&Reply::RecipientOk), b"250 Recipient OK\r\n".to_vec());
    assert_eq!(
        encode_reply(&Reply::StartInput),
        b"354 Start mail input; end with <CRLF>.<CRLF>\r\n".to_vec()
    );
    assert_eq!(encode_reply(&Reply::Accepted), b"250 Message accepted\r\n".to_vec());
    assert_eq!(encode_reply(&Reply::Bye), b"221 Bye\r\n".to_vec());
    assert_eq!(
        encode_reply(&Reply::BadSequence),
        b"503 Bad sequence of commands\r\n".to_vec()
    );
    assert_eq!(
        encode_reply(&Reply::UnknownCmd),
        b"500 Command not recognized\r\n".to_vec()
    );
    assert_eq!(
        encode_reply(&Reply::MalformedArg),
        b"501 Malformed argument\r\n".to_vec()
    );
    assert_eq!(encode_reply(&Reply::LineTooLong), b"500 Line too long\r\n".to_vec());
}

#[test]
fn encoder_concatenates_in_order() {
    let out = encode_replies(&vec![Reply::SenderOk, Reply::RecipientOk]);
    assert_eq!(out, b"250 Sender OK\r\n250 Recipient OK\r\n".to_vec());
    let none = encode_replies(&Vec::new());
    assert!(none.is_empty());
}
