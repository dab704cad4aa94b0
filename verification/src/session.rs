//! The per-connection session state machine: it owns the transaction in
//! progress (sender, recipients, body), validates command sequencing,
//! accumulates body lines with dot-stuffing transparency, and produces a
//! reply for each processed line together with transaction events for the
//! external sink.

use vstd::prelude::*;

use crate::bytes::push_all;
use crate::framer::CR;
use crate::framer::LF;
use crate::framer::lines_view;
use crate::parser::Command;
use crate::parser::CommandModel;
use crate::parser::ParseError;
use crate::parser::parse;
use crate::parser::parse_spec;

verus! {

/// The phase of a session within one transaction cycle.
#[derive(Clone, Copy, PartialEq, Eq, Structural, Debug)]
pub enum Phase {
    /// Connection accepted, banner not yet sent.
    Greeting,
    /// Banner sent (or greeted); no transaction in progress.
    Ready,
    /// A sender has been accepted.
    HaveSender,
    /// At least one recipient has been accepted.
    HaveRecipients,
    /// Between `DATA` and the terminating dot: lines are body text.
    ReceivingBody,
    /// `QUIT` processed; no further input is answered.
    Closed,
}

/// A reply of the state machine; the encoder turns it into wire bytes.
#[derive(Clone, Copy, PartialEq, Eq, Structural, Debug)]
pub enum Reply {
    /// `220`, sent once when the connection opens.
    Banner,
    /// `250` to `HELO`/`EHLO`.
    GreetingAck,
    /// `250` to an accepted `MAIL FROM:`.
    SenderOk,
    /// `250` to an accepted `RCPT TO:`.
    RecipientOk,
    /// `354`, inviting the message body.
    StartInput,
    /// `250` when the terminating dot is seen.
    Accepted,
    /// `221` to `QUIT`.
    Bye,
    /// `503`: the command is valid but out of order.
    BadSequence,
    /// `500`: the verb is outside the known set.
    UnknownCmd,
    /// `501`: a `MAIL`/`RCPT` remainder misses its required prefix.
    MalformedArg,
    /// `500`: a buffered line outgrew the configured bound.
    LineTooLong,
}

/// The transaction data a session holds: handed to the external sink when
/// a message is accepted or the session closes.
pub struct SessionRecord {
    /// The envelope sender, once `MAIL FROM:` was accepted.
    pub sender: Option<Vec<u8>>,
    /// The envelope recipients, in acceptance order.
    pub recipients: Vec<Vec<u8>>,
    /// The body accumulated so far, each line followed by CR LF.
    pub body: Vec<u8>,
}

/// The mathematical value of a [`SessionRecord`].
#[verifier::ext_equal]
pub struct RecordModel {
    pub sender: Option<Seq<u8>>,
    pub recipients: Seq<Seq<u8>>,
    pub body: Seq<u8>,
}

impl View for SessionRecord {
    type V = RecordModel;

    open spec fn view(&self) -> RecordModel {
        RecordModel {
            sender: match self.sender {
                Some(s) => Some(s@),
                None => None,
            },
            recipients: lines_view(self.recipients),
            body: self.body@,
        }
    }
}

/// What the core hands to the external collaborator at transaction
/// boundaries.
pub enum Event {
    /// A message was accepted: the completed transaction.
    TransactionCompleted(SessionRecord),
    /// The session closed on `QUIT`: whatever was in progress.
    SessionClosed(SessionRecord),
}

/// The mathematical value of an [`Event`].
#[verifier::ext_equal]
pub enum EventModel {
    TransactionCompleted(RecordModel),
    SessionClosed(RecordModel),
}

impl View for Event {
    type V = EventModel;

    open spec fn view(&self) -> EventModel {
        match self {
            Event::TransactionCompleted(r) => EventModel::TransactionCompleted(r@),
            Event::SessionClosed(r) => EventModel::SessionClosed(r@),
        }
    }
}

/// One session, owned by one connection.
pub struct Session {
    pub phase: Phase,
    pub sender: Option<Vec<u8>>,
    pub recipients: Vec<Vec<u8>>,
    pub body: Vec<u8>,
}

/// The mathematical value of a [`Session`].
#[verifier::ext_equal]
pub struct SessionModel {
    pub phase: Phase,
    pub sender: Option<Seq<u8>>,
    pub recipients: Seq<Seq<u8>>,
    pub body: Seq<u8>,
}

impl View for Session {
    type V = SessionModel;

    open spec fn view(&self) -> SessionModel {
        SessionModel {
            phase: self.phase,
            sender: match self.sender {
                Some(s) => Some(s@),
                None => None,
            },
            recipients: lines_view(self.recipients),
            body: self.body@,
        }
    }
}

impl SessionModel {
    /// The freshly created session: no banner sent, everything empty.
    pub open spec fn initial() -> SessionModel {
        SessionModel {
            phase: Phase::Greeting,
            sender: None,
            recipients: Seq::empty(),
            body: Seq::empty(),
        }
    }

    /// The transaction data currently held.
    pub open spec fn record(self) -> RecordModel {
        RecordModel { sender: self.sender, recipients: self.recipients, body: self.body }
    }

    /// The session after its transaction is atomically reset.
    pub open spec fn reset(self, phase: Phase) -> SessionModel {
        SessionModel { phase, sender: None, recipients: Seq::empty(), body: Seq::empty() }
    }

    /// The session invariants: recipients only after a sender, and a body
    /// only once sender and recipients are in place.
    pub open spec fn wf(self) -> bool {
        &&& self.recipients.len() > 0 ==> self.sender is Some
        &&& self.phase == Phase::HaveSender ==> self.sender is Some
        &&& self.phase == Phase::HaveRecipients ==> self.sender is Some && self.recipients.len()
            > 0
        &&& self.phase == Phase::ReceivingBody ==> self.sender is Some && self.recipients.len()
            > 0
    }
}

/// The end-of-body marker: a line holding the single byte `.`.
pub open spec fn dot_line() -> Seq<u8> {
    seq![46u8]
}

/// Dot-stuffing transparency: one leading `.` is removed from a stored
/// body line, so the literal line `..` is stored as `.`.
pub open spec fn unstuff(line: Seq<u8>) -> Seq<u8> {
    if line.len() > 0 && line[0] == 46 {
        line.skip(1)
    } else {
        line
    }
}

/// What one step of the state machine yields.
#[verifier::ext_equal]
pub struct StepModel {
    pub session: SessionModel,
    pub reply: Option<Reply>,
    pub event: Option<EventModel>,
}

/// The transition function of the session state machine, for one complete
/// line.  A closed session answers nothing; in the body phase the line is
/// never parsed as a command; an empty line outside the body phase is
/// ignored; otherwise the parsed command is dispatched against the phase.
pub open spec fn step_spec(s: SessionModel, line: Seq<u8>) -> StepModel {
    if s.phase == Phase::Closed {
        StepModel { session: s, reply: None, event: None }
    } else if s.phase == Phase::ReceivingBody {
        if line == dot_line() {
            StepModel {
                session: s.reset(Phase::Ready),
                reply: Some(Reply::Accepted),
                event: Some(EventModel::TransactionCompleted(s.record())),
            }
        } else {
            StepModel {
                session: SessionModel {
                    phase: s.phase,
                    sender: s.sender,
                    recipients: s.recipients,
                    body: s.body + unstuff(line) + seq![CR, LF],
                },
                reply: None,
                event: None,
            }
        }
    } else if line.len() == 0 {
        StepModel { session: s, reply: None, event: None }
    } else {
        match parse_spec(line) {
            Err(ParseError::UnknownCommand) => StepModel {
                session: s,
                reply: Some(Reply::UnknownCmd),
                event: None,
            },
            Err(ParseError::MalformedArgument) => StepModel {
                session: s,
                reply: Some(Reply::MalformedArg),
                event: None,
            },
            Ok(CommandModel::Helo) => StepModel {
                session: SessionModel {
                    phase: Phase::Ready,
                    sender: s.sender,
                    recipients: s.recipients,
                    body: s.body,
                },
                reply: Some(Reply::GreetingAck),
                event: None,
            },
            Ok(CommandModel::Mail(a)) => if s.phase == Phase::Greeting {
                StepModel { session: s, reply: Some(Reply::BadSequence), event: None }
            } else {
                StepModel {
                    session: SessionModel {
                        phase: Phase::HaveSender,
                        sender: Some(a),
                        recipients: Seq::empty(),
                        body: Seq::empty(),
                    },
                    reply: Some(Reply::SenderOk),
                    event: None,
                }
            },
            Ok(CommandModel::Rcpt(a)) => if s.phase == Phase::HaveSender || s.phase
                == Phase::HaveRecipients {
                StepModel {
                    session: SessionModel {
                        phase: Phase::HaveRecipients,
                        sender: s.sender,
                        recipients: s.recipients.push(a),
                        body: s.body,
                    },
                    reply: Some(Reply::RecipientOk),
                    event: None,
                }
            } else {
                StepModel { session: s, reply: Some(Reply::BadSequence), event: None }
            },
            Ok(CommandModel::Data) => if s.phase == Phase::HaveRecipients {
                StepModel {
                    session: SessionModel {
                        phase: Phase::ReceivingBody,
                        sender: s.sender,
                        recipients: s.recipients,
                        body: Seq::empty(),
                    },
                    reply: Some(Reply::StartInput),
                    event: None,
                }
            } else {
                StepModel { session: s, reply: Some(Reply::BadSequence), event: None }
            },
            Ok(CommandModel::Quit) => StepModel {
                session: s.reset(Phase::Closed),
                reply: Some(Reply::Bye),
                event: Some(EventModel::SessionClosed(s.record())),
            },
        }
    }
}

/// One step of the state machine preserves the session invariants.
pub proof fn lemma_step_preserves_wf(s: SessionModel, line: Seq<u8>)
    requires
        s.wf(),
    ensures
        step_spec(s, line).session.wf(),
{
}

/// What [`Session::step`] hands back for one line.
pub struct StepOutcome {
    pub reply: Option<Reply>,
    pub event: Option<Event>,
}

impl Session {
    pub fn new() -> (s: Session)
        ensures
            s@ == SessionModel::initial(),
            s@.wf(),
    {
        let s = Session { phase: Phase::Greeting, sender: None, recipients: Vec::new(), body: Vec::new() };
        proof {
            assert(lines_view(s.recipients) =~= Seq::<Seq<u8>>::empty());
        }
        s
    }

    /// Emits the opening banner and advances past the transient greeting
    /// phase.
    pub fn greet(&mut self) -> (r: Reply)
        requires
            old(self)@.phase == Phase::Greeting,
        ensures
            r == Reply::Banner,
            final(self)@ == (SessionModel { phase: Phase::Ready, ..old(self)@ }),
    {
        self.phase = Phase::Ready;
        Reply::Banner
    }

    /// Moves the transaction data out, leaving the session's transaction
    /// fields empty; the phase is untouched.
    fn take_record(&mut self) -> (rec: SessionRecord)
        ensures
            rec@ == old(self)@.record(),
            final(self)@ == old(self)@.reset(old(self)@.phase),
    {
        let mut sender: Option<Vec<u8>> = None;
        let mut recipients: Vec<Vec<u8>> = Vec::new();
        let mut body: Vec<u8> = Vec::new();
        core::mem::swap(&mut sender, &mut self.sender);
        core::mem::swap(&mut recipients, &mut self.recipients);
        core::mem::swap(&mut body, &mut self.body);
        proof {
            assert(lines_view(self.recipients) =~= Seq::<Seq<u8>>::empty());
        }
        SessionRecord { sender, recipients, body }
    }

    /// Closes the session from outside the protocol (end-of-stream, a
    /// transport error, or a watchdog): a still-open session hands out its
    /// in-progress transaction for observability and resets; a session
    /// already closed by `QUIT` is left as it is.
    pub fn close(&mut self) -> (e: Option<Event>)
        ensures
            old(self)@.phase == Phase::Closed ==> e is None && final(self)@ == old(self)@,
            old(self)@.phase != Phase::Closed ==> {
                &&& match e {
                    Some(ev) => ev@ == EventModel::SessionClosed(old(self)@.record()),
                    None => false,
                }
                &&& final(self)@ == old(self)@.reset(Phase::Closed)
            },
    {
        if self.phase == Phase::Closed {
            return None;
        }
        let rec = self.take_record();
        self.phase = Phase::Closed;
        Some(Event::SessionClosed(rec))
    }

    /// Processes one complete line, exactly as [`step_spec`] describes.
    pub fn step(&mut self, line: &Vec<u8>) -> (r: StepOutcome)
        ensures
            ({
                let m = step_spec(old(self)@, line@);
                &&& final(self)@ == m.session
                &&& r.reply == m.reply
                &&& match r.event {
                    Some(e) => m.event == Some(e@),
                    None => m.event is None,
                }
            }),
    {
        match self.phase {
            Phase::Closed => StepOutcome { reply: None, event: None },
            Phase::ReceivingBody => {
                if line.len() == 1 && line[0] == 46 {
                    proof {
                        assert(line@ =~= dot_line());
                    }
                    let rec = self.take_record();
                    self.phase = Phase::Ready;
                    StepOutcome {
                        reply: Some(Reply::Accepted),
                        event: Some(Event::TransactionCompleted(rec)),
                    }
                } else {
                    proof {
                        if line@ == dot_line() {
                            assert(line@.len() == 1);
                            assert(line@[0] == 46);
                        }
                    }
                    let ghost b0 = self.body@;
                    if line.len() > 0 && line[0] == 46 {
                        let n = line.len();
                        let tail = crate::bytes::copy_range(line, 1, n);
                        push_all(&mut self.body, tail.as_slice());
                        proof {
                            assert(tail@ =~= unstuff(line@));
                        }
                    } else {
                        push_all(&mut self.body, line.as_slice());
                        proof {
                            assert(line@ == unstuff(line@));
                        }
                    }
                    self.body.push(CR);
                    self.body.push(LF);
                    proof {
                        assert(self.body@ =~= b0 + unstuff(line@) + seq![CR, LF]);
                    }
                    StepOutcome { reply: None, event: None }
                }
            },
            _ => {
                if line.len() == 0 {
                    return StepOutcome { reply: None, event: None };
                }
                match parse(line) {
                    Err(ParseError::UnknownCommand) => StepOutcome {
                        reply: Some(Reply::UnknownCmd),
                        event: None,
                    },
                    Err(ParseError::MalformedArgument) => StepOutcome {
                        reply: Some(Reply::MalformedArg),
                        event: None,
                    },
                    Ok(Command::Helo) => {
                        self.phase = Phase::Ready;
                        StepOutcome { reply: Some(Reply::GreetingAck), event: None }
                    },
                    Ok(Command::Mail(a)) => {
                        if self.phase == Phase::Greeting {
                            StepOutcome { reply: Some(Reply::BadSequence), event: None }
                        } else {
                            self.sender = Some(a);
                            self.recipients = Vec::new();
                            self.body = Vec::new();
                            self.phase = Phase::HaveSender;
                            proof {
                                assert(lines_view(self.recipients) =~= Seq::<Seq<u8>>::empty());
                            }
                            StepOutcome { reply: Some(Reply::SenderOk), event: None }
                        }
                    },
                    Ok(Command::Rcpt(a)) => {
                        if self.phase == Phase::HaveSender || self.phase == Phase::HaveRecipients {
                            let ghost r0 = lines_view(self.recipients);
                            let ghost av = a@;
                            self.recipients.push(a);
                            self.phase = Phase::HaveRecipients;
                            proof {
                                assert(lines_view(self.recipients) =~= r0.push(av));
                            }
                            StepOutcome { reply: Some(Reply::RecipientOk), event: None }
                        } else {
                            StepOutcome { reply: Some(Reply::BadSequence), event: None }
                        }
                    },
                    Ok(Command::Data) => {
                        if self.phase == Phase::HaveRecipients {
                            self.body = Vec::new();
                            self.phase = Phase::ReceivingBody;
                            StepOutcome { reply: Some(Reply::StartInput), event: None }
                        } else {
                            StepOutcome { reply: Some(Reply::BadSequence), event: None }
                        }
                    },
                    Ok(Command::Quit) => {
                        let rec = self.take_record();
                        self.phase = Phase::Closed;
                        StepOutcome { reply: Some(Reply::Bye), event: Some(Event::SessionClosed(rec)) }
                    },
                }
            },
        }
    }
}

} // verus!
