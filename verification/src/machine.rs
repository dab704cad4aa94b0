//! The per-connection driver: a line framer and a session state machine
//! joined behind one entry point.  The transport hands in raw byte chunks
//! and receives back the ordered replies and transaction events that the
//! chunk produced; all reading and writing stays outside.

use vstd::prelude::*;

use crate::framer::LineFramer;
use crate::framer::frame_lines;
use crate::framer::frame_rest;
use crate::framer::lines_view;
use crate::framer::pending_len;
use crate::framer::unescape;
use crate::session::Event;
use crate::session::EventModel;
use crate::session::Phase;
use crate::session::Reply;
use crate::session::Session;
use crate::session::SessionModel;
use crate::session::step_spec;

verus! {

/// A sequence with zero or one elements, out of an optional value.
pub open spec fn opt_seq<T>(o: Option<T>) -> Seq<T> {
    match o {
        Some(x) => seq![x],
        None => Seq::empty(),
    }
}

/// The views of a vector of events.
pub open spec fn events_view(v: Vec<Event>) -> Seq<EventModel> {
    v@.map_values(|e: Event| e@)
}

/// What a run of the state machine over several lines yields: the final
/// session, and the replies and events of the processed lines in order.
#[verifier::ext_equal]
pub struct RunModel {
    pub session: SessionModel,
    pub replies: Seq<Reply>,
    pub events: Seq<EventModel>,
}

/// Folds [`step_spec`] over a sequence of complete lines.
pub open spec fn run_lines(s: SessionModel, lines: Seq<Seq<u8>>) -> RunModel
    decreases lines.len(),
{
    if lines.len() == 0 {
        RunModel { session: s, replies: Seq::empty(), events: Seq::empty() }
    } else {
        let st = step_spec(s, lines[0]);
        let rest = run_lines(st.session, lines.skip(1));
        RunModel {
            session: rest.session,
            replies: opt_seq(st.reply) + rest.replies,
            events: opt_seq(st.event) + rest.events,
        }
    }
}

/// The mathematical value of a [`Connection`].
#[verifier::ext_equal]
pub struct ConnectionModel {
    /// The framer's unterminated tail.
    pub buf: Seq<u8>,
    /// The framer's bound on a buffered line.
    pub max_line: int,
    /// Whether the opt-in escape normalization is on.
    pub normalize: bool,
    /// The session state machine.
    pub session: SessionModel,
}

/// What consuming one chunk yields.
#[verifier::ext_equal]
pub struct ConsumeModel {
    pub conn: ConnectionModel,
    pub replies: Seq<Reply>,
    pub events: Seq<EventModel>,
}

/// The transition of a whole connection on one arriving chunk: frame the
/// combined bytes into lines, run the session over each line in order,
/// and answer an overlong unterminated tail with one more reply while
/// discarding it.
pub open spec fn consume_spec(m: ConnectionModel, chunk: Seq<u8>) -> ConsumeModel {
    let c = if m.normalize {
        unescape(m.buf + chunk)
    } else {
        m.buf + chunk
    };
    let run = run_lines(m.session, frame_lines(c));
    let rest = frame_rest(c);
    let over = pending_len(rest) > m.max_line;
    ConsumeModel {
        conn: ConnectionModel {
            buf: if over {
                Seq::empty()
            } else {
                rest
            },
            max_line: m.max_line,
            normalize: m.normalize,
            session: run.session,
        },
        replies: if over && run.session.phase != Phase::Closed {
            run.replies + seq![Reply::LineTooLong]
        } else {
            run.replies
        },
        events: run.events,
    }
}

/// One connection's state: the framer and the session.
pub struct Connection {
    pub framer: LineFramer,
    pub session: Session,
}

impl View for Connection {
    type V = ConnectionModel;

    open spec fn view(&self) -> ConnectionModel {
        ConnectionModel {
            buf: self.framer.buf@,
            max_line: self.framer.max_line as int,
            normalize: self.framer.normalize,
            session: self.session@,
        }
    }
}

/// What [`Connection::handle_chunk`] hands back: replies to encode and
/// write, and events for the external sink, each in order.
pub struct ChunkOutcome {
    pub replies: Vec<Reply>,
    pub events: Vec<Event>,
}

impl Connection {
    /// A fresh connection: empty buffer, session awaiting its banner.
    pub fn new(max_line: usize, normalize: bool) -> (c: Connection)
        ensures
            c@ == (ConnectionModel {
                buf: Seq::empty(),
                max_line: max_line as int,
                normalize,
                session: SessionModel::initial(),
            }),
    {
        Connection { framer: LineFramer::new(max_line, normalize), session: Session::new() }
    }

    /// Emits the opening banner and leaves the transient greeting phase.
    pub fn on_connect(&mut self) -> (r: Reply)
        requires
            old(self)@.session.phase == Phase::Greeting,
        ensures
            r == Reply::Banner,
            final(self)@ == (ConnectionModel {
                session: SessionModel { phase: Phase::Ready, ..old(self)@.session },
                ..old(self)@
            }),
    {
        self.session.greet()
    }

    /// Consumes one chunk of the byte stream, exactly as [`consume_spec`]
    /// describes: every line the chunk completes is processed in order,
    /// and the replies and events come back in that order.
    pub fn handle_chunk(&mut self, chunk: &[u8]) -> (out: ChunkOutcome)
        ensures
            ({
                let m = consume_spec(old(self)@, chunk@);
                &&& final(self)@ == m.conn
                &&& out.replies@ == m.replies
                &&& events_view(out.events) == m.events
            }),
    {
        let fr = self.framer.feed(chunk);
        let ghost ls = lines_view(fr.lines);
        let ghost s0 = self.session@;
        let mut replies: Vec<Reply> = Vec::new();
        let mut events: Vec<Event> = Vec::new();
        proof {
            assert(ls.skip(0) =~= ls);
            assert(replies@ + run_lines(s0, ls).replies =~= run_lines(s0, ls).replies);
            assert(events_view(events) =~= Seq::<EventModel>::empty());
            assert(events_view(events) + run_lines(s0, ls).events =~= run_lines(s0, ls).events);
        }
        let ghost fbuf = self.framer.buf@;
        let ghost fmax = self.framer.max_line;
        let ghost fnorm = self.framer.normalize;
        let mut i: usize = 0;
        while i < fr.lines.len()
            invariant
                i <= ls.len(),
                ls == lines_view(fr.lines),
                self.framer.buf@ == fbuf,
                self.framer.max_line == fmax,
                self.framer.normalize == fnorm,
                run_lines(s0, ls).session == run_lines(self.session@, ls.skip(i as int)).session,
                run_lines(s0, ls).replies == replies@ + run_lines(
                    self.session@,
                    ls.skip(i as int),
                ).replies,
                run_lines(s0, ls).events == events_view(events) + run_lines(
                    self.session@,
                    ls.skip(i as int),
                ).events,
            decreases ls.len() - i,
        {
            let ghost pre = self.session@;
            let ghost sufi = ls.skip(i as int);
            let ghost rpre = replies@;
            let ghost epre = events_view(events);
            let oc = self.session.step(&fr.lines[i]);
            proof {
                assert(sufi[0] == ls[i as int]);
                assert(ls[i as int] == fr.lines[i as int]@);
                assert(sufi.skip(1) =~= ls.skip(i as int + 1));
            }
            let ghost st = step_spec(pre, sufi[0]);
            let ghost rest = run_lines(st.session, ls.skip(i as int + 1));
            match oc.reply {
                Some(rep) => {
                    replies.push(rep);
                    proof {
                        assert(replies@ =~= rpre + opt_seq(st.reply));
                        assert((rpre + opt_seq(st.reply)) + rest.replies =~= rpre + (opt_seq(
                            st.reply,
                        ) + rest.replies));
                    }
                },
                None => {
                    proof {
                        assert(replies@ =~= rpre + opt_seq(st.reply));
                        assert((rpre + opt_seq(st.reply)) + rest.replies =~= rpre + (opt_seq(
                            st.reply,
                        ) + rest.replies));
                    }
                },
            }
            match oc.event {
                Some(ev) => {
                    events.push(ev);
                    proof {
                        assert(st.event == Some(ev@));
                        assert(events_view(events) =~= epre + opt_seq(st.event));
                        assert((epre + opt_seq(st.event)) + rest.events =~= epre + (opt_seq(
                            st.event,
                        ) + rest.events));
                    }
                },
                None => {
                    proof {
                        assert(events_view(events) =~= epre);
                        assert(epre + Seq::<EventModel>::empty() =~= epre);
                        assert(opt_seq(st.event) =~= Seq::<EventModel>::empty());
                        assert((epre + opt_seq(st.event)) + rest.events =~= epre + (opt_seq(
                            st.event,
                        ) + rest.events));
                    }
                },
            }
            i += 1;
        }
        proof {
            assert(ls.skip(ls.len() as int) =~= Seq::<Seq<u8>>::empty());
            let fin = run_lines(self.session@, Seq::<Seq<u8>>::empty());
            assert(replies@ + fin.replies =~= replies@);
            assert(events_view(events) + fin.events =~= events_view(events));
        }
        if fr.oversized {
            if !(self.session.phase == Phase::Closed) {
                let ghost rpre = replies@;
                replies.push(Reply::LineTooLong);
                proof {
                    assert(replies@ =~= rpre + seq![Reply::LineTooLong]);
                }
            }
        }
        ChunkOutcome { replies, events }
    }

    /// The transport ended (end-of-stream, error, or a watchdog): the
    /// in-progress transaction, if the session was still open, is handed
    /// out for observability, and the connection reaches `Closed` with its
    /// buffers released.
    pub fn on_disconnect(&mut self) -> (e: Option<Event>)
        ensures
            old(self)@.session.phase == Phase::Closed ==> e is None && final(self)@.session == old(
                self,
            )@.session,
            old(self)@.session.phase != Phase::Closed ==> {
                &&& match e {
                    Some(ev) => ev@ == EventModel::SessionClosed(old(self)@.session.record()),
                    None => false,
                }
                &&& final(self)@.session == old(self)@.session.reset(Phase::Closed)
            },
            final(self)@.buf == Seq::<u8>::empty(),
            final(self)@.max_line == old(self)@.max_line,
            final(self)@.normalize == old(self)@.normalize,
    {
        self.framer.buf = Vec::new();
        self.session.close()
    }
}

} // verus!
