use vstd::prelude::*;
use vstd::string::StringExecFns;
use crate::lines::{
    chunks_view, concat_chunks, lemma_stream_lines_step, split_from, split_lines, stream_lines, strings_view, text_lines,
    LineBuffer,
};
use crate::record::{decode_line, decoded_records, line_record, lemma_decoded_records_concat, RecordView, StreamRecord};
use crate::text::{json_quote, json_quoted};
use crate::transcript::{role_name, turns_view, Role, Transcript, Turn, TurnView};

verus! {

/// One message of a request body.
pub open spec fn message_json(t: TurnView) -> Seq<char> {
    "{\"role\":"@ + json_quoted(role_name(t.0)) + ",\"content\":"@ + json_quoted(t.1) + "}"@
}

/// The messages of a request body, separated by commas.
pub open spec fn messages_json(ts: Seq<TurnView>) -> Seq<char>
    decreases ts.len(),
{
    if ts.len() == 0 {
        seq![]
    } else if ts.len() == 1 {
        message_json(ts[0])
    } else {
        messages_json(ts.drop_last()) + ","@ + message_json(ts.last())
    }
}

pub open spec fn bool_json(b: bool) -> Seq<char> {
    if b {
        "true"@
    } else {
        "false"@
    }
}

/// The JSON body of a chat request.
pub open spec fn request_json(model: Seq<char>, ts: Seq<TurnView>, stream: bool) -> Seq<char> {
    "{\"model\":"@ + json_quoted(model) + ",\"messages\":["@ + messages_json(ts) + "],\"stream\":"@
        + bool_json(stream) + "}"@
}

/// A chat request: the model, the whole conversation, and whether to stream the reply.
pub struct StreamRequest {
    pub model: String,
    pub messages: Vec<Turn>,
    pub stream: bool,
}

impl StreamRequest {
    /// The request body, as sent to `POST /api/chat`.
    pub fn to_json(&self) -> (r: String)
        ensures
            r@ == request_json(self.model@, turns_view(self.messages@), self.stream),
    {
        let ghost ms = turns_view(self.messages@);
        let mut body = String::new();
        body.append("{\"model\":");
        let q = json_quote(self.model.as_str());
        body.append(q.as_str());
        body.append(",\"messages\":[");
        let ghost prefix = body@;
        let mut i: usize = 0;
        while i < self.messages.len()
            invariant
                0 <= i <= self.messages@.len(),
                ms == turns_view(self.messages@),
                body@ == prefix + messages_json(ms.take(i as int)),
            decreases self.messages@.len() - i,
        {
            let t = &self.messages[i];
            let ghost b0 = body@;
            if i > 0 {
                body.append(",");
            }
            let ghost b1 = body@;
            body.append("{\"role\":");
            let r = json_quote(t.role.as_str());
            body.append(r.as_str());
            body.append(",\"content\":");
            let c = json_quote(t.content.as_str());
            body.append(c.as_str());
            body.append("}");
            proof {
                let tk = ms.take(i as int + 1);
                assert(tk.drop_last() =~= ms.take(i as int));
                assert(tk.last() == t@);
                assert(body@ =~= b1 + message_json(t@));
                if i == 0 {
                    assert(ms.take(0) =~= Seq::<TurnView>::empty());
                    assert(body@ =~= prefix + messages_json(tk));
                } else {
                    assert(body@ =~= prefix + messages_json(tk));
                }
            }
            i = i + 1;
        }
        proof {
            assert(ms.take(i as int) =~= ms);
        }
        body.append("],\"stream\":");
        if self.stream {
            body.append("true");
        } else {
            body.append("false");
        }
        body.append("}");
        proof {
            assert(body@ =~= request_json(self.model@, ms, self.stream));
        }
        body
    }
}

/// Starts a turn: appends the user's text to the transcript and builds the
/// streaming request for the whole transcript.
pub fn begin_turn(transcript: &mut Transcript, model: &str, user_text: String) -> (r: StreamRequest)
    ensures
        final(transcript)@ == old(transcript)@.push((Role::User, user_text@)),
        r.model@ == model@,
        turns_view(r.messages@) == final(transcript)@,
        r.stream,
{
    transcript.push(Role::User, user_text);
    StreamRequest { model: model.to_owned(), messages: transcript.snapshot(), stream: true }
}

/// Progress of a turn: the reply so far, whether `done` was seen, and the deltas shown.
pub type TurnState = (Seq<char>, bool, Seq<Seq<char>>);

/// A turn's progress after one more record. Nothing changes once `done` was seen.
pub open spec fn absorb_record(st: TurnState, r: RecordView) -> TurnState {
    if st.1 {
        st
    } else {
        match r.1 {
            Some(m) => (st.0 + m.1, r.0, st.2.push(m.1)),
            None => (st.0, r.0, st.2),
        }
    }
}

pub open spec fn absorb(st: TurnState, rs: Seq<RecordView>) -> TurnState
    decreases rs.len(),
{
    if rs.len() == 0 {
        st
    } else {
        absorb_record(absorb(st, rs.drop_last()), rs.last())
    }
}

/// The records completed by one chunk after the partial line `pending`.
pub open spec fn chunk_records(pending: Seq<u8>, chunk: Seq<u8>) -> Seq<RecordView> {
    decoded_records(text_lines(split_from((seq![], pending), chunk).0))
}

/// How a turn ends when the server sends `chunks` and then closes.
pub open spec fn turn_result(chunks: Seq<Seq<u8>>) -> TurnState {
    absorb((seq![], false, seq![]), decoded_records(stream_lines(chunks)))
}

/// The texts joined in order.
pub open spec fn concat_texts(ts: Seq<Seq<char>>) -> Seq<char>
    decreases ts.len(),
{
    if ts.len() == 0 {
        seq![]
    } else {
        concat_texts(ts.drop_last()) + ts.last()
    }
}

/// The transcript once a reply is committed; an empty reply adds no turn.
pub open spec fn commit_reply(t: Seq<TurnView>, reply: Seq<char>) -> Seq<TurnView> {
    if reply.len() > 0 {
        t.push((Role::Assistant, reply))
    } else {
        t
    }
}

pub proof fn lemma_absorb_concat(st: TurnState, a: Seq<RecordView>, b: Seq<RecordView>)
    ensures
        absorb(st, a + b) == absorb(absorb(st, a), b),
    decreases b.len(),
{
    if b.len() == 0 {
        assert(a + b =~= a);
    } else {
        assert((a + b).drop_last() =~= a + b.drop_last());
        lemma_absorb_concat(st, a, b.drop_last());
    }
}

pub proof fn lemma_absorb_finished(st: TurnState, rs: Seq<RecordView>)
    requires
        st.1,
    ensures
        absorb(st, rs) == st,
    decreases rs.len(),
{
    if rs.len() > 0 {
        lemma_absorb_finished(st, rs.drop_last());
    }
}

/// Deltas shown earlier stay in front of later ones.
pub proof fn lemma_absorb_tokens(reply: Seq<char>, done: bool, shown: Seq<Seq<char>>, rs: Seq<RecordView>)
    ensures
        absorb((reply, done, shown), rs).0 == absorb((reply, done, seq![]), rs).0,
        absorb((reply, done, shown), rs).1 == absorb((reply, done, seq![]), rs).1,
        absorb((reply, done, shown), rs).2 == shown + absorb((reply, done, seq![]), rs).2,
    decreases rs.len(),
{
    if rs.len() == 0 {
        assert(shown + seq![] =~= shown);
    } else {
        lemma_absorb_tokens(reply, done, shown, rs.drop_last());
        let s = absorb((reply, done, seq![]), rs.drop_last());
        match rs.last().1 {
            Some(m) => {
                assert((shown + s.2).push(m.1) =~= shown + s.2.push(m.1));
            },
            None => {},
        }
    }
}

/// The reply collected over a turn is its deltas joined in the order they were shown.
pub proof fn lemma_reply_is_joined_deltas(rs: Seq<RecordView>)
    ensures
        absorb((seq![], false, seq![]), rs).0 == concat_texts(absorb((seq![], false, seq![]), rs).2),
    decreases rs.len(),
{
    if rs.len() > 0 {
        lemma_reply_is_joined_deltas(rs.drop_last());
        let s = absorb((seq![], false, seq![]), rs.drop_last());
        match rs.last().1 {
            Some(m) => {
                if !s.1 {
                    assert(s.2.push(m.1).drop_last() =~= s.2);
                }
            },
            None => {},
        }
    }
}

/// Once a record with `done` set has been read, later records of the turn change
/// nothing: no further delta is shown or kept.
pub proof fn lemma_nothing_after_done(before: Seq<RecordView>, last: RecordView, after: Seq<RecordView>)
    requires
        last.0,
    ensures
        absorb((seq![], false, seq![]), before.push(last) + after) == absorb(
            (seq![], false, seq![]),
            before.push(last),
        ),
{
    let init: TurnState = (seq![], false, seq![]);
    assert(before.push(last).drop_last() =~= before);
    lemma_absorb_concat(init, before.push(last), after);
    lemma_absorb_finished(absorb(init, before.push(last)), after);
}

/// The receiving side of one turn: reassembles lines, decodes records, and
/// collects the reply until `done`.
pub struct TurnStream {
    lines: LineBuffer,
    reply: String,
    done: bool,
}

impl TurnStream {
    pub closed spec fn reply(&self) -> Seq<char> {
        self.reply@
    }

    pub closed spec fn is_finished(&self) -> bool {
        self.done
    }

    pub closed spec fn pending(&self) -> Seq<u8> {
        self.lines.pending()
    }

    pub closed spec fn wf(&self) -> bool {
        self.lines.wf()
    }

    pub fn new() -> (r: TurnStream)
        ensures
            r.wf(),
            r.reply() == Seq::<char>::empty(),
            !r.is_finished(),
            r.pending() == Seq::<u8>::empty(),
    {
        TurnStream { lines: LineBuffer::new(), reply: String::new(), done: false }
    }

    /// Whether a record with `done` set has been read; no further chunk is then needed.
    pub fn finished(&self) -> (r: bool)
        ensures
            r == self.is_finished(),
    {
        self.done
    }

    /// The reply collected so far.
    pub fn reply_text(&self) -> (r: &str)
        ensures
            r@ == self.reply(),
    {
        self.reply.as_str()
    }

    /// Takes one chunk of the response body and returns the deltas to show, in order.
    /// Lines after a `done` record, in this chunk or later ones, are ignored.
    pub fn on_chunk(&mut self, chunk: &[u8]) -> (tokens: Vec<String>)
        requires
            old(self).wf(),
        ensures
            final(self).wf(),
            old(self).is_finished() ==> tokens@.len() == 0 && final(self).reply() == old(
                self,
            ).reply() && final(self).is_finished(),
            !old(self).is_finished() ==> ({
                let st = absorb(
                    (old(self).reply(), false, seq![]),
                    chunk_records(old(self).pending(), chunk@),
                );
                &&& final(self).reply() == st.0
                &&& final(self).is_finished() == st.1
                &&& strings_view(tokens@) == st.2
                &&& final(self).pending() == split_from((seq![], old(self).pending()), chunk@).1
            }),
    {
        let mut tokens: Vec<String> = Vec::new();
        if self.done {
            return tokens;
        }
        let ghost p0 = self.lines.pending();
        let lines = self.lines.push_chunk(chunk);
        let ghost ls = strings_view(lines@);
        let ghost p1 = self.lines.pending();
        let ghost r0 = self.reply@;
        let mut i: usize = 0;
        while i < lines.len()
            invariant
                0 <= i <= lines@.len(),
                ls == strings_view(lines@),
                self.lines.wf(),
                self.lines.pending() == p1,
                absorb((r0, false, seq![]), decoded_records(ls.take(i as int))) == (
                    self.reply@,
                    self.done,
                    strings_view(tokens@),
                ),
            decreases lines@.len() - i,
        {
            proof {
                assert(ls.take(i as int + 1).drop_last() =~= ls.take(i as int));
                assert(ls.take(i as int + 1).last() == lines@[i as int]@);
                let recs = decoded_records(ls.take(i as int));
                match line_record(lines@[i as int]@) {
                    Some(r) => {
                        assert(recs.push(r).drop_last() =~= recs);
                        assert(decoded_records(ls.take(i as int + 1)) == recs.push(r));
                    },
                    None => {
                        assert(decoded_records(ls.take(i as int + 1)) == recs);
                    },
                }
            }
            if !self.done {
                match decode_line(lines[i].as_str()) {
                    Some(rec) => {
                        let StreamRecord { message, done } = rec;
                        match message {
                            Some(m) => {
                                let ghost before = tokens@;
                                self.reply.append(m.content.as_str());
                                tokens.push(m.content);
                                proof {
                                    assert(strings_view(tokens@) =~= strings_view(before).push(
                                        m.content@,
                                    ));
                                }
                            },
                            None => {},
                        }
                        self.done = done;
                    },
                    None => {},
                }
            }
            i = i + 1;
        }
        proof {
            assert(ls.take(i as int) =~= ls);
        }
        tokens
    }

    /// Ends a turn that was read to `done` or to the end of the stream: a non-empty
    /// reply becomes an assistant turn.
    pub fn complete(self, transcript: &mut Transcript)
        ensures
            final(transcript)@ == commit_reply(old(transcript)@, self.reply()),
    {
        if !self.reply.as_str().is_empty() {
            transcript.push(Role::Assistant, self.reply);
        }
    }
}

/// Why a turn failed.
#[derive(Clone, Copy, Debug, PartialEq, Eq, Structural)]
pub enum SessionError {
    /// The server could not be reached, or refused the request.
    ConnectionError,
    /// The connection broke while the reply was streaming.
    StreamInterrupted,
}

/// What the connection for one turn delivered.
pub enum StreamOutcome {
    /// No stream was opened.
    Refused,
    /// The body arrived in these chunks, then closed, or broke if `interrupted`.
    Received { chunks: Vec<Vec<u8>>, interrupted: bool },
}

/// The transcript after a turn that began with `t` (the user's turn already in it) ended in `outcome`.
pub open spec fn transcript_after(t: Seq<TurnView>, outcome: StreamOutcome) -> Seq<TurnView> {
    match outcome {
        StreamOutcome::Refused => t,
        StreamOutcome::Received { chunks, interrupted } => if interrupted {
            t
        } else {
            commit_reply(t, turn_result(chunks_view(chunks@)).0)
        },
    }
}

/// Finishes a begun turn from what its connection delivered: commits the reply
/// and returns every delta shown, or reports the failure and adds nothing.
pub fn settle_turn(transcript: &mut Transcript, outcome: &StreamOutcome) -> (r: Result<Vec<String>, SessionError>)
    ensures
        final(transcript)@ == transcript_after(old(transcript)@, *outcome),
        match *outcome {
            StreamOutcome::Refused => r == Err::<Vec<String>, SessionError>(SessionError::ConnectionError),
            StreamOutcome::Received { chunks, interrupted } => if interrupted {
                r == Err::<Vec<String>, SessionError>(SessionError::StreamInterrupted)
            } else {
                r is Ok && strings_view(r->Ok_0@) == turn_result(chunks_view(chunks@)).2
            },
        },
{
    match outcome {
        StreamOutcome::Refused => Err(SessionError::ConnectionError),
        StreamOutcome::Received { chunks, interrupted } => {
            if *interrupted {
                return Err(SessionError::StreamInterrupted);
            }
            let ghost cs = chunks_view(chunks@);
            let ghost init: TurnState = (seq![], false, seq![]);
            let mut stream = TurnStream::new();
            let mut tokens: Vec<String> = Vec::new();
            let mut i: usize = 0;
            proof {
                assert(cs.take(0) =~= Seq::<Seq<u8>>::empty());
                assert(split_lines(concat_chunks(cs.take(0))) == split_from((seq![], seq![]), Seq::<u8>::empty()));
                assert(stream_lines(cs.take(0)) =~= Seq::<Seq<char>>::empty());
            }
            while i < chunks.len()
                invariant
                    0 <= i <= chunks@.len(),
                    cs == chunks_view(chunks@),
                    stream.wf(),
                    absorb(init, decoded_records(stream_lines(cs.take(i as int)))) == (
                        stream.reply(),
                        stream.is_finished(),
                        strings_view(tokens@),
                    ),
                    !stream.is_finished() ==> stream.pending() == split_lines(
                        concat_chunks(cs.take(i as int)),
                    ).1,
                decreases chunks@.len() - i,
            {
                let ghost prev = stream_lines(cs.take(i as int));
                let ghost p = split_lines(concat_chunks(cs.take(i as int))).1;
                let ghost shown = tokens@;
                let ghost was_finished = stream.is_finished();
                let ghost reply0 = stream.reply();
                let mut more = stream.on_chunk(chunks[i].as_slice());
                proof {
                    lemma_stream_lines_step(cs, i as int);
                    let added = text_lines(split_from((seq![], p), cs[i as int]).0);
                    lemma_decoded_records_concat(prev, added);
                    lemma_absorb_concat(init, decoded_records(prev), decoded_records(added));
                    if was_finished {
                        lemma_absorb_finished(absorb(init, decoded_records(prev)), decoded_records(added));
                    } else {
                        lemma_absorb_tokens(reply0, false, strings_view(shown), decoded_records(added));
                    }
                }
                let ghost more_v = more@;
                tokens.append(&mut more);
                proof {
                    assert(strings_view(tokens@) =~= strings_view(shown) + strings_view(more_v));
                }
                i = i + 1;
            }
            proof {
                assert(cs.take(i as int) =~= cs);
            }
            stream.complete(transcript);
            Ok(tokens)
        },
    }
}

/// When the connection cannot be made, or breaks, the transcript keeps the user's
/// turn that began it and gains no assistant turn.
pub proof fn lemma_failed_turn_keeps_user_turn(before: Seq<TurnView>, text: Seq<char>, chunks: Vec<Vec<u8>>)
    ensures
        transcript_after(before.push((Role::User, text)), StreamOutcome::Refused) == before.push(
            (Role::User, text),
        ),
        transcript_after(
            before.push((Role::User, text)),
            StreamOutcome::Received { chunks, interrupted: true },
        ) == before.push((Role::User, text)),
{
}

} // verus!
