//! One prompt/response cycle, driven by the events that the transport reports.
use vstd::prelude::*;
use vstd::string::StringExecFns;
use crate::decoder::{decode, fragment_of, member_of, parse_json, RESPONSE_FIELD};
use crate::reassembler::{complete_lines, lines_view, unterminated_tail, LineBuffer};
use crate::reassembler::{lemma_split_append, lemma_split_without_newline, has_no_newline, split_lines, NEWLINE};

verus! {

/// Reported as the error body when the server's own cannot be read.
pub const MISSING_ERROR_BODY: &'static str = "Keine Fehlermeldung verfügbar";

/// The text that one line contributes to the output.
pub open spec fn line_text(line: Seq<u8>) -> Seq<char> {
    match fragment_of(line) {
        Some(t) => t,
        None => Seq::empty(),
    }
}

/// The text that a sequence of lines contributes to the output, in order.
pub open spec fn lines_text(lines: Seq<Seq<u8>>) -> Seq<char>
    decreases lines.len(),
{
    if lines.len() == 0 {
        Seq::empty()
    } else {
        lines_text(lines.drop_last()) + line_text(lines.last())
    }
}

pub proof fn lemma_lines_text_append(a: Seq<Seq<u8>>, b: Seq<Seq<u8>>)
    ensures
        lines_text(a + b) == lines_text(a) + lines_text(b),
    decreases b.len(),
{
    if b.len() == 0 {
        assert(a + b =~= a);
        assert(lines_text(a) + Seq::<char>::empty() =~= lines_text(a));
    } else {
        lemma_lines_text_append(a, b.drop_last());
        assert((a + b).drop_last() =~= a + b.drop_last());
        assert((a + b).last() == b.last());
        assert(lines_text(a) + lines_text(b.drop_last()) + line_text(b.last())
            =~= lines_text(a) + (lines_text(b.drop_last()) + line_text(b.last())));
    }
}

/// The text that `Turn::on_chunk` hands out for each of `chunks` in turn, after
/// `received` bytes of the stream.
pub open spec fn streamed_text(received: Seq<u8>, chunks: Seq<Seq<u8>>) -> Seq<char>
    decreases chunks.len(),
{
    if chunks.len() == 0 {
        Seq::empty()
    } else {
        lines_text(complete_lines(unterminated_tail(received) + chunks[0])) + streamed_text(
            received + chunks[0],
            chunks.drop_first(),
        )
    }
}

/// Each line followed by its delimiter.
pub open spec fn joined_lines(lines: Seq<Seq<u8>>) -> Seq<u8>
    decreases lines.len(),
{
    if lines.len() == 0 {
        Seq::empty()
    } else {
        joined_lines(lines.drop_last()) + lines.last().push(NEWLINE)
    }
}

proof fn lemma_streamed_text(received: Seq<u8>, chunks: Seq<Seq<u8>>)
    ensures
        lines_text(complete_lines(received)) + streamed_text(received, chunks)
            == lines_text(complete_lines(received + chunks.flatten())),
    decreases chunks.len(),
{
    if chunks.len() == 0 {
        assert(received + chunks.flatten() =~= received);
        assert(lines_text(complete_lines(received)) + Seq::<char>::empty()
            =~= lines_text(complete_lines(received)));
    } else {
        let c = chunks[0];
        lemma_split_append(received, c);
        lemma_lines_text_append(complete_lines(received), complete_lines(unterminated_tail(received) + c));
        lemma_streamed_text(received + c, chunks.drop_first());
        assert(received + chunks.flatten() =~= received + c + chunks.drop_first().flatten());
        assert(lines_text(complete_lines(received)) + (lines_text(
            complete_lines(unterminated_tail(received) + c),
        ) + streamed_text(received + c, chunks.drop_first())) =~= lines_text(complete_lines(received))
            + lines_text(complete_lines(unterminated_tail(received) + c)) + streamed_text(
            received + c,
            chunks.drop_first(),
        ));
    }
}

proof fn lemma_joined_lines(lines: Seq<Seq<u8>>)
    requires
        forall|i: int| 0 <= i < lines.len() ==> has_no_newline(#[trigger] lines[i]),
    ensures
        complete_lines(joined_lines(lines)) == lines,
        unterminated_tail(joined_lines(lines)) == Seq::<u8>::empty(),
    decreases lines.len(),
{
    if lines.len() > 0 {
        let rest = lines.drop_last();
        let l = lines.last();
        assert forall|i: int| 0 <= i < rest.len() implies has_no_newline(#[trigger] rest[i]) by {
            assert(rest[i] == lines[i]);
        }
        lemma_joined_lines(rest);
        assert(has_no_newline(lines[lines.len() - 1]));
        lemma_split_without_newline(l);
        assert(l.push(NEWLINE).drop_last() =~= l);
        assert(split_lines(l.push(NEWLINE)) == (seq![l], Seq::<u8>::empty()));
        lemma_split_append(joined_lines(rest), l.push(NEWLINE));
        assert(Seq::<u8>::empty() + l.push(NEWLINE) =~= l.push(NEWLINE));
        assert(rest + seq![l] =~= lines);
    }
}

proof fn lemma_lines_text_of_fragments(lines: Seq<Seq<u8>>, texts: Seq<Seq<char>>)
    requires
        lines.len() == texts.len(),
        forall|i: int| 0 <= i < lines.len() ==> fragment_of(#[trigger] lines[i]) == Some(texts[i]),
    ensures
        lines_text(lines) == texts.flatten_alt(),
    decreases lines.len(),
{
    if lines.len() > 0 {
        let n = lines.len() - 1;
        assert forall|i: int| 0 <= i < n implies fragment_of(#[trigger] lines.drop_last()[i])
            == Some(texts.drop_last()[i]) by {
            assert(lines.drop_last()[i] == lines[i]);
        }
        lemma_lines_text_of_fragments(lines.drop_last(), texts.drop_last());
        assert(fragment_of(lines[n]) == Some(texts[n]));
    }
}

/// A well-formed stream, whose lines each carry a fragment of text and hold no
/// delimiter, renders the fragments concatenated in order, however the stream
/// is cut into chunks: the outputs of the data chunks, then the one newline that
/// the end of the stream writes. The finished turn reports the same text.
pub proof fn lemma_well_formed_stream_renders_all(
    lines: Seq<Seq<u8>>,
    texts: Seq<Seq<char>>,
    chunks: Seq<Seq<u8>>,
)
    requires
        lines.len() == texts.len(),
        forall|i: int| 0 <= i < lines.len() ==> has_no_newline(#[trigger] lines[i]),
        forall|i: int| 0 <= i < lines.len() ==> fragment_of(#[trigger] lines[i]) == Some(texts[i]),
        chunks.flatten() == joined_lines(lines),
    ensures
        streamed_text(Seq::empty(), chunks) + seq!['\n'] == texts.flatten() + seq!['\n'],
        lines_text(complete_lines(chunks.flatten())) == texts.flatten(),
{
    lemma_streamed_text(Seq::empty(), chunks);
    assert(Seq::<u8>::empty() + chunks.flatten() =~= chunks.flatten());
    lemma_tail_of_nothing();
    lemma_joined_lines(lines);
    lemma_lines_text_of_fragments(lines, texts);
    texts.lemma_flatten_and_flatten_alt_are_equivalent();
    assert(Seq::<char>::empty() + streamed_text(Seq::empty(), chunks)
        =~= streamed_text(Seq::empty(), chunks));
}

proof fn lemma_tail_of_nothing()
    ensures
        lines_text(complete_lines(Seq::<u8>::empty())) == Seq::<char>::empty(),
{
    assert(complete_lines(Seq::<u8>::empty()) =~= Seq::<Seq<u8>>::empty());
}

/// A line that is not JSON, or that has no `response` member, contributes no
/// text: the lines around it render exactly as they would without it. (That it
/// does not end the turn is in `Turn::on_chunk`: data always asks for more.)
pub proof fn lemma_textless_line_adds_nothing(before: Seq<Seq<u8>>, line: Seq<u8>, after: Seq<Seq<u8>>)
    requires
        parse_json(line) is None || (parse_json(line) matches Some(v) && member_of(
            v,
            RESPONSE_FIELD@,
        ) is None),
    ensures
        fragment_of(line) is None,
        lines_text(before.push(line) + after) == lines_text(before + after),
{
    lemma_lines_text_append(before.push(line), after);
    lemma_lines_text_append(before, after);
    assert(before.push(line).drop_last() =~= before);
    assert(lines_text(before) + Seq::<char>::empty() =~= lines_text(before));
}

/// An HTTP status that reports success (2xx).
pub open spec fn is_success_status(code: u16) -> bool {
    200 <= code <= 299
}

/// Whether `code` is an HTTP success status.
pub fn status_is_success(code: u16) -> (r: bool)
    ensures
        r == is_success_status(code),
{
    200 <= code && code <= 299
}

/// How a turn ended.
pub enum TurnResult {
    /// The stream ended; holds the text that was written for this turn.
    Rendered(String),
    /// The server answered with a failure status; holds it and its error body.
    HttpError(u16, String),
    /// The server could not be reached, or the stream broke off.
    TransportError(String),
}

impl TurnResult {
    pub fn is_failure(&self) -> (r: bool)
        ensures
            r == !(self is Rendered),
    {
        match self {
            TurnResult::Rendered(_) => false,
            _ => true,
        }
    }
}

/// Where a turn stands.
#[derive(PartialEq, Eq, Structural, Clone, Copy, Debug)]
pub enum Phase {
    /// The request is out; no answer yet.
    Sent,
    /// A failure status came; its error body is wanted.
    AwaitingErrorBody(u16),
    /// A success status came; chunks are being read.
    Streaming,
    /// The stream ended.
    Completed,
    /// The turn ended in an error.
    Failed,
}

/// What became of sending the request.
pub enum SendOutcome {
    /// The endpoint could not be reached; holds a description.
    Unreachable(String),
    /// The endpoint answered with this status.
    Status(u16),
}

/// What reading the next chunk gave.
pub enum ChunkEvent {
    Data(Vec<u8>),
    /// The read failed; holds a description.
    Failed(String),
    End,
}

/// What the caller does next.
pub enum Action {
    /// Read the whole error body and report it with `Turn::on_error_body`.
    FetchErrorBody,
    /// Read the next chunk and report it with `Turn::on_chunk`.
    PullChunk,
    /// The turn is over.
    Finish(TurnResult),
}

/// The text to write out at once, then the next thing to do.
pub struct Step {
    pub output: String,
    pub action: Action,
}

/// The state of one turn, from the request to its end.
pub struct Turn {
    phase: Phase,
    buffer: LineBuffer,
    rendered: String,
    received: Ghost<Seq<u8>>,
}

impl Turn {
    pub closed spec fn spec_phase(&self) -> Phase {
        self.phase
    }

    /// Every byte of the stream read so far.
    pub closed spec fn received(&self) -> Seq<u8> {
        self.received@
    }

    pub closed spec fn wf(&self) -> bool {
        &&& self.buffer.wf()
        &&& self.buffer@ == unterminated_tail(self.received@)
        &&& self.rendered@ == lines_text(complete_lines(self.received@))
    }

    /// A turn whose request has just been sent.
    pub fn new() -> (r: Turn)
        ensures
            r.wf(),
            r.spec_phase() == Phase::Sent,
            r.received() == Seq::<u8>::empty(),
    {
        let r = Turn {
            phase: Phase::Sent,
            buffer: LineBuffer::new(),
            rendered: String::new(),
            received: Ghost(Seq::empty()),
        };
        proof {
            assert(lines_text(complete_lines(Seq::<u8>::empty())) =~= Seq::<char>::empty());
        }
        r
    }

    pub fn phase(&self) -> (r: Phase)
        ensures
            r == self.spec_phase(),
    {
        self.phase
    }

    /// Takes in how the request went: a failure to reach the endpoint ends the
    /// turn; a failure status asks for the error body; success starts the stream.
    pub fn on_response(&mut self, outcome: SendOutcome) -> (step: Step)
        requires
            old(self).wf(),
            old(self).spec_phase() == Phase::Sent,
        ensures
            final(self).wf(),
            final(self).received() == old(self).received(),
            step.output@ == Seq::<char>::empty(),
            match outcome {
                SendOutcome::Unreachable(d) => {
                    &&& final(self).spec_phase() == Phase::Failed
                    &&& step.action == Action::Finish(TurnResult::TransportError(d))
                },
                SendOutcome::Status(code) => if is_success_status(code) {
                    &&& final(self).spec_phase() == Phase::Streaming
                    &&& step.action is PullChunk
                } else {
                    &&& final(self).spec_phase() == Phase::AwaitingErrorBody(code)
                    &&& step.action is FetchErrorBody
                },
            },
    {
        match outcome {
            SendOutcome::Unreachable(d) => {
                self.phase = Phase::Failed;
                Step { output: String::new(), action: Action::Finish(TurnResult::TransportError(d)) }
            },
            SendOutcome::Status(code) => {
                if status_is_success(code) {
                    self.phase = Phase::Streaming;
                    Step { output: String::new(), action: Action::PullChunk }
                } else {
                    self.phase = Phase::AwaitingErrorBody(code);
                    Step { output: String::new(), action: Action::FetchErrorBody }
                }
            },
        }
    }

    /// Takes in the error body of a failure status, or `None` where it could
    /// not be read, and ends the turn with nothing written.
    pub fn on_error_body(&mut self, body: Option<String>) -> (step: Step)
        requires
            old(self).wf(),
            old(self).spec_phase() is AwaitingErrorBody,
        ensures
            final(self).wf(),
            final(self).received() == old(self).received(),
            final(self).spec_phase() == Phase::Failed,
            step.output@ == Seq::<char>::empty(),
            match step.action {
                Action::Finish(TurnResult::HttpError(code, text)) => {
                    &&& old(self).spec_phase() == Phase::AwaitingErrorBody(code)
                    &&& text@ == match body {
                        Some(b) => b@,
                        None => MISSING_ERROR_BODY@,
                    }
                },
                _ => false,
            },
    {
        let code = match self.phase {
            Phase::AwaitingErrorBody(c) => c,
            _ => 0,
        };
        self.phase = Phase::Failed;
        let text = match body {
            Some(b) => b,
            None => String::from_str(MISSING_ERROR_BODY),
        };
        Step { output: String::new(), action: Action::Finish(TurnResult::HttpError(code, text)) }
    }

    /// Takes in the next read of the stream. Data hands back, to be written at
    /// once, the text of every line that it completes; the end of the stream
    /// writes one newline and ends the turn; a failed read ends it at once.
    pub fn on_chunk(&mut self, event: ChunkEvent) -> (step: Step)
        requires
            old(self).wf(),
            old(self).spec_phase() == Phase::Streaming,
        ensures
            final(self).wf(),
            match event {
                ChunkEvent::Data(c) => {
                    &&& final(self).spec_phase() == Phase::Streaming
                    &&& final(self).received() == old(self).received() + c@
                    &&& step.output@ == lines_text(
                        complete_lines(unterminated_tail(old(self).received()) + c@),
                    )
                    &&& step.action is PullChunk
                },
                ChunkEvent::Failed(d) => {
                    &&& final(self).spec_phase() == Phase::Failed
                    &&& final(self).received() == old(self).received()
                    &&& step.output@ == Seq::<char>::empty()
                    &&& step.action == Action::Finish(TurnResult::TransportError(d))
                },
                ChunkEvent::End => {
                    &&& final(self).spec_phase() == Phase::Completed
                    &&& final(self).received() == old(self).received()
                    &&& step.output@ == seq!['\n']
                    &&& match step.action {
                        Action::Finish(TurnResult::Rendered(t)) => t@ == lines_text(
                            complete_lines(old(self).received()),
                        ),
                        _ => false,
                    }
                },
            },
    {
        match event {
            ChunkEvent::Data(c) => {
                let ghost before = self.received@;
                let lines = self.buffer.feed(c.as_slice());
                let mut out = String::new();
                let mut i: usize = 0;
                while i < lines.len()
                    invariant
                        0 <= i <= lines@.len(),
                        out@ == lines_text(lines_view(lines@).subrange(0, i as int)),
                    decreases lines@.len() - i,
                {
                    proof {
                        assert(lines_view(lines@).subrange(0, i + 1).drop_last()
                            =~= lines_view(lines@).subrange(0, i as int));
                    }
                    match decode(lines[i].as_slice()) {
                        Some(t) => out.append(t.as_str()),
                        None => {
                            proof {
                                assert(out@ + Seq::<char>::empty() =~= out@);
                            }
                        },
                    }
                    i = i + 1;
                }
                proof {
                    assert(lines_view(lines@).subrange(0, lines@.len() as int)
                        =~= lines_view(lines@));
                    lemma_split_append(before, c@);
                    lemma_lines_text_append(
                        complete_lines(before),
                        complete_lines(unterminated_tail(before) + c@),
                    );
                    self.received = Ghost(before + c@);
                }
                self.rendered.append(out.as_str());
                Step { output: out, action: Action::PullChunk }
            },
            ChunkEvent::Failed(d) => {
                self.phase = Phase::Failed;
                Step { output: String::new(), action: Action::Finish(TurnResult::TransportError(d)) }
            },
            ChunkEvent::End => {
                self.phase = Phase::Completed;
                let text = self.rendered.clone();
                let newline = String::from_str("\n");
                proof {
                    reveal_strlit("\n");
                }
                Step { output: newline, action: Action::Finish(TurnResult::Rendered(text)) }
            },
        }
    }
}

} // verus!
