//! Splits a byte stream, delivered in chunks of any size, into complete lines.
use vstd::prelude::*;

verus! {

/// The line delimiter of the response stream.
pub const NEWLINE: u8 = 10;

/// Scans `s` from the left: the complete lines found, and the unterminated tail.
pub open spec fn split_lines(s: Seq<u8>) -> (Seq<Seq<u8>>, Seq<u8>)
    decreases s.len(),
{
    if s.len() == 0 {
        (seq![], seq![])
    } else {
        let prev = split_lines(s.drop_last());
        if s.last() == NEWLINE {
            (prev.0.push(prev.1), seq![])
        } else {
            (prev.0, prev.1.push(s.last()))
        }
    }
}

/// The complete lines of `s`, without their delimiters.
pub open spec fn complete_lines(s: Seq<u8>) -> Seq<Seq<u8>> {
    split_lines(s).0
}

/// What follows the last delimiter of `s`.
pub open spec fn unterminated_tail(s: Seq<u8>) -> Seq<u8> {
    split_lines(s).1
}

pub open spec fn has_no_newline(s: Seq<u8>) -> bool {
    forall|i: int| 0 <= i < s.len() ==> s[i] != NEWLINE
}

pub open spec fn lines_view(lines: Seq<Vec<u8>>) -> Seq<Seq<u8>> {
    lines.map_values(|l: Vec<u8>| l@)
}

/// Holds the unterminated tail of the bytes received so far in one turn.
pub struct LineBuffer {
    pending: Vec<u8>,
}

impl View for LineBuffer {
    type V = Seq<u8>;

    closed spec fn view(&self) -> Seq<u8> {
        self.pending@
    }
}

/// The tail never holds a delimiter: every delimiter has ended a line.
pub proof fn lemma_tail_has_no_newline(s: Seq<u8>)
    ensures
        has_no_newline(unterminated_tail(s)),
    decreases s.len(),
{
    if s.len() > 0 {
        lemma_tail_has_no_newline(s.drop_last());
    }
}

/// Scanning a text that holds no delimiter finds no line.
pub proof fn lemma_split_without_newline(s: Seq<u8>)
    requires
        has_no_newline(s),
    ensures
        split_lines(s) == (Seq::<Seq<u8>>::empty(), s),
    decreases s.len(),
{
    if s.len() > 0 {
        assert(has_no_newline(s.drop_last()));
        lemma_split_without_newline(s.drop_last());
        assert(s.drop_last().push(s.last()) =~= s);
    }
}

/// Scanning `a + b` is scanning `a`, then scanning the tail of `a` followed by `b`.
pub proof fn lemma_split_append(a: Seq<u8>, b: Seq<u8>)
    ensures
        complete_lines(a + b) == complete_lines(a) + complete_lines(unterminated_tail(a) + b),
        unterminated_tail(a + b) == unterminated_tail(unterminated_tail(a) + b),
    decreases b.len(),
{
    let t = unterminated_tail(a);
    if b.len() == 0 {
        assert(a + b =~= a);
        assert(t + b =~= t);
        lemma_tail_has_no_newline(a);
        lemma_split_without_newline(t);
        assert(complete_lines(a) + Seq::<Seq<u8>>::empty() =~= complete_lines(a));
    } else {
        lemma_split_append(a, b.drop_last());
        assert((a + b).drop_last() =~= a + b.drop_last());
        assert((t + b).drop_last() =~= t + b.drop_last());
        assert((a + b).last() == b.last());
        assert((t + b).last() == b.last());
        let p = split_lines(t + b.drop_last());
        if b.last() == NEWLINE {
            assert((complete_lines(a) + p.0).push(p.1) =~= complete_lines(a) + p.0.push(p.1));
        }
    }
}

/// What successive calls of `LineBuffer::feed` hand out, one call per chunk,
/// starting from a buffer that holds `tail`; and what the buffer holds after them.
pub open spec fn feed_chunks(tail: Seq<u8>, chunks: Seq<Seq<u8>>) -> (Seq<Seq<u8>>, Seq<u8>)
    decreases chunks.len(),
{
    if chunks.len() == 0 {
        (seq![], tail)
    } else {
        let first = tail + chunks[0];
        let rest = feed_chunks(unterminated_tail(first), chunks.drop_first());
        (complete_lines(first) + rest.0, rest.1)
    }
}

proof fn lemma_feed_chunks_from(tail: Seq<u8>, chunks: Seq<Seq<u8>>)
    requires
        has_no_newline(tail),
    ensures
        feed_chunks(tail, chunks) == split_lines(tail + chunks.flatten()),
    decreases chunks.len(),
{
    if chunks.len() == 0 {
        assert(tail + chunks.flatten() =~= tail);
        lemma_split_without_newline(tail);
    } else {
        let first = tail + chunks[0];
        lemma_tail_has_no_newline(first);
        lemma_feed_chunks_from(unterminated_tail(first), chunks.drop_first());
        assert(tail + chunks.flatten() =~= first + chunks.drop_first().flatten());
        lemma_split_append(first, chunks.drop_first().flatten());
    }
}

/// Splitting a byte stream into chunks anywhere, mid-line or inside a multi-byte
/// character, changes nothing: feeding the chunks one at a time into an empty
/// buffer yields the same lines, in the same order, and leaves the same
/// unterminated tail, as feeding the whole stream at once.
pub proof fn lemma_chunking_is_invisible(chunks: Seq<Seq<u8>>)
    ensures
        feed_chunks(seq![], chunks).0 == complete_lines(chunks.flatten()),
        feed_chunks(seq![], chunks).1 == unterminated_tail(chunks.flatten()),
        feed_chunks(seq![], chunks) == feed_chunks(seq![], seq![chunks.flatten()]),
{
    lemma_feed_chunks_from(seq![], chunks);
    assert(Seq::<u8>::empty() + chunks.flatten() =~= chunks.flatten());
    let whole = seq![chunks.flatten()];
    assert(whole.drop_first() =~= Seq::<Seq<u8>>::empty());
    let t = unterminated_tail(chunks.flatten());
    assert(feed_chunks(t, Seq::<Seq<u8>>::empty()) == (Seq::<Seq<u8>>::empty(), t));
    assert(complete_lines(chunks.flatten()) + Seq::<Seq<u8>>::empty()
        =~= complete_lines(chunks.flatten()));
}

impl LineBuffer {
    pub open spec fn wf(&self) -> bool {
        has_no_newline(self@)
    }

    /// An empty buffer, as at the start of a turn.
    pub fn new() -> (r: LineBuffer)
        ensures
            r@ == Seq::<u8>::empty(),
            r.wf(),
    {
        LineBuffer { pending: Vec::new() }
    }

    /// Whether no partial line is held.
    pub fn is_empty(&self) -> (r: bool)
        ensures
            r == (self@.len() == 0),
    {
        self.pending.len() == 0
    }

    /// Appends `chunk` and hands out every line that it completes, in order;
    /// what follows the last delimiter stays for the next call.
    pub fn feed(&mut self, chunk: &[u8]) -> (lines: Vec<Vec<u8>>)
        requires
            old(self).wf(),
        ensures
            final(self).wf(),
            lines_view(lines@) == complete_lines(old(self)@ + chunk@),
            final(self)@ == unterminated_tail(old(self)@ + chunk@),
    {
        let ghost start = self@;
        proof {
            lemma_split_without_newline(start);
            assert(start + chunk@.subrange(0, 0) =~= start);
        }
        let mut lines: Vec<Vec<u8>> = Vec::new();
        let mut i: usize = 0;
        while i < chunk.len()
            invariant
                0 <= i <= chunk@.len(),
                lines_view(lines@) == complete_lines(start + chunk@.subrange(0, i as int)),
                self@ == unterminated_tail(start + chunk@.subrange(0, i as int)),
            decreases chunk@.len() - i,
        {
            let b = chunk[i];
            let ghost before = start + chunk@.subrange(0, i as int);
            proof {
                assert((start + chunk@.subrange(0, i + 1)).drop_last() =~= before);
            }
            if b == NEWLINE {
                let mut line: Vec<u8> = Vec::new();
                std::mem::swap(&mut line, &mut self.pending);
                proof {
                    assert(lines_view(lines@.push(line)) =~= lines_view(lines@).push(line@));
                }
                lines.push(line);
            } else {
                self.pending.push(b);
            }
            i = i + 1;
        }
        proof {
            assert(chunk@.subrange(0, chunk@.len() as int) =~= chunk@);
            lemma_tail_has_no_newline(start + chunk@);
        }
        lines
    }
}

} // verus!
