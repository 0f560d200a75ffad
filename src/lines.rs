use vstd::prelude::*;
use crate::text::{decode_lossy, trim_text, trimmed, utf8_lossy};

verus! {

/// Line terminator of the stream framing.
pub const NEWLINE: u8 = 10;

/// Splitting state: the complete lines found so far, and the partial line after them.
pub type SplitState = (Seq<Seq<u8>>, Seq<u8>);

/// Splitting state after one more byte.
pub open spec fn split_step(st: SplitState, b: u8) -> SplitState {
    if b == NEWLINE {
        (st.0.push(st.1), seq![])
    } else {
        (st.0, st.1.push(b))
    }
}

/// Splitting state after the bytes `bs`, from `st`.
pub open spec fn split_from(st: SplitState, bs: Seq<u8>) -> SplitState
    decreases bs.len(),
{
    if bs.len() == 0 {
        st
    } else {
        split_step(split_from(st, bs.drop_last()), bs.last())
    }
}

/// The terminated lines of a byte sequence (terminators removed), and what follows the last terminator.
pub open spec fn split_lines(bs: Seq<u8>) -> SplitState {
    split_from((seq![], seq![]), bs)
}

/// The text of one raw line, as it is handed downstream.
pub open spec fn line_text(raw: Seq<u8>) -> Seq<char> {
    trimmed(utf8_lossy(raw))
}

/// The trimmed texts of raw lines, without the blank ones.
pub open spec fn text_lines(raws: Seq<Seq<u8>>) -> Seq<Seq<char>>
    decreases raws.len(),
{
    if raws.len() == 0 {
        seq![]
    } else if line_text(raws.last()).len() == 0 {
        text_lines(raws.drop_last())
    } else {
        text_lines(raws.drop_last()).push(line_text(raws.last()))
    }
}

/// The bytes of a sequence of chunks, in order.
pub open spec fn concat_chunks(chunks: Seq<Seq<u8>>) -> Seq<u8>
    decreases chunks.len(),
{
    if chunks.len() == 0 {
        seq![]
    } else {
        concat_chunks(chunks.drop_last()) + chunks.last()
    }
}

/// The lines that a whole stream of chunks yields.
pub open spec fn stream_lines(chunks: Seq<Seq<u8>>) -> Seq<Seq<char>> {
    text_lines(split_lines(concat_chunks(chunks)).0)
}

pub open spec fn strings_view(v: Seq<String>) -> Seq<Seq<char>> {
    v.map_values(|s: String| s@)
}

pub open spec fn chunks_view(v: Seq<Vec<u8>>) -> Seq<Seq<u8>> {
    v.map_values(|c: Vec<u8>| c@)
}

pub proof fn lemma_split_concat(st: SplitState, a: Seq<u8>, b: Seq<u8>)
    ensures
        split_from(st, a + b) == split_from(split_from(st, a), b),
    decreases b.len(),
{
    if b.len() == 0 {
        assert(a + b =~= a);
    } else {
        assert((a + b).drop_last() =~= a + b.drop_last());
        lemma_split_concat(st, a, b.drop_last());
    }
}

/// Lines already found are kept in front of those found later.
pub proof fn lemma_split_keeps_lines(lines: Seq<Seq<u8>>, partial: Seq<u8>, bs: Seq<u8>)
    ensures
        split_from((lines, partial), bs).0 == lines + split_from((seq![], partial), bs).0,
        split_from((lines, partial), bs).1 == split_from((seq![], partial), bs).1,
    decreases bs.len(),
{
    if bs.len() == 0 {
        assert(lines + seq![] =~= lines);
    } else {
        lemma_split_keeps_lines(lines, partial, bs.drop_last());
        let s = split_from((seq![], partial), bs.drop_last());
        assert(lines + s.0.push(s.1) =~= (lines + s.0).push(s.1));
    }
}

pub proof fn lemma_split_no_newline(st: SplitState, bs: Seq<u8>)
    requires
        !st.1.contains(NEWLINE),
    ensures
        !split_from(st, bs).1.contains(NEWLINE),
    decreases bs.len(),
{
    if bs.len() > 0 {
        lemma_split_no_newline(st, bs.drop_last());
        let s = split_from(st, bs.drop_last()).1;
        if bs.last() != NEWLINE {
            assert forall|k: int| 0 <= k < s.push(bs.last()).len() implies s.push(bs.last())[k]
                != NEWLINE by {
                if k < s.len() {
                    assert(s[k] != NEWLINE);
                }
            }
        }
    }
}

pub proof fn lemma_text_lines_concat(a: Seq<Seq<u8>>, b: Seq<Seq<u8>>)
    ensures
        text_lines(a + b) == text_lines(a) + text_lines(b),
    decreases b.len(),
{
    if b.len() == 0 {
        assert(a + b =~= a);
        assert(text_lines(a) + seq![] =~= text_lines(a));
    } else {
        assert((a + b).drop_last() =~= a + b.drop_last());
        lemma_text_lines_concat(a, b.drop_last());
        let t = line_text(b.last());
        if t.len() != 0 {
            assert((text_lines(a) + text_lines(b.drop_last())).push(t) =~= text_lines(a)
                + text_lines(b.drop_last()).push(t));
        }
    }
}

/// One more chunk adds the lines it completes after the partial line left
/// before it, and leaves the partial line that follows them.
pub proof fn lemma_stream_lines_step(cs: Seq<Seq<u8>>, i: int)
    requires
        0 <= i < cs.len(),
    ensures
        stream_lines(cs.take(i + 1)) == stream_lines(cs.take(i)) + text_lines(
            split_from((seq![], split_lines(concat_chunks(cs.take(i))).1), cs[i]).0,
        ),
        split_lines(concat_chunks(cs.take(i + 1))).1 == split_from(
            (seq![], split_lines(concat_chunks(cs.take(i))).1),
            cs[i],
        ).1,
{
    let before = concat_chunks(cs.take(i));
    assert(cs.take(i + 1).drop_last() =~= cs.take(i));
    assert(concat_chunks(cs.take(i + 1)) == before + cs[i]);
    lemma_split_concat((seq![], seq![]), before, cs[i]);
    let s0 = split_lines(before);
    lemma_split_keeps_lines(s0.0, s0.1, cs[i]);
    lemma_text_lines_concat(s0.0, split_from((seq![], s0.1), cs[i]).0);
}

/// The reassembly buffer: the partial line that has not been terminated yet.
pub struct LineBuffer {
    pending: Vec<u8>,
}

impl LineBuffer {
    pub closed spec fn pending(&self) -> Seq<u8> {
        self.pending@
    }

    /// The partial line never holds a terminator.
    pub open spec fn wf(&self) -> bool {
        !self.pending().contains(NEWLINE)
    }

    pub fn new() -> (r: LineBuffer)
        ensures
            r.wf(),
            r.pending() == Seq::<u8>::empty(),
    {
        LineBuffer { pending: Vec::new() }
    }

    /// Takes one chunk and returns, in order, the non-blank trimmed lines that it completes.
    pub fn push_chunk(&mut self, chunk: &[u8]) -> (lines: Vec<String>)
        requires
            old(self).wf(),
        ensures
            final(self).wf(),
            final(self).pending() == split_from((seq![], old(self).pending()), chunk@).1,
            strings_view(lines@) == text_lines(split_from((seq![], old(self).pending()), chunk@).0),
    {
        let ghost start: SplitState = (seq![], self.pending@);
        let mut lines: Vec<String> = Vec::new();
        let ghost mut found: Seq<Seq<u8>> = seq![];
        let mut i: usize = 0;
        while i < chunk.len()
            invariant
                0 <= i <= chunk@.len(),
                split_from(start, chunk@.take(i as int)) == (found, self.pending@),
                strings_view(lines@) == text_lines(found),
            decreases chunk@.len() - i,
        {
            let b = chunk[i];
            proof {
                assert(chunk@.take(i as int + 1).drop_last() =~= chunk@.take(i as int));
            }
            if b == NEWLINE {
                let text = trim_text(decode_lossy(self.pending.as_slice()).as_str());
                let ghost raw = self.pending@;
                proof {
                    assert(found.push(raw).drop_last() =~= found);
                }
                if !text.as_str().is_empty() {
                    lines.push(text);
                    proof {
                        assert(strings_view(lines@) =~= strings_view(lines@.drop_last()).push(
                            text@,
                        ));
                    }
                }
                proof {
                    found = found.push(raw);
                }
                self.pending = Vec::new();
            } else {
                self.pending.push(b);
            }
            i = i + 1;
        }
        proof {
            assert(chunk@.take(chunk@.len() as int) =~= chunk@);
            lemma_split_no_newline(start, chunk@);
        }
        lines
    }
}

/// Feeds the chunks of one stream, in order, through a fresh buffer, and returns
/// every line they complete; a partial line left at the end is dropped.
pub fn reassemble(chunks: &Vec<Vec<u8>>) -> (lines: Vec<String>)
    ensures
        strings_view(lines@) == stream_lines(chunks_view(chunks@)),
{
    let mut buf = LineBuffer::new();
    let mut lines: Vec<String> = Vec::new();
    let mut i: usize = 0;
    while i < chunks.len()
        invariant
            0 <= i <= chunks@.len(),
            buf.wf(),
            split_lines(concat_chunks(chunks_view(chunks@).take(i as int))).1 == buf.pending(),
            strings_view(lines@) == text_lines(
                split_lines(concat_chunks(chunks_view(chunks@).take(i as int))).0,
            ),
        decreases chunks@.len() - i,
    {
        let mut more = buf.push_chunk(chunks[i].as_slice());
        proof {
            lemma_stream_lines_step(chunks_view(chunks@), i as int);
        }
        let ghost old_lines = lines@;
        let ghost more_lines = more@;
        lines.append(&mut more);
        proof {
            assert(strings_view(lines@) =~= strings_view(old_lines) + strings_view(more_lines));
        }
        i = i + 1;
    }
    proof {
        assert(chunks_view(chunks@).take(chunks@.len() as int) =~= chunks_view(chunks@));
    }
    lines
}

/// However a byte stream is cut into chunks, one byte at a time or all at once,
/// reassembly yields the same lines in the same order.
pub proof fn lemma_reassembly_ignores_chunking(a: Seq<Seq<u8>>, b: Seq<Seq<u8>>)
    requires
        concat_chunks(a) == concat_chunks(b),
    ensures
        stream_lines(a) == stream_lines(b),
{
}

} // verus!
