//! Assembling complete lines from the chunks of a non-blocking stream.
//!
//! A line is complete once its line feed has arrived. What follows the last
//! line feed is a fragment: it stays in the [`OutputBuffer`] until a later
//! chunk completes it. Lines are split on bytes, before any decoding, so a
//! multi-byte character cut in two by a read is whole again when its line is.
use vstd::prelude::*;

verus! {

/// The byte that ends a line.
pub const LINE_FEED: u8 = 10;

/// Whether no line ends inside `bytes`.
pub open spec fn unbroken(bytes: Seq<u8>) -> bool {
    forall|i: int| 0 <= i < bytes.len() ==> bytes[i] != LINE_FEED
}

/// What follows the last line feed of `bytes`: the beginning of a line that
/// is not complete yet. All of `bytes` when they hold no line feed.
pub open spec fn pending_fragment(bytes: Seq<u8>) -> Seq<u8>
    decreases bytes.len(),
{
    if bytes.len() == 0 {
        Seq::empty()
    } else if bytes.last() == LINE_FEED {
        Seq::empty()
    } else {
        pending_fragment(bytes.drop_last()).push(bytes.last())
    }
}

/// The complete lines of `bytes`, in order and without their line feeds.
pub open spec fn complete_lines(bytes: Seq<u8>) -> Seq<Seq<u8>>
    decreases bytes.len(),
{
    if bytes.len() == 0 {
        Seq::empty()
    } else if bytes.last() == LINE_FEED {
        complete_lines(bytes.drop_last()).push(pending_fragment(bytes.drop_last()))
    } else {
        complete_lines(bytes.drop_last())
    }
}

/// The lines written out again, each followed by its line feed.
pub open spec fn terminated(lines: Seq<Seq<u8>>) -> Seq<u8>
    decreases lines.len(),
{
    if lines.len() == 0 {
        Seq::empty()
    } else {
        terminated(lines.drop_last()) + lines.last().push(LINE_FEED)
    }
}

/// The chunks one after the other, as the stream delivered them.
pub open spec fn joined(chunks: Seq<Seq<u8>>) -> Seq<u8>
    decreases chunks.len(),
{
    if chunks.len() == 0 {
        Seq::empty()
    } else {
        joined(chunks.drop_last()) + chunks.last()
    }
}

/// The contents of each line of a vector of lines.
pub open spec fn lines_view(lines: Seq<Vec<u8>>) -> Seq<Seq<u8>> {
    lines.map_values(|line: Vec<u8>| line@)
}

/// Bytes without a line feed hold no complete line and are their own fragment.
pub proof fn lemma_unbroken_is_pending(bytes: Seq<u8>)
    requires
        unbroken(bytes),
    ensures
        complete_lines(bytes) == Seq::<Seq<u8>>::empty(),
        pending_fragment(bytes) == bytes,
    decreases bytes.len(),
{
    if bytes.len() > 0 {
        lemma_unbroken_is_pending(bytes.drop_last());
        assert(bytes.drop_last().push(bytes.last()) =~= bytes);
    }
}

/// Every byte is accounted for, once: the complete lines, each with its
/// line feed, followed by the pending fragment are the bytes that came in.
/// No line feed is left inside a line or inside the fragment.
pub proof fn lemma_lines_rebuild_input(bytes: Seq<u8>)
    ensures
        terminated(complete_lines(bytes)) + pending_fragment(bytes) == bytes,
        unbroken(pending_fragment(bytes)),
        forall|i: int| 0 <= i < complete_lines(bytes).len() ==> unbroken(#[trigger] complete_lines(bytes)[i]),
    decreases bytes.len(),
{
    if bytes.len() == 0 {
        assert(terminated(complete_lines(bytes)) + pending_fragment(bytes) =~= bytes);
    } else {
        let front = bytes.drop_last();
        lemma_lines_rebuild_input(front);
        if bytes.last() == LINE_FEED {
            let lines = complete_lines(bytes);
            assert(lines.drop_last() =~= complete_lines(front));
            assert(lines.last() == pending_fragment(front));
            assert(terminated(lines) + pending_fragment(bytes) =~= (terminated(
                complete_lines(front),
            ) + pending_fragment(front)).push(LINE_FEED));
            assert(front.push(LINE_FEED) =~= bytes);
        } else {
            assert(terminated(complete_lines(bytes)) + pending_fragment(bytes) =~= (terminated(
                complete_lines(front),
            ) + pending_fragment(front)).push(bytes.last()));
            assert(front.push(bytes.last()) =~= bytes);
        }
    }
}

/// There is no other way to cut the bytes: lines without a line feed inside
/// which, written out with their line feeds and followed by a fragment
/// without one, give `bytes`, are the complete lines of `bytes`, and that
/// fragment is the pending one.
pub proof fn lemma_split_is_unique(bytes: Seq<u8>, lines: Seq<Seq<u8>>, fragment: Seq<u8>)
    requires
        terminated(lines) + fragment == bytes,
        unbroken(fragment),
        forall|i: int| 0 <= i < lines.len() ==> unbroken(#[trigger] lines[i]),
    ensures
        lines == complete_lines(bytes),
        fragment == pending_fragment(bytes),
    decreases bytes.len(),
{
    if fragment.len() > 0 {
        // the last byte belongs to the fragment
        let front = bytes.drop_last();
        assert(bytes.last() == fragment.last());
        assert(terminated(lines) + fragment.drop_last() =~= front);
        lemma_split_is_unique(front, lines, fragment.drop_last());
        assert(fragment.drop_last().push(fragment.last()) =~= fragment);
    } else if lines.len() > 0 {
        // the last byte is the line feed of the last line
        let front = bytes.drop_last();
        assert(terminated(lines) + fragment =~= terminated(lines));
        assert(bytes.last() == LINE_FEED);
        assert(terminated(lines.drop_last()) + lines.last() =~= front);
        assert forall|i: int| 0 <= i < lines.drop_last().len() implies unbroken(
            #[trigger] lines.drop_last()[i],
        ) by {
            assert(lines.drop_last()[i] == lines[i]);
        }
        lemma_split_is_unique(front, lines.drop_last(), lines.last());
        assert(lines.drop_last().push(lines.last()) =~= lines);
    } else {
        assert(bytes =~= Seq::<u8>::empty());
        assert(lines =~= Seq::<Seq<u8>>::empty());
        assert(fragment =~= Seq::<u8>::empty());
    }
}

/// How the stream was cut into reads does not show: after `earlier`, only
/// its pending fragment matters for what `later` completes, and the lines
/// of both reads are the lines of the bytes read in one piece.
pub proof fn lemma_chunking_is_invisible(earlier: Seq<u8>, later: Seq<u8>)
    ensures
        complete_lines(earlier + later) == complete_lines(earlier) + complete_lines(
            pending_fragment(earlier) + later,
        ),
        pending_fragment(earlier + later) == pending_fragment(pending_fragment(earlier) + later),
    decreases later.len(),
{
    let kept = pending_fragment(earlier);
    if later.len() == 0 {
        assert(earlier + later =~= earlier);
        assert(kept + later =~= kept);
        lemma_lines_rebuild_input(earlier);
        lemma_unbroken_is_pending(kept);
        assert(complete_lines(earlier) + Seq::<Seq<u8>>::empty() =~= complete_lines(earlier));
    } else {
        let front = later.drop_last();
        lemma_chunking_is_invisible(earlier, front);
        assert((earlier + later).drop_last() =~= earlier + front);
        assert((kept + later).drop_last() =~= kept + front);
        assert((earlier + later).last() == later.last());
        assert((kept + later).last() == later.last());
        if later.last() == LINE_FEED {
            assert(complete_lines(earlier + later) =~= complete_lines(earlier) + complete_lines(
                kept + later,
            ));
        }
    }
}

/// What a buffer holding `start` has handed out, and what it holds, after
/// being fed the chunks in order.
pub open spec fn fed(start: Seq<u8>, chunks: Seq<Seq<u8>>) -> (Seq<Seq<u8>>, Seq<u8>)
    decreases chunks.len(),
{
    if chunks.len() == 0 {
        (Seq::empty(), start)
    } else {
        let (lines, held) = fed(start, chunks.drop_last());
        (lines + complete_lines(held + chunks.last()), pending_fragment(held + chunks.last()))
    }
}

/// Feeding a buffer chunk by chunk hands out, over all the feeds and in
/// order, the complete lines of everything that came in, whatever the
/// chunks' boundaries are, and leaves the pending fragment of it.
pub proof fn lemma_fed_in_chunks(start: Seq<u8>, chunks: Seq<Seq<u8>>)
    requires
        unbroken(start),
    ensures
        fed(start, chunks).0 == complete_lines(start + joined(chunks)),
        fed(start, chunks).1 == pending_fragment(start + joined(chunks)),
    decreases chunks.len(),
{
    if chunks.len() == 0 {
        assert(start + joined(chunks) =~= start);
        lemma_unbroken_is_pending(start);
    } else {
        let before = chunks.drop_last();
        lemma_fed_in_chunks(start, before);
        lemma_chunking_is_invisible(start + joined(before), chunks.last());
        assert(start + joined(chunks) =~= (start + joined(before)) + chunks.last());
    }
}

/// The chunks before any point of the stream are a beginning of the whole
/// stream: the returned bytes are what the later chunks add.
pub proof fn lemma_joined_begins_with(chunks: Seq<Seq<u8>>, count: int) -> (rest: Seq<u8>)
    requires
        0 <= count <= chunks.len(),
    ensures
        joined(chunks) == joined(chunks.take(count)) + rest,
    decreases chunks.len(),
{
    if count == chunks.len() {
        assert(chunks.take(count) =~= chunks);
        assert(joined(chunks) =~= joined(chunks) + Seq::<u8>::empty());
        Seq::empty()
    } else {
        let before = chunks.drop_last();
        let rest = lemma_joined_begins_with(before, count);
        assert(before.take(count) =~= chunks.take(count));
        assert(joined(chunks) =~= joined(chunks.take(count)) + (rest + chunks.last()));
        rest + chunks.last()
    }
}

/// A line that arrives in several chunks is handed out once, and whole:
/// at every point of the stream the buffer has handed out either nothing
/// or exactly that line, never a part of it, and at the end it has handed
/// out the line and holds nothing.
pub proof fn lemma_line_in_chunks_comes_out_once(line: Seq<u8>, chunks: Seq<Seq<u8>>)
    requires
        unbroken(line),
        joined(chunks) == line.push(LINE_FEED),
    ensures
        fed(Seq::empty(), chunks) == (seq![line], Seq::<u8>::empty()),
        forall|count: int|
            0 <= count <= chunks.len() ==> {
                let handed = #[trigger] fed(Seq::empty(), chunks.take(count)).0;
                handed == Seq::<Seq<u8>>::empty() || handed == seq![line]
            },
{
    let all = line.push(LINE_FEED);
    assert(all.drop_last() =~= line);
    lemma_unbroken_is_pending(line);
    assert(complete_lines(all) =~= seq![line]);
    lemma_fed_in_chunks(Seq::empty(), chunks);
    assert(Seq::<u8>::empty() + joined(chunks) =~= all);
    assert forall|count: int| 0 <= count <= chunks.len() implies {
        let handed = #[trigger] fed(Seq::empty(), chunks.take(count)).0;
        handed == Seq::<Seq<u8>>::empty() || handed == seq![line]
    } by {
        let seen = joined(chunks.take(count));
        let rest = lemma_joined_begins_with(chunks, count);
        lemma_fed_in_chunks(Seq::empty(), chunks.take(count));
        assert(Seq::<u8>::empty() + seen =~= seen);
        if rest.len() == 0 {
            assert(seen =~= all);
        } else {
            assert forall|i: int| 0 <= i < seen.len() implies seen[i] != LINE_FEED by {
                assert(seen[i] == all[i]);
                assert(all[i] == line[i]);
            }
            lemma_unbroken_is_pending(seen);
        }
    }
}

/// The output of a child process that has been read but does not form a
/// complete line yet.
pub struct OutputBuffer {
    fragment: Vec<u8>,
}

impl View for OutputBuffer {
    type V = Seq<u8>;

    closed spec fn view(&self) -> Seq<u8> {
        self.fragment@
    }
}

impl OutputBuffer {
    #[verifier::type_invariant]
    spec fn holds_no_line_end(self) -> bool {
        unbroken(self.fragment@)
    }

    /// An empty buffer.
    pub fn new() -> (buffer: OutputBuffer)
        ensures
            buffer@ == Seq::<u8>::empty(),
    {
        OutputBuffer { fragment: Vec::new() }
    }

    /// The pending fragment. It never holds a line feed: a line leaves the
    /// buffer as soon as it ends.
    pub fn pending(&self) -> (bytes: &Vec<u8>)
        ensures
            bytes@ == self@,
            unbroken(self@),
    {
        proof {
            use_type_invariant(self);
        }
        &self.fragment
    }

    /// Drops the pending fragment.
    pub fn clear(&mut self)
        ensures
            final(self)@ == Seq::<u8>::empty(),
    {
        self.fragment = Vec::new();
    }

    /// Takes in one chunk of output and hands out the lines that it
    /// completes, in order and without their line feeds: the first of them
    /// begins with the fragment that was pending. What follows the chunk's
    /// last line feed is the new pending fragment.
    pub fn take_lines(&mut self, chunk: &[u8]) -> (lines: Vec<Vec<u8>>)
        ensures
            lines_view(lines@) == complete_lines(old(self)@ + chunk@),
            final(self)@ == pending_fragment(old(self)@ + chunk@),
    {
        proof {
            use_type_invariant(&*self);
            lemma_unbroken_is_pending(self@);
            assert(self@ + chunk@.take(0) =~= self@);
        }
        let ghost before = self@;
        let mut current: Vec<u8> = Vec::new();
        std::mem::swap(&mut current, &mut self.fragment);
        let mut lines: Vec<Vec<u8>> = Vec::new();
        assert(lines_view(lines@) =~= Seq::<Seq<u8>>::empty());
        let mut i: usize = 0;
        while i < chunk.len()
            invariant
                i <= chunk.len(),
                lines_view(lines@) == complete_lines(before + chunk@.take(i as int)),
                current@ == pending_fragment(before + chunk@.take(i as int)),
            decreases chunk.len() - i,
        {
            let byte: u8 = chunk[i];
            proof {
                let seen = before + chunk@.take(i as int);
                let now = before + chunk@.take(i + 1);
                assert(now.drop_last() =~= seen);
                assert(now.last() == byte);
            }
            if byte == LINE_FEED {
                let ghost handed = lines@;
                let mut line: Vec<u8> = Vec::new();
                std::mem::swap(&mut line, &mut current);
                lines.push(line);
                assert(lines_view(lines@) =~= lines_view(handed).push(line@));
            } else {
                current.push(byte);
            }
            i += 1;
        }
        proof {
            assert(chunk@.take(i as int) =~= chunk@);
            lemma_lines_rebuild_input(before + chunk@);
        }
        self.fragment = current;
        lines
    }
}

} // verus!
