//! The line source: bytes in, lines of text out.
//!
//! The source does not read. Its owner feeds it the bytes that arrive and
//! closes it when the stream ends or fails; the source hands out the lines,
//! one for each newline, and after the close the rest, if there is any. A
//! line ends at a newline; the newline, and a carriage return just before
//! it, are not part of the line. A line that is not UTF-8 counts as a failed
//! read: it ends the sequence. A source that has ended yields nothing more.

use crate::transport::texts;
use vstd::prelude::*;
use vstd::utf8::{decode_utf8, valid_utf8};

verus! {

/// The byte that ends a line.
pub const NEWLINE: u8 = 10;

/// The byte that is dropped where it stands just before a newline.
pub const CARRIAGE_RETURN: u8 = 13;

/// The index of the first newline at or after `start`, or the length of the
/// bytes where there is none.
pub open spec fn newline_from(bytes: Seq<u8>, start: int) -> int
    decreases bytes.len() - start,
{
    if start < 0 || start >= bytes.len() {
        bytes.len() as int
    } else if bytes[start] == NEWLINE {
        start
    } else {
        newline_from(bytes, start + 1)
    }
}

/// The index of the first newline, or the length of the bytes where there is
/// none.
pub open spec fn newline_index(bytes: Seq<u8>) -> int {
    newline_from(bytes, 0)
}

/// A line without the carriage return at its end, if it has one.
pub open spec fn without_return(line: Seq<u8>) -> Seq<u8> {
    if line.len() > 0 && line.last() == CARRIAGE_RETURN {
        line.drop_last()
    } else {
        line
    }
}

/// The bytes of the first line that a newline ends.
pub open spec fn first_line(bytes: Seq<u8>) -> Seq<u8> {
    without_return(bytes.take(newline_index(bytes)))
}

/// The lines of text in the bytes of a stream that has ended.
pub open spec fn text_lines(bytes: Seq<u8>) -> Seq<Seq<char>>
    decreases bytes.len(),
{
    let k = newline_index(bytes);
    if 0 <= k < bytes.len() {
        if valid_utf8(first_line(bytes)) {
            seq![decode_utf8(first_line(bytes))] + text_lines(bytes.skip(k + 1))
        } else {
            Seq::empty()
        }
    } else if bytes.len() > 0 && valid_utf8(bytes) {
        seq![decode_utf8(bytes)]
    } else {
        Seq::empty()
    }
}

/// What a line source gives when asked for its next line.
#[derive(Debug, Clone, PartialEq, Eq)]
pub enum Next {
    /// The next line.
    Line(String),
    /// No whole line yet; more bytes may come.
    Pending,
    /// The sequence has ended.
    End,
}

/// A `Next` with its line as text.
pub enum NextView {
    Line(Seq<char>),
    Pending,
    End,
}

impl View for Next {
    type V = NextView;

    open spec fn view(&self) -> NextView {
        match self {
            Next::Line(text) => NextView::Line(text@),
            Next::Pending => NextView::Pending,
            Next::End => NextView::End,
        }
    }
}

/// What a source with these bytes waiting gives next.
pub open spec fn next_of(waiting: Seq<u8>, closed: bool) -> NextView {
    let k = newline_index(waiting);
    if 0 <= k < waiting.len() {
        if valid_utf8(first_line(waiting)) {
            NextView::Line(decode_utf8(first_line(waiting)))
        } else {
            NextView::End
        }
    } else if !closed {
        NextView::Pending
    } else if waiting.len() > 0 && valid_utf8(waiting) {
        NextView::Line(decode_utf8(waiting))
    } else {
        NextView::End
    }
}

/// The bytes that wait in a source after it has given its next.
pub open spec fn waiting_after(waiting: Seq<u8>, closed: bool) -> Seq<u8> {
    let k = newline_index(waiting);
    if 0 <= k < waiting.len() {
        if valid_utf8(first_line(waiting)) {
            waiting.skip(k + 1)
        } else {
            Seq::empty()
        }
    } else if !closed {
        waiting
    } else {
        Seq::empty()
    }
}

/// Whether a source is closed after it has given its next: it stays closed,
/// and a line that is not UTF-8 closes it.
pub open spec fn closed_after(waiting: Seq<u8>, closed: bool) -> bool {
    closed || (0 <= newline_index(waiting) < waiting.len() && !valid_utf8(first_line(waiting)))
}

/// The bytes that a read has brought: the first `n` bytes of the buffer where
/// the read reports `n` of them, and none where it failed, brought nothing,
/// or reports more than the buffer holds. A read that brought none is the
/// end of the stream.
pub open spec fn bytes_read(buffer: Seq<u8>, read: Option<usize>) -> Option<Seq<u8>> {
    match read {
        Some(n) => if 0 < n <= buffer.len() {
            Some(buffer.take(n as int))
        } else {
            None
        },
        None => None,
    }
}

/// Calls `String::from_utf8`: the text that the bytes encode, if they are
/// UTF-8.
#[verifier::external_body]
fn text_of(bytes: Vec<u8>) -> (r: Option<String>)
    ensures
        r is Some <==> valid_utf8(bytes@),
        r matches Some(text) ==> text@ == decode_utf8(bytes@),
{
    String::from_utf8(bytes).ok()
}

/// A line source.
#[derive(Debug)]
pub struct LineSource {
    buffer: Vec<u8>,
    closed: bool,
}

impl LineSource {
    /// The bytes fed and not yet handed out.
    pub closed spec fn waiting(&self) -> Seq<u8> {
        self.buffer@
    }

    /// Whether the stream behind the source has ended.
    pub closed spec fn is_closed(&self) -> bool {
        self.closed
    }

    /// An open source with nothing waiting.
    pub fn new() -> (source: LineSource)
        ensures
            source.waiting().len() == 0,
            !source.is_closed(),
    {
        LineSource { buffer: Vec::new(), closed: false }
    }

    /// Whether the stream behind the source has ended.
    pub fn closed(&self) -> (closed: bool)
        ensures
            closed == self.is_closed(),
    {
        self.closed
    }

    /// Takes bytes that have arrived. A closed source takes none.
    pub fn feed(&mut self, chunk: &[u8])
        ensures
            final(self).is_closed() == old(self).is_closed(),
            final(self).waiting() == if old(self).is_closed() {
                old(self).waiting()
            } else {
                old(self).waiting() + chunk@
            },
    {
        if !self.closed {
            let mut i: usize = 0;
            while i < chunk.len()
                invariant
                    i <= chunk.len(),
                    self.closed == old(self).closed,
                    self.buffer@ == old(self).buffer@ + chunk@.take(i as int),
                decreases chunk.len() - i,
            {
                self.buffer.push(chunk[i]);
                proof {
                    assert(chunk@.take(i + 1) == chunk@.take(i as int).push(chunk@[i as int]));
                }
                i += 1;
            }
            proof {
                assert(chunk@.take(chunk.len() as int) == chunk@);
            }
        }
    }

    /// Takes the outcome of one read into a buffer: the bytes that it
    /// brought, or, where it brought none, the end of the stream. `read` is
    /// the number of bytes that the read reports, `None` for a read that
    /// failed.
    pub fn feed_read(&mut self, buffer: &[u8], read: Option<usize>)
        ensures
            match bytes_read(buffer@, read) {
                Some(bytes) => {
                    &&& final(self).is_closed() == old(self).is_closed()
                    &&& final(self).waiting() == if old(self).is_closed() {
                        old(self).waiting()
                    } else {
                        old(self).waiting() + bytes
                    }
                },
                None => final(self).is_closed() && final(self).waiting() == old(self).waiting(),
            },
    {
        match read {
            Some(n) => {
                if 0 < n && n <= buffer.len() {
                    let ghost bytes = buffer@.take(n as int);
                    let mut i: usize = 0;
                    if !self.closed {
                        while i < n
                            invariant
                                i <= n <= buffer.len(),
                                bytes == buffer@.take(n as int),
                                self.closed == old(self).closed,
                                self.buffer@ == old(self).buffer@ + bytes.take(i as int),
                            decreases n - i,
                        {
                            self.buffer.push(buffer[i]);
                            proof {
                                assert(bytes.take(i + 1) == bytes.take(i as int).push(
                                    buffer@[i as int],
                                ));
                            }
                            i += 1;
                        }
                        proof {
                            assert(bytes.take(n as int) == bytes);
                        }
                    }
                } else {
                    self.closed = true;
                }
            },
            None => {
                self.closed = true;
            },
        }
    }

    /// Marks the end of the stream, or its failure. What waits is kept.
    pub fn close(&mut self)
        ensures
            final(self).is_closed(),
            final(self).waiting() == old(self).waiting(),
    {
        self.closed = true;
    }

    /// Gives the next line if a whole one waits; after the close also the
    /// rest, as the last line.
    pub fn next_line(&mut self) -> (next: Next)
        ensures
            next@ == next_of(old(self).waiting(), old(self).is_closed()),
            final(self).waiting() == waiting_after(old(self).waiting(), old(self).is_closed()),
            final(self).is_closed() == closed_after(old(self).waiting(), old(self).is_closed()),
    {
        let n: usize = self.buffer.len();
        let mut k: usize = 0;
        while k < n && self.buffer[k] != NEWLINE
            invariant
                n == self.buffer.len(),
                k <= n,
                newline_index(self.buffer@) == newline_from(self.buffer@, k as int),
            decreases n - k,
        {
            k += 1;
        }
        if k < n {
            let ghost all = self.buffer@;
            let mut raw = self.buffer.split_off(k + 1);
            core::mem::swap(&mut self.buffer, &mut raw);
            let _ = raw.pop();
            if raw.len() > 0 && raw[raw.len() - 1] == CARRIAGE_RETURN {
                let _ = raw.pop();
            }
            proof {
                assert(all.subrange(0, k + 1).drop_last() == all.take(k as int));
                assert(raw@ == first_line(all));
                assert(self.buffer@ == all.skip(k + 1));
            }
            match text_of(raw) {
                Some(text) => Next::Line(text),
                None => {
                    self.buffer.clear();
                    self.closed = true;
                    Next::End
                },
            }
        } else if !self.closed {
            Next::Pending
        } else {
            let mut raw: Vec<u8> = Vec::new();
            core::mem::swap(&mut self.buffer, &mut raw);
            if raw.len() == 0 {
                Next::End
            } else {
                match text_of(raw) {
                    Some(text) => Next::Line(text),
                    None => Next::End,
                }
            }
        }
    }
}

/// The lines of text in the bytes of a whole stream.
pub fn lines(input: &[u8]) -> (lines: Vec<String>)
    ensures
        texts(lines@) == text_lines(input@),
{
    let mut source = LineSource::new();
    source.feed(input);
    source.close();
    let mut lines: Vec<String> = Vec::new();
    loop
        invariant
            source.is_closed(),
            texts(lines@) + text_lines(source.waiting()) == text_lines(input@),
        ensures
            texts(lines@) == text_lines(input@),
        decreases source.waiting().len(),
    {
        let ghost waiting = source.waiting();
        let ghost before = texts(lines@);
        match source.next_line() {
            Next::Line(text) => {
                proof {
                    assert(text_lines(waiting) == seq![text@] + text_lines(source.waiting())) by {
                        if !(0 <= newline_index(waiting) < waiting.len()) {
                            assert(text_lines(source.waiting()) == Seq::<Seq<char>>::empty());
                        }
                    }
                    assert(texts(lines@.push(text)) == before.push(text@));
                    assert(before.push(text@) + text_lines(source.waiting()) == before + (seq![
                        text@,
                    ] + text_lines(source.waiting())));
                }
                lines.push(text);
            },
            _ => {
                proof {
                    assert(text_lines(waiting) == Seq::<Seq<char>>::empty());
                    assert(before + Seq::<Seq<char>>::empty() == before);
                }
                break ;
            },
        }
    }
    lines
}

/// Whether bytes can stand as one line: they are UTF-8, hold no newline, and
/// do not end in a carriage return.
pub open spec fn plain(line: Seq<u8>) -> bool {
    &&& valid_utf8(line)
    &&& forall|i: int| 0 <= i < line.len() ==> line[i] != NEWLINE
    &&& !(line.len() > 0 && line.last() == CARRIAGE_RETURN)
}

/// Lines in a row, each followed by a newline.
pub open spec fn terminated(lines: Seq<Seq<u8>>) -> Seq<u8>
    decreases lines.len(),
{
    if lines.len() == 0 {
        Seq::empty()
    } else {
        lines[0] + seq![NEWLINE] + terminated(lines.drop_first())
    }
}

/// The texts that lines of bytes encode.
pub open spec fn decoded(lines: Seq<Seq<u8>>) -> Seq<Seq<char>> {
    lines.map_values(|line: Seq<u8>| decode_utf8(line))
}

/// Where a line without a newline is followed by a newline, the first
/// newline is the one that follows it.
pub proof fn lemma_first_newline(line: Seq<u8>, rest: Seq<u8>)
    requires
        forall|i: int| 0 <= i < line.len() ==> line[i] != NEWLINE,
    ensures
        newline_index(line + seq![NEWLINE] + rest) == line.len(),
        (line + seq![NEWLINE] + rest).take(line.len() as int) == line,
        (line + seq![NEWLINE] + rest).skip(line.len() as int + 1) == rest,
{
    let bytes = line + seq![NEWLINE] + rest;
    lemma_newline_from_bounds(bytes, 0);
    let k = newline_index(bytes);
    assert(bytes[line.len() as int] == NEWLINE);
    if k < line.len() {
        assert(bytes[k] == line[k]);
    }
    assert(bytes.take(line.len() as int) =~= line);
    assert(bytes.skip(line.len() as int + 1) =~= rest);
}

/// The source gives back the lines that were written: where lines that can
/// each stand as one line are written one after the other, each followed by
/// a newline, and after them a rest without a newline, the lines of the
/// whole are the texts of those lines, and after them the text of the rest
/// if there is any. A newline at the very end brings no empty last line.
pub proof fn lemma_lines_round_trip(lines: Seq<Seq<u8>>, rest: Seq<u8>)
    requires
        forall|i: int| 0 <= i < lines.len() ==> plain(#[trigger] lines[i]),
        forall|i: int| 0 <= i < rest.len() ==> rest[i] != NEWLINE,
        rest.len() > 0 ==> valid_utf8(rest),
    ensures
        text_lines(terminated(lines) + rest) == decoded(lines) + if rest.len() > 0 {
            seq![decode_utf8(rest)]
        } else {
            Seq::empty()
        },
    decreases lines.len(),
{
    if lines.len() == 0 {
        assert(terminated(lines) + rest =~= rest);
        lemma_newline_from_bounds(rest, 0);
        if newline_index(rest) < rest.len() {
            assert(rest[newline_index(rest)] == NEWLINE);
        }
        assert(decoded(lines) =~= Seq::<Seq<char>>::empty());
    } else {
        let first = lines[0];
        let others = lines.drop_first();
        let after = terminated(others) + rest;
        let bytes = terminated(lines) + rest;
        assert(plain(first));
        assert(bytes =~= first + seq![NEWLINE] + after);
        lemma_first_newline(first, after);
        assert(first_line(bytes) == first);
        assert forall|i: int| 0 <= i < others.len() implies plain(#[trigger] others[i]) by {
            assert(others[i] == lines[i + 1]);
        }
        lemma_lines_round_trip(others, rest);
        assert(decoded(lines) =~= seq![decode_utf8(first)] + decoded(others));
        assert(text_lines(bytes) == seq![decode_utf8(first)] + text_lines(after));
        assert(seq![decode_utf8(first)] + (decoded(others) + if rest.len() > 0 {
            seq![decode_utf8(rest)]
        } else {
            Seq::empty()
        }) =~= decoded(lines) + if rest.len() > 0 {
            seq![decode_utf8(rest)]
        } else {
            Seq::empty()
        });
    }
}

/// The first newline at or after `start` is found between `start` and the
/// end, with no newline before it.
pub proof fn lemma_newline_from_bounds(bytes: Seq<u8>, start: int)
    requires
        0 <= start <= bytes.len(),
    ensures
        start <= newline_from(bytes, start) <= bytes.len(),
        newline_from(bytes, start) < bytes.len() ==> bytes[newline_from(bytes, start)] == NEWLINE,
        forall|i: int| start <= i < newline_from(bytes, start) ==> bytes[i] != NEWLINE,
    decreases bytes.len() - start,
{
    if start < bytes.len() && bytes[start] != NEWLINE {
        lemma_newline_from_bounds(bytes, start + 1);
    }
}

} // verus!
