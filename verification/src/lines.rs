//! The lossy line decoder.
//!
//! A decoder owns the unterminated tail of the current line.  The caller
//! reads bytes from its source until a delimiter is found or the source
//! closes, and hands each such read over as one chunk.  Every chunk turns
//! into exactly one emitted line; a read of zero bytes against an empty
//! buffer is the natural end of the stream.

use crate::decode::lemma_lossy_decode_ascii_absent;
use crate::decode::lossy_decode;
use crate::decode::lossy_string;
use vstd::prelude::*;

verus! {

/// True when `bytes` contains no line delimiter.
pub open spec fn delimiter_free(bytes: Seq<u8>) -> bool {
    forall|i: int| 0 <= i < bytes.len() ==> bytes[i] != 10u8
}

/// The shape of one read: a delimiter may stand only at the very end,
/// because a read stops at the first delimiter it finds.
pub open spec fn read_shaped(chunk: Seq<u8>) -> bool {
    forall|i: int| 0 <= i < chunk.len() - 1 ==> chunk[i] != 10u8
}

/// `bytes` with a single trailing delimiter dropped.
pub open spec fn strip_delimiter(bytes: Seq<u8>) -> Seq<u8> {
    if bytes.len() > 0 && bytes[bytes.len() - 1] == 10u8 {
        bytes.drop_last()
    } else {
        bytes
    }
}

/// Whether a poll step emits a line rather than ending the stream.
pub open spec fn emits(buf: Seq<u8>, chunk: Seq<u8>) -> bool {
    buf.len() > 0 || chunk.len() > 0
}

/// The line emitted when a decoder holding `buf` takes in `chunk`.
pub open spec fn line_of(buf: Seq<u8>, chunk: Seq<u8>) -> Seq<char> {
    lossy_decode(strip_delimiter(buf + chunk))
}

/// The line, if any, that one poll step emits.
pub open spec fn poll_line(buf: Seq<u8>, chunk: Seq<u8>) -> Option<Seq<char>> {
    if emits(buf, chunk) {
        Some(line_of(buf, chunk))
    } else {
        None
    }
}

/// The buffer left behind by one poll step.
pub open spec fn poll_rest(buf: Seq<u8>, chunk: Seq<u8>) -> Seq<u8> {
    if emits(buf, chunk) {
        Seq::<u8>::empty()
    } else {
        buf
    }
}

/// An emitted line never holds the delimiter.
pub proof fn lemma_line_delimiter_free(buf: Seq<u8>, chunk: Seq<u8>)
    requires
        delimiter_free(buf),
        read_shaped(chunk),
    ensures
        forall|j: int|
            0 <= j < line_of(buf, chunk).len() ==> #[trigger] line_of(buf, chunk)[j] != '\n',
{
    let s = strip_delimiter(buf + chunk);
    assert(delimiter_free(s));
    lemma_lossy_decode_ascii_absent(s, 10u8);
    assert(forall|j: int|
        0 <= j < line_of(buf, chunk).len() ==> (#[trigger] line_of(buf, chunk)[j]) as u32
            != 10u8 as u32);
    assert('\n' as u32 == 10);
}

/// A line decoder: owns the unterminated tail of the current line.
pub struct LossyLines {
    buffer: Vec<u8>,
}

impl View for LossyLines {
    type V = Seq<u8>;

    closed spec fn view(&self) -> Seq<u8> {
        self.buffer@
    }
}

/// A fresh decoder with an empty buffer.
pub fn lossy_lines() -> (d: LossyLines)
    ensures
        d@ =~= Seq::<u8>::empty(),
        d.wf(),
{
    LossyLines { buffer: Vec::new() }
}

impl LossyLines {
    /// The buffered tail never holds a delimiter.
    pub open spec fn wf(self) -> bool {
        delimiter_free(self@)
    }

    /// A read that stalled mid-line: keep what it delivered as the
    /// unterminated tail.  Nothing is emitted; the pending state is the
    /// caller's to propagate.
    pub fn take_partial(&mut self, chunk: &Vec<u8>)
        requires
            old(self).wf(),
            delimiter_free(chunk@),
        ensures
            final(self).wf(),
            final(self)@ =~= old(self)@ + chunk@,
    {
        let n = chunk.len();
        let mut i: usize = 0;
        while i < n
            invariant
                i <= n,
                n == chunk@.len(),
                self.buffer@ =~= old(self)@ + chunk@.take(i as int),
            decreases n - i,
        {
            self.buffer.push(chunk[i]);
            proof {
                assert(self.buffer@ =~= old(self)@ + chunk@.take(i + 1));
            }
            i = i + 1;
        }
        proof {
            assert(self.buffer@ =~= old(self)@ + chunk@);
        }
    }

    /// Take in the outcome of one read and produce the next line.
    ///
    /// An empty chunk means the source reported end-of-input.  `None` is the
    /// natural end of the stream: nothing was read and nothing is buffered.
    /// Otherwise exactly one line comes out — the buffered bytes and the
    /// chunk, without the trailing delimiter, decoded lossily — and the
    /// buffer is left empty.
    pub fn poll(&mut self, chunk: &Vec<u8>) -> (r: Option<String>)
        requires
            old(self).wf(),
            read_shaped(chunk@),
        ensures
            final(self).wf(),
            final(self)@ =~= poll_rest(old(self)@, chunk@),
            r is Some <==> emits(old(self)@, chunk@),
            r matches Some(line) ==> poll_line(old(self)@, chunk@) == Some(line@),
            r matches Some(line) ==> forall|j: int|
                0 <= j < line@.len() ==> #[trigger] line@[j] != '\n',
    {
        let n = chunk.len();
        if n == 0 && self.buffer.len() == 0 {
            return None;
        }
        let mut i: usize = 0;
        while i < n
            invariant
                i <= n,
                n == chunk@.len(),
                self.buffer@ =~= old(self)@ + chunk@.take(i as int),
            decreases n - i,
        {
            self.buffer.push(chunk[i]);
            proof {
                assert(self.buffer@ =~= old(self)@ + chunk@.take(i + 1));
            }
            i = i + 1;
        }
        proof {
            assert(self.buffer@ =~= old(self)@ + chunk@);
        }
        let blen = self.buffer.len();
        if blen > 0 && self.buffer[blen - 1] == 10u8 {
            self.buffer.pop();
            proof {
                assert(self.buffer@ =~= strip_delimiter(old(self)@ + chunk@));
            }
        }
        proof {
            assert(self.buffer@ =~= strip_delimiter(old(self)@ + chunk@));
            assert(delimiter_free(self.buffer@));
            lemma_line_delimiter_free(old(self)@, chunk@);
        }
        let line = lossy_string(&self.buffer);
        self.buffer.clear();
        Some(line)
    }
}

/// No byte content is ever fatal and no line is ever dropped: whenever a
/// read delivers bytes, or buffered bytes remain when the source closes,
/// the poll emits a line — malformed encodings included.  An error can
/// only come from the caller's own read of the source, never from
/// decoding.
pub proof fn lemma_no_bytes_are_fatal(buf: Seq<u8>, chunk: Seq<u8>)
    requires
        buf.len() > 0 || chunk.len() > 0,
    ensures
        poll_line(buf, chunk) is Some,
        poll_line(buf, chunk) == Some(lossy_decode(strip_delimiter(buf + chunk))),
{
}

/// A source that delivers one burst of delimiter-free bytes and then closes
/// yields exactly one line — the lossy decoding of the burst — and then the
/// stream ends.
pub proof fn lemma_single_burst(bytes: Seq<u8>)
    requires
        bytes.len() > 0,
        delimiter_free(bytes),
    ensures
        poll_line(Seq::<u8>::empty(), bytes) == Some(lossy_decode(bytes)),
        poll_rest(Seq::<u8>::empty(), bytes) =~= Seq::<u8>::empty(),
        poll_line(Seq::<u8>::empty(), Seq::<u8>::empty()) is None,
{
    assert(Seq::<u8>::empty() + bytes =~= bytes);
    assert(strip_delimiter(bytes) =~= bytes);
}

/// Three reads — two delimiter-terminated lines and one final line that the
/// closing source left unterminated — come out as exactly those three lines,
/// in order, and then the stream ends.
pub proof fn lemma_lines_in_order(c1: Seq<u8>, c2: Seq<u8>, c3: Seq<u8>)
    requires
        c1.len() > 0 && c1.last() == 10u8 && read_shaped(c1),
        c2.len() > 0 && c2.last() == 10u8 && read_shaped(c2),
        c3.len() > 0 && delimiter_free(c3),
    ensures
        poll_line(Seq::<u8>::empty(), c1) == Some(lossy_decode(c1.drop_last())),
        poll_rest(Seq::<u8>::empty(), c1) =~= Seq::<u8>::empty(),
        poll_line(Seq::<u8>::empty(), c2) == Some(lossy_decode(c2.drop_last())),
        poll_rest(Seq::<u8>::empty(), c2) =~= Seq::<u8>::empty(),
        poll_line(Seq::<u8>::empty(), c3) == Some(lossy_decode(c3)),
        poll_rest(Seq::<u8>::empty(), c3) =~= Seq::<u8>::empty(),
        poll_line(Seq::<u8>::empty(), Seq::<u8>::empty()) is None,
{
    assert(Seq::<u8>::empty() + c1 =~= c1);
    assert(Seq::<u8>::empty() + c2 =~= c2);
    assert(Seq::<u8>::empty() + c3 =~= c3);
    assert(strip_delimiter(c1) =~= c1.drop_last());
    assert(strip_delimiter(c2) =~= c2.drop_last());
    assert(strip_delimiter(c3) =~= c3);
}

} // verus!
