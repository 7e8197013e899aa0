//! Merging two decoded line streams into one.
//!
//! The merged stream delivers whichever source had data ready first; the
//! caller decides readiness, so the interleave between the two sources is
//! outside this library's control.  What the library guarantees is the rest:
//! every line of either source appears in the merged stream exactly once,
//! each source's own order is preserved, and the merged stream is exhausted
//! precisely when both sources have closed.

use crate::lines::line_of;
use crate::lines::lossy_lines;
use crate::lines::poll_line;
use crate::lines::read_shaped;
use crate::lines::LossyLines;
use vstd::prelude::*;

verus! {

/// True when `m` is an order-preserving interleave of `a` and `b`.
pub open spec fn is_interleaving<T>(m: Seq<T>, a: Seq<T>, b: Seq<T>) -> bool
    decreases m.len(),
{
    if m.len() == 0 {
        a.len() == 0 && b.len() == 0
    } else {
        ||| (a.len() > 0 && m.last() == a.last() && is_interleaving(m.drop_last(), a.drop_last(), b))
        ||| (b.len() > 0 && m.last() == b.last() && is_interleaving(m.drop_last(), a, b.drop_last()))
    }
}

/// True when `a` occurs inside `m` as a subsequence, in order.
pub open spec fn embeds_in<T>(a: Seq<T>, m: Seq<T>) -> bool
    decreases m.len(),
{
    if m.len() == 0 {
        a.len() == 0
    } else {
        ||| (a.len() > 0 && a.last() == m.last() && embeds_in(a.drop_last(), m.drop_last()))
        ||| embeds_in(a, m.drop_last())
    }
}

/// An interleave grows by one element taken from either side.
pub proof fn lemma_interleaving_extend<T>(m: Seq<T>, a: Seq<T>, b: Seq<T>, x: T)
    requires
        is_interleaving(m, a, b),
    ensures
        is_interleaving(m.push(x), a.push(x), b),
        is_interleaving(m.push(x), a, b.push(x)),
{
    assert(m.push(x).drop_last() =~= m);
    assert(a.push(x).drop_last() =~= a);
    assert(b.push(x).drop_last() =~= b);
    assert(m.push(x).last() == x);
    assert(a.push(x).last() == x);
    assert(b.push(x).last() == x);
}

/// Every element of either side appears in the interleave exactly as often
/// as on that side: nothing is lost, duplicated or invented.
pub proof fn lemma_interleaving_delivers_each_once<T>(m: Seq<T>, a: Seq<T>, b: Seq<T>)
    requires
        is_interleaving(m, a, b),
    ensures
        m.to_multiset() =~= a.to_multiset().add(b.to_multiset()),
    decreases m.len(),
{
    broadcast use vstd::seq_lib::group_to_multiset_ensures;

    if m.len() == 0 {
        assert(forall|x: T| m.to_multiset().count(x) == 0);
        assert(forall|x: T| a.to_multiset().count(x) == 0);
        assert(forall|x: T| b.to_multiset().count(x) == 0);
    } else {
        let x = m.last();
        if a.len() > 0 && m.last() == a.last() && is_interleaving(
            m.drop_last(),
            a.drop_last(),
            b,
        ) {
            lemma_interleaving_delivers_each_once(m.drop_last(), a.drop_last(), b);
            assert(m.drop_last().push(x) =~= m);
            assert(a.drop_last().push(x) =~= a);
        } else {
            lemma_interleaving_delivers_each_once(m.drop_last(), a, b.drop_last());
            assert(m.drop_last().push(x) =~= m);
            assert(b.drop_last().push(x) =~= b);
        }
    }
}

/// Each side of an interleave occurs in it as a subsequence: the relative
/// order within one source is preserved in the merged stream.
pub proof fn lemma_interleaving_keeps_order<T>(m: Seq<T>, a: Seq<T>, b: Seq<T>)
    requires
        is_interleaving(m, a, b),
    ensures
        embeds_in(a, m),
        embeds_in(b, m),
    decreases m.len(),
{
    if m.len() == 0 {
    } else {
        if a.len() > 0 && m.last() == a.last() && is_interleaving(
            m.drop_last(),
            a.drop_last(),
            b,
        ) {
            lemma_interleaving_keeps_order(m.drop_last(), a.drop_last(), b);
        } else {
            lemma_interleaving_keeps_order(m.drop_last(), a, b.drop_last());
        }
    }
}

/// Which of the two byte pipes a read came from.
#[derive(Clone, Copy, PartialEq, Eq, Structural)]
pub enum StreamSource {
    Stdout,
    Stderr,
}

/// The other pipe.
pub open spec fn peer(src: StreamSource) -> StreamSource {
    match src {
        StreamSource::Stdout => StreamSource::Stderr,
        StreamSource::Stderr => StreamSource::Stdout,
    }
}

/// Two line decoders merged into one stream of lines.
pub struct Merged {
    stdout: LossyLines,
    stderr: LossyLines,
    stdout_done: bool,
    stderr_done: bool,
    merged_hist: Ghost<Seq<Seq<char>>>,
    stdout_hist: Ghost<Seq<Seq<char>>>,
    stderr_hist: Ghost<Seq<Seq<char>>>,
}

impl Merged {
    /// All lines the merged stream has delivered, in delivery order.
    pub closed spec fn lines(self) -> Seq<Seq<char>> {
        self.merged_hist@
    }

    /// The lines delivered so far that came from `src`, in delivery order.
    pub closed spec fn lines_from(self, src: StreamSource) -> Seq<Seq<char>> {
        match src {
            StreamSource::Stdout => self.stdout_hist@,
            StreamSource::Stderr => self.stderr_hist@,
        }
    }

    /// Whether `src` has reported end-of-input.
    pub closed spec fn done(self, src: StreamSource) -> bool {
        match src {
            StreamSource::Stdout => self.stdout_done,
            StreamSource::Stderr => self.stderr_done,
        }
    }

    /// The unterminated tail buffered for `src`.
    pub closed spec fn buffer_of(self, src: StreamSource) -> Seq<u8> {
        match src {
            StreamSource::Stdout => self.stdout@,
            StreamSource::Stderr => self.stderr@,
        }
    }

    /// Buffers are delimiter-free and the delivered lines form an
    /// order-preserving interleave of the two sources.
    pub closed spec fn wf(self) -> bool {
        &&& self.stdout.wf()
        &&& self.stderr.wf()
        &&& is_interleaving(self.merged_hist@, self.stdout_hist@, self.stderr_hist@)
    }

    /// A fresh merged stream over two fresh decoders.
    pub fn new() -> (m: Merged)
        ensures
            m.wf(),
            m.lines() =~= Seq::<Seq<char>>::empty(),
            m.lines_from(StreamSource::Stdout) =~= Seq::<Seq<char>>::empty(),
            m.lines_from(StreamSource::Stderr) =~= Seq::<Seq<char>>::empty(),
            !m.done(StreamSource::Stdout),
            !m.done(StreamSource::Stderr),
            m.buffer_of(StreamSource::Stdout) =~= Seq::<u8>::empty(),
            m.buffer_of(StreamSource::Stderr) =~= Seq::<u8>::empty(),
    {
        Merged {
            stdout: lossy_lines(),
            stderr: lossy_lines(),
            stdout_done: false,
            stderr_done: false,
            merged_hist: Ghost(Seq::empty()),
            stdout_hist: Ghost(Seq::empty()),
            stderr_hist: Ghost(Seq::empty()),
        }
    }

    /// Take in the outcome of one read on `src` and produce the next merged
    /// line.  `Some` is a line from that source, appended to the merged
    /// history; `None` marks that source as closed and delivers nothing.
    pub fn poll_source(&mut self, src: StreamSource, chunk: &Vec<u8>) -> (r: Option<String>)
        requires
            old(self).wf(),
            read_shaped(chunk@),
        ensures
            final(self).wf(),
            final(self).done(peer(src)) == old(self).done(peer(src)),
            final(self).buffer_of(peer(src)) =~= old(self).buffer_of(peer(src)),
            final(self).lines_from(peer(src)) =~= old(self).lines_from(peer(src)),
            r is Some <==> crate::lines::emits(old(self).buffer_of(src), chunk@),
            r matches Some(line) ==> {
                &&& poll_line(old(self).buffer_of(src), chunk@) == Some(line@)
                &&& line@ == line_of(old(self).buffer_of(src), chunk@)
                &&& final(self).lines() =~= old(self).lines().push(line@)
                &&& final(self).lines_from(src) =~= old(self).lines_from(src).push(line@)
                &&& final(self).buffer_of(src) =~= Seq::<u8>::empty()
                &&& final(self).done(src) == old(self).done(src)
            },
            r is None ==> {
                &&& final(self).lines() =~= old(self).lines()
                &&& final(self).lines_from(src) =~= old(self).lines_from(src)
                &&& final(self).buffer_of(src) =~= old(self).buffer_of(src)
                &&& final(self).done(src)
            },
    {
        match src {
            StreamSource::Stdout => {
                let r = self.stdout.poll(chunk);
                match &r {
                    Some(line) => {
                        proof {
                            lemma_interleaving_extend(
                                self.merged_hist@,
                                self.stdout_hist@,
                                self.stderr_hist@,
                                line@,
                            );
                        }
                        self.merged_hist = Ghost(self.merged_hist@.push(line@));
                        self.stdout_hist = Ghost(self.stdout_hist@.push(line@));
                    },
                    None => {
                        self.stdout_done = true;
                    },
                }
                r
            },
            StreamSource::Stderr => {
                let r = self.stderr.poll(chunk);
                match &r {
                    Some(line) => {
                        proof {
                            lemma_interleaving_extend(
                                self.merged_hist@,
                                self.stdout_hist@,
                                self.stderr_hist@,
                                line@,
                            );
                        }
                        self.merged_hist = Ghost(self.merged_hist@.push(line@));
                        self.stderr_hist = Ghost(self.stderr_hist@.push(line@));
                    },
                    None => {
                        self.stderr_done = true;
                    },
                }
                r
            },
        }
    }

    /// The merged stream is exhausted exactly when both sources have closed.
    pub fn exhausted(&self) -> (b: bool)
        ensures
            b == (self.done(StreamSource::Stdout) && self.done(StreamSource::Stderr)),
    {
        self.stdout_done && self.stderr_done
    }
}

/// What a well-formed merged stream guarantees about its history: the
/// delivered lines interleave the two sources, each line of either source is
/// delivered exactly once, and each source's order is preserved.
pub proof fn lemma_merged_stream_sound(m: Merged)
    requires
        m.wf(),
    ensures
        is_interleaving(
            m.lines(),
            m.lines_from(StreamSource::Stdout),
            m.lines_from(StreamSource::Stderr),
        ),
        m.lines().to_multiset() =~= m.lines_from(StreamSource::Stdout).to_multiset().add(
            m.lines_from(StreamSource::Stderr).to_multiset(),
        ),
        embeds_in(m.lines_from(StreamSource::Stdout), m.lines()),
        embeds_in(m.lines_from(StreamSource::Stderr), m.lines()),
{
    lemma_interleaving_delivers_each_once(
        m.lines(),
        m.lines_from(StreamSource::Stdout),
        m.lines_from(StreamSource::Stderr),
    );
    lemma_interleaving_keeps_order(
        m.lines(),
        m.lines_from(StreamSource::Stdout),
        m.lines_from(StreamSource::Stderr),
    );
}

} // verus!
