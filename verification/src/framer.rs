//! Line framing over a raw byte stream.
//!
//! A `Framer` accumulates the bytes of one connection and cuts them into
//! newline-delimited lines. A single trailing carriage return before the
//! newline is stripped. A line longer than the framer's limit is a framing
//! error: the framer enters a failed state and yields no further lines,
//! which ends that connection's line sequence without touching any other
//! connection. Partial-line bytes are retained inside the framer between
//! calls, so abandoning a wait loses no data.

use vstd::prelude::*;
use vstd::string::StringExecFns;

verus! {

/// The byte that ends a line.
pub const LINE_FEED: u8 = 10;

/// The byte stripped once from the end of a line, if present.
pub const CARRIAGE_RETURN: u8 = 13;

/// Ghost state of a framer: the buffered partial line, the maximum line
/// length in bytes, and whether a framing error has ended the sequence.
#[verifier::ext_equal]
pub struct FramerView {
    pub buf: Seq<u8>,
    pub max: nat,
    pub failed: bool,
}

/// A line with a single trailing carriage return removed.
pub open spec fn strip_cr(line: Seq<u8>) -> Seq<u8> {
    if line.len() > 0 && line.last() == CARRIAGE_RETURN {
        line.drop_last()
    } else {
        line
    }
}

/// The framer state after consuming one byte.
pub open spec fn step_state(fv: FramerView, b: u8) -> FramerView {
    if fv.failed {
        fv
    } else if b == LINE_FEED {
        FramerView { buf: Seq::empty(), max: fv.max, failed: false }
    } else if fv.buf.len() >= fv.max {
        FramerView { buf: fv.buf, max: fv.max, failed: true }
    } else {
        FramerView { buf: fv.buf.push(b), max: fv.max, failed: false }
    }
}

/// The line emitted on consuming one byte, if any.
pub open spec fn step_line(fv: FramerView, b: u8) -> Option<Seq<u8>> {
    if !fv.failed && b == LINE_FEED {
        Some(strip_cr(fv.buf))
    } else {
        None
    }
}

/// The framer state after consuming a whole chunk of bytes.
pub open spec fn feed_state(fv: FramerView, data: Seq<u8>) -> FramerView
    decreases data.len(),
{
    if data.len() == 0 {
        fv
    } else {
        step_state(feed_state(fv, data.drop_last()), data.last())
    }
}

/// All lines emitted while consuming a chunk of bytes, in order.
pub open spec fn feed_lines(fv: FramerView, data: Seq<u8>) -> Seq<Seq<u8>>
    decreases data.len(),
{
    if data.len() == 0 {
        Seq::empty()
    } else {
        let prev = feed_lines(fv, data.drop_last());
        match step_line(feed_state(fv, data.drop_last()), data.last()) {
            Some(line) => prev.push(line),
            None => prev,
        }
    }
}

/// The views of a sequence of byte vectors.
pub open spec fn views_of(lines: Seq<Vec<u8>>) -> Seq<Seq<u8>> {
    lines.map(|i: int, l: Vec<u8>| l@)
}

/// Encodes one outgoing line for the wire by appending the delimiter.
pub fn encode_line(line: &str) -> (r: String)
    ensures
        r@ == line@.push('\n'),
{
    let mut s = String::new();
    s.append(line);
    s.append("\n");
    proof {
        reveal_strlit("\n");
        assert(s@ =~= line@.push('\n'));
    }
    s
}

/// What one consumed byte produced.
pub enum Pushed {
    /// The byte was buffered; no complete line yet.
    Pending,
    /// The byte completed this line.
    Line(Vec<u8>),
    /// The line limit was exceeded, now or earlier: the sequence has ended.
    Overflow,
}

/// Frames one connection's bytes into length-bounded lines.
pub struct Framer {
    buf: Vec<u8>,
    max: usize,
    failed: bool,
}

impl View for Framer {
    type V = FramerView;

    closed spec fn view(&self) -> FramerView {
        FramerView { buf: self.buf@, max: self.max as nat, failed: self.failed }
    }
}

impl Framer {
    /// A fresh framer with an empty buffer and the given line limit.
    pub fn new(max: usize) -> (r: Framer)
        ensures
            r@ == (FramerView { buf: Seq::empty(), max: max as nat, failed: false }),
    {
        let r = Framer { buf: Vec::new(), max, failed: false };
        proof {
            assert(r@ =~= FramerView { buf: Seq::empty(), max: max as nat, failed: false });
        }
        r
    }

    /// Whether a framing error has ended this connection's line sequence.
    pub fn has_failed(&self) -> (r: bool)
        ensures
            r == self@.failed,
    {
        self.failed
    }

    /// Consumes one byte.
    pub fn push_byte(&mut self, b: u8) -> (r: Pushed)
        ensures
            final(self)@ == step_state(old(self)@, b),
            match r {
                Pushed::Line(line) => step_line(old(self)@, b) == Some(line@),
                Pushed::Pending => step_line(old(self)@, b) is None && !final(self)@.failed,
                Pushed::Overflow => step_line(old(self)@, b) is None && final(self)@.failed,
            },
    {
        if self.failed {
            proof {
                assert(self@ =~= step_state(old(self)@, b));
            }
            Pushed::Overflow
        } else if b == LINE_FEED {
            let mut line = self.buf.split_off(0);
            proof {
                assert(line@ =~= old(self)@.buf);
                assert(self@ =~= step_state(old(self)@, b));
            }
            if line.len() > 0 && line[line.len() - 1] == CARRIAGE_RETURN {
                line.pop();
                proof {
                    assert(line@ =~= strip_cr(old(self)@.buf));
                }
            }
            Pushed::Line(line)
        } else if self.buf.len() >= self.max {
            self.failed = true;
            proof {
                assert(self@ =~= step_state(old(self)@, b));
            }
            Pushed::Overflow
        } else {
            self.buf.push(b);
            proof {
                assert(self@ =~= step_state(old(self)@, b));
            }
            Pushed::Pending
        }
    }

    /// Consumes a chunk of bytes, returning every line it completed, in order.
    /// Whether the chunk ended the sequence is read with `has_failed`.
    pub fn feed(&mut self, data: &[u8]) -> (lines: Vec<Vec<u8>>)
        ensures
            final(self)@ == feed_state(old(self)@, data@),
            views_of(lines@) == feed_lines(old(self)@, data@),
    {
        let mut lines: Vec<Vec<u8>> = Vec::new();
        let mut i: usize = 0;
        proof {
            assert(data@.take(0) =~= Seq::<u8>::empty());
            assert(views_of(lines@) =~= feed_lines(old(self)@, data@.take(0)));
        }
        while i < data.len()
            invariant
                0 <= i <= data@.len(),
                self@ == feed_state(old(self)@, data@.take(i as int)),
                views_of(lines@) == feed_lines(old(self)@, data@.take(i as int)),
            decreases data@.len() - i,
        {
            proof {
                assert(data@.take(i + 1).drop_last() =~= data@.take(i as int));
                assert(data@.take(i + 1).last() == data@[i as int]);
            }
            let r = self.push_byte(data[i]);
            match r {
                Pushed::Line(line) => {
                    let ghost before = lines@;
                    lines.push(line);
                    proof {
                        assert(views_of(lines@) =~= views_of(before).push(line@));
                    }
                },
                Pushed::Pending => {
                },
                Pushed::Overflow => {
                },
            }
            i = i + 1;
        }
        proof {
            assert(data@.take(data@.len() as int) =~= data@);
        }
        lines
    }
}

} // verus!
