//! The connection, modelled as a pair of text streams.
//!
//! A [`Connection`] stands for the session's one duplex byte stream: the text
//! the peer has sent (and whether the peer has since closed its end), a cursor
//! marking how much of it the line reader has consumed, the text written
//! toward the peer, and whether the outbound half is broken. The surrounding
//! program owns the real socket; the engine's behaviour is stated and proved
//! against this model.

use vstd::prelude::*;

use crate::classify::prefix_until;
use crate::classify::lemma_prefix_until;

verus! {

/// Mathematical state of a connection.
#[verifier::ext_equal]
pub struct ConnView {
    /// All text the peer has sent, in order.
    pub inbound: Seq<char>,
    /// How many characters of `inbound` the line reader has consumed.
    pub consumed: nat,
    /// Whether the peer has closed its end after `inbound`.
    pub peer_closed: bool,
    /// All text written toward the peer, in order.
    pub outbound: Seq<char>,
    /// Whether the outbound half of the stream is broken.
    pub write_broken: bool,
}

impl ConnView {
    /// The cursor never passes the end of the peer's text.
    pub open spec fn wf(self) -> bool {
        self.consumed <= self.inbound.len()
    }

    /// The peer's text not yet consumed by the line reader.
    pub open spec fn remaining(self) -> Seq<char> {
        self.inbound.subrange(self.consumed as int, self.inbound.len() as int)
    }
}

/// The peer's text the line reader has consumed so far: always an unbroken
/// prefix of the peer's stream.
pub open spec fn consumed_prefix(c: ConnView) -> Seq<char> {
    c.inbound.subrange(0, c.consumed as int)
}

/// Outcome of one deadline-bounded attempt to read a line.
#[derive(Debug, PartialEq, Eq)]
pub enum ReadOutcome {
    /// A line arrived (terminator included, unless the peer closed first).
    Line(String),
    /// The deadline passed with no complete line.
    TimedOut,
    /// The stream failed short of a disconnect.
    Failed,
}

/// What a non-consuming probe of the stream saw.
#[derive(Clone, Copy, Debug, PartialEq, Eq, Structural)]
pub enum PeekOutcome {
    /// At least one byte is waiting to be read.
    Data,
    /// Nothing is waiting, but the connection is still open.
    WouldBlock,
    /// The peer has closed the connection: a read would return end-of-stream.
    Closed,
    /// The probe itself failed; nothing is known of the stream.
    Failed,
}

/// The line a read takes from the unconsumed text `rem`: through the first
/// terminator if one is present, all of `rem` if the peer has closed, and
/// nothing (a timeout) otherwise.
pub open spec fn spec_line_split(rem: Seq<char>, peer_closed: bool) -> Option<Seq<char>> {
    if prefix_until(rem, '\n') < rem.len() {
        Some(rem.subrange(0, prefix_until(rem, '\n') as int + 1))
    } else if peer_closed {
        Some(rem)
    } else {
        None
    }
}

/// State and raw line after one deadline-bounded read.
pub open spec fn spec_read_line(c: ConnView) -> (ConnView, Option<Seq<char>>) {
    match spec_line_split(c.remaining(), c.peer_closed) {
        Some(raw) => (ConnView { consumed: c.consumed + raw.len(), ..c }, Some(raw)),
        None => (c, None),
    }
}

/// What a non-consuming probe sees in state `c`.
pub open spec fn spec_peek(c: ConnView) -> PeekOutcome {
    if c.remaining().len() > 0 {
        PeekOutcome::Data
    } else if c.peer_closed {
        PeekOutcome::Closed
    } else {
        PeekOutcome::WouldBlock
    }
}

/// The session's one shared transport resource.
pub struct Connection {
    inbound: String,
    consumed: usize,
    peer_closed: bool,
    outbound: String,
    write_broken: bool,
}

impl View for Connection {
    type V = ConnView;

    closed spec fn view(&self) -> ConnView {
        ConnView {
            inbound: self.inbound@,
            consumed: self.consumed as nat,
            peer_closed: self.peer_closed,
            outbound: self.outbound@,
            write_broken: self.write_broken,
        }
    }
}

impl Connection {
    /// The cursor never passes the end of the peer's text.
    pub open spec fn wf(self) -> bool {
        self@.wf()
    }

    /// A fresh connection: `inbound` is the text the peer will have sent,
    /// `peer_closed` whether it closes its end after that, `write_broken`
    /// whether the outbound half is broken. Nothing is consumed or written yet.
    pub fn new(inbound: String, peer_closed: bool, write_broken: bool) -> (c: Connection)
        ensures
            c.wf(),
            c@ == (ConnView {
                inbound: inbound@,
                consumed: 0,
                peer_closed,
                outbound: Seq::<char>::empty(),
                write_broken,
            }),
    {
        let c = Connection {
            inbound,
            consumed: 0,
            peer_closed,
            outbound: String::new(),
            write_broken,
        };
        proof {
            assert(c@ =~= ConnView {
                inbound: c.inbound@,
                consumed: 0,
                peer_closed,
                outbound: Seq::<char>::empty(),
                write_broken,
            });
        }
        c
    }

    /// Write `text` to the peer. Succeeds, appending to the outbound stream,
    /// exactly when the outbound half is not broken; a failed write changes
    /// nothing.
    pub fn write_text(&mut self, text: &str) -> (ok: bool)
        requires
            old(self).wf(),
        ensures
            final(self).wf(),
            ok == !old(self)@.write_broken,
            ok ==> final(self)@ == (ConnView { outbound: old(self)@.outbound + text@, ..old(self)@ }),
            !ok ==> final(self)@ == old(self)@,
    {
        if self.write_broken {
            false
        } else {
            self.outbound.append(text);
            proof {
                assert(self@ =~= (ConnView { outbound: old(self)@.outbound + text@, ..old(self)@ }));
            }
            true
        }
    }

    /// Attempt to read one terminator-ended line, bounded by a deadline.
    /// Returns the line through its terminator when one is already available;
    /// whatever text remains when the peer has closed its end; and a timeout
    /// otherwise — in the model, a peer that has not yet sent a full line will
    /// not do so within any deadline.
    pub fn read_line_within(&mut self, deadline_ms: u64) -> (r: ReadOutcome)
        requires
            old(self).wf(),
        ensures
            final(self).wf(),
            final(self)@ == spec_read_line(old(self)@).0,
            match spec_read_line(old(self)@).1 {
                Some(raw) => r matches ReadOutcome::Line(line) && line@ == raw,
                None => r == ReadOutcome::TimedOut,
            },
    {
        let _ = deadline_ms;
        let ghost pre = self@;
        let ghost rem = pre.remaining();
        let n = self.inbound.as_str().unicode_len();
        let start = self.consumed;

        let mut i: usize = start;
        while i < n && self.inbound.as_str().get_char(i) != '\n'
            invariant
                start <= i <= n,
                n == self.inbound@.len(),
                self == old(self),
                forall|k: int| start <= k < i ==> self.inbound@[k] != '\n',
            decreases n - i,
        {
            i += 1;
        }

        proof {
            lemma_prefix_until(rem, '\n');
            let p = prefix_until(rem, '\n') as int;
            assert forall|k: int| 0 <= k < rem.len() implies rem[k] == self.inbound@[start + k] by {}
            if p < i - start {
                assert(rem[p] == '\n');
            }
            if i - start < p {
                assert(rem[i - start] != '\n');
                assert(i < n);
            }
            assert(p == i - start);
        }

        if i < n {
            let line = self.inbound.as_str().substring_char(self.consumed, i + 1).to_owned();
            self.consumed = i + 1;
            proof {
                let raw = spec_line_split(rem, pre.peer_closed).unwrap();
                assert(raw =~= rem.subrange(0, prefix_until(rem, '\n') as int + 1));
                assert(line@ =~= raw);
                assert(self@ =~= spec_read_line(pre).0);
            }
            ReadOutcome::Line(line)
        } else if self.peer_closed {
            let line = self.inbound.as_str().substring_char(self.consumed, n).to_owned();
            self.consumed = n;
            proof {
                let raw = spec_line_split(rem, pre.peer_closed).unwrap();
                assert(raw =~= rem);
                assert(line@ =~= raw);
                assert(self@ =~= spec_read_line(pre).0);
            }
            ReadOutcome::Line(line)
        } else {
            ReadOutcome::TimedOut
        }
    }

    /// Probe the stream without consuming anything: data waiting, nothing yet
    /// on an open connection, or end-of-stream on a closed one. A shared
    /// borrow suffices — the probe cannot move the reader's cursor.
    pub fn peek(&self) -> (p: PeekOutcome)
        requires
            self.wf(),
        ensures
            p == spec_peek(self@),
    {
        let n = self.inbound.as_str().unicode_len();
        if self.consumed < n {
            PeekOutcome::Data
        } else if self.peer_closed {
            PeekOutcome::Closed
        } else {
            PeekOutcome::WouldBlock
        }
    }

    /// The text written toward the peer so far.
    pub fn outbound_text(&self) -> (t: &str)
        ensures
            t@ == self@.outbound,
    {
        self.outbound.as_str()
    }

    /// How many characters of the peer's text the line reader has consumed.
    pub fn consumed_chars(&self) -> (n: usize)
        ensures
            n == self@.consumed,
    {
        self.consumed
    }
}

/// Law: the text the line reader has consumed is always an unbroken prefix of
/// the peer's stream. A read extends that prefix by exactly the raw line it
/// returns and never touches the stream itself; the monitor's probe, taken
/// through a shared borrow, cannot move the cursor at all. So no interleaving
/// of probes and reads can tear a response line: what the reader has seen is
/// `inbound` up to `consumed`, unbroken.
pub proof fn lemma_read_extends_unbroken_prefix(c: ConnView)
    requires
        c.wf(),
    ensures
        ({
            let (c2, raw) = spec_read_line(c);
            &&& c2.inbound == c.inbound
            &&& c2.outbound == c.outbound
            &&& c2.wf()
            &&& match raw {
                Some(line) => consumed_prefix(c2) == consumed_prefix(c) + line,
                None => c2 == c,
            }
        }),
{
    let rem = c.remaining();
    lemma_prefix_until(rem, '\n');
    match spec_line_split(rem, c.peer_closed) {
        Some(raw) => {
            let (c2, _) = spec_read_line(c);
            assert(raw =~= c.inbound.subrange(c.consumed as int, c.consumed as int + raw.len() as int));
            assert(consumed_prefix(c2) =~= consumed_prefix(c) + raw);
        },
        None => {},
    }
}

} // verus!
