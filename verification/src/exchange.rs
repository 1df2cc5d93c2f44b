//! The command/response exchange engine.
//!
//! One exchange normalizes a command for the wire, writes it, and — for a
//! command that expects a reply — waits one deadline for a single
//! terminator-ended response line, handed back trimmed. A failed write is
//! fatal for the session; a missed reply is a per-command event and the
//! session goes on.

use vstd::prelude::*;

use crate::classify::is_query;
use crate::classify::is_space;
use crate::classify::is_space_char;
use crate::classify::lemma_prefix_until;
use crate::classify::lemma_trim_end_props;
use crate::classify::lemma_trim_start_props;
use crate::classify::spec_is_query;
use crate::classify::trim_end;
use crate::classify::trim_spaces;
use crate::classify::trim_start;
use crate::transport::consumed_prefix;
use crate::transport::lemma_read_extends_unbroken_prefix;
use crate::transport::spec_line_split;
use crate::transport::spec_read_line;
use crate::transport::ConnView;
use crate::transport::Connection;
use crate::transport::ReadOutcome;

verus! {

/// The one fatal failure an exchange can raise: the write toward the peer
/// failed, which invalidates the whole session. A missed reply is not an
/// error at all — it is an absent response.
#[derive(Clone, Copy, Debug, PartialEq, Eq, Structural)]
pub enum ExchangeError {
    /// The outbound half of the connection failed during the write.
    WriteFailed,
}

/// What remains of an exchange once the command is on the wire.
#[derive(Clone, Copy, Debug, PartialEq, Eq, Structural)]
pub enum ExchangeStep {
    /// The command expects a reply: perform one deadline-bounded read.
    AwaitReply,
    /// The command expects none: the exchange is complete, with no response.
    Complete,
}

/// `s` ended with exactly its own terminator: unchanged when it already ends
/// with one, otherwise with a single terminator appended.
pub open spec fn normalized(s: Seq<char>) -> Seq<char> {
    if s.len() > 0 && s.last() == '\n' {
        s
    } else {
        s.push('\n')
    }
}

/// Normalize a command for the wire: append a single terminator only when the
/// command does not already end with one.
pub fn normalize_command(command: &str) -> (wire: String)
    ensures
        wire@ == normalized(command@),
{
    let n = command.unicode_len();
    let mut wire = command.to_owned();
    if n == 0 || command.get_char(n - 1) != '\n' {
        wire.append("\n");
        proof {
            reveal_strlit("\n");
            assert(wire@ =~= normalized(command@));
        }
    }
    wire
}

/// Law: terminator normalization is idempotent. A normalized command always
/// ends with a terminator, normalizing it again changes nothing, and a command
/// without a trailing terminator and the same command with one added put the
/// same text on the wire.
pub proof fn lemma_normalized_idempotent(s: Seq<char>)
    ensures
        normalized(s).len() > 0,
        normalized(s).last() == '\n',
        normalized(normalized(s)) == normalized(s),
        (s.len() == 0 || s.last() != '\n') ==> normalized(s.push('\n')) == normalized(s),
{
    if !(s.len() > 0 && s.last() == '\n') {
        assert(s.push('\n').last() == '\n');
    }
}

/// Decide how an exchange goes on once the write has been attempted: a failed
/// write is the fatal error, a query awaits its reply, any other command is
/// complete with no response and no read.
pub fn exchange_after_write(command: &str, write_ok: bool) -> (r: Result<
    ExchangeStep,
    ExchangeError,
>)
    ensures
        r == (if !write_ok {
            Result::<ExchangeStep, ExchangeError>::Err(ExchangeError::WriteFailed)
        } else if spec_is_query(command@) {
            Result::<ExchangeStep, ExchangeError>::Ok(ExchangeStep::AwaitReply)
        } else {
            Result::<ExchangeStep, ExchangeError>::Ok(ExchangeStep::Complete)
        }),
{
    if !write_ok {
        Err(ExchangeError::WriteFailed)
    } else if is_query(command) {
        Ok(ExchangeStep::AwaitReply)
    } else {
        Ok(ExchangeStep::Complete)
    }
}

/// `s` without its leading and trailing blank characters.
pub fn trim_text(s: &str) -> (t: String)
    ensures
        t@ == trim_spaces(s@),
{
    let n = s.unicode_len();

    let mut b: usize = n;
    while b > 0 && is_space(s.get_char(b - 1))
        invariant
            b <= n,
            n == s@.len(),
            forall|k: int| b <= k < n ==> is_space_char(s@[k]),
        decreases b,
    {
        b -= 1;
    }

    let mut a: usize = 0;
    while a < b && is_space(s.get_char(a))
        invariant
            a <= b <= n,
            n == s@.len(),
            forall|k: int| 0 <= k < a ==> is_space_char(s@[k]),
        decreases b - a,
    {
        a += 1;
    }

    proof {
        lemma_trim_end_props(s@);
        let m = trim_end(s@).len() as int;
        if m < b {
            assert(is_space_char(s@[b - 1]));
        }
        if b < m {
            assert(is_space_char(s@[m - 1]));
        }
        assert(m == b);

        let u = trim_end(s@);
        lemma_trim_start_props(u);
        let d = u.len() - trim_start(u).len();
        assert forall|k: int| 0 <= k < u.len() implies u[k] == s@[k] by {}
        if a < b {
            if d < a {
                assert(is_space_char(u[d]));
            }
            if a < d {
                assert(is_space_char(u[a as int]));
            }
            assert(d == a);
        } else {
            if d < u.len() {
                assert(is_space_char(u[d]));
            }
            assert(d == a);
        }
        assert(trim_spaces(s@) =~= s@.subrange(a as int, b as int));
    }

    s.substring_char(a, b).to_owned()
}

/// What the raw line of a read becomes for the caller: the line trimmed of
/// surrounding blanks, or nothing when no line arrived.
pub open spec fn spec_response_of(raw: Option<Seq<char>>) -> Option<Seq<char>> {
    match raw {
        Some(line) => Some(trim_spaces(line)),
        None => None,
    }
}

/// Resolve the outcome of the deadline-bounded read. A line becomes the
/// response, trimmed of surrounding blanks. A timeout, or a read failure
/// short of a disconnect, is absorbed: no response, and no error — the
/// session may go on and the operator may retry.
pub fn response_of_read(outcome: ReadOutcome) -> (resp: Option<String>)
    ensures
        match outcome {
            ReadOutcome::Line(line) => resp matches Some(t) && t@ == trim_spaces(line@),
            ReadOutcome::TimedOut => resp is None,
            ReadOutcome::Failed => resp is None,
        },
{
    match outcome {
        ReadOutcome::Line(line) => Some(trim_text(line.as_str())),
        ReadOutcome::TimedOut => None,
        ReadOutcome::Failed => None,
    }
}

/// State and response of one whole exchange of `cmd` in state `c`: nothing
/// changes on a broken outbound half (the exchange fails instead); otherwise
/// the normalized command is appended to the outbound stream, and a command
/// that expects a reply also consumes one deadline-bounded read, whose line,
/// trimmed, is the response.
pub open spec fn spec_exchange(c: ConnView, cmd: Seq<char>) -> (ConnView, Option<Seq<char>>) {
    if c.write_broken {
        (c, None)
    } else {
        let c1 = ConnView { outbound: c.outbound + normalized(cmd), ..c };
        if !spec_is_query(cmd) {
            (c1, None)
        } else {
            let (c2, raw) = spec_read_line(c1);
            (c2, spec_response_of(raw))
        }
    }
}

/// Exchange one command against the connection.
///
/// The command is normalized and written first; a write failure is fatal and
/// is propagated, with the connection untouched. A command that is no query
/// returns no response and attempts no read. A query waits one deadline for a
/// terminator-ended line, handed back trimmed of surrounding blanks; a
/// timeout or a read failure is absorbed into an absent response.
pub fn exchange(conn: &mut Connection, command: &str, deadline_ms: u64) -> (r: Result<
    Option<String>,
    ExchangeError,
>)
    requires
        old(conn).wf(),
    ensures
        final(conn).wf(),
        old(conn)@.write_broken ==> r == Result::<Option<String>, ExchangeError>::Err(
            ExchangeError::WriteFailed,
        ) && final(conn)@ == old(conn)@,
        !old(conn)@.write_broken ==> (r matches Ok(resp) && final(conn)@ == spec_exchange(
            old(conn)@,
            command@,
        ).0 && resp.deep_view() == spec_exchange(old(conn)@, command@).1),
{
    let wire = normalize_command(command);
    let ok = conn.write_text(wire.as_str());
    match exchange_after_write(command, ok) {
        Err(e) => Err(e),
        Ok(ExchangeStep::Complete) => {
            proof {
                assert(conn@ =~= spec_exchange(old(conn)@, command@).0);
            }
            Ok(None)
        },
        Ok(ExchangeStep::AwaitReply) => {
            let outcome = conn.read_line_within(deadline_ms);
            let resp = response_of_read(outcome);
            proof {
                assert(conn@ =~= spec_exchange(old(conn)@, command@).0);
            }
            Ok(resp)
        },
    }
}

/// Law: an exchange puts exactly one normalized line on the wire — the
/// command with its single terminator — whatever else it does; and a command
/// and its already-terminated form put the same line there.
pub proof fn lemma_exchange_writes_one_line(c: ConnView, cmd: Seq<char>)
    requires
        !c.write_broken,
    ensures
        spec_exchange(c, cmd).0.outbound == c.outbound + normalized(cmd),
        spec_exchange(c, normalized(cmd)).0.outbound == spec_exchange(c, cmd).0.outbound,
{
    lemma_normalized_idempotent(cmd);
}

/// Law: the exchange of a command that expects no reply returns no response
/// and never attempts a read — the reader's cursor stands exactly where it
/// stood, whatever the peer may have sent.
pub proof fn lemma_non_query_no_read(c: ConnView, cmd: Seq<char>)
    requires
        !c.write_broken,
        !spec_is_query(cmd),
    ensures
        spec_exchange(c, cmd).1 is None,
        spec_exchange(c, cmd).0.consumed == c.consumed,
        spec_exchange(c, cmd).0.inbound == c.inbound,
{
}

/// Law: a deadline that passes with no complete line is not fatal. The
/// exchange of a query still succeeds, with no response, and the connection
/// stands exactly as before but for the command on the wire — the session
/// may go on and the operator may retry.
pub proof fn lemma_timeout_not_fatal(c: ConnView, cmd: Seq<char>)
    requires
        !c.write_broken,
        spec_is_query(cmd),
        spec_line_split(c.remaining(), c.peer_closed) is None,
    ensures
        spec_exchange(c, cmd).1 is None,
        spec_exchange(c, cmd).0 == (ConnView { outbound: c.outbound + normalized(cmd), ..c }),
{
    let c1 = ConnView { outbound: c.outbound + normalized(cmd), ..c };
    assert(c1.remaining() == c.remaining());
}

/// Law: an exchange consumes exactly the next contiguous segment of the
/// peer's stream — the consumed text grows from one unbroken prefix to the
/// next and the stream itself is never altered. The monitor's probe moves
/// nothing at all, so no interleaving of probes and exchanges can tear a
/// response line out of the stream.
pub proof fn lemma_exchange_reads_unbroken(c: ConnView, cmd: Seq<char>)
    requires
        c.wf(),
        !c.write_broken,
    ensures
        ({
            let (c2, _) = spec_exchange(c, cmd);
            &&& c2.wf()
            &&& c2.inbound == c.inbound
            &&& c.consumed <= c2.consumed
            &&& consumed_prefix(c2) == consumed_prefix(c) + c.inbound.subrange(
                c.consumed as int,
                c2.consumed as int,
            )
        }),
{
    let c1 = ConnView { outbound: c.outbound + normalized(cmd), ..c };
    assert(consumed_prefix(c1) =~= consumed_prefix(c));
    if !spec_is_query(cmd) {
        assert(consumed_prefix(c1) + c.inbound.subrange(c.consumed as int, c.consumed as int)
            =~= consumed_prefix(c));
    } else {
        lemma_read_extends_unbroken_prefix(c1);
        let (c2, raw) = spec_read_line(c1);
        match raw {
            Some(line) => {
                assert(consumed_prefix(c2) == consumed_prefix(c1) + line);
                assert(line =~= c.inbound.subrange(c.consumed as int, c2.consumed as int)) by {
                    lemma_prefix_until(c1.remaining(), '\n');
                };
            },
            None => {
                assert(consumed_prefix(c2) + c.inbound.subrange(
                    c.consumed as int,
                    c.consumed as int,
                ) =~= consumed_prefix(c));
            },
        }
    }
}

} // verus!
