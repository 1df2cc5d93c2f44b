//! The session loop.
//!
//! A session either replays a finite batch of command lines against the
//! connection, or solicits commands interactively until the input source ends
//! or the liveness monitor declares the connection dead. The interactive
//! orchestration is a state machine over session states and events; the batch
//! mode is a verified loop over the model connection.

use vstd::prelude::*;

use crate::classify::lemma_prefix_until;
use crate::classify::prefix_until;
use crate::exchange::exchange;
use crate::exchange::spec_exchange;
use crate::exchange::ExchangeError;
use crate::transport::ConnView;
use crate::transport::Connection;

verus! {

/// Where an interactive session stands.
#[derive(Clone, Copy, Debug, PartialEq, Eq, Structural)]
pub enum SessionState {
    /// The connection is being established.
    Connecting,
    /// The session waits for the next command from the input source.
    Ready,
    /// A command is being exchanged against the connection.
    Exchanging,
    /// The input source ended: the session is over, successfully.
    TerminatedNormal,
    /// The connection failed or the peer disconnected: the session is dead.
    TerminatedFatal,
}

/// What can happen to an interactive session.
#[derive(Clone, Copy, Debug, PartialEq, Eq, Structural)]
pub enum SessionEvent {
    /// The connection was established.
    Connected,
    /// The connection could not be established.
    ConnectFailed,
    /// The input source produced a command line.
    InputLine,
    /// The input source signalled end-of-input: a normal way to stop.
    InputEnded,
    /// The exchange of the current command finished, reply or no reply.
    ExchangeDone,
    /// The exchange of the current command failed fatally (a write failure).
    ExchangeFailed,
    /// The liveness monitor declared the peer disconnected.
    PeerDisconnected,
}

/// The session state machine: `Connecting -> Ready <-> Exchanging`, with
/// end-of-input ending the session normally from `Ready`, a monitor-detected
/// disconnect ending it fatally from any live waiting state, and a fatal
/// exchange failure ending it fatally from `Exchanging`. An exchange whose
/// command merely got no reply comes back to `Ready`: such errors are
/// absorbed by the exchange engine and never escalate the machine. Events
/// that cannot occur in a state leave it unchanged, and both terminated
/// states absorb everything.
pub open spec fn spec_session_step(state: SessionState, event: SessionEvent) -> SessionState {
    match state {
        SessionState::Connecting => match event {
            SessionEvent::Connected => SessionState::Ready,
            SessionEvent::ConnectFailed => SessionState::TerminatedFatal,
            _ => SessionState::Connecting,
        },
        SessionState::Ready => match event {
            SessionEvent::InputLine => SessionState::Exchanging,
            SessionEvent::InputEnded => SessionState::TerminatedNormal,
            SessionEvent::PeerDisconnected => SessionState::TerminatedFatal,
            _ => SessionState::Ready,
        },
        SessionState::Exchanging => match event {
            SessionEvent::ExchangeDone => SessionState::Ready,
            SessionEvent::ExchangeFailed => SessionState::TerminatedFatal,
            SessionEvent::PeerDisconnected => SessionState::TerminatedFatal,
            _ => SessionState::Exchanging,
        },
        SessionState::TerminatedNormal => SessionState::TerminatedNormal,
        SessionState::TerminatedFatal => SessionState::TerminatedFatal,
    }
}

/// Advance the session state machine by one event.
pub fn session_step(state: SessionState, event: SessionEvent) -> (next: SessionState)
    ensures
        next == spec_session_step(state, event),
{
    match state {
        SessionState::Connecting => match event {
            SessionEvent::Connected => SessionState::Ready,
            SessionEvent::ConnectFailed => SessionState::TerminatedFatal,
            _ => SessionState::Connecting,
        },
        SessionState::Ready => match event {
            SessionEvent::InputLine => SessionState::Exchanging,
            SessionEvent::InputEnded => SessionState::TerminatedNormal,
            SessionEvent::PeerDisconnected => SessionState::TerminatedFatal,
            _ => SessionState::Ready,
        },
        SessionState::Exchanging => match event {
            SessionEvent::ExchangeDone => SessionState::Ready,
            SessionEvent::ExchangeFailed => SessionState::TerminatedFatal,
            SessionEvent::PeerDisconnected => SessionState::TerminatedFatal,
            _ => SessionState::Exchanging,
        },
        SessionState::TerminatedNormal => SessionState::TerminatedNormal,
        SessionState::TerminatedFatal => SessionState::TerminatedFatal,
    }
}

/// The process exit code a finished session reports: success only for a
/// normal termination.
pub fn session_exit_code(state: SessionState) -> (code: i32)
    ensures
        state is TerminatedNormal ==> code == 0,
        !(state is TerminatedNormal) ==> code == 1,
{
    match state {
        SessionState::TerminatedNormal => 0,
        _ => 1,
    }
}

/// The state a session reaches after a whole trace of events, in order.
pub open spec fn spec_run_session(state: SessionState, events: Seq<SessionEvent>) -> SessionState
    decreases events.len(),
{
    if events.len() == 0 {
        state
    } else {
        spec_run_session(spec_session_step(state, events[0]), events.drop_first())
    }
}

/// Law: termination is final. Once a session has terminated, normally or
/// fatally, no trace of further events moves it anywhere else.
pub proof fn lemma_terminated_absorbing(events: Seq<SessionEvent>)
    ensures
        spec_run_session(SessionState::TerminatedNormal, events) == SessionState::TerminatedNormal,
        spec_run_session(SessionState::TerminatedFatal, events) == SessionState::TerminatedFatal,
    decreases events.len(),
{
    if events.len() > 0 {
        lemma_terminated_absorbing(events.drop_first());
    }
}

/// Law: a monitor-detected disconnect ends a live session at once and
/// fatally — in particular from `Ready`, before any further command is
/// solicited or exchanged.
pub proof fn lemma_disconnect_is_fatal(state: SessionState)
    requires
        state is Ready || state is Exchanging,
    ensures
        spec_session_step(state, SessionEvent::PeerDisconnected) == SessionState::TerminatedFatal,
{
}

/// Law: an exchange that completes, reply or no reply, always brings the
/// session back to `Ready`; only a fatal exchange failure or a disconnect
/// escalates.
pub proof fn lemma_exchange_done_returns_ready()
    ensures
        spec_session_step(SessionState::Exchanging, SessionEvent::ExchangeDone)
            == SessionState::Ready,
{
}

/// `l` without one trailing carriage return, as batch line splitting strips
/// it before a terminator.
pub open spec fn strip_cr(l: Seq<char>) -> Seq<char> {
    if l.len() > 0 && l.last() == '\r' {
        l.drop_last()
    } else {
        l
    }
}

/// The command lines of a pre-assembled batch text: segments between
/// terminators, a carriage return before a terminator stripped, and no empty
/// final segment for a text that ends with a terminator.
pub open spec fn spec_split_lines(s: Seq<char>) -> Seq<Seq<char>>
    decreases s.len(),
{
    if s.len() == 0 {
        Seq::empty()
    } else {
        let p = prefix_until(s, '\n') as int;
        if p < s.len() {
            seq![strip_cr(s.subrange(0, p))] + spec_split_lines(s.subrange(p + 1, s.len() as int))
        } else {
            seq![s]
        }
    }
}

/// Split a pre-assembled batch text into its command lines.
pub fn split_lines(text: &str) -> (lines: Vec<String>)
    ensures
        lines.deep_view() == spec_split_lines(text@),
{
    let n = text.unicode_len();
    let mut lines: Vec<String> = Vec::new();
    let mut pos: usize = 0;

    proof {
        assert(text@.subrange(0, n as int) =~= text@);
        assert(lines.deep_view() =~= Seq::<Seq<char>>::empty());
        assert(lines.deep_view() + spec_split_lines(text@) =~= spec_split_lines(text@));
    }

    while pos < n
        invariant
            pos <= n,
            n == text@.len(),
            spec_split_lines(text@) == lines.deep_view() + spec_split_lines(
                text@.subrange(pos as int, n as int),
            ),
        decreases n - pos,
    {
        let ghost suffix = text@.subrange(pos as int, n as int);
        let ghost pre_lines = lines.deep_view();

        let mut i: usize = pos;
        while i < n && text.get_char(i) != '\n'
            invariant
                pos <= i <= n,
                n == text@.len(),
                forall|k: int| pos <= k < i ==> text@[k] != '\n',
            decreases n - i,
        {
            i += 1;
        }

        proof {
            lemma_prefix_until(suffix, '\n');
            let p = prefix_until(suffix, '\n') as int;
            assert forall|k: int| 0 <= k < suffix.len() implies suffix[k] == text@[pos + k] by {}
            if p < i - pos {
                assert(suffix[p] == '\n');
            }
            if i - pos < p {
                assert(suffix[i - pos] != '\n');
                assert(i < n);
            }
            assert(p == i - pos);
        }

        let end = if i < n && i > pos && text.get_char(i - 1) == '\r' {
            i - 1
        } else {
            i
        };
        let line = text.substring_char(pos, end).to_owned();
        lines.push(line);
        let next = if i < n {
            i + 1
        } else {
            n
        };

        proof {
            let p = prefix_until(suffix, '\n') as int;
            if i < n {
                assert(strip_cr(suffix.subrange(0, p)) =~= text@.subrange(pos as int, end as int));
                assert(suffix.subrange(p + 1, suffix.len() as int) =~= text@.subrange(
                    next as int,
                    n as int,
                ));
            } else {
                assert(suffix =~= text@.subrange(pos as int, end as int));
                assert(text@.subrange(next as int, n as int) =~= Seq::<char>::empty());
            }
            assert(lines.deep_view() =~= pre_lines.push(line@));
            assert(pre_lines + spec_split_lines(suffix) =~= lines.deep_view() + spec_split_lines(
                text@.subrange(next as int, n as int),
            ));
        }

        pos = next;
    }

    proof {
        assert(text@.subrange(pos as int, n as int) =~= Seq::<char>::empty());
        assert(lines.deep_view() + Seq::<Seq<char>>::empty() =~= lines.deep_view());
    }

    lines
}

/// State and printed responses after replaying `cmds` in order from state
/// `c`: each command is exchanged in turn, and each response present is kept,
/// in order.
pub open spec fn spec_run_batch(c: ConnView, cmds: Seq<Seq<char>>) -> (ConnView, Seq<Seq<char>>)
    decreases cmds.len(),
{
    if cmds.len() == 0 {
        (c, Seq::empty())
    } else {
        let (c1, r) = spec_exchange(c, cmds[0]);
        let (c2, rs) = spec_run_batch(c1, cmds.drop_first());
        match r {
            Some(t) => (c2, seq![t] + rs),
            None => (c2, rs),
        }
    }
}

/// Replay a finite batch of command lines against the connection, in order,
/// and collect the responses that were present — the lines batch mode
/// prints. The first write failure is fatal: it is propagated at once, with
/// the connection as the failed exchange left it (untouched), and no later
/// command is attempted. No liveness monitor runs in batch mode.
pub fn run_batch(conn: &mut Connection, commands: &Vec<String>, deadline_ms: u64) -> (r: Result<
    Vec<String>,
    ExchangeError,
>)
    requires
        old(conn).wf(),
    ensures
        final(conn).wf(),
        !old(conn)@.write_broken ==> (r matches Ok(resps) && final(conn)@ == spec_run_batch(
            old(conn)@,
            commands.deep_view(),
        ).0 && resps.deep_view() == spec_run_batch(old(conn)@, commands.deep_view()).1),
        old(conn)@.write_broken && commands@.len() > 0 ==> r == Result::<
            Vec<String>,
            ExchangeError,
        >::Err(ExchangeError::WriteFailed) && final(conn)@ == old(conn)@,
        old(conn)@.write_broken && commands@.len() == 0 ==> (r matches Ok(resps) && resps@.len()
            == 0 && final(conn)@ == old(conn)@),
{
    let ghost full = commands.deep_view();
    let mut responses: Vec<String> = Vec::new();
    let mut idx: usize = 0;

    proof {
        assert(full.skip(0) =~= full);
        assert(responses.deep_view() =~= Seq::<Seq<char>>::empty());
        assert(responses.deep_view() + spec_run_batch(conn@, full).1 =~= spec_run_batch(
            conn@,
            full,
        ).1);
    }

    while idx < commands.len()
        invariant
            idx <= commands@.len(),
            conn.wf(),
            full == commands.deep_view(),
            conn@.write_broken == old(conn)@.write_broken,
            old(conn)@.write_broken ==> idx == 0 && conn@ == old(conn)@ && responses@.len() == 0,
            !old(conn)@.write_broken ==> {
                &&& spec_run_batch(old(conn)@, full).0 == spec_run_batch(
                    conn@,
                    full.skip(idx as int),
                ).0
                &&& spec_run_batch(old(conn)@, full).1 == responses.deep_view() + spec_run_batch(
                    conn@,
                    full.skip(idx as int),
                ).1
            },
        decreases commands@.len() - idx,
    {
        let ghost pre = conn@;
        let ghost pre_resps = responses.deep_view();
        let cmd = &commands[idx];
        proof {
            assert(full.skip(idx as int)[0] == full[idx as int]);
            assert(full[idx as int] == cmd@);
        }
        match exchange(conn, cmd.as_str(), deadline_ms) {
            Err(e) => {
                return Err(e);
            },
            Ok(opt) => {
                match opt {
                    Some(t) => {
                        responses.push(t);
                    },
                    None => {},
                }
            },
        }
        idx += 1;
        proof {
            assert(full.skip(idx - 1).drop_first() =~= full.skip(idx as int));
            if spec_exchange(pre, full[idx - 1]).1 is Some {
                assert(responses.deep_view() =~= pre_resps.push(
                    spec_exchange(pre, full[idx - 1]).1.unwrap(),
                ));
                assert(pre_resps + (seq![spec_exchange(pre, full[idx - 1]).1.unwrap()]
                    + spec_run_batch(conn@, full.skip(idx as int)).1) =~= responses.deep_view()
                    + spec_run_batch(conn@, full.skip(idx as int)).1);
            }
        }
    }

    proof {
        assert(full.skip(idx as int) =~= Seq::<Seq<char>>::empty());
        if !old(conn)@.write_broken {
            assert(responses.deep_view() + Seq::<Seq<char>>::empty() =~= responses.deep_view());
        }
    }

    Ok(responses)
}

} // verus!
