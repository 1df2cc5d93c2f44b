//! The connection-liveness monitor.
//!
//! While the interactive loop blocks on user keystrokes, a background task
//! probes the connection on a fixed interval with a non-consuming peek and
//! decides from each probe whether the peer has silently closed the
//! connection. Only an end-of-stream peek is fatal; no data on an open
//! connection is not an error, and neither is a failed probe.

use vstd::prelude::*;

use crate::transport::spec_peek;
use crate::transport::Connection;
use crate::transport::PeekOutcome;

verus! {

/// What one probe of the connection means for the session.
#[derive(Clone, Copy, Debug, PartialEq, Eq, Structural)]
pub enum MonitorVerdict {
    /// The connection may still carry traffic: the session goes on.
    Alive,
    /// The peer has closed the connection: the session is dead and must end.
    ConnectionLost,
}

/// The verdict a probe outcome carries.
pub open spec fn spec_monitor_verdict(peek: PeekOutcome) -> MonitorVerdict {
    if peek is Closed {
        MonitorVerdict::ConnectionLost
    } else {
        MonitorVerdict::Alive
    }
}

/// Decide what one probe outcome means: only an end-of-stream peek declares
/// the connection lost. Data waiting, nothing waiting on an open connection,
/// and a probe that itself failed all leave the session running.
pub fn monitor_verdict(peek: PeekOutcome) -> (v: MonitorVerdict)
    ensures
        v == spec_monitor_verdict(peek),
{
    match peek {
        PeekOutcome::Closed => MonitorVerdict::ConnectionLost,
        PeekOutcome::Data => MonitorVerdict::Alive,
        PeekOutcome::WouldBlock => MonitorVerdict::Alive,
        PeekOutcome::Failed => MonitorVerdict::Alive,
    }
}

/// One whole monitor interval against the model connection: probe once,
/// through a shared borrow that cannot move the reader's cursor, and decide.
/// The connection is declared lost exactly when the peer has closed its end
/// and no unread data is waiting.
pub fn monitor_poll(conn: &Connection) -> (v: MonitorVerdict)
    requires
        conn.wf(),
    ensures
        v == spec_monitor_verdict(spec_peek(conn@)),
        (v is ConnectionLost <==> (conn@.peer_closed && conn@.remaining().len() == 0)),
{
    monitor_verdict(conn.peek())
}

} // verus!
