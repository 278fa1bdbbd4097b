//! Decision logic of the per-connection session loop.
//!
//! A session loop interleaves two event sources on one worker: the bounded
//! network read and the session's reply inbox.  Everything it decides — what
//! a frame, a timeout, a close or an error means, and when the single
//! Disconnect is owed to the actor — is pure and lives here.  The caller
//! performs the I/O, hands each observed event to [`Session::on_event`], and
//! carries out the returned action: forward a request to the actor, drain and
//! flush the reply inbox, or stop and release the connection.

use vstd::prelude::*;
use crate::actor::{Request, RequestView};
use crate::codec::{dec_client, decode_client_message};

verus! {

/// One event a session loop observes on its connection, stripped of
/// transport detail: a binary frame's payload, some other frame (text, ping),
/// the bounded read running out, a close frame, or a transport error.
pub enum SessionEvent {
    Frame(Vec<u8>),
    OtherFrame,
    Timeout,
    Closed,
    TransportError,
}

/// What the caller must do next: forward a request to the actor and stay in
/// the loop; just drain the reply inbox and stay; or send the final request
/// and leave the loop.
pub enum SessionAction {
    Forward(Request),
    Idle,
    Shutdown(Request),
}

/// The decision state of one session loop: its id, and whether the loop is
/// still running.  Once a session shuts down it stays down, so the single
/// `Disconnect` in the `Shutdown` action is emitted exactly once.
pub struct Session {
    id: String,
    active: bool,
}

impl Session {
    /// This session's id.
    pub closed spec fn spec_id(&self) -> Seq<char> {
        self.id@
    }

    /// Whether the loop is still running.
    pub closed spec fn is_active(&self) -> bool {
        self.active
    }

    /// A session for a freshly accepted connection with this display id.
    pub fn new(id: String) -> (s: Session)
        ensures
            s.spec_id() == id@,
            s.is_active(),
    {
        Session { id, active: true }
    }

    /// This session's id, for routing its replies.
    pub fn id(&self) -> (r: &String)
        ensures
            r@ == self.spec_id(),
    {
        &self.id
    }

    /// The one Connect request announcing this session to the actor.
    pub fn connect_request(&self) -> (r: Request)
        ensures
            r@ == RequestView::Connect(self.spec_id()),
    {
        Request::Connect(self.id.clone())
    }

    /// Decides what one network event means.  A decodable binary frame is
    /// forwarded as this session's own request; a close frame, a transport
    /// error or an undecodable frame ends the loop, handing back the
    /// session's single Disconnect; a timeout or an unexpected frame is the
    /// scheduling tick on which the caller drains the reply inbox.
    pub fn on_event(&mut self, ev: SessionEvent) -> (a: SessionAction)
        requires
            old(self).is_active(),
        ensures
            final(self).spec_id() == old(self).spec_id(),
            match ev {
                SessionEvent::Frame(bytes) => (match dec_client(bytes@) {
                    Some(m) => a matches SessionAction::Forward(r) && r@ == RequestView::Player(
                        old(self).spec_id(),
                        m,
                    ) && final(self).is_active(),
                    None => a matches SessionAction::Shutdown(r) && r@ == RequestView::Disconnect(
                        old(self).spec_id(),
                    ) && !final(self).is_active(),
                }),
                SessionEvent::OtherFrame => a is Idle && final(self).is_active(),
                SessionEvent::Timeout => a is Idle && final(self).is_active(),
                SessionEvent::Closed => a matches SessionAction::Shutdown(r) && r@
                    == RequestView::Disconnect(old(self).spec_id()) && !final(self).is_active(),
                SessionEvent::TransportError => a matches SessionAction::Shutdown(r) && r@
                    == RequestView::Disconnect(old(self).spec_id()) && !final(self).is_active(),
            },
    {
        match ev {
            SessionEvent::Frame(bytes) => match decode_client_message(&bytes) {
                Some(m) => SessionAction::Forward(Request::Player(self.id.clone(), m)),
                None => {
                    self.active = false;
                    SessionAction::Shutdown(Request::Disconnect(self.id.clone()))
                },
            },
            SessionEvent::OtherFrame => SessionAction::Idle,
            SessionEvent::Timeout => SessionAction::Idle,
            SessionEvent::Closed => {
                self.active = false;
                SessionAction::Shutdown(Request::Disconnect(self.id.clone()))
            },
            SessionEvent::TransportError => {
                self.active = false;
                SessionAction::Shutdown(Request::Disconnect(self.id.clone()))
            },
        }
    }
}

} // verus!
