//! The registry of subscribed sessions and the fan-out of combination events
//! to them.

use crate::error::ErrorKind;
use crate::text::prefixed;
use vstd::prelude::*;

verus! {

/// One message for one session.
#[derive(Debug, PartialEq, Eq)]
pub struct Delivery {
    pub session: u64,
    pub message: String,
}

/// The sessions that are subscribed to combination events, in the order in
/// which they subscribed. No session is in it twice.
pub struct Broadcaster {
    sessions: Vec<u64>,
}

/// The message that tells a client of a combination.
pub open spec fn event_message(combo: Seq<char>) -> Seq<char> {
    "COMBO:"@ + combo
}

/// The sessions without `session`.
pub open spec fn without(sessions: Seq<u64>, session: u64) -> Seq<u64> {
    if sessions.contains(session) {
        sessions.remove(sessions.index_of(session))
    } else {
        sessions
    }
}

/// A list of sessions without repetition has lost a session that was taken
/// out of it, has kept the others, and is still without repetition.
pub proof fn lemma_without(sessions: Seq<u64>, session: u64)
    requires
        sessions.no_duplicates(),
    ensures
        without(sessions, session).no_duplicates(),
        !without(sessions, session).contains(session),
        forall|other: u64|
            other != session ==> (without(sessions, session).contains(other) <==> sessions.contains(
                other,
            )),
{
    let rest = without(sessions, session);
    if sessions.contains(session) {
        let i = sessions.index_of(session);
        assert(0 <= i < sessions.len() && sessions[i] == session);
        assert forall|a: int, b: int| 0 <= a < rest.len() && 0 <= b < rest.len() && a != b implies rest[a]
            != rest[b] by {
            let a0 = if a < i {
                a
            } else {
                a + 1
            };
            let b0 = if b < i {
                b
            } else {
                b + 1
            };
            assert(rest[a] == sessions[a0] && rest[b] == sessions[b0]);
        }
        assert forall|k: int| 0 <= k < rest.len() implies rest[k] != session by {
            let k0 = if k < i {
                k
            } else {
                k + 1
            };
            assert(rest[k] == sessions[k0]);
        }
        assert forall|other: u64| other != session implies (rest.contains(other)
            <==> sessions.contains(other)) by {
            if rest.contains(other) {
                let k = choose|k: int| 0 <= k < rest.len() && rest[k] == other;
                let k0 = if k < i {
                    k
                } else {
                    k + 1
                };
                assert(sessions[k0] == other);
            }
            if sessions.contains(other) {
                let k = choose|k: int| 0 <= k < sessions.len() && sessions[k] == other;
                let k1 = if k < i {
                    k
                } else {
                    k - 1
                };
                assert(rest[k1] == other);
            }
        }
    }
}

/// The message that tells a client of a combination.
pub fn combo_message(combo: &str) -> (message: String)
    ensures
        message@ == event_message(combo@),
{
    prefixed("COMBO:", combo)
}

impl Broadcaster {
    /// The subscribed sessions, in the order in which they subscribed.
    pub closed spec fn view(&self) -> Seq<u64> {
        self.sessions@
    }

    /// No session is subscribed twice.
    pub open spec fn wf(&self) -> bool {
        self@.no_duplicates()
    }

    /// A registry without sessions.
    pub fn new() -> (broadcaster: Broadcaster)
        ensures
            broadcaster.wf(),
            broadcaster@ == Seq::<u64>::empty(),
    {
        Broadcaster { sessions: Vec::new() }
    }

    /// The place of a session in the registry.
    fn position(&self, session: u64) -> (r: Option<usize>)
        requires
            self.wf(),
        ensures
            match r {
                Some(i) => i < self@.len() && self@[i as int] == session && self@.index_of(session)
                    == i,
                None => !self@.contains(session),
            },
    {
        let mut i: usize = 0;
        while i < self.sessions.len()
            invariant
                i <= self.sessions.len(),
                self.wf(),
                forall|k: int| 0 <= k < i ==> self.sessions@[k] != session,
            decreases self.sessions.len() - i,
        {
            if self.sessions[i] == session {
                return Some(i);
            }
            i += 1;
        }
        None
    }

    /// Whether the session is subscribed.
    pub fn is_subscribed(&self, session: u64) -> (r: bool)
        requires
            self.wf(),
        ensures
            r == self@.contains(session),
    {
        self.position(session).is_some()
    }

    /// Subscribes a session, behind those that are subscribed. Returns
    /// whether it was new; a session that is subscribed stays where it is.
    pub fn subscribe(&mut self, session: u64) -> (added: bool)
        requires
            old(self).wf(),
        ensures
            final(self).wf(),
            added == !old(self)@.contains(session),
            final(self)@ == if added {
                old(self)@.push(session)
            } else {
                old(self)@
            },
            final(self)@.contains(session),
    {
        if self.position(session).is_some() {
            false
        } else {
            self.sessions.push(session);
            assert(self@[self@.len() - 1] == session);
            true
        }
    }

    /// Ends the subscription of a session. Returns whether it was
    /// subscribed; the other sessions stay, in their order.
    pub fn unsubscribe(&mut self, session: u64) -> (removed: bool)
        requires
            old(self).wf(),
        ensures
            final(self).wf(),
            removed == old(self)@.contains(session),
            final(self)@ == without(old(self)@, session),
            !final(self)@.contains(session),
    {
        proof {
            lemma_without(self@, session);
        }
        match self.position(session) {
            Some(i) => {
                self.sessions.remove(i);
                true
            },
            None => false,
        }
    }

    /// Takes note of how a delivery went. A message that could not be sent
    /// shows that the session's connection is closed: its subscription ends,
    /// the other sessions stay as they are, and the failure is
    /// `TransportClosed`.
    pub fn settle_delivery(&mut self, session: u64, sent: bool) -> (r: Result<(), ErrorKind>)
        requires
            old(self).wf(),
        ensures
            final(self).wf(),
            sent ==> r is Ok && final(self)@ == old(self)@,
            !sent ==> r == Err::<(), ErrorKind>(ErrorKind::TransportClosed) && final(self)@
                == without(old(self)@, session),
    {
        if sent {
            Ok(())
        } else {
            self.unsubscribe(session);
            Err(ErrorKind::TransportClosed)
        }
    }

    /// The deliveries that publish a combination: its message, once for each
    /// session that is subscribed now, in the order of the sessions.
    pub fn publish(&self, combo: &str) -> (deliveries: Vec<Delivery>)
        ensures
            deliveries.len() == self@.len(),
            forall|i: int|
                0 <= i < deliveries.len() ==> (#[trigger] deliveries[i]).session == self@[i]
                    && deliveries[i].message@ == event_message(combo@),
    {
        let mut deliveries: Vec<Delivery> = Vec::new();
        let mut i: usize = 0;
        while i < self.sessions.len()
            invariant
                i <= self.sessions.len(),
                deliveries.len() == i,
                forall|k: int|
                    0 <= k < i ==> (#[trigger] deliveries[k]).session == self.sessions@[k]
                        && deliveries[k].message@ == event_message(combo@),
            decreases self.sessions.len() - i,
        {
            deliveries.push(Delivery { session: self.sessions[i], message: combo_message(combo) });
            i += 1;
        }
        deliveries
    }
}

} // verus!
