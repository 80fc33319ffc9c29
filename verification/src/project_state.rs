//! Routing of the replies that a project save waits for: while a capture is
//! pending, replies correlated with one of its request ids go to the capture
//! (once each); every other reply goes on to the user interface.

use std::collections::HashMap;
use vstd::prelude::*;

verus! {

/// Where one reply goes.
#[derive(Clone, Copy, Debug, PartialEq, Eq, Structural)]
pub enum FeedbackRoute {
    /// Not part of the pending capture: deliver it to the user interface.
    Forward,
    /// Part of the capture and not delivered yet: send it to the capture.
    Deliver,
    /// Part of the capture and already delivered: drop it.
    Drop,
}

/// A capture was requested while another one was still pending.
#[derive(Clone, Copy, Debug, PartialEq, Eq, Structural)]
pub struct CaptureAlreadyPending;

impl CaptureAlreadyPending {
    pub fn message(&self) -> (s: String)
        ensures
            s@ == "A project state capture is already pending"@,
    {
        "A project state capture is already pending".to_owned()
    }
}

/// The request ids of the pending capture, each with whether its reply was
/// delivered.
pub struct ProjectStateFeedback {
    active: Option<HashMap<u32, bool>>,
}

/// The map of a capture with `ids`, none delivered.
pub open spec fn fresh_capture(ids: Seq<u32>) -> Map<u32, bool> {
    Map::new(|id: u32| ids.contains(id), |id: u32| false)
}

/// Where a reply with correlation id `id` goes while `pending` is the capture.
pub open spec fn route_of(pending: Option<Map<u32, bool>>, id: Option<u32>) -> FeedbackRoute {
    match (pending, id) {
        (Some(m), Some(i)) => if m.contains_key(i) {
            if m[i] { FeedbackRoute::Drop } else { FeedbackRoute::Deliver }
        } else {
            FeedbackRoute::Forward
        },
        _ => FeedbackRoute::Forward,
    }
}

impl ProjectStateFeedback {
    /// The pending capture, if any.
    pub closed spec fn pending(&self) -> Option<Map<u32, bool>> {
        match self.active {
            Some(m) => Some(m@),
            None => None,
        }
    }

    /// A router with no pending capture.
    pub fn new() -> (r: Self)
        ensures
            r.pending() is None,
    {
        ProjectStateFeedback { active: None }
    }

    /// Whether a capture is pending.
    pub fn is_pending(&self) -> (r: bool)
        ensures
            r == self.pending() is Some,
    {
        self.active.is_some()
    }

    /// Starts a capture waiting for the replies to `ids`. Refused while
    /// another capture is pending. Returns how many replies the capture's
    /// channel must hold: the number of distinct ids, and at least one.
    pub fn register(&mut self, ids: &[u32]) -> (r: Result<usize, CaptureAlreadyPending>)
        ensures
            old(self).pending() is Some ==> r == Err::<usize, CaptureAlreadyPending>(CaptureAlreadyPending)
                && final(self).pending() == old(self).pending(),
            old(self).pending() is None ==> r is Ok && final(self).pending() == Some(fresh_capture(ids@))
                && r->Ok_0 == (if fresh_capture(ids@).len() > 1 { fresh_capture(ids@).len() } else { 1 }),
    {
        broadcast use vstd::std_specs::hash::group_hash_axioms;

        if self.active.is_some() {
            return Err(CaptureAlreadyPending);
        }
        let mut capture: HashMap<u32, bool> = HashMap::new();
        let mut i: usize = 0;
        proof {
            assert(capture@ =~= fresh_capture(ids@.subrange(0, 0)));
        }
        while i < ids.len()
            invariant
                i <= ids@.len(),
                capture@ == fresh_capture(ids@.subrange(0, i as int)),
            decreases ids@.len() - i,
        {
            let id = ids[i];
            capture.insert(id, false);
            proof {
                let pre = ids@.subrange(0, i as int);
                let post = ids@.subrange(0, i + 1);
                assert(post =~= pre.push(id));
                assert forall|x: u32| post.contains(x) <==> pre.contains(x) || x == id by {
                    if pre.contains(x) {
                        let w = choose|w: int| 0 <= w < pre.len() && pre[w] == x;
                        assert(post[w] == x);
                    }
                    if x == id {
                        assert(post[i as int] == id);
                    }
                    if post.contains(x) && x != id {
                        let w = choose|w: int| 0 <= w < post.len() && post[w] == x;
                        assert(pre[w] == x);
                    }
                };
                assert(capture@ =~= fresh_capture(post));
            }
            i = i + 1;
        }
        proof {
            assert(ids@.subrange(0, ids@.len() as int) =~= ids@);
        }
        let count = capture.len();
        self.active = Some(capture);
        Ok(if count > 1 { count } else { 1 })
    }

    /// Where the reply with correlation id `id` goes.
    pub fn route(&self, id: Option<u32>) -> (r: FeedbackRoute)
        ensures
            r == route_of(self.pending(), id),
    {
        broadcast use vstd::std_specs::hash::group_hash_axioms;

        let i = match id {
            Some(i) => i,
            None => {
                return FeedbackRoute::Forward;
            },
        };
        match &self.active {
            Some(capture) => match capture.get(&i) {
                Some(delivered) => if *delivered { FeedbackRoute::Drop } else { FeedbackRoute::Deliver },
                None => FeedbackRoute::Forward,
            },
            None => FeedbackRoute::Forward,
        }
    }

    /// Records whether the reply for `id` reached the capture; a reply that
    /// could not be sent stays undelivered.
    pub fn record_delivery(&mut self, id: u32, sent: bool)
        ensures
            final(self).pending() == match old(self).pending() {
                Some(m) => if m.contains_key(id) { Some(m.insert(id, sent)) } else { Some(m) },
                None => None::<Map<u32, bool>>,
            },
    {
        broadcast use vstd::std_specs::hash::group_hash_axioms;

        let taken = self.active.take();
        match taken {
            Some(mut capture) => {
                if capture.contains_key(&id) {
                    capture.insert(id, sent);
                }
                self.active = Some(capture);
            },
            None => {},
        }
    }

    /// Ends the pending capture (its receiver went away).
    pub fn release(&mut self)
        ensures
            final(self).pending() is None,
    {
        self.active = None;
    }
}

/// A reply is delivered to a capture at most once: after its delivery is
/// recorded, a second reply with the same id is dropped.
pub proof fn law_capture_reply_delivered_once(pending: Map<u32, bool>, id: u32)
    requires
        pending.contains_key(id),
        !pending[id],
    ensures
        route_of(Some(pending), Some(id)) == FeedbackRoute::Deliver,
        route_of(Some(pending.insert(id, true)), Some(id)) == FeedbackRoute::Drop,
{
}

/// Replies that carry no correlation id, or one the capture does not wait
/// for, always go on to the user interface.
pub proof fn law_uncorrelated_replies_are_forwarded(pending: Option<Map<u32, bool>>, id: Option<u32>)
    requires
        id is None || pending is None || !pending->0.contains_key(id->0),
    ensures
        route_of(pending, id) == FeedbackRoute::Forward,
{
}

} // verus!
