//! The response broker: correlates thumbnail requests with the worker's
//! eventual responses.
//!
//! Two loops run concurrently in the embedding application — intake files
//! `(request id, responder)` pairs, completion matches arriving
//! `(request id, payload)` messages — over one shared pending-request
//! table, locked around each step.  The table and the broker's life cycle
//! (`Running` to `Stopping` to `Stopped`, terminal) live here; each loop
//! iteration is one call of [`ResponseHandler::intake_step`] or
//! [`ResponseHandler::completion_step`].  A completion for an id nobody
//! registered is discarded without error; responders still pending at
//! shutdown are abandoned, never invoked.

use vstd::prelude::*;

verus! {

/// Broker life cycle; `Stopped` is terminal.
#[derive(Debug, Clone, Copy, PartialEq, Eq, Structural)]
pub enum BrokerPhase {
    Running,
    Stopping,
    Stopped,
}

/// What the intake loop drew from the submission queue in one iteration.
pub enum IntakeEvent<R> {
    /// A caller filed a request id with its one-shot completion handle.
    Request(String, R),
    /// The poll timed out; check the phase and go around.
    TimedOut,
    /// The submission queue is closed; the loop must exit.
    Closed,
}

/// What the completion loop drew from the worker channel in one iteration.
pub enum CompletionEvent {
    /// The worker answered the given request id with a payload.
    Response(String, Vec<u8>),
    /// The poll timed out; check the phase and go around.
    TimedOut,
    /// The worker channel is closed or failed; the loop must exit.
    Closed,
}

/// What the completion loop must do after one step.
pub enum CompletionAction<R> {
    /// Invoke this responder with this payload: its request completed.
    Respond(R, Vec<u8>),
    /// Nothing to deliver; keep looping.
    Ignore,
    /// Leave the loop.
    Exit,
}

/// The pending-request map an entry list denotes, later entries over
/// earlier ones.
pub open spec fn entries_map<R>(s: Seq<(String, R)>) -> Map<Seq<char>, R>
    decreases s.len(),
{
    if s.len() == 0 {
        Map::empty()
    } else {
        entries_map(s.drop_last()).insert(s.last().0@, s.last().1)
    }
}

/// No request id occurs twice in the entry list.
pub open spec fn distinct_keys<R>(s: Seq<(String, R)>) -> bool {
    forall|i: int, j: int| 0 <= i < j < s.len() ==> (#[trigger] s[i]).0@ != (#[trigger] s[j]).0@
}

proof fn lemma_entries_map_contains<R>(s: Seq<(String, R)>, k: Seq<char>)
    ensures
        entries_map(s).contains_key(k) <==> exists|i: int|
            0 <= i < s.len() && (#[trigger] s[i]).0@ == k,
    decreases s.len(),
{
    if s.len() > 0 {
        lemma_entries_map_contains(s.drop_last(), k);
        if entries_map(s).contains_key(k) {
            if s.last().0@ == k {
                assert(s[s.len() - 1].0@ == k);
            } else {
                let i = choose|i: int|
                    0 <= i < s.drop_last().len() && (#[trigger] s.drop_last()[i]).0@ == k;
                assert(s[i].0@ == k);
            }
        }
        if exists|i: int| 0 <= i < s.len() && (#[trigger] s[i]).0@ == k {
            let i = choose|i: int| 0 <= i < s.len() && (#[trigger] s[i]).0@ == k;
            if i < s.len() - 1 {
                assert(s.drop_last()[i].0@ == k);
            }
        }
    }
}

proof fn lemma_entries_map_at<R>(s: Seq<(String, R)>, i: int)
    requires
        distinct_keys(s),
        0 <= i < s.len(),
    ensures
        entries_map(s).contains_key(s[i].0@),
        entries_map(s)[s[i].0@] == s[i].1,
    decreases s.len(),
{
    if i < s.len() - 1 {
        assert(distinct_keys(s.drop_last()));
        assert(s.drop_last()[i] == s[i]);
        lemma_entries_map_at(s.drop_last(), i);
        assert(s[i].0@ != s[s.len() - 1].0@);
    }
}

proof fn lemma_entries_map_remove<R>(s: Seq<(String, R)>, i: int)
    requires
        distinct_keys(s),
        0 <= i < s.len(),
    ensures
        entries_map(s.remove(i)) == entries_map(s).remove(s[i].0@),
    decreases s.len(),
{
    if i == s.len() - 1 {
        assert(s.remove(i) =~= s.drop_last());
        lemma_entries_map_contains(s.drop_last(), s[i].0@);
        assert forall|t: int| 0 <= t < s.drop_last().len() implies (#[trigger] s.drop_last()[t]).0@
            != s[i].0@ by {
            assert(s[t].0@ != s[i].0@);
        }
        assert(!entries_map(s.drop_last()).contains_key(s[i].0@));
        assert(entries_map(s.drop_last()).insert(s[i].0@, s[i].1).remove(s[i].0@) =~= entries_map(
            s.drop_last(),
        ));
    } else {
        assert(distinct_keys(s.drop_last()));
        assert(s.remove(i).drop_last() =~= s.drop_last().remove(i));
        assert(s.remove(i).last() == s.last());
        lemma_entries_map_remove(s.drop_last(), i);
        assert(s[i].0@ != s.last().0@);
        assert(entries_map(s.drop_last()).remove(s[i].0@).insert(s.last().0@, s.last().1)
            =~= entries_map(s.drop_last()).insert(s.last().0@, s.last().1).remove(s[i].0@));
    }
}

proof fn lemma_entries_map_push<R>(s: Seq<(String, R)>, p: (String, R))
    ensures
        entries_map(s.push(p)) == entries_map(s).insert(p.0@, p.1),
{
    assert(s.push(p).drop_last() =~= s);
    assert(s.push(p).last() == p);
}

/// The shared half of the broker: the pending-request table both loops
/// work on, and the life-cycle phase both loops watch.  The embedding
/// application holds it behind a lock and hands each step exclusive
/// access.
pub struct ResponseHandler<R> {
    pending: Vec<(String, R)>,
    phase: BrokerPhase,
}

impl<R> ResponseHandler<R> {
    /// The pending-request map: request id to the not-yet-invoked handle.
    pub closed spec fn pending_map(&self) -> Map<Seq<char>, R> {
        entries_map(self.pending@)
    }

    pub closed spec fn spec_phase(&self) -> BrokerPhase {
        self.phase
    }

    /// Each outstanding request id is registered at most once.
    pub closed spec fn wf(&self) -> bool {
        distinct_keys(self.pending@)
    }

    pub fn new() -> (b: ResponseHandler<R>)
        ensures
            b.wf(),
            b.pending_map() == Map::<Seq<char>, R>::empty(),
            b.spec_phase() == BrokerPhase::Running,
    {
        let b = ResponseHandler { pending: Vec::new(), phase: BrokerPhase::Running };
        proof {
            assert(b.pending_map() =~= Map::<Seq<char>, R>::empty());
        }
        b
    }

    /// Where `id` is filed, if anywhere.
    fn find_index(&self, id: &String) -> (r: Option<usize>)
        ensures
            match r {
                Some(i) => i < self.pending@.len() && self.pending@[i as int].0@ == id@,
                None => forall|t: int|
                    0 <= t < self.pending@.len() ==> (#[trigger] self.pending@[t]).0@ != id@,
            },
    {
        let n = self.pending.len();
        let mut t: usize = 0;
        while t < n
            invariant
                t <= n,
                n == self.pending@.len(),
                forall|u: int| 0 <= u < t ==> (#[trigger] self.pending@[u]).0@ != id@,
            decreases n - t,
        {
            if self.pending[t].0 == *id {
                return Some(t);
            }
            t = t + 1;
        }
        None
    }

    /// Intake: file a caller's completion handle under its request id.  An
    /// id reused while still outstanding is caller error; the old handle is
    /// overwritten and thereby abandoned.
    pub fn register(&mut self, id: String, responder: R)
        requires
            old(self).wf(),
        ensures
            final(self).wf(),
            final(self).spec_phase() == old(self).spec_phase(),
            final(self).pending_map() == old(self).pending_map().insert(id@, responder),
    {
        let ghost s0 = self.pending@;
        match self.find_index(&id) {
            Some(i) => {
                let _stale = self.pending.remove(i);
                proof {
                    lemma_entries_map_remove(s0, i as int);
                    assert(distinct_keys(self.pending@));
                    lemma_entries_map_push(self.pending@, (id, responder));
                    assert forall|t: int| 0 <= t < self.pending@.len() implies (
                    #[trigger] self.pending@[t]).0@ != id@ by {
                        if t < i {
                            assert(self.pending@[t] == s0[t]);
                            assert(s0[t].0@ != s0[i as int].0@);
                        } else {
                            assert(self.pending@[t] == s0[t + 1]);
                            assert(s0[i as int].0@ != s0[t + 1].0@);
                        }
                    }
                }
                self.pending.push((id, responder));
                proof {
                    assert(self.pending_map() =~= old(self).pending_map().insert(
                        self.pending@.last().0@,
                        self.pending@.last().1,
                    ));
                }
            },
            None => {
                proof {
                    lemma_entries_map_push(s0, (id, responder));
                }
                self.pending.push((id, responder));
            },
        }
    }

    /// Completion: take the handle registered under `id`, if there is one.
    /// An unknown id — a late response, or one the caller abandoned — is
    /// answered with `None`, no error and no change to the table.
    pub fn complete(&mut self, id: &String) -> (r: Option<R>)
        requires
            old(self).wf(),
        ensures
            final(self).wf(),
            final(self).spec_phase() == old(self).spec_phase(),
            old(self).pending_map().contains_key(id@) ==> (r matches Some(h) && h == old(
                self,
            ).pending_map()[id@] && final(self).pending_map() == old(self).pending_map().remove(
                id@,
            )),
            !old(self).pending_map().contains_key(id@) ==> r is None && *final(self) == *old(self),
    {
        let ghost s0 = self.pending@;
        proof {
            lemma_entries_map_contains(s0, id@);
        }
        match self.find_index(id) {
            Some(i) => {
                proof {
                    lemma_entries_map_at(s0, i as int);
                    lemma_entries_map_remove(s0, i as int);
                }
                let entry = self.pending.remove(i);
                proof {
                    assert(distinct_keys(self.pending@));
                }
                Some(entry.1)
            },
            None => {
                proof {
                    assert(!old(self).pending_map().contains_key(id@));
                }
                None
            },
        }
    }

    /// Request shutdown: a running broker starts stopping; one already
    /// stopping or stopped stays where it is.  The table is untouched.
    pub fn stop(&mut self)
        ensures
            final(self).pending_map() == old(self).pending_map(),
            final(self).wf() == old(self).wf(),
            final(self).spec_phase() == (if old(self).spec_phase() == BrokerPhase::Running {
                BrokerPhase::Stopping
            } else {
                old(self).spec_phase()
            }),
    {
        match self.phase {
            BrokerPhase::Running => {
                self.phase = BrokerPhase::Stopping;
            },
            _ => {},
        }
    }

    /// The terminal transition, once both loops have exited: whatever is
    /// still pending is abandoned — dropped without ever being invoked —
    /// and the broker is `Stopped` for good.
    pub fn shutdown(&mut self)
        ensures
            final(self).wf(),
            final(self).spec_phase() == BrokerPhase::Stopped,
            final(self).pending_map() == Map::<Seq<char>, R>::empty(),
    {
        self.pending.clear();
        self.phase = BrokerPhase::Stopped;
        proof {
            assert(self.pending_map() =~= Map::<Seq<char>, R>::empty());
        }
    }

    /// One iteration of the intake loop.  While the broker runs, a drawn
    /// request is filed and the loop goes on; a timeout just goes around; a
    /// closed queue ends the loop.  Once the broker is no longer running
    /// the loop exits at once, and an event drawn in that last iteration is
    /// dropped — its responder is abandoned like any other at shutdown.
    pub fn intake_step(&mut self, event: IntakeEvent<R>) -> (cont: bool)
        requires
            old(self).wf(),
        ensures
            final(self).wf(),
            final(self).spec_phase() == old(self).spec_phase(),
            old(self).spec_phase() != BrokerPhase::Running ==> !cont && *final(self) == *old(self),
            old(self).spec_phase() == BrokerPhase::Running ==> match event {
                IntakeEvent::Request(id, responder) => cont && final(self).pending_map() == old(
                    self,
                ).pending_map().insert(id@, responder),
                IntakeEvent::TimedOut => cont && *final(self) == *old(self),
                IntakeEvent::Closed => !cont && *final(self) == *old(self),
            },
    {
        let running = match self.phase {
            BrokerPhase::Running => true,
            _ => false,
        };
        if !running {
            return false;
        }
        match event {
            IntakeEvent::Request(id, responder) => {
                self.register(id, responder);
                true
            },
            IntakeEvent::TimedOut => true,
            IntakeEvent::Closed => false,
        }
    }

    /// One iteration of the completion loop.  While the broker runs, a
    /// worker response for a registered id takes its responder out of the
    /// table to be invoked exactly once; one for an unknown id is discarded
    /// with no error and no change; a timeout goes around; a closed channel
    /// ends the loop.  Once the broker is no longer running the loop exits
    /// at once.
    pub fn completion_step(&mut self, event: CompletionEvent) -> (action: CompletionAction<R>)
        requires
            old(self).wf(),
        ensures
            final(self).wf(),
            final(self).spec_phase() == old(self).spec_phase(),
            old(self).spec_phase() != BrokerPhase::Running ==> action is Exit && *final(self)
                == *old(self),
            old(self).spec_phase() == BrokerPhase::Running ==> match event {
                CompletionEvent::Response(id, payload) => if old(self).pending_map().contains_key(
                    id@,
                ) {
                    action == CompletionAction::Respond(old(self).pending_map()[id@], payload)
                        && final(self).pending_map() == old(self).pending_map().remove(id@)
                } else {
                    action is Ignore && *final(self) == *old(self)
                },
                CompletionEvent::TimedOut => action is Ignore && *final(self) == *old(self),
                CompletionEvent::Closed => action is Exit && *final(self) == *old(self),
            },
    {
        let running = match self.phase {
            BrokerPhase::Running => true,
            _ => false,
        };
        if !running {
            return CompletionAction::Exit;
        }
        match event {
            CompletionEvent::Response(id, payload) => {
                match self.complete(&id) {
                    Some(responder) => CompletionAction::Respond(responder, payload),
                    None => CompletionAction::Ignore,
                }
            },
            CompletionEvent::TimedOut => CompletionAction::Ignore,
            CompletionEvent::Closed => CompletionAction::Exit,
        }
    }
}

/// What a submission outcome means for intake: a request that reached the
/// worker channel files its `(id, responder)` pair with the intake loop; one
/// whose send failed is dropped before any responder is registered — the
/// caller's handle is never invoked, a silent, non-fatal failure.
pub fn submission_registration<R>(send_ok: bool, request_id: String, responder: R) -> (r: Option<
    (String, R),
>)
    ensures
        send_ok ==> r == Some((request_id, responder)),
        !send_ok ==> r is None,
{
    if send_ok {
        Some((request_id, responder))
    } else {
        None
    }
}

/// Exactly-once delivery, on the map model the broker's contracts use:
/// registering a responder under an id and then completing that id hands
/// back exactly the registered responder; afterwards the id is gone from
/// the table, and completing it again takes nothing out and changes
/// nothing.
pub proof fn lemma_exactly_once<R>(m: Map<Seq<char>, R>, id: Seq<char>, responder: R)
    ensures
        m.insert(id, responder).contains_key(id),
        m.insert(id, responder)[id] == responder,
        !m.insert(id, responder).remove(id).contains_key(id),
        m.insert(id, responder).remove(id).remove(id) == m.insert(id, responder).remove(id),
{
    assert(m.insert(id, responder).remove(id).remove(id) =~= m.insert(id, responder).remove(id));
}

/// Late or missed completions are harmless: removing an id that is not in
/// the pending map returns the map unchanged — nothing fires, nothing
/// grows.
pub proof fn lemma_unknown_completion_harmless<R>(m: Map<Seq<char>, R>, id: Seq<char>)
    requires
        !m.contains_key(id),
    ensures
        m.remove(id) == m,
{
    assert(m.remove(id) =~= m);
}

} // verus!
