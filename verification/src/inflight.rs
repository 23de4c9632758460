//! Coalescing of identical requests that are in flight at the same time.
//!
//! The first request for a key leads: it does the work. The others wait for the outcome
//! that the leader publishes. A failure is remembered for a while, so that requests for
//! a broken source fail at once.
//!
//! The tracker is a state machine. Whoever holds it takes one step at a time: a join, or
//! the end of a leader. A waiter keeps the ticket of its leader, and asks again once an
//! outcome was published for that ticket.

use dashmap::DashMap;
use vstd::prelude::*;
use crate::text;

verus! {

/// How long a failure is remembered: thirty seconds, in nanoseconds.
pub const FAILURE_TTL: u64 = 30_000_000_000;

/// `dashmap::DashMap`, a concurrent hash map.
#[verifier::external_type_specification]
#[verifier::external_body]
#[verifier::reject_recursive_types(K)]
#[verifier::reject_recursive_types(V)]
#[verifier::reject_recursive_types(S)]
pub struct ExDashMap<K, V, S>(dashmap::DashMap<K, V, S>);

/// The tickets that a map holds, by the text of their keys.
pub uninterp spec fn ticket_map(m: DashMap<String, u64>) -> Map<Seq<char>, u64>;

/// The failures that a map holds, by the text of their keys: the text of the error and
/// the time.
pub uninterp spec fn failure_map(m: DashMap<String, (String, u64)>) -> Map<
    Seq<char>,
    (Seq<char>, u64),
>;

/// `DashMap::new`: a map that holds no tickets.
#[verifier::external_body]
fn new_tickets() -> (m: DashMap<String, u64>)
    ensures
        (ticket_map(m) == Map::<Seq<char>, u64>::empty()),
{
    DashMap::new()
}

/// `DashMap::new`: a map that holds no failures.
#[verifier::external_body]
fn new_failures() -> (m: DashMap<String, (String, u64)>)
    ensures
        (failure_map(m) == Map::<Seq<char>, (Seq<char>, u64)>::empty()),
{
    DashMap::new()
}

/// `DashMap::entry` with `or_insert`: puts the ticket under a key that has none, leaves
/// one that is there, and returns the ticket that the key then has.
#[verifier::external_body]
fn claim_ticket(m: &mut DashMap<String, u64>, key: &str, ticket: u64) -> (r: u64)
    ensures
        ticket_map(*old(m)).contains_key(key@) ==> r == ticket_map(*old(m))[key@] && ticket_map(
            *final(m),
        ) == ticket_map(*old(m)),
        !ticket_map(*old(m)).contains_key(key@) ==> r == ticket && ticket_map(*final(m))
            == ticket_map(*old(m)).insert(key@, ticket),
{
    *m.entry(key.to_owned()).or_insert(ticket)
}

/// Whether two tickets are the same.
fn same_ticket(a: &u64, b: &u64) -> (r: bool)
    ensures
        r == (*a == *b),
{
    *a == *b
}

/// `DashMap::remove_if`: removes the key where its ticket is the given one.
#[verifier::external_body]
fn release_ticket(m: &mut DashMap<String, u64>, key: &str, ticket: u64)
    ensures
        ticket_map(*final(m)) == if ticket_map(*old(m)).contains_key(key@) && ticket_map(
            *old(m),
        )[key@] == ticket {
            ticket_map(*old(m)).remove(key@)
        } else {
            ticket_map(*old(m))
        },
{
    m.remove_if(key, |_, current| same_ticket(current, &ticket));
}

/// `DashMap::get`: a copy of the failure of a key.
#[verifier::external_body]
fn find_failure(m: &DashMap<String, (String, u64)>, key: &str) -> (r: Option<(String, u64)>)
    ensures
        match r {
            Some(f) => failure_map(*m).contains_key(key@) && failure_map(*m)[key@] == (f.0@, f.1),
            None => !failure_map(*m).contains_key(key@),
        },
{
    m.get(key).map(|f| f.value().clone())
}

/// `DashMap::insert`: sets the failure of a key.
#[verifier::external_body]
fn put_failure(m: &mut DashMap<String, (String, u64)>, key: String, failure: (String, u64))
    ensures
        failure_map(*final(m)) == failure_map(*old(m)).insert(key@, (failure.0@, failure.1)),
{
    m.insert(key, failure);
}

/// Whether a failure is the one of the given time.
fn failed_at(f: &(String, u64), at: &u64) -> (r: bool)
    ensures
        r == (f.1 == *at),
{
    f.1 == *at
}

/// `DashMap::remove_if`: removes the key where its failure is the one of the given time.
#[verifier::external_body]
fn drop_failure(m: &mut DashMap<String, (String, u64)>, key: &str, at: u64)
    ensures
        failure_map(*final(m)) == if failure_map(*old(m)).contains_key(key@) && failure_map(
            *old(m),
        )[key@].1 == at {
            failure_map(*old(m)).remove(key@)
        } else {
            failure_map(*old(m))
        },
{
    m.remove_if(key, |_, f| failed_at(f, &at));
}

/// The error of a coalesced request: the text that its leader failed with.
#[derive(Debug)]
pub struct CoalesceError {
    pub inner: String,
}

impl Clone for CoalesceError {
    /// An error of the same text.
    fn clone(&self) -> (e: CoalesceError)
        ensures
            e.inner@ == self.inner@,
    {
        CoalesceError { inner: self.inner.clone() }
    }
}

impl CoalesceError {
    /// The text of the error.
    pub fn describe(&self) -> (s: String)
        ensures
            s@ == self.inner@,
    {
        self.inner.clone()
    }
}

/// What a leader holds while it works.
#[derive(Debug)]
pub struct InflightGuard {
    key: String,
    ticket: u64,
}

impl InflightGuard {
    /// The key that the leader works for.
    pub closed spec fn for_key(self) -> Seq<char> {
        self.key@
    }

    /// The ticket of the leader.
    pub closed spec fn held_ticket(self) -> u64 {
        self.ticket
    }

    /// The ticket of the leader.
    pub fn ticket(&self) -> (t: u64)
        ensures
            t == self.held_ticket(),
    {
        self.ticket
    }
}

/// How a request is settled.
#[derive(Debug)]
pub enum CoalesceResult {
    /// The request leads: it does the work, then ends its guard.
    Leader(InflightGuard),
    /// Another request did the work: its outcome.
    Waiter(Result<(), CoalesceError>),
    /// A recent leader failed for this key.
    Failed(CoalesceError),
}

impl CoalesceResult {
    /// The text by which a result is logged.
    pub open spec fn label(self) -> Seq<char> {
        match self {
            CoalesceResult::Leader(_) => "Leader(...)"@,
            CoalesceResult::Waiter(Ok(_)) => "Waiter(Ok)"@,
            CoalesceResult::Waiter(Err(e)) => "Waiter(Err("@ + e.inner@ + "))"@,
            CoalesceResult::Failed(e) => "Failed("@ + e.inner@ + ")"@,
        }
    }

    /// The text by which a result is logged.
    pub fn describe(&self) -> (s: String)
        ensures
            s@ == self.label(),
    {
        match self {
            CoalesceResult::Leader(_) => "Leader(...)".to_string(),
            CoalesceResult::Waiter(Ok(_)) => "Waiter(Ok)".to_string(),
            CoalesceResult::Waiter(Err(e)) => {
                let mut s: String = text::cat("Waiter(Err(", e.inner.as_str());
                s.append("))");
                s
            },
            CoalesceResult::Failed(e) => {
                let mut s: String = text::cat("Failed(", e.inner.as_str());
                s.append(")");
                s
            },
        }
    }
}

/// What a join leads to.
#[derive(Debug)]
pub enum JoinStep {
    /// The request is settled.
    Settled(CoalesceResult),
    /// The request waits for the outcome of the leader with this ticket.
    Wait(u64),
}

/// What the end of a leader publishes to the requests that wait for its ticket.
#[derive(Debug)]
pub struct Published {
    /// The ticket of the leader.
    pub ticket: u64,
    /// The outcome; none where the leader was cancelled.
    pub outcome: Option<Result<(), CoalesceError>>,
}

impl Published {
    /// How the leader ended.
    pub open spec fn ending(self) -> Ending {
        ending_of(self.outcome)
    }
}

/// How a leader ended, by the outcome that it published.
pub open spec fn ending_of(outcome: Option<Result<(), CoalesceError>>) -> Ending {
    match outcome {
        Some(Ok(_)) => Ending::Done,
        Some(Err(e)) => Ending::Failed(e.inner@),
        None => Ending::Cancelled,
    }
}

/// The state of a tracker.
pub struct TrackerState {
    /// The ticket of the leader of each key that is in flight.
    pub inflight: Map<Seq<char>, u64>,
    /// The text and the time of the failure of each key that failed.
    pub failed: Map<Seq<char>, (Seq<char>, u64)>,
    /// How many tickets were issued.
    pub issued: nat,
}

/// What a join leads to, as the specification sees it.
pub enum JoinView {
    /// The request leads, with this ticket.
    Lead(u64),
    /// The request waits for the leader with this ticket.
    Wait(u64),
    /// The request fails with this text.
    Fail(Seq<char>),
}

/// The time from `at` to `now`; none where the clock went back.
pub open spec fn elapsed(at: u64, now: u64) -> int {
    if at <= now {
        now - at
    } else {
        0
    }
}

impl TrackerState {
    /// Nothing in flight, nothing failed.
    pub open spec fn initial() -> TrackerState {
        TrackerState { inflight: Map::empty(), failed: Map::empty(), issued: 0 }
    }

    /// Tickets are issued once.
    pub open spec fn wf(self) -> bool {
        forall|k: Seq<char>| #[trigger]
            self.inflight.contains_key(k) ==> self.inflight[k] < self.issued
    }

    /// The failure of `key` that is still remembered at `now`.
    pub open spec fn remembered(self, key: Seq<char>, now: u64) -> Option<Seq<char>> {
        if self.failed.contains_key(key) && elapsed(self.failed[key].1, now) < FAILURE_TTL {
            Some(self.failed[key].0)
        } else {
            None
        }
    }

    /// What a join for `key` at `now` leads to.
    pub open spec fn join_view(self, key: Seq<char>, now: u64) -> JoinView {
        match self.remembered(key, now) {
            Some(error) => JoinView::Fail(error),
            None => if self.inflight.contains_key(key) {
                JoinView::Wait(self.inflight[key])
            } else {
                JoinView::Lead(self.issued as u64)
            },
        }
    }

    /// The state after a join for `key` at `now`. A failure that is no longer remembered
    /// is dropped.
    pub open spec fn joined(self, key: Seq<char>, now: u64) -> TrackerState {
        match self.join_view(key, now) {
            JoinView::Fail(_) => self,
            JoinView::Wait(_) => TrackerState { failed: self.failed.remove(key), ..self },
            JoinView::Lead(t) => TrackerState {
                inflight: self.inflight.insert(key, t),
                failed: self.failed.remove(key),
                issued: self.issued + 1,
            },
        }
    }

    /// The state after the leader of `key` with the given ticket has ended. A ticket that
    /// is not the one of the key changes nothing.
    pub open spec fn released(self, key: Seq<char>, ticket: u64) -> TrackerState {
        if self.inflight.contains_key(key) && self.inflight[key] == ticket {
            TrackerState { inflight: self.inflight.remove(key), ..self }
        } else {
            self
        }
    }

    /// The state once the failure of `key` at `now` is noted.
    pub open spec fn noted(self, key: Seq<char>, error: Seq<char>, now: u64) -> TrackerState {
        TrackerState { failed: self.failed.insert(key, (error, now)), ..self }
    }
}

/// The end of a leader issues no ticket.
proof fn lemma_released_wf(st: TrackerState, key: Seq<char>, ticket: u64)
    requires
        st.wf(),
    ensures
        st.released(key, ticket).wf(),
{
    let after = st.released(key, ticket);
    assert forall|k: Seq<char>| #[trigger] after.inflight.contains_key(k) implies after.inflight[k]
        < after.issued by {
        assert(st.inflight.contains_key(k));
    }
}

/// Which requests are in flight, and which failed of late.
pub struct InflightTracker {
    inflight: DashMap<String, u64>,
    failed: DashMap<String, (String, u64)>,
    issued: u64,
}

impl View for InflightTracker {
    type V = TrackerState;

    closed spec fn view(&self) -> TrackerState {
        TrackerState {
            inflight: ticket_map(self.inflight),
            failed: failure_map(self.failed),
            issued: self.issued as nat,
        }
    }
}

impl Default for InflightTracker {
    /// A tracker with nothing in flight.
    fn default() -> (t: InflightTracker)
        ensures
            t@ == TrackerState::initial(),
            t@.wf(),
    {
        InflightTracker::new()
    }
}

impl InflightTracker {
    /// A tracker with nothing in flight.
    pub fn new() -> (t: InflightTracker)
        ensures
            t@ == TrackerState::initial(),
            t@.wf(),
    {
        InflightTracker { inflight: new_tickets(), failed: new_failures(), issued: 0 }
    }

    /// How many tickets were issued.
    pub fn issued(&self) -> (n: u64)
        ensures
            n == self@.issued,
    {
        self.issued
    }

    /// Joins the requests for `key`. `now` is a monotonic time in nanoseconds.
    ///
    /// The request leads where no one is in flight for the key, waits where someone is,
    /// and fails where a failure of the key is still remembered.
    pub fn try_join(&mut self, key: &str, now: u64) -> (step: JoinStep)
        requires
            old(self)@.wf(),
            old(self)@.issued < u64::MAX,
        ensures
            final(self)@.wf(),
            final(self)@ == old(self)@.joined(key@, now),
            match old(self)@.join_view(key@, now) {
                JoinView::Lead(t) => step matches JoinStep::Settled(CoalesceResult::Leader(g))
                    && g.for_key() == key@ && g.held_ticket() == t,
                JoinView::Wait(t) => step == JoinStep::Wait(t),
                JoinView::Fail(error) => step matches JoinStep::Settled(
                    CoalesceResult::Failed(e),
                ) && e.inner@ == error,
            },
    {
        if let Some((error, at)) = find_failure(&self.failed, key) {
            let since: u64 = if at <= now {
                now - at
            } else {
                0
            };
            if since < FAILURE_TTL {
                return JoinStep::Settled(CoalesceResult::Failed(CoalesceError { inner: error }));
            }
            drop_failure(&mut self.failed, key, at);
        }
        proof {
            assert(failure_map(self.failed) =~= old(self)@.failed.remove(key@));
        }
        let fresh: u64 = self.issued;
        let ticket: u64 = claim_ticket(&mut self.inflight, key, fresh);
        if ticket == fresh {
            self.issued = fresh + 1;
            JoinStep::Settled(
                CoalesceResult::Leader(InflightGuard { key: key.to_string(), ticket }),
            )
        } else {
            JoinStep::Wait(ticket)
        }
    }
}

/// Settles a waiter by the outcome that was published for the ticket it waited for. A
/// leader that was cancelled published none: the waiter joins again.
pub fn settle_waiter(outcome: Option<Result<(), CoalesceError>>) -> (r: Option<CoalesceResult>)
    ensures
        match outcome {
            Some(result) => r == Some(CoalesceResult::Waiter(result)),
            None => r is None,
        },
        ending_of(outcome).settles(r),
{
    match outcome {
        Some(result) => Some(CoalesceResult::Waiter(result)),
        None => None,
    }
}

impl InflightGuard {
    /// Ends the work with success. Call this once the result is stored, so that waiters
    /// find it.
    pub fn complete(self, tracker: &mut InflightTracker) -> (p: Published)
        requires
            old(tracker)@.wf(),
        ensures
            final(tracker)@.wf(),
            final(tracker)@ == old(tracker)@.released(self.for_key(), self.held_ticket()),
            p.ticket == self.held_ticket(),
            p.ending() == Ending::Done,
    {
        let ghost before = tracker@;
        release_ticket(&mut tracker.inflight, self.key.as_str(), self.ticket);
        proof {
            lemma_released_wf(before, self.key@, self.ticket);
        }
        Published { ticket: self.ticket, outcome: Some(Ok(())) }
    }

    /// Ends the work with a failure, which is remembered from `now` on.
    pub fn fail(self, tracker: &mut InflightTracker, error: String, now: u64) -> (p: Published)
        requires
            old(tracker)@.wf(),
        ensures
            final(tracker)@.wf(),
            final(tracker)@ == old(tracker)@.noted(self.for_key(), error@, now).released(
                self.for_key(),
                self.held_ticket(),
            ),
            p.ticket == self.held_ticket(),
            p.ending() == Ending::Failed(error@),
    {
        let published: String = error.clone();
        put_failure(&mut tracker.failed, self.key.clone(), (error, now));
        let ghost before = tracker@;
        release_ticket(&mut tracker.inflight, self.key.as_str(), self.ticket);
        proof {
            lemma_released_wf(before, self.key@, self.ticket);
        }
        Published {
            ticket: self.ticket,
            outcome: Some(Err(CoalesceError { inner: published })),
        }
    }

    /// Ends the work without an outcome, as a leader does that is dropped.
    pub fn cancel(self, tracker: &mut InflightTracker) -> (p: Published)
        requires
            old(tracker)@.wf(),
        ensures
            final(tracker)@.wf(),
            final(tracker)@ == old(tracker)@.released(self.for_key(), self.held_ticket()),
            p.ticket == self.held_ticket(),
            p.ending() == Ending::Cancelled,
    {
        let ghost before = tracker@;
        release_ticket(&mut tracker.inflight, self.key.as_str(), self.ticket);
        proof {
            lemma_released_wf(before, self.key@, self.ticket);
        }
        Published { ticket: self.ticket, outcome: None }
    }
}

/// Where a request leads, one that joins for the same key while it works waits for it.
pub proof fn law_second_request_waits(st: TrackerState, key: Seq<char>, now: u64, later: u64)
    requires
        st.join_view(key, now) is Lead,
    ensures
        st.joined(key, now).join_view(key, later) == JoinView::Wait(
            st.join_view(key, now)->Lead_0,
        ),
{
}

/// A step for one key leaves what the tracker knows of every other key as it was.
pub proof fn law_keys_are_independent(
    st: TrackerState,
    key: Seq<char>,
    other: Seq<char>,
    ticket: u64,
    error: Seq<char>,
    now: u64,
    later: u64,
)
    requires
        key != other,
    ensures
        ({
            let changed = seq![
                st.joined(key, now),
                st.released(key, ticket),
                st.noted(key, error, now),
            ];
            forall|i: int|
                0 <= i < 3 ==> {
                    let after = #[trigger] changed[i];
                    &&& after.inflight.contains_key(other) == st.inflight.contains_key(other)
                    &&& st.inflight.contains_key(other) ==> after.inflight[other]
                        == st.inflight[other]
                    &&& after.remembered(other, later) == st.remembered(other, later)
                }
        }),
{
}

/// Once a leader has completed, the next request for its key leads anew.
pub proof fn law_next_request_leads_after_completion(
    st: TrackerState,
    key: Seq<char>,
    now: u64,
    later: u64,
)
    requires
        st.join_view(key, now) is Lead,
    ensures
        ({
            let led = st.joined(key, now);
            led.released(key, st.join_view(key, now)->Lead_0).join_view(key, later) is Lead
        }),
{
}

/// While a failure is remembered, a request for its key fails with the text of that
/// failure, and changes nothing.
pub proof fn law_failure_blocks_retries(
    st: TrackerState,
    key: Seq<char>,
    ticket: u64,
    error: Seq<char>,
    at: u64,
    now: u64,
)
    requires
        elapsed(at, now) < FAILURE_TTL,
    ensures
        ({
            let failed = st.noted(key, error, at).released(key, ticket);
            failed.join_view(key, now) == JoinView::Fail(error) && failed.joined(key, now)
                == failed
        }),
{
}

/// Once a failure is no longer remembered, the next request for its key leads again, and
/// the failure is dropped.
pub proof fn law_failure_expires(
    st: TrackerState,
    key: Seq<char>,
    ticket: u64,
    error: Seq<char>,
    at: u64,
    now: u64,
)
    requires
        st.inflight.contains_key(key) ==> st.inflight[key] == ticket,
        elapsed(at, now) >= FAILURE_TTL,
    ensures
        ({
            let failed = st.noted(key, error, at).released(key, ticket);
            failed.join_view(key, now) is Lead && !failed.joined(key, now).failed.contains_key(key)
        }),
{
}

/// A leader that is cancelled leaves no failure behind: the next request for its key
/// leads.
pub proof fn law_cancelled_leader_leaves_nothing(
    st: TrackerState,
    key: Seq<char>,
    now: u64,
    later: u64,
)
    requires
        st.join_view(key, now) is Lead,
    ensures
        ({
            let led = st.joined(key, now);
            let ended = led.released(key, st.join_view(key, now)->Lead_0);
            &&& !ended.failed.contains_key(key)
            &&& !ended.inflight.contains_key(key)
            &&& ended.join_view(key, later) is Lead
        }),
{
}

/// The end of a leader that is no longer the one of its key changes nothing: its
/// successor stays in flight.
pub proof fn law_stale_guard_is_harmless(st: TrackerState, key: Seq<char>, ticket: u64)
    requires
        st.inflight.contains_key(key) ==> st.inflight[key] != ticket,
    ensures
        st.released(key, ticket) == st,
{
}

/// How a leader ended.
pub enum Ending {
    /// With success.
    Done,
    /// With a failure of this text.
    Failed(Seq<char>),
    /// Without an outcome.
    Cancelled,
}

impl Ending {
    /// Whether a waiter is settled as its leader ended: with success, with the text of the
    /// failure, or not at all, where it joins again.
    pub open spec fn settles(self, r: Option<CoalesceResult>) -> bool {
        match self {
            Ending::Done => r matches Some(CoalesceResult::Waiter(Ok(_))),
            Ending::Failed(error) => r matches Some(CoalesceResult::Waiter(Err(e))) && e.inner@
                == error,
            Ending::Cancelled => r is None,
        }
    }
}

/// The state after joins for `key` at the given times.
pub open spec fn joined_by(st: TrackerState, key: Seq<char>, nows: Seq<u64>) -> TrackerState
    decreases nows.len(),
{
    if nows.len() == 0 {
        st
    } else {
        joined_by(st, key, nows.drop_last()).joined(key, nows.last())
    }
}

/// Once one of several requests leads, it is the one that the others wait for.
proof fn lemma_joined_by(st: TrackerState, key: Seq<char>, nows: Seq<u64>)
    requires
        nows.len() > 0,
        st.join_view(key, nows[0]) is Lead,
    ensures
        ({
            let after = joined_by(st, key, nows);
            &&& after.inflight.contains_key(key)
            &&& after.inflight[key] == st.join_view(key, nows[0])->Lead_0
            &&& !after.failed.contains_key(key)
        }),
    decreases nows.len(),
{
    reveal_with_fuel(joined_by, 2);
    if nows.len() > 1 {
        lemma_joined_by(st, key, nows.drop_last());
        assert(nows.drop_last()[0] == nows[0]);
    } else {
        assert(nows.drop_last() =~= Seq::<u64>::empty());
    }
}

/// Where the first of several requests for a key leads, it is the only one: the others wait
/// for it, however many there are.
pub proof fn law_one_of_many_leads(st: TrackerState, key: Seq<char>, nows: Seq<u64>, i: int)
    requires
        0 <= i < nows.len(),
        st.join_view(key, nows[0]) is Lead,
    ensures
        ({
            let before = joined_by(st, key, nows.take(i));
            if i == 0 {
                before.join_view(key, nows[i]) is Lead
            } else {
                before.join_view(key, nows[i]) == JoinView::Wait(
                    st.join_view(key, nows[0])->Lead_0,
                )
            }
        }),
{
    if i > 0 {
        lemma_joined_by(st, key, nows.take(i));
        assert(nows.take(i)[0] == nows[0]);
    } else {
        assert(nows.take(0) =~= Seq::<u64>::empty());
    }
}

/// Where a leader is cancelled, no failure is noted for its key, and of the requests that
/// waited for it and join again one leads, and the others wait for that one.
pub proof fn law_waiters_go_on_after_cancellation(
    st: TrackerState,
    key: Seq<char>,
    ticket: u64,
    nows: Seq<u64>,
    i: int,
)
    requires
        st.inflight.contains_key(key),
        st.inflight[key] == ticket,
        !st.failed.contains_key(key),
        0 <= i < nows.len(),
    ensures
        ({
            let ended = st.released(key, ticket);
            let before = joined_by(ended, key, nows.take(i));
            &&& ended.failed == st.failed
            &&& ended.join_view(key, nows[0]) is Lead
            &&& i > 0 ==> before.join_view(key, nows[i]) == JoinView::Wait(
                ended.join_view(key, nows[0])->Lead_0,
            )
        }),
{
    law_one_of_many_leads(st.released(key, ticket), key, nows, i);
}

/// A step of some request.
pub enum Event {
    /// A request joins.
    Join { key: Seq<char>, now: u64 },
    /// A leader ends.
    End { key: Seq<char>, ticket: u64, ending: Ending, now: u64 },
}

/// A tracker with the requests around it.
pub struct World {
    /// The tracker.
    pub tracker: TrackerState,
    /// The leaders that are at work: a key and a ticket each.
    pub leaders: Set<(Seq<char>, u64)>,
    /// How the leaders that are no longer at work ended, by their tickets.
    pub endings: Map<u64, Ending>,
}

impl World {
    /// Before the first request.
    pub open spec fn initial() -> World {
        World {
            tracker: TrackerState::initial(),
            leaders: Set::empty(),
            endings: Map::empty(),
        }
    }

    /// Whether a step can be taken: leaders end that are at work, and there is a ticket
    /// to issue.
    pub open spec fn allows(self, e: Event) -> bool {
        match e {
            Event::Join { key, now } => self.tracker.issued < u64::MAX,
            Event::End { key, ticket, ending, now } => self.leaders.contains((key, ticket)),
        }
    }

    /// What follows a step.
    pub open spec fn after(self, e: Event) -> World {
        match e {
            Event::Join { key, now } => World {
                tracker: self.tracker.joined(key, now),
                leaders: match self.tracker.join_view(key, now) {
                    JoinView::Lead(t) => self.leaders.insert((key, t)),
                    _ => self.leaders,
                },
                endings: self.endings,
            },
            Event::End { key, ticket, ending, now } => World {
                tracker: match ending {
                    Ending::Failed(error) => self.tracker.noted(key, error, now).released(
                        key,
                        ticket,
                    ),
                    _ => self.tracker.released(key, ticket),
                },
                leaders: self.leaders.remove((key, ticket)),
                endings: self.endings.insert(ticket, ending),
            },
        }
    }

    /// The leaders at work are the ones that the tracker knows, and each ticket that was
    /// issued is at work or has ended, not both.
    pub open spec fn consistent(self) -> bool {
        &&& self.tracker.wf()
        &&& self.tracker.issued <= u64::MAX
        &&& forall|k: Seq<char>, t: u64| #[trigger]
            self.leaders.contains((k, t)) <==> self.tracker.inflight.contains_key(k)
                && self.tracker.inflight[k] == t
        &&& forall|k: Seq<char>, l: Seq<char>|
            #![trigger self.tracker.inflight[k], self.tracker.inflight[l]]
            self.tracker.inflight.contains_key(k) && self.tracker.inflight.contains_key(l)
                && self.tracker.inflight[k] == self.tracker.inflight[l] ==> k == l
        &&& forall|t: u64| #[trigger] self.endings.contains_key(t) ==> t < self.tracker.issued
        &&& forall|k: Seq<char>| #[trigger]
            self.tracker.inflight.contains_key(k) ==> !self.endings.contains_key(
                self.tracker.inflight[k],
            )
        &&& forall|t: u64|
            t < self.tracker.issued && !(#[trigger] self.endings.contains_key(t)) ==> exists|
                k: Seq<char>,
            | #[trigger] self.tracker.inflight.contains_key(k) && self.tracker.inflight[k] == t
    }
}

/// Whether the steps can be taken one after the other, from `w` on.
pub open spec fn possible(w: World, events: Seq<Event>) -> bool
    decreases events.len(),
{
    events.len() > 0 ==> possible(w, events.drop_last()) && run(w, events.drop_last()).allows(
        events.last(),
    )
}

/// What follows the steps.
pub open spec fn run(w: World, events: Seq<Event>) -> World
    decreases events.len(),
{
    if events.len() == 0 {
        w
    } else {
        run(w, events.drop_last()).after(events.last())
    }
}

proof fn lemma_join_keeps_consistent(w: World, key: Seq<char>, now: u64)
    requires
        w.consistent(),
        w.tracker.issued < u64::MAX,
    ensures
        w.after(Event::Join { key, now }).consistent(),
{
    let v = w.after(Event::Join { key, now });
    if w.tracker.join_view(key, now) is Lead {
        let fresh = w.tracker.issued as u64;
        assert(v.tracker.inflight.contains_key(key) && v.tracker.inflight[key] == fresh);
        assert forall|k: Seq<char>| #[trigger] v.tracker.inflight.contains_key(k) implies v.tracker
            .inflight[k] < v.tracker.issued && !v.endings.contains_key(v.tracker.inflight[k]) by {
            if k != key {
                assert(w.tracker.inflight.contains_key(k));
            }
        }
        assert forall|k: Seq<char>, l: Seq<char>|
            #![trigger v.tracker.inflight[k], v.tracker.inflight[l]]
            v.tracker.inflight.contains_key(k) && v.tracker.inflight.contains_key(l)
                && v.tracker.inflight[k] == v.tracker.inflight[l] implies k == l by {
            if k != key {
                assert(w.tracker.inflight.contains_key(k));
                assert(w.tracker.inflight[k] == v.tracker.inflight[k]);
            }
            if l != key {
                assert(w.tracker.inflight.contains_key(l));
                assert(w.tracker.inflight[l] == v.tracker.inflight[l]);
            }
        }
        assert forall|k: Seq<char>, t: u64| #[trigger]
            v.leaders.contains((k, t)) <==> v.tracker.inflight.contains_key(k)
                && v.tracker.inflight[k] == t by {
            assert(w.leaders.contains((k, t)) <==> w.tracker.inflight.contains_key(k)
                && w.tracker.inflight[k] == t);
        }
    }
    assert forall|t: u64|
        t < v.tracker.issued && !(#[trigger] v.endings.contains_key(t)) implies exists|
        k: Seq<char>,
    | #[trigger] v.tracker.inflight.contains_key(k) && v.tracker.inflight[k] == t by {
        if t < w.tracker.issued {
            assert(!w.endings.contains_key(t));
            let k = choose|k: Seq<char>| #[trigger]
                w.tracker.inflight.contains_key(k) && w.tracker.inflight[k] == t;
            assert(v.tracker.inflight.contains_key(k) && v.tracker.inflight[k] == t);
        } else {
            assert(v.tracker.inflight.contains_key(key) && v.tracker.inflight[key] == t);
        }
    }
}

proof fn lemma_end_keeps_consistent(
    w: World,
    key: Seq<char>,
    ticket: u64,
    ending: Ending,
    now: u64,
)
    requires
        w.consistent(),
        w.leaders.contains((key, ticket)),
    ensures
        w.after(Event::End { key, ticket, ending, now }).consistent(),
{
    let v = w.after(Event::End { key, ticket, ending, now });
    assert(v.tracker.inflight =~= w.tracker.inflight.remove(key));
    assert forall|k: Seq<char>, t: u64| #[trigger]
        v.leaders.contains((k, t)) <==> v.tracker.inflight.contains_key(k)
            && v.tracker.inflight[k] == t by {
        assert(w.leaders.contains((k, t)) <==> w.tracker.inflight.contains_key(k)
            && w.tracker.inflight[k] == t);
    }
    assert forall|k: Seq<char>| #[trigger] v.tracker.inflight.contains_key(k) implies v.tracker
        .inflight[k] < v.tracker.issued && !v.endings.contains_key(v.tracker.inflight[k]) by {
        assert(w.tracker.inflight.contains_key(k));
        assert(w.tracker.inflight[k] != w.tracker.inflight[key]);
    }
    assert forall|t: u64|
        t < v.tracker.issued && !(#[trigger] v.endings.contains_key(t)) implies exists|
        k: Seq<char>,
    | #[trigger] v.tracker.inflight.contains_key(k) && v.tracker.inflight[k] == t by {
        assert(!w.endings.contains_key(t));
        let k = choose|k: Seq<char>| #[trigger]
            w.tracker.inflight.contains_key(k) && w.tracker.inflight[k] == t;
        assert(v.tracker.inflight.contains_key(k) && v.tracker.inflight[k] == t);
    }
}

/// However requests follow one another, the leaders at work are the ones that the tracker
/// knows, and each ticket that was issued is at work or has ended.
pub proof fn law_every_run_is_consistent(events: Seq<Event>)
    requires
        possible(World::initial(), events),
    ensures
        run(World::initial(), events).consistent(),
    decreases events.len(),
{
    if events.len() > 0 {
        law_every_run_is_consistent(events.drop_last());
        let w = run(World::initial(), events.drop_last());
        match events.last() {
            Event::Join { key, now } => lemma_join_keeps_consistent(w, key, now),
            Event::End { key, ticket, ending, now } => lemma_end_keeps_consistent(
                w,
                key,
                ticket,
                ending,
                now,
            ),
        }
    }
}

/// However requests follow one another, no two leaders are at work for one key.
pub proof fn law_one_leader_per_key(events: Seq<Event>, key: Seq<char>, a: u64, b: u64)
    requires
        possible(World::initial(), events),
        run(World::initial(), events).leaders.contains((key, a)),
        run(World::initial(), events).leaders.contains((key, b)),
    ensures
        a == b,
{
    law_every_run_is_consistent(events);
}

/// However requests follow one another, a request that is told to wait waits for a leader
/// that is at work for its key.
pub proof fn law_waiter_waits_for_a_leader(events: Seq<Event>, key: Seq<char>, now: u64)
    requires
        possible(World::initial(), events),
        run(World::initial(), events).tracker.join_view(key, now) is Wait,
    ensures
        ({
            let w = run(World::initial(), events);
            w.leaders.contains((key, w.tracker.join_view(key, now)->Wait_0))
        }),
{
    law_every_run_is_consistent(events);
    let w = run(World::initial(), events);
    let t = w.tracker.join_view(key, now)->Wait_0;
    assert(w.leaders.contains((key, t)));
}

/// However requests follow one another, a leader that is no longer at work has ended, so
/// that whoever waited for its ticket learns how.
pub proof fn law_no_waiter_is_forgotten(events: Seq<Event>, ticket: u64)
    requires
        possible(World::initial(), events),
        ticket < run(World::initial(), events).tracker.issued,
        forall|k: Seq<char>|
            !(#[trigger] run(World::initial(), events).leaders.contains((k, ticket))),
    ensures
        run(World::initial(), events).endings.contains_key(ticket),
{
    law_every_run_is_consistent(events);
    let w = run(World::initial(), events);
    if !w.endings.contains_key(ticket) {
        let k = choose|k: Seq<char>| #[trigger]
            w.tracker.inflight.contains_key(k) && w.tracker.inflight[k] == ticket;
        assert(w.leaders.contains((k, ticket)));
    }
}

/// However requests follow one another, one that joins for a key leads at once where no
/// leader is at work for that key and no failure of it is remembered, whoever is at work for
/// other keys.
pub proof fn law_leads_where_no_one_is_at_work(events: Seq<Event>, key: Seq<char>, now: u64)
    requires
        possible(World::initial(), events),
        forall|t: u64| !(#[trigger] run(World::initial(), events).leaders.contains((key, t))),
        run(World::initial(), events).tracker.remembered(key, now) is None,
    ensures
        run(World::initial(), events).tracker.join_view(key, now) is Lead,
{
    law_every_run_is_consistent(events);
    let w = run(World::initial(), events);
    if w.tracker.inflight.contains_key(key) {
        assert(w.leaders.contains((key, w.tracker.inflight[key])));
    }
}

/// The ticket that the request of a step waits for, where it waits.
pub open spec fn waits_for(events: Seq<Event>, i: int) -> Option<u64> {
    match events[i] {
        Event::Join { key, now } => match run(
            World::initial(),
            events.take(i),
        ).tracker.join_view(key, now) {
            JoinView::Wait(t) => Some(t),
            _ => None,
        },
        _ => None,
    }
}

/// How the leader ended that the request of a step waits for; none while it is at work, or
/// where the request does not wait.
pub open spec fn told(events: Seq<Event>, i: int) -> Option<Ending> {
    let endings = run(World::initial(), events).endings;
    match waits_for(events, i) {
        Some(t) => if endings.contains_key(t) {
            Some(endings[t])
        } else {
            None
        },
        None => None,
    }
}

/// Fewer steps can be taken where more can.
proof fn lemma_possible_prefix(events: Seq<Event>, n: int)
    requires
        possible(World::initial(), events),
        0 <= n <= events.len(),
    ensures
        possible(World::initial(), events.take(n)),
    decreases events.len(),
{
    if n < events.len() {
        lemma_possible_prefix(events.drop_last(), n);
        assert(events.drop_last().take(n) =~= events.take(n));
    } else {
        assert(events.take(n) =~= events);
    }
}

/// How a leader ended never changes.
proof fn lemma_endings_stay(events: Seq<Event>, n: int, ticket: u64)
    requires
        possible(World::initial(), events),
        0 <= n <= events.len(),
        run(World::initial(), events.take(n)).endings.contains_key(ticket),
    ensures
        run(World::initial(), events).endings.contains_key(ticket),
        run(World::initial(), events).endings[ticket] == run(
            World::initial(),
            events.take(n),
        ).endings[ticket],
    decreases events.len(),
{
    if n < events.len() {
        let rest = events.drop_last();
        assert(rest.take(n) =~= events.take(n));
        lemma_endings_stay(rest, n, ticket);
        law_every_run_is_consistent(rest);
        let w = run(World::initial(), rest);
        if let Event::End { key, ticket: other, ending, now } = events.last() {
            assert(w.leaders.contains((key, other)));
            assert(w.tracker.inflight.contains_key(key) && w.tracker.inflight[key] == other);
            assert(!w.endings.contains_key(other));
        }
    } else {
        assert(events.take(n) =~= events);
    }
}

/// However requests follow one another, every request that waits for a leader is told how
/// that leader ended, and all of them are told the same: none before the leader ends, and
/// each of them from then on.
pub proof fn law_all_waiters_learn_the_one_outcome(events: Seq<Event>, end: int)
    requires
        possible(World::initial(), events),
        0 <= end < events.len(),
        events[end] is End,
    ensures
        forall|i: int|
            0 <= i < end && #[trigger] waits_for(events, i) == Some(events[end]->ticket) ==> {
                &&& told(events.take(end), i) is None
                &&& told(events, i) == Some(events[end]->ending)
            },
{
    let ticket = events[end]->ticket;
    let before = events.take(end);
    let through = events.take(end + 1);
    lemma_possible_prefix(events, end + 1);
    assert(through.drop_last() =~= before);
    assert(through.last() == events[end]);
    law_every_run_is_consistent(before);
    let w = run(World::initial(), before);
    assert(w.leaders.contains((events[end]->End_key, ticket)));
    assert(!w.endings.contains_key(ticket));
    lemma_endings_stay(events, end + 1, ticket);
    assert forall|i: int|
        0 <= i < end && #[trigger] waits_for(events, i) == Some(ticket) implies {
        &&& told(before, i) is None
        &&& told(events, i) == Some(events[end]->ending)
    } by {
        assert(before.take(i) =~= events.take(i));
        assert(before[i] == events[i]);
        assert(waits_for(before, i) == waits_for(events, i));
    }
}

/// However requests follow one another, all requests that wait for a leader return once it
/// has completed or failed: each with success, or each with the text of its failure. None of
/// them leads. `settled` holds what each step is settled with.
pub proof fn law_all_waiters_return_alike(
    events: Seq<Event>,
    end: int,
    settled: Seq<Option<CoalesceResult>>,
)
    requires
        possible(World::initial(), events),
        0 <= end < events.len(),
        events[end] is End,
        !(events[end]->ending is Cancelled),
        forall|i: int|
            0 <= i < end && told(events, i) is Some ==> told(events, i)->Some_0.settles(
                #[trigger] settled[i],
            ),
    ensures
        forall|i: int|
            #![trigger settled[i]]
            0 <= i < end && waits_for(events, i) == Some(events[end]->ticket) ==> match settled[i] {
                Some(CoalesceResult::Waiter(Ok(_))) => events[end]->ending is Done,
                Some(CoalesceResult::Waiter(Err(e))) => events[end]->ending == Ending::Failed(
                    e.inner@,
                ),
                _ => false,
            },
{
    law_all_waiters_learn_the_one_outcome(events, end);
}

/// A failure is remembered for thirty seconds and no longer: a request for its key fails with
/// its text until then, and does not fail from then on. A clock that went back counts as no time.
pub proof fn law_failure_is_remembered_for_thirty_seconds(
    st: TrackerState,
    key: Seq<char>,
    ticket: u64,
    error: Seq<char>,
    at: u64,
    now: u64,
)
    ensures
        ({
            let failed = st.noted(key, error, at).released(key, ticket);
            &&& now < at + 30_000_000_000 ==> failed.join_view(key, now) == JoinView::Fail(error)
            &&& now >= at + 30_000_000_000 ==> !(failed.join_view(key, now) is Fail)
        }),
        now >= at ==> elapsed(at, now) == now - at,
        now < at ==> elapsed(at, now) == 0,
{
}

/// A request leads only where no one is in flight for its key and no failure is remembered, with
/// a ticket that no one in flight has; where someone is, it waits for exactly that one.
pub proof fn law_new_leader_has_a_new_ticket(st: TrackerState, key: Seq<char>, now: u64)
    requires
        st.wf(),
        st.issued < u64::MAX,
        !st.failed.contains_key(key),
    ensures
        st.inflight.contains_key(key) ==> st.join_view(key, now) == JoinView::Wait(
            st.inflight[key],
        ) && st.joined(key, now).inflight == st.inflight && st.joined(key, now).issued
            == st.issued,
        !st.inflight.contains_key(key) ==> {
            let after = st.joined(key, now);
            &&& st.join_view(key, now) is Lead
            &&& after.inflight == st.inflight.insert(key, st.join_view(key, now)->Lead_0)
            &&& after.issued == st.issued + 1
            &&& forall|other: Seq<char>| #[trigger]
                st.inflight.contains_key(other) ==> st.inflight[other] != st.join_view(
                    key,
                    now,
                )->Lead_0
        },
        st.joined(key, now).failed == st.failed,
{
    assert(st.failed.remove(key) =~= st.failed);
}

/// The first request of all leads.
pub proof fn law_first_request_leads(key: Seq<char>, now: u64)
    ensures
        TrackerState::initial().wf(),
        TrackerState::initial().join_view(key, now) is Lead,
        TrackerState::initial().inflight.len() == 0,
        TrackerState::initial().failed.len() == 0,
        TrackerState::initial().issued == 0,
{
}

/// A published outcome is how the leader ended, and settles a waiter so.
pub proof fn law_waiter_shares_the_ending(
    outcome: Option<Result<(), CoalesceError>>,
    r: Option<CoalesceResult>,
)
    requires
        ending_of(outcome).settles(r),
    ensures
        outcome is None ==> r is None,
        outcome matches Some(Ok(_)) ==> r matches Some(CoalesceResult::Waiter(Ok(_))),
        outcome matches Some(Err(e)) ==> r matches Some(CoalesceResult::Waiter(Err(f)))
            && f.inner@ == e.inner@,
{
}

/// A result is logged by its kind, and by the text of its error where it has one.
pub proof fn law_label_names_the_kind(r: CoalesceResult)
    ensures
        r is Leader ==> r.label() == "Leader(...)"@,
        r matches CoalesceResult::Waiter(Ok(_)) ==> r.label() == "Waiter(Ok)"@,
        r matches CoalesceResult::Waiter(Err(e)) ==> r.label() == "Waiter(Err("@ + e.inner@ + "))"@,
        r matches CoalesceResult::Failed(e) ==> r.label() == "Failed("@ + e.inner@ + ")"@,
{
}

} // verus!
