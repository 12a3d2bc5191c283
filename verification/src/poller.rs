//! The poller: decides, per sweep, which event handlers are due, marks them
//! checked, and says which kind of check to perform.
//!
//! The sweep loop itself (a background worker that sleeps between sweeps and
//! watches the running flag) lives outside the library; the decisions it acts
//! on are all here. A handler is due when it was never checked, when its
//! recorded last check does not parse as a timestamp (fail-open: a corrupt
//! timestamp never disables a handler), or when its interval has elapsed,
//! boundary included. Due or not is decided per handler within a sweep; the
//! sweep cadence itself is the loop's, not the handler's.

use vstd::prelude::*;

use crate::clock::clock_now;
use crate::clock::parse_rfc3339_seconds;
use crate::clock::rfc3339_seconds;
use crate::order::str_eq;
use crate::store::Database;
use crate::store::EventHandler;
use crate::store::handler_mark_post;
use crate::store::has_handler_id;
use crate::store::marked_last_check;

verus! {

/// The handler's interval has elapsed at the instant `now` (in seconds since
/// the epoch): never checked, an unreadable last check, or at least
/// `interval_seconds` seconds passed since the last check.
pub open spec fn eligible_spec(h: EventHandler, now: int) -> bool {
    match h.last_check {
        Option::None => true,
        Option::Some(s) => match rfc3339_seconds(s@) {
            Option::None => true,
            Option::Some(t) => now - t >= h.interval_seconds,
        },
    }
}

/// Decides `eligible_spec` for a handler at the instant `now_seconds`.
pub fn handler_eligible(h: &EventHandler, now_seconds: i64) -> (r: bool)
    ensures
        r == eligible_spec(*h, now_seconds as int),
{
    match &h.last_check {
        None => true,
        Some(s) => match parse_rfc3339_seconds(s.as_str()) {
            None => true,
            Some(t) => (now_seconds as i128) - (t as i128) >= (h.interval_seconds as i128),
        },
    }
}

/// A handler whose recorded last check does not parse as a timestamp is
/// eligible at every instant: fail-open, so a corrupt timestamp never
/// permanently disables a handler.
pub proof fn lemma_unparseable_last_check_eligible(h: EventHandler, now: int)
    requires
        h.last_check matches Some(s) && rfc3339_seconds(s@) is None,
    ensures
        eligible_spec(h, now),
{
}

/// A handler whose last check reads as the instant `t` is eligible exactly
/// from `t + interval_seconds` on, boundary included.
pub proof fn lemma_interval_boundary(h: EventHandler, now: int, t: int)
    requires
        h.last_check matches Some(s) && rfc3339_seconds(s@) == Some(t),
    ensures
        eligible_spec(h, now) <==> now - t >= h.interval_seconds,
{
}

/// What kind of work a due handler asks for.
#[derive(Clone, Copy, Debug, PartialEq, Eq, Structural)]
pub enum ActionKind {
    /// Reach the handler's url and look at the response.
    PollUrl,
    /// Fetch the handler's url and look for events in the content.
    WebUrl,
    /// Run the handler's configured periodic action.
    Periodic,
    /// A url-based handler without a url: nothing to reach.
    MissingUrl,
    /// A handler type this poller does not know: warn, perform no check.
    Unrecognized,
}

/// The work the handler's type asks for.
pub open spec fn kind_spec(h: EventHandler) -> ActionKind {
    if h.event_type@ == "polling"@ {
        if h.url is Some {
            ActionKind::PollUrl
        } else {
            ActionKind::MissingUrl
        }
    } else if h.event_type@ == "web"@ {
        if h.url is Some {
            ActionKind::WebUrl
        } else {
            ActionKind::MissingUrl
        }
    } else if h.event_type@ == "periodic"@ {
        ActionKind::Periodic
    } else {
        ActionKind::Unrecognized
    }
}

/// Decides `kind_spec` for a handler.
pub fn handler_action_kind(h: &EventHandler) -> (k: ActionKind)
    ensures
        k == kind_spec(*h),
{
    if str_eq(h.event_type.as_str(), "polling") {
        if h.url.is_some() {
            ActionKind::PollUrl
        } else {
            ActionKind::MissingUrl
        }
    } else if str_eq(h.event_type.as_str(), "web") {
        if h.url.is_some() {
            ActionKind::WebUrl
        } else {
            ActionKind::MissingUrl
        }
    } else if str_eq(h.event_type.as_str(), "periodic") {
        ActionKind::Periodic
    } else {
        ActionKind::Unrecognized
    }
}

/// The handler takes part in a sweep at instant `now`: switched on and its
/// interval elapsed.
pub open spec fn due_handler(h: EventHandler, now: int) -> bool {
    h.is_active && eligible_spec(h, now)
}

/// The actions one sweep at instant `now` performs: the row id and work kind
/// of every due handler, in row order.
pub open spec fn sweep_plan(hs: Seq<EventHandler>, now: int) -> Seq<(i64, ActionKind)> {
    hs.filter(|h: EventHandler| due_handler(h, now)).map_values(
        |h: EventHandler| (h.id.unwrap(), kind_spec(h)),
    )
}

/// Keeping only rows that pass `p` gives the same rows whether or not the
/// rows were first cut down by a weaker test `q`.
proof fn lemma_filter_subsumed<T>(s: Seq<T>, p: spec_fn(T) -> bool, q: spec_fn(T) -> bool)
    requires
        forall|x: T| #[trigger] p(x) ==> q(x),
    ensures
        s.filter(p) == s.filter(q).filter(p),
    decreases s.len(),
{
    reveal(Seq::filter);
    if s.len() == 0 {
        assert(s.filter(p) =~= s.filter(q).filter(p));
    } else {
        let rest = s.drop_last();
        lemma_filter_subsumed(rest, p, q);
        if q(s.last()) {
            assert(s.filter(q) == rest.filter(q).push(s.last()));
            rest.filter(q).lemma_filter_push(s.last(), p);
        } else {
            assert(!p(s.last()));
            assert(s.filter(q) == rest.filter(q));
        }
    }
}

/// A sweep acts exactly on the handlers the store lists: planning over all
/// rows and planning over the active rows alone give the same actions, since
/// only active handlers are ever due.
pub proof fn lemma_sweep_plan_follows_active_listing(hs: Seq<EventHandler>, now: int)
    ensures
        sweep_plan(hs, now) == sweep_plan(crate::store::active_handlers(hs), now),
{
    let duep = |h: EventHandler| due_handler(h, now);
    let activep = |h: EventHandler| h.is_active;
    lemma_filter_subsumed(hs, duep, activep);
}

/// What one sweep at the instant `now` (written `now_text`) does to the
/// store: every due handler's last check is rewritten to `now_text`, every
/// other handler row is untouched, the returned actions are the sweep's plan,
/// and nothing else in the store changes.
pub open spec fn sweep_post(
    pre: Database,
    post: Database,
    now: int,
    now_text: Seq<char>,
    actions: Seq<(i64, ActionKind)>,
) -> bool {
    &&& post.handler_rows().len() == pre.handler_rows().len()
    &&& forall|k: int|
        0 <= k < pre.handler_rows().len() ==> (if due_handler(pre.handler_rows()[k], now) {
            marked_last_check(#[trigger] post.handler_rows()[k], pre.handler_rows()[k], now_text)
        } else {
            post.handler_rows()[k] == pre.handler_rows()[k]
        })
    &&& actions == sweep_plan(pre.handler_rows(), now)
    &&& post.agent_rows() == pre.agent_rows()
    &&& post.log_rows() == pre.log_rows()
    &&& post.next_agent_rowid() == pre.next_agent_rowid()
    &&& post.next_log_rowid() == pre.next_log_rowid()
    &&& post.next_handler_rowid() == pre.next_handler_rowid()
}

/// Evaluates one sweep at the given instant: marks every due handler as
/// checked at `now_text` and returns the actions to perform, in row order.
/// A handler that is not due is left untouched — no timestamp update.
#[verifier::loop_isolation(false)]
pub fn sweep_handlers_at(db: &mut Database, now_seconds: i64, now_text: &str) -> (actions: Vec<
    (i64, ActionKind),
>)
    requires
        old(db).wf(),
    ensures
        final(db).wf(),
        sweep_post(*old(db), *final(db), now_seconds as int, now_text@, actions@),
{
    let ghost pre = *old(db);
    let ghost duep = |h: EventHandler| due_handler(h, now_seconds as int);
    let ghost tup = |h: EventHandler| (h.id.unwrap(), kind_spec(h));
    let n = db.handler_count();
    let mut actions: Vec<(i64, ActionKind)> = Vec::new();
    let mut i: usize = 0;
    while i < n
        invariant
            i <= n,
            n == pre.handler_rows().len(),
            db.wf(),
            db.handler_rows().len() == n,
            forall|k: int|
                i <= k < n ==> #[trigger] db.handler_rows()[k] == pre.handler_rows()[k],
            forall|k: int|
                0 <= k < i ==> (if due_handler(pre.handler_rows()[k], now_seconds as int) {
                    marked_last_check(
                        #[trigger] db.handler_rows()[k],
                        pre.handler_rows()[k],
                        now_text@,
                    )
                } else {
                    db.handler_rows()[k] == pre.handler_rows()[k]
                }),
            actions@ =~= sweep_plan(pre.handler_rows().take(i as int), now_seconds as int),
            db.agent_rows() == pre.agent_rows(),
            db.log_rows() == pre.log_rows(),
            db.next_agent_rowid() == pre.next_agent_rowid(),
            db.next_log_rowid() == pre.next_log_rowid(),
            db.next_handler_rowid() == pre.next_handler_rowid(),
        decreases n - i,
    {
        let h = db.handler_at(i);
        proof {
            assert(h == pre.handler_rows()[i as int]);
            assert(pre.handler_rows().take(i + 1 as int) =~= pre.handler_rows().take(
                i as int,
            ).push(pre.handler_rows()[i as int]));
            pre.handler_rows().take(i as int).lemma_filter_push(
                pre.handler_rows()[i as int],
                duep,
            );
            let fs = pre.handler_rows().take(i as int).filter(duep);
            if duep(pre.handler_rows()[i as int]) {
                assert(fs.push(pre.handler_rows()[i as int]).map_values(tup) =~= fs.map_values(
                    tup,
                ).push(tup(pre.handler_rows()[i as int])));
            }
        }
        if h.is_active && handler_eligible(&h, now_seconds) {
            proof {
                assert(h.id is Some);
            }
            let id = h.id.unwrap();
            let kind = handler_action_kind(&h);
            actions.push((id, kind));
            let ghost mid = *db;
            let _marked = db.update_event_handler_last_check_at(id, now_text);
            proof {
                assert(mid.handler_rows()[i as int].id == Some(id));
                assert(has_handler_id(mid.handler_rows(), id));
                let k = choose|k: int|
                    0 <= k < mid.handler_rows().len() && (#[trigger] mid.handler_rows()[k]).id
                        == Some(id) && db.handler_rows() == mid.handler_rows().update(
                        k,
                        db.handler_rows()[k],
                    ) && marked_last_check(
                        db.handler_rows()[k],
                        mid.handler_rows()[k],
                        now_text@,
                    );
                if k < i as int {
                    assert(mid.handler_rows()[k].id != mid.handler_rows()[i as int].id);
                    assert(false);
                } else if k > i as int {
                    assert(mid.handler_rows()[i as int].id != mid.handler_rows()[k].id);
                    assert(false);
                }
                assert(db.handler_rows() == mid.handler_rows().update(
                    i as int,
                    db.handler_rows()[i as int],
                ));
            }
        }
        i = i + 1;
    }
    proof {
        assert(pre.handler_rows().take(n as int) =~= pre.handler_rows());
    }
    actions
}

/// Runs one sweep at the present instant, reading the clock once for the
/// whole sweep: every due handler's last check is rewritten to the instant's
/// text, and where that text parses back at all it reads as the very second
/// count the eligibility decisions used (the clock contract promises the
/// round trip only for readings the written form can carry).
pub fn run_sweep(db: &mut Database) -> (actions: Vec<(i64, ActionKind)>)
    requires
        old(db).wf(),
    ensures
        final(db).wf(),
        exists|now: int, now_text: Seq<char>|
            (rfc3339_seconds(now_text) matches Some(t) ==> t == now) && #[trigger] sweep_post(
                *old(db),
                *final(db),
                now,
                now_text,
                actions@,
            ),
{
    let (secs, text) = clock_now();
    let actions = sweep_handlers_at(db, secs, text.as_str());
    proof {
        assert((rfc3339_seconds(text@) matches Some(t) ==> t == secs as int) && sweep_post(
            *old(db),
            *db,
            secs as int,
            text@,
            actions@,
        ));
    }
    actions
}

/// The poller's lifecycle: stopped, or running one sweep loop. The flag is
/// all the state there is; the loop that watches it lives with the caller.
pub struct EventPoller {
    running: bool,
}

/// What `start` does to the running flag: the poller runs afterwards, and a
/// sweep loop is to be spawned only where none was running.
pub open spec fn start_transition(running: bool) -> (bool, bool) {
    (true, !running)
}

/// What `stop` does to the running flag: the poller is stopped afterwards.
/// The running loop observes the flag at its next sweep boundary and exits.
pub open spec fn stop_transition(running: bool) -> bool {
    false
}

impl EventPoller {
    /// Whether the poller is in its running state.
    pub closed spec fn running_state(self) -> bool {
        self.running
    }

    /// A poller in its initial, stopped state.
    pub fn new() -> (p: EventPoller)
        ensures
            !p.running_state(),
    {
        EventPoller { running: false }
    }

    /// Switches the poller on and says whether a sweep loop must be spawned:
    /// only where the poller was stopped, so starting twice spawns one loop.
    pub fn start(&mut self) -> (spawn: bool)
        ensures
            (final(self).running_state(), spawn) == start_transition(old(self).running_state()),
    {
        let spawn = !self.running;
        self.running = true;
        spawn
    }

    /// Switches the poller off. Stopping an already stopped poller changes
    /// nothing.
    pub fn stop(&mut self)
        ensures
            final(self).running_state() == stop_transition(old(self).running_state()),
    {
        self.running = false;
    }

    /// Whether the poller is running.
    pub fn is_running(&self) -> (r: bool)
        ensures
            r == self.running_state(),
    {
        self.running
    }
}

impl Drop for EventPoller {
    /// The stop hook on teardown: a poller that goes away leaves its sweep
    /// loop a stop signal, so the terminal state is stopped.
    fn drop(&mut self)
        ensures
            !final(self).running_state(),
        opens_invariants none
        no_unwind
    {
        self.running = false;
    }
}

/// Starting is idempotent: after one `start` the poller runs, and a second
/// `start` keeps that state and spawns no second sweep loop. Stopping is
/// idempotent: the second `stop` changes nothing.
pub proof fn lemma_start_stop_idempotent(r0: bool)
    ensures
        ({
            let (r1, sp1) = start_transition(r0);
            let (r2, sp2) = start_transition(r1);
            r1 && r2 == r1 && !sp2 && sp1 == !r0
        }),
        stop_transition(stop_transition(r0)) == stop_transition(r0),
{
}

} // verus!
