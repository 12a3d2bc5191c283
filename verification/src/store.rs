//! The durable store for agents, agent logs and event handlers.
//!
//! The store owns every row. Rows handed out are value copies. Its reads come
//! with ordering guarantees: agents newest-created first, logs newest first.
//! Row identities are assigned by the store, starting at 1, and never reused.

use vstd::pervasive::VecAdditionalExecFns;
use vstd::prelude::*;

use crate::clock::clock_now;
use crate::clock::rfc3339_seconds;
use crate::order::lemma_lex_antisym;
use crate::order::lemma_lex_refl;
use crate::order::lemma_lex_trans;
use crate::order::lemma_sorted_desc_insert;
use crate::order::lemma_sorted_desc_remove;
use crate::order::lex_le;
use crate::order::sorted_desc;
use crate::order::str_eq;
use crate::order::str_le;

verus! {

/// A scheduled automation task. `id`, `created_at` and `updated_at` are
/// assigned by the store; the rest is caller data.
#[derive(Debug)]
pub struct Agent {
    pub id: Option<i64>,
    pub name: String,
    pub description: Option<String>,
    pub role: Option<String>,
    pub goal: Option<String>,
    pub tools: Option<String>,
    pub schedule: String,
    pub schedule_time: Option<String>,
    pub command: String,
    pub args: String,
    pub timeout: i64,
    pub config_json: String,
    pub created_at: String,
    pub updated_at: String,
    pub is_active: bool,
}

/// An append-only audit record for an agent. `id` and `timestamp` are
/// assigned by the store. `agent_name` is captured at write time and not kept
/// in sync with later renames.
#[derive(Debug)]
pub struct AgentLog {
    pub id: Option<i64>,
    pub agent_id: i64,
    pub agent_name: String,
    pub event_type: String,
    pub message: String,
    pub details: Option<String>,
    pub timestamp: String,
}

/// A polling trigger. `id` is assigned by the store; `last_check` is absent
/// until the poller first evaluates the handler.
#[derive(Debug)]
pub struct EventHandler {
    pub id: Option<i64>,
    pub name: String,
    pub event_type: String,
    pub url: Option<String>,
    pub interval_seconds: i64,
    pub last_check: Option<String>,
    pub is_active: bool,
    pub config_json: String,
}

/// Why a store operation was refused.
#[derive(Clone, Copy, Debug, PartialEq, Eq, Structural)]
pub enum StoreError {
    /// A uniqueness rule would be broken, or the row-id space is spent.
    ConstraintViolation,
    /// The addressed row does not exist.
    NotFound,
    /// The store cannot serve the request at all.
    StoreUnavailable,
}

fn clone_opt_text(o: &Option<String>) -> (r: Option<String>)
    ensures
        r == *o,
{
    match o {
        Some(s) => Some(s.clone()),
        None => None,
    }
}

impl Clone for Agent {
    fn clone(&self) -> (r: Self)
        ensures
            r == *self,
    {
        Agent {
            id: self.id,
            name: self.name.clone(),
            description: clone_opt_text(&self.description),
            role: clone_opt_text(&self.role),
            goal: clone_opt_text(&self.goal),
            tools: clone_opt_text(&self.tools),
            schedule: self.schedule.clone(),
            schedule_time: clone_opt_text(&self.schedule_time),
            command: self.command.clone(),
            args: self.args.clone(),
            timeout: self.timeout,
            config_json: self.config_json.clone(),
            created_at: self.created_at.clone(),
            updated_at: self.updated_at.clone(),
            is_active: self.is_active,
        }
    }
}

impl Clone for AgentLog {
    fn clone(&self) -> (r: Self)
        ensures
            r == *self,
    {
        AgentLog {
            id: self.id,
            agent_id: self.agent_id,
            agent_name: self.agent_name.clone(),
            event_type: self.event_type.clone(),
            message: self.message.clone(),
            details: clone_opt_text(&self.details),
            timestamp: self.timestamp.clone(),
        }
    }
}

impl Clone for EventHandler {
    fn clone(&self) -> (r: Self)
        ensures
            r == *self,
    {
        EventHandler {
            id: self.id,
            name: self.name.clone(),
            event_type: self.event_type.clone(),
            url: clone_opt_text(&self.url),
            interval_seconds: self.interval_seconds,
            last_check: clone_opt_text(&self.last_check),
            is_active: self.is_active,
            config_json: self.config_json.clone(),
        }
    }
}

/// The two options hold the same text, or are both absent.
pub open spec fn opt_text_eq(x: Option<String>, y: Option<String>) -> bool {
    match (x, y) {
        (Option::None, Option::None) => true,
        (Option::Some(a), Option::Some(b)) => a@ == b@,
        _ => false,
    }
}

/// The caller-supplied fields of `s` hold the same values as those of `a`;
/// the store-assigned fields (`id`, `created_at`, `updated_at`) are not
/// compared.
pub open spec fn agent_fields_from(s: Agent, a: Agent) -> bool {
    &&& s.name@ == a.name@
    &&& opt_text_eq(s.description, a.description)
    &&& opt_text_eq(s.role, a.role)
    &&& opt_text_eq(s.goal, a.goal)
    &&& opt_text_eq(s.tools, a.tools)
    &&& s.schedule@ == a.schedule@
    &&& opt_text_eq(s.schedule_time, a.schedule_time)
    &&& s.command@ == a.command@
    &&& s.args@ == a.args@
    &&& s.timeout == a.timeout
    &&& s.config_json@ == a.config_json@
    &&& s.is_active == a.is_active
}

/// `s` is the row that a create of `a` stores: caller fields from `a`, the
/// given row id, and both timestamps set to `now`.
pub open spec fn stored_agent_from(s: Agent, a: Agent, id: i64, now: Seq<char>) -> bool {
    &&& s.id == Some(id)
    &&& agent_fields_from(s, a)
    &&& s.created_at@ == now
    &&& s.updated_at@ == now
}

/// Some row holds the given name.
pub open spec fn has_agent_name(s: Seq<Agent>, name: Seq<char>) -> bool {
    exists|i: int| 0 <= i < s.len() && (#[trigger] s[i]).name@ == name
}

/// Some row holds the given id.
pub open spec fn has_agent_id(s: Seq<Agent>, id: i64) -> bool {
    exists|i: int| 0 <= i < s.len() && (#[trigger] s[i]).id == Some(id)
}

/// The creation timestamps of the rows, in row order.
pub open spec fn created_keys(s: Seq<Agent>) -> Seq<Seq<char>> {
    s.map_values(|a: Agent| a.created_at@)
}

/// The log timestamps of the rows, in row order.
pub open spec fn log_keys(s: Seq<AgentLog>) -> Seq<Seq<char>> {
    s.map_values(|l: AgentLog| l.timestamp@)
}

/// Agent rows are well formed: ids assigned, below the next free id and
/// unique; names unique; no row updated before it was created; rows ordered
/// newest-created first.
pub open spec fn agents_wf(s: Seq<Agent>, next: i64) -> bool {
    &&& 1 <= next
    &&& forall|i: int|
        0 <= i < s.len() ==> ((#[trigger] s[i]).id matches Some(id) && 1 <= id && id < next)
    &&& forall|i: int|
        0 <= i < s.len() ==> lex_le((#[trigger] s[i]).created_at@, s[i].updated_at@)
    &&& forall|i: int, j: int|
        0 <= i < j < s.len() ==> (#[trigger] s[i]).id != (#[trigger] s[j]).id && s[i].name@
            != s[j].name@
    &&& sorted_desc(created_keys(s))
}

/// Log rows are well formed: ids assigned, below the next free id and unique;
/// rows ordered newest first.
pub open spec fn logs_wf(s: Seq<AgentLog>, next: i64) -> bool {
    &&& 1 <= next
    &&& forall|i: int|
        0 <= i < s.len() ==> ((#[trigger] s[i]).id matches Some(id) && 1 <= id && id < next)
    &&& forall|i: int, j: int| 0 <= i < j < s.len() ==> (#[trigger] s[i]).id != (#[trigger] s[j]).id
    &&& sorted_desc(log_keys(s))
}

/// Handler rows are well formed: ids assigned, below the next free id and
/// unique; names unique. Rows stay in insertion order.
pub open spec fn handlers_wf(s: Seq<EventHandler>, next: i64) -> bool {
    &&& 1 <= next
    &&& forall|i: int|
        0 <= i < s.len() ==> ((#[trigger] s[i]).id matches Some(id) && 1 <= id && id < next)
    &&& forall|i: int, j: int|
        0 <= i < j < s.len() ==> (#[trigger] s[i]).id != (#[trigger] s[j]).id && s[i].name@
            != s[j].name@
}

/// The store: three row tables and the next free row id of each.
pub struct Database {
    agents: Vec<Agent>,
    logs: Vec<AgentLog>,
    handlers: Vec<EventHandler>,
    next_agent_id: i64,
    next_log_id: i64,
    next_handler_id: i64,
}

impl Database {
    /// The agent rows, newest-created first.
    pub closed spec fn agent_rows(self) -> Seq<Agent> {
        self.agents@
    }

    /// The log rows, newest first.
    pub closed spec fn log_rows(self) -> Seq<AgentLog> {
        self.logs@
    }

    /// The handler rows, in insertion order.
    pub closed spec fn handler_rows(self) -> Seq<EventHandler> {
        self.handlers@
    }

    /// The row id the next created agent receives.
    pub closed spec fn next_agent_rowid(self) -> i64 {
        self.next_agent_id
    }

    /// The row id the next log record receives.
    pub closed spec fn next_log_rowid(self) -> i64 {
        self.next_log_id
    }

    /// The row id the next created handler receives.
    pub closed spec fn next_handler_rowid(self) -> i64 {
        self.next_handler_id
    }

    /// The store's invariant, established by `new` and kept by every
    /// operation.
    pub open spec fn wf(self) -> bool {
        &&& agents_wf(self.agent_rows(), self.next_agent_rowid())
        &&& logs_wf(self.log_rows(), self.next_log_rowid())
        &&& handlers_wf(self.handler_rows(), self.next_handler_rowid())
    }

    /// Opens an empty store.
    pub fn new() -> (r: Result<Database, StoreError>)
        ensures
            r matches Ok(db) && db.wf() && db.agent_rows() == Seq::<Agent>::empty()
                && db.log_rows() == Seq::<AgentLog>::empty() && db.handler_rows()
                == Seq::<EventHandler>::empty() && db.next_agent_rowid() == 1
                && db.next_log_rowid() == 1 && db.next_handler_rowid() == 1,
    {
        Ok(
            Database {
                agents: Vec::new(),
                logs: Vec::new(),
                handlers: Vec::new(),
                next_agent_id: 1,
                next_log_id: 1,
                next_handler_id: 1,
            },
        )
    }
}

/// `post` is `pre` with `v` inserted at position `k`.
pub open spec fn row_inserted_at<T>(pre: Seq<T>, post: Seq<T>, k: int, v: T) -> bool {
    &&& 0 <= k <= pre.len()
    &&& post == pre.insert(k, v)
}

/// What a create of agent `a` at instant `now` does: refused with
/// `ConstraintViolation` exactly when the name is taken, with
/// `StoreUnavailable` exactly when the row-id space is spent; otherwise the
/// stamped row is inserted at its place in the creation order and the next
/// row id advances. Nothing else changes.
pub open spec fn agent_create_post(
    pre: Database,
    post: Database,
    a: Agent,
    now: Seq<char>,
    r: Result<i64, StoreError>,
) -> bool {
    &&& ((r matches Err(StoreError::ConstraintViolation)) <==> has_agent_name(
        pre.agent_rows(),
        a.name@,
    ))
    &&& ((r matches Err(StoreError::StoreUnavailable)) <==> (!has_agent_name(
        pre.agent_rows(),
        a.name@,
    ) && pre.next_agent_rowid() == i64::MAX))
    &&& !(r matches Err(StoreError::NotFound))
    &&& (r is Err ==> post == pre)
    &&& (r matches Ok(id) ==> {
        &&& id == pre.next_agent_rowid()
        &&& post.next_agent_rowid() == pre.next_agent_rowid() + 1
        &&& exists|k: int, v: Agent|
            #[trigger] row_inserted_at(pre.agent_rows(), post.agent_rows(), k, v)
                && stored_agent_from(v, a, id, now)
        &&& post.log_rows() == pre.log_rows()
        &&& post.handler_rows() == pre.handler_rows()
        &&& post.next_log_rowid() == pre.next_log_rowid()
        &&& post.next_handler_rowid() == pre.next_handler_rowid()
    })
}

/// The position in the creation order at which a row stamped `now` belongs:
/// before the first row whose creation timestamp is at most `now`.
#[verifier::loop_isolation(false)]
fn agent_insert_pos(agents: &Vec<Agent>, now: &str) -> (k: usize)
    ensures
        k <= agents@.len(),
        forall|j: int| 0 <= j < k ==> !lex_le((#[trigger] agents@[j]).created_at@, now@),
        k < agents@.len() ==> lex_le(agents@[k as int].created_at@, now@),
{
    let n = agents.len();
    let mut k: usize = 0;
    while k < n
        invariant
            k <= n,
            forall|j: int| 0 <= j < k ==> !lex_le((#[trigger] agents@[j]).created_at@, now@),
        decreases n - k,
    {
        if str_le(agents[k].created_at.as_str(), now) {
            return k;
        }
        k = k + 1;
    }
    k
}

impl Database {
    /// Stores agent `a` as created at the instant written `now`, assigning
    /// the next row id and both timestamps. Fails with `ConstraintViolation`
    /// exactly when another agent already holds the name.
    #[verifier::loop_isolation(false)]
    pub fn create_agent_at(&mut self, a: &Agent, now: &str) -> (r: Result<i64, StoreError>)
        requires
            old(self).wf(),
        ensures
            final(self).wf(),
            agent_create_post(*old(self), *final(self), *a, now@, r),
    {
        let n = self.agents.len();
        let mut i: usize = 0;
        while i < n
            invariant
                i <= n,
                n == self.agents.len(),
                forall|j: int| 0 <= j < i ==> (#[trigger] self.agents@[j]).name@ != a.name@,
            decreases n - i,
        {
            if str_eq(self.agents[i].name.as_str(), a.name.as_str()) {
                return Err(StoreError::ConstraintViolation);
            }
            i = i + 1;
        }
        assert(!has_agent_name(self.agents@, a.name@));
        if self.next_agent_id == i64::MAX {
            return Err(StoreError::StoreUnavailable);
        }
        let id = self.next_agent_id;
        let stored = Agent {
            id: Some(id),
            name: a.name.clone(),
            description: clone_opt_text(&a.description),
            role: clone_opt_text(&a.role),
            goal: clone_opt_text(&a.goal),
            tools: clone_opt_text(&a.tools),
            schedule: a.schedule.clone(),
            schedule_time: clone_opt_text(&a.schedule_time),
            command: a.command.clone(),
            args: a.args.clone(),
            timeout: a.timeout,
            config_json: a.config_json.clone(),
            created_at: now.to_owned(),
            updated_at: now.to_owned(),
            is_active: a.is_active,
        };
        let k: usize = agent_insert_pos(&self.agents, now);
        proof {
            let keys = created_keys(self.agents@);
            assert(forall|j: int| 0 <= j < k ==> !lex_le(#[trigger] keys[j], now@));
            assert(k < n ==> lex_le(keys[k as int], now@));
            lemma_sorted_desc_insert(keys, now@, k as int);
        }
        let ghost pre_rows = self.agents@;
        self.agents.insert(k, stored);
        self.next_agent_id = id + 1;
        proof {
            pre_rows.insert_ensures(k as int, stored);
            assert(created_keys(self.agents@) =~= created_keys(pre_rows).insert(k as int, now@));
            assert(row_inserted_at(pre_rows, self.agents@, k as int, stored)
                && stored_agent_from(stored, *a, id, now@));
            assert forall|p: int|
                0 <= p < self.agents@.len() implies ((#[trigger] self.agents@[p]).id
                matches Some(pid) && 1 <= pid && pid < id + 1) by {
                if p < k {
                    assert(self.agents@[p] == pre_rows[p]);
                } else if p > k {
                    assert(self.agents@[p] == pre_rows[p - 1]);
                }
            }
            lemma_lex_refl(now@);
            assert forall|p: int|
                0 <= p < self.agents@.len() implies lex_le(
                (#[trigger] self.agents@[p]).created_at@,
                self.agents@[p].updated_at@,
            ) by {
                if p < k {
                    assert(self.agents@[p] == pre_rows[p]);
                } else if p > k {
                    assert(self.agents@[p] == pre_rows[p - 1]);
                }
            }
            assert forall|p: int, q: int|
                0 <= p < q < self.agents@.len() implies ((#[trigger] self.agents@[p]).id
                != (#[trigger] self.agents@[q]).id && self.agents@[p].name@
                != self.agents@[q].name@) by {
                let p0: int = if p < k {
                    p
                } else {
                    p - 1
                };
                let q0: int = if q < k {
                    q
                } else {
                    q - 1
                };
                if p == k {
                    assert(self.agents@[q] == pre_rows[q0]);
                } else if q == k {
                    assert(self.agents@[p] == pre_rows[p0]);
                } else {
                    assert(self.agents@[p] == pre_rows[p0]);
                    assert(self.agents@[q] == pre_rows[q0]);
                }
            }
        }
        Ok(id)
    }

    /// Stores agent `a` as created now, reading the clock for the timestamp.
    pub fn create_agent(&mut self, a: &Agent) -> (r: Result<i64, StoreError>)
        requires
            old(self).wf(),
        ensures
            final(self).wf(),
            exists|now: Seq<char>|
                #[trigger] agent_create_post(*old(self), *final(self), *a, now, r),
    {
        let (_secs, text) = clock_now();
        let r = self.create_agent_at(a, text.as_str());
        proof {
            assert(agent_create_post(*old(self), *final(self), *a, text@, r));
        }
        r
    }

    /// Looks an agent up by name: the matching row, or `None` where no row
    /// holds the name. Names are unique, so at most one row matches.
    #[verifier::loop_isolation(false)]
    pub fn get_agent_by_name(&self, name: &str) -> (r: Result<Option<Agent>, StoreError>)
        requires
            self.wf(),
        ensures
            r matches Ok(o) && (match o {
                Option::Some(a) => has_agent_name(self.agent_rows(), name@) && a.name@ == name@
                    && self.agent_rows().contains(a),
                Option::None => !has_agent_name(self.agent_rows(), name@),
            }),
    {
        let n = self.agents.len();
        let mut i: usize = 0;
        while i < n
            invariant
                i <= n,
                n == self.agents.len(),
                forall|j: int| 0 <= j < i ==> (#[trigger] self.agents@[j]).name@ != name@,
            decreases n - i,
        {
            if str_eq(self.agents[i].name.as_str(), name) {
                let found = self.agents[i].clone();
                proof {
                    assert(self.agents@.contains(self.agents@[i as int]));
                }
                return Ok(Some(found));
            }
            i = i + 1;
        }
        Ok(None)
    }

    /// Lists every agent, newest-created first. The listed rows are exactly
    /// the stored rows, in the store's creation order.
    #[verifier::loop_isolation(false)]
    pub fn get_all_agents(&self) -> (r: Result<Vec<Agent>, StoreError>)
        requires
            self.wf(),
        ensures
            r matches Ok(v) && v@ == self.agent_rows() && sorted_desc(created_keys(v@)),
    {
        let n = self.agents.len();
        let mut out: Vec<Agent> = Vec::new();
        let mut i: usize = 0;
        while i < n
            invariant
                i <= n,
                out@ =~= self.agents@.take(i as int),
            decreases n - i,
        {
            out.push(self.agents[i].clone());
            proof {
                assert(self.agents@.take(i + 1 as int) =~= self.agents@.take(i as int).push(
                    self.agents@[i as int],
                ));
            }
            i = i + 1;
        }
        proof {
            assert(self.agents@.take(n as int) =~= self.agents@);
        }
        Ok(out)
    }
}

/// The index of the row holding id `id`, if any.
#[verifier::loop_isolation(false)]
fn find_agent_index(agents: &Vec<Agent>, id: i64) -> (r: Option<usize>)
    ensures
        r matches Some(k) ==> k < agents@.len() && agents@[k as int].id == Some(id),
        r is None ==> !has_agent_id(agents@, id),
{
    let n = agents.len();
    let mut i: usize = 0;
    while i < n
        invariant
            i <= n,
            forall|j: int| 0 <= j < i ==> (#[trigger] agents@[j]).id != Some(id),
        decreases n - i,
    {
        if let Some(rowid) = agents[i].id {
            if rowid == id {
                return Some(i);
            }
        }
        i = i + 1;
    }
    None
}

/// The update stamp a row rewritten at `now` receives: `now`, unless `now`
/// would precede the row's creation stamp, which is then kept, so that no row
/// ever reads as updated before it was created.
pub open spec fn clamped_stamp(created: Seq<char>, now: Seq<char>) -> Seq<char> {
    if lex_le(created, now) {
        now
    } else {
        created
    }
}

/// `u` is `prev` rewritten from `a`: caller fields from `a`, identity and
/// creation timestamp kept, update timestamp set to `now` (clamped so it
/// never precedes the creation stamp).
pub open spec fn updated_agent_from(u: Agent, prev: Agent, a: Agent, now: Seq<char>) -> bool {
    &&& u.id == prev.id
    &&& agent_fields_from(u, a)
    &&& u.created_at == prev.created_at
    &&& u.updated_at@ == clamped_stamp(prev.created_at@, now)
}

/// What an update of row `id` from agent `a` at instant `now` does: refused
/// with `NotFound` exactly when no row holds the id, with
/// `ConstraintViolation` exactly when a different row already holds the new
/// name; otherwise the row is rewritten in place and keeps its creation
/// timestamp. Nothing else changes.
pub open spec fn agent_update_post(
    pre: Database,
    post: Database,
    id: i64,
    a: Agent,
    now: Seq<char>,
    r: Result<(), StoreError>,
) -> bool {
    &&& ((r matches Err(StoreError::NotFound)) <==> !has_agent_id(pre.agent_rows(), id))
    &&& ((r matches Err(StoreError::ConstraintViolation)) <==> (has_agent_id(
        pre.agent_rows(),
        id,
    ) && exists|j: int|
        0 <= j < pre.agent_rows().len() && (#[trigger] pre.agent_rows()[j]).name@ == a.name@
            && pre.agent_rows()[j].id != Some(id)))
    &&& !(r matches Err(StoreError::StoreUnavailable))
    &&& (r is Err ==> post == pre)
    &&& (r is Ok ==> {
        &&& exists|k: int|
            0 <= k < pre.agent_rows().len() && (#[trigger] pre.agent_rows()[k]).id == Some(id)
                && post.agent_rows() == pre.agent_rows().update(k, post.agent_rows()[k])
                && updated_agent_from(post.agent_rows()[k], pre.agent_rows()[k], a, now)
        &&& post.log_rows() == pre.log_rows()
        &&& post.handler_rows() == pre.handler_rows()
        &&& post.next_agent_rowid() == pre.next_agent_rowid()
        &&& post.next_log_rowid() == pre.next_log_rowid()
        &&& post.next_handler_rowid() == pre.next_handler_rowid()
    })
}

/// What a delete of row `id` does: the row leaves, or nothing changes where
/// no row holds the id. The agent's logs are kept either way: a delete does
/// not cascade.
pub open spec fn agent_delete_post(pre: Database, post: Database, id: i64) -> bool {
    &&& (has_agent_id(pre.agent_rows(), id) ==> exists|k: int|
        0 <= k < pre.agent_rows().len() && (#[trigger] pre.agent_rows()[k]).id == Some(id)
            && post.agent_rows() == pre.agent_rows().remove(k))
    &&& (!has_agent_id(pre.agent_rows(), id) ==> post.agent_rows() == pre.agent_rows())
    &&& post.log_rows() == pre.log_rows()
    &&& post.handler_rows() == pre.handler_rows()
    &&& post.next_agent_rowid() == pre.next_agent_rowid()
    &&& post.next_log_rowid() == pre.next_log_rowid()
    &&& post.next_handler_rowid() == pre.next_handler_rowid()
}

impl Database {
    /// Rewrites the row holding id `id` from agent `a`, stamping the instant
    /// written `now` as the update time. The creation timestamp is kept.
    #[verifier::loop_isolation(false)]
    pub fn update_agent_at(&mut self, id: i64, a: &Agent, now: &str) -> (r: Result<
        (),
        StoreError,
    >)
        requires
            old(self).wf(),
        ensures
            final(self).wf(),
            agent_update_post(*old(self), *final(self), id, *a, now@, r),
    {
        let idx = match find_agent_index(&self.agents, id) {
            None => {
                return Err(StoreError::NotFound);
            },
            Some(k) => k,
        };
        let n = self.agents.len();
        let mut j: usize = 0;
        while j < n
            invariant
                j <= n,
                forall|p: int|
                    0 <= p < j && p != idx ==> (#[trigger] self.agents@[p]).name@ != a.name@,
            decreases n - j,
        {
            if j != idx && str_eq(self.agents[j].name.as_str(), a.name.as_str()) {
                proof {
                    assert(self.agents@[j as int].id != Some(id));
                }
                return Err(StoreError::ConstraintViolation);
            }
            j = j + 1;
        }
        let prev_created = self.agents[idx].created_at.clone();
        let new_updated = if str_le(prev_created.as_str(), now) {
            now.to_owned()
        } else {
            prev_created.clone()
        };
        let updated = Agent {
            id: Some(id),
            name: a.name.clone(),
            description: clone_opt_text(&a.description),
            role: clone_opt_text(&a.role),
            goal: clone_opt_text(&a.goal),
            tools: clone_opt_text(&a.tools),
            schedule: a.schedule.clone(),
            schedule_time: clone_opt_text(&a.schedule_time),
            command: a.command.clone(),
            args: a.args.clone(),
            timeout: a.timeout,
            config_json: a.config_json.clone(),
            created_at: prev_created,
            updated_at: new_updated,
            is_active: a.is_active,
        };
        let ghost pre_rows = self.agents@;
        self.agents.set(idx, updated);
        proof {
            lemma_lex_refl(updated.created_at@);
            assert(updated.updated_at@ == clamped_stamp(pre_rows[idx as int].created_at@, now@));
            assert forall|p: int|
                0 <= p < self.agents@.len() implies lex_le(
                (#[trigger] self.agents@[p]).created_at@,
                self.agents@[p].updated_at@,
            ) by {
                if p != idx {
                    assert(self.agents@[p] == pre_rows[p]);
                }
            }
            assert(created_keys(self.agents@) =~= created_keys(pre_rows));
            assert forall|p: int, q: int|
                0 <= p < q < self.agents@.len() implies ((#[trigger] self.agents@[p]).id
                != (#[trigger] self.agents@[q]).id && self.agents@[p].name@
                != self.agents@[q].name@) by {
                if p != idx && q != idx {
                    assert(self.agents@[p] == pre_rows[p] && self.agents@[q] == pre_rows[q]);
                } else if p == idx {
                    assert(self.agents@[q] == pre_rows[q]);
                    assert(pre_rows[q].name@ != a.name@);
                    assert(pre_rows[q].id != pre_rows[idx as int].id);
                } else {
                    assert(self.agents@[p] == pre_rows[p]);
                    assert(pre_rows[p].name@ != a.name@);
                    assert(pre_rows[p].id != pre_rows[idx as int].id);
                }
            }
            assert(self.agents@ == pre_rows.update(idx as int, self.agents@[idx as int]));
        }
        Ok(())
    }

    /// Rewrites the row holding id `id` from agent `a`, reading the clock for
    /// the update timestamp.
    pub fn update_agent(&mut self, id: i64, a: &Agent) -> (r: Result<(), StoreError>)
        requires
            old(self).wf(),
        ensures
            final(self).wf(),
            exists|now: Seq<char>|
                #[trigger] agent_update_post(*old(self), *final(self), id, *a, now, r),
    {
        let (_secs, text) = clock_now();
        let r = self.update_agent_at(id, a, text.as_str());
        proof {
            assert(agent_update_post(*old(self), *final(self), id, *a, text@, r));
        }
        r
    }

    /// Removes the row holding id `id`; removing an unknown id is a no-op.
    /// The agent's logs stay readable: a delete does not cascade.
    pub fn delete_agent(&mut self, id: i64) -> (r: Result<(), StoreError>)
        requires
            old(self).wf(),
        ensures
            final(self).wf(),
            r is Ok,
            agent_delete_post(*old(self), *final(self), id),
    {
        match find_agent_index(&self.agents, id) {
            None => Ok(()),
            Some(k) => {
                let ghost pre_rows = self.agents@;
                self.agents.remove(k);
                proof {
                    pre_rows.remove_ensures(k as int);
                    assert(created_keys(self.agents@) =~= created_keys(pre_rows).remove(k as int));
                    lemma_sorted_desc_remove(created_keys(pre_rows), k as int);
                    assert forall|p: int|
                        0 <= p < self.agents@.len() implies ((#[trigger] self.agents@[p]).id
                        matches Some(pid) && 1 <= pid && pid < self.next_agent_id) by {
                        if p < k {
                            assert(self.agents@[p] == pre_rows[p]);
                        } else {
                            assert(self.agents@[p] == pre_rows[p + 1]);
                        }
                    }
                    assert forall|p: int|
                        0 <= p < self.agents@.len() implies lex_le(
                        (#[trigger] self.agents@[p]).created_at@,
                        self.agents@[p].updated_at@,
                    ) by {
                        if p < k {
                            assert(self.agents@[p] == pre_rows[p]);
                        } else {
                            assert(self.agents@[p] == pre_rows[p + 1]);
                        }
                    }
                    assert forall|p: int, q: int|
                        0 <= p < q < self.agents@.len() implies ((#[trigger] self.agents@[p]).id
                        != (#[trigger] self.agents@[q]).id && self.agents@[p].name@
                        != self.agents@[q].name@) by {
                        let p0: int = if p < k {
                            p
                        } else {
                            p + 1
                        };
                        let q0: int = if q < k {
                            q
                        } else {
                            q + 1
                        };
                        assert(self.agents@[p] == pre_rows[p0]);
                        assert(self.agents@[q] == pre_rows[q0]);
                    }
                }
                Ok(())
            },
        }
    }
}

/// The position in the log order at which a record stamped `now` belongs:
/// before the first record whose timestamp is at most `now`.
#[verifier::loop_isolation(false)]
fn log_insert_pos(logs: &Vec<AgentLog>, now: &str) -> (k: usize)
    ensures
        k <= logs@.len(),
        forall|j: int| 0 <= j < k ==> !lex_le((#[trigger] logs@[j]).timestamp@, now@),
        k < logs@.len() ==> lex_le(logs@[k as int].timestamp@, now@),
{
    let n = logs.len();
    let mut k: usize = 0;
    while k < n
        invariant
            k <= n,
            forall|j: int| 0 <= j < k ==> !lex_le((#[trigger] logs@[j]).timestamp@, now@),
        decreases n - k,
    {
        if str_le(logs[k].timestamp.as_str(), now) {
            return k;
        }
        k = k + 1;
    }
    k
}

/// `s` is the record that logging `l` stores: caller fields from `l`, the
/// given row id, and the timestamp set to `now`.
pub open spec fn stored_log_from(s: AgentLog, l: AgentLog, id: i64, now: Seq<char>) -> bool {
    &&& s.id == Some(id)
    &&& s.agent_id == l.agent_id
    &&& s.agent_name@ == l.agent_name@
    &&& s.event_type@ == l.event_type@
    &&& s.message@ == l.message@
    &&& opt_text_eq(s.details, l.details)
    &&& s.timestamp@ == now
}

/// What logging record `l` at instant `now` does: refused with
/// `StoreUnavailable` exactly when the row-id space is spent; otherwise the
/// stamped record is inserted at its place in the timestamp order and the
/// next row id advances. Nothing else changes — records are never rewritten.
pub open spec fn log_create_post(
    pre: Database,
    post: Database,
    l: AgentLog,
    now: Seq<char>,
    r: Result<i64, StoreError>,
) -> bool {
    &&& ((r matches Err(StoreError::StoreUnavailable)) <==> pre.next_log_rowid() == i64::MAX)
    &&& (r is Err ==> (r matches Err(StoreError::StoreUnavailable)) && post == pre)
    &&& (r matches Ok(id) ==> {
        &&& id == pre.next_log_rowid()
        &&& post.next_log_rowid() == pre.next_log_rowid() + 1
        &&& exists|k: int, v: AgentLog|
            #[trigger] row_inserted_at(pre.log_rows(), post.log_rows(), k, v)
                && stored_log_from(v, l, id, now)
        &&& post.agent_rows() == pre.agent_rows()
        &&& post.handler_rows() == pre.handler_rows()
        &&& post.next_agent_rowid() == pre.next_agent_rowid()
        &&& post.next_handler_rowid() == pre.next_handler_rowid()
    })
}

impl Database {
    /// Appends audit record `l` stamped with the instant written `now`,
    /// assigning the next row id. Records are insert-only: nothing is ever
    /// rewritten or dropped by this operation.
    #[verifier::loop_isolation(false)]
    pub fn log_agent_event_at(&mut self, l: &AgentLog, now: &str) -> (r: Result<i64, StoreError>)
        requires
            old(self).wf(),
        ensures
            final(self).wf(),
            log_create_post(*old(self), *final(self), *l, now@, r),
    {
        if self.next_log_id == i64::MAX {
            return Err(StoreError::StoreUnavailable);
        }
        let id = self.next_log_id;
        let stored = AgentLog {
            id: Some(id),
            agent_id: l.agent_id,
            agent_name: l.agent_name.clone(),
            event_type: l.event_type.clone(),
            message: l.message.clone(),
            details: clone_opt_text(&l.details),
            timestamp: now.to_owned(),
        };
        let k: usize = log_insert_pos(&self.logs, now);
        proof {
            let keys = log_keys(self.logs@);
            assert(forall|j: int| 0 <= j < k ==> !lex_le(#[trigger] keys[j], now@));
            assert(k < self.logs@.len() ==> lex_le(keys[k as int], now@));
            lemma_sorted_desc_insert(keys, now@, k as int);
        }
        let ghost pre_rows = self.logs@;
        self.logs.insert(k, stored);
        self.next_log_id = id + 1;
        proof {
            pre_rows.insert_ensures(k as int, stored);
            assert(log_keys(self.logs@) =~= log_keys(pre_rows).insert(k as int, now@));
            assert(row_inserted_at(pre_rows, self.logs@, k as int, stored) && stored_log_from(
                stored,
                *l,
                id,
                now@,
            ));
            assert forall|p: int|
                0 <= p < self.logs@.len() implies ((#[trigger] self.logs@[p]).id matches Some(pid)
                && 1 <= pid && pid < id + 1) by {
                if p < k {
                    assert(self.logs@[p] == pre_rows[p]);
                } else if p > k {
                    assert(self.logs@[p] == pre_rows[p - 1]);
                }
            }
            assert forall|p: int, q: int|
                0 <= p < q < self.logs@.len() implies (#[trigger] self.logs@[p]).id
                != (#[trigger] self.logs@[q]).id by {
                let p0: int = if p < k {
                    p
                } else {
                    p - 1
                };
                let q0: int = if q < k {
                    q
                } else {
                    q - 1
                };
                if p == k {
                    assert(self.logs@[q] == pre_rows[q0]);
                } else if q == k {
                    assert(self.logs@[p] == pre_rows[p0]);
                } else {
                    assert(self.logs@[p] == pre_rows[p0]);
                    assert(self.logs@[q] == pre_rows[q0]);
                }
            }
        }
        Ok(id)
    }

    /// Appends audit record `l` stamped now, reading the clock for the
    /// timestamp.
    pub fn log_agent_event(&mut self, l: &AgentLog) -> (r: Result<i64, StoreError>)
        requires
            old(self).wf(),
        ensures
            final(self).wf(),
            exists|now: Seq<char>|
                #[trigger] log_create_post(*old(self), *final(self), *l, now, r),
    {
        let (_secs, text) = clock_now();
        let r = self.log_agent_event_at(l, text.as_str());
        proof {
            assert(log_create_post(*old(self), *final(self), *l, text@, r));
        }
        r
    }
}

/// The record belongs to the requested agent; an absent request matches every
/// record.
pub open spec fn log_matches(l: AgentLog, filt: Option<i64>) -> bool {
    match filt {
        Option::None => true,
        Option::Some(x) => l.agent_id == x,
    }
}

/// The records of the requested agent, in stored (newest-first) order.
pub open spec fn filtered_logs(s: Seq<AgentLog>, filt: Option<i64>) -> Seq<AgentLog> {
    s.filter(|l: AgentLog| log_matches(l, filt))
}

/// At most the first `limit` records; a non-positive `limit` yields none.
pub open spec fn clipped_logs(s: Seq<AgentLog>, limit: i64) -> Seq<AgentLog> {
    if limit <= 0 {
        Seq::empty()
    } else if s.len() <= limit {
        s
    } else {
        s.take(limit as int)
    }
}

/// Filtering keeps the newest-first order of the records.
proof fn lemma_filtered_logs_sorted(s: Seq<AgentLog>, filt: Option<i64>)
    requires
        sorted_desc(log_keys(s)),
    ensures
        sorted_desc(log_keys(filtered_logs(s, filt))),
    decreases s.len(),
{
    reveal(Seq::filter);
    let pred = |l: AgentLog| log_matches(l, filt);
    if s.len() == 0 {
        assert(filtered_logs(s, filt) =~= Seq::<AgentLog>::empty());
    } else {
        let rest = s.drop_last();
        assert(forall|i: int| 0 <= i < rest.len() ==> rest[i] == s[i]);
        assert forall|i: int, j: int|
            0 <= i < j < rest.len() implies lex_le(
            #[trigger] log_keys(rest)[j],
            #[trigger] log_keys(rest)[i],
        ) by {
            assert(log_keys(rest)[i] == log_keys(s)[i]);
            assert(log_keys(rest)[j] == log_keys(s)[j]);
        }
        assert(sorted_desc(log_keys(rest)));
        lemma_filtered_logs_sorted(rest, filt);
        let fr = filtered_logs(rest, filt);
        if pred(s.last()) {
            assert(filtered_logs(s, filt) == fr.push(s.last()));
            assert forall|p: int|
                0 <= p < fr.len() implies lex_le(s.last().timestamp@, (#[trigger] fr[p]).timestamp@)
            by {
                fr.lemma_index_contains(p);
                rest.lemma_filter_contains_rev(pred, fr[p]);
                let q = choose|q: int| 0 <= q < rest.len() && rest[q] == fr[p];
                assert(log_keys(s)[q] == fr[p].timestamp@);
                assert(log_keys(s)[s.len() - 1] == s.last().timestamp@);
            }
            let f = fr.push(s.last());
            assert forall|i: int, j: int|
                0 <= i < j < f.len() implies lex_le(
                #[trigger] log_keys(f)[j],
                #[trigger] log_keys(f)[i],
            ) by {
                if j < fr.len() {
                    assert(f[i] == fr[i] && f[j] == fr[j]);
                    assert(lex_le(log_keys(fr)[j], log_keys(fr)[i]));
                } else {
                    assert(f[j] == s.last() && f[i] == fr[i]);
                }
            }
        } else {
            assert(filtered_logs(s, filt) == fr);
        }
    }
}

impl Database {
    /// Reads audit records, newest first: those of the requested agent, or of
    /// every agent where no agent is requested, cut down to the first
    /// `limit`. A non-positive `limit` yields no records rather than an
    /// unbounded read.
    #[verifier::loop_isolation(false)]
    pub fn get_agent_logs(&self, agent_id: Option<i64>, limit: i64) -> (r: Result<
        Vec<AgentLog>,
        StoreError,
    >)
        requires
            self.wf(),
        ensures
            r matches Ok(v) && v@ == clipped_logs(filtered_logs(self.log_rows(), agent_id), limit)
                && sorted_desc(log_keys(v@)),
    {
        proof {
            lemma_filtered_logs_sorted(self.logs@, agent_id);
        }
        let mut out: Vec<AgentLog> = Vec::new();
        if limit <= 0 {
            proof {
                assert(clipped_logs(filtered_logs(self.log_rows(), agent_id), limit)
                    =~= Seq::<AgentLog>::empty());
            }
            return Ok(out);
        }
        let ghost pred = |l: AgentLog| log_matches(l, agent_id);
        let n = self.logs.len();
        let mut i: usize = 0;
        while i < n
            invariant
                i <= n,
                out@ =~= filtered_logs(self.logs@.take(i as int), agent_id),
                out@.len() < limit,
            decreases n - i,
        {
            let matched = match agent_id {
                None => true,
                Some(x) => self.logs[i].agent_id == x,
            };
            proof {
                assert(self.logs@.take(i + 1 as int) =~= self.logs@.take(i as int).push(
                    self.logs@[i as int],
                ));
                self.logs@.take(i as int).lemma_filter_push(self.logs@[i as int], pred);
            }
            if matched {
                out.push(self.logs[i].clone());
                if out.len() as u64 >= limit as u64 {
                    proof {
                        let whole = filtered_logs(self.logs@, agent_id);
                        let front = filtered_logs(self.logs@.take(i + 1 as int), agent_id);
                        let back = filtered_logs(self.logs@.skip(i + 1 as int), agent_id);
                        assert(self.logs@.take(i + 1 as int) + self.logs@.skip(i + 1 as int)
                            =~= self.logs@);
                        Seq::filter_distributes_over_add(
                            self.logs@.take(i + 1 as int),
                            self.logs@.skip(i + 1 as int),
                            pred,
                        );
                        assert(whole == front + back);
                        assert((front + back).take(front.len() as int) =~= front);
                        assert(out@ =~= front);
                        assert(sorted_desc(log_keys(out@))) by {
                            assert(forall|p: int|
                                0 <= p < out@.len() ==> (#[trigger] out@[p]) == whole[p]);
                            assert(forall|p: int|
                                0 <= p < out@.len() ==> (#[trigger] log_keys(out@)[p]) == log_keys(
                                    whole,
                                )[p]);
                        }
                    }
                    return Ok(out);
                }
            }
            i = i + 1;
        }
        proof {
            assert(self.logs@.take(n as int) =~= self.logs@);
        }
        Ok(out)
    }
}

/// Some handler row holds the given name.
pub open spec fn has_handler_name(s: Seq<EventHandler>, name: Seq<char>) -> bool {
    exists|i: int| 0 <= i < s.len() && (#[trigger] s[i]).name@ == name
}

/// Some handler row holds the given id.
pub open spec fn has_handler_id(s: Seq<EventHandler>, id: i64) -> bool {
    exists|i: int| 0 <= i < s.len() && (#[trigger] s[i]).id == Some(id)
}

/// `s` is the row that a create of handler `h` stores: caller fields from
/// `h` and the given row id.
pub open spec fn stored_handler_from(s: EventHandler, h: EventHandler, id: i64) -> bool {
    &&& s.id == Some(id)
    &&& s.name@ == h.name@
    &&& s.event_type@ == h.event_type@
    &&& opt_text_eq(s.url, h.url)
    &&& s.interval_seconds == h.interval_seconds
    &&& opt_text_eq(s.last_check, h.last_check)
    &&& s.is_active == h.is_active
    &&& s.config_json@ == h.config_json@
}

/// What a create of handler `h` does: refused with `ConstraintViolation`
/// exactly when the name is taken, with `StoreUnavailable` exactly when the
/// row-id space is spent; otherwise the row is appended in insertion order
/// and the next row id advances. Nothing else changes.
pub open spec fn handler_create_post(
    pre: Database,
    post: Database,
    h: EventHandler,
    r: Result<i64, StoreError>,
) -> bool {
    &&& ((r matches Err(StoreError::ConstraintViolation)) <==> has_handler_name(
        pre.handler_rows(),
        h.name@,
    ))
    &&& ((r matches Err(StoreError::StoreUnavailable)) <==> (!has_handler_name(
        pre.handler_rows(),
        h.name@,
    ) && pre.next_handler_rowid() == i64::MAX))
    &&& !(r matches Err(StoreError::NotFound))
    &&& (r is Err ==> post == pre)
    &&& (r matches Ok(id) ==> {
        &&& id == pre.next_handler_rowid()
        &&& post.next_handler_rowid() == pre.next_handler_rowid() + 1
        &&& post.handler_rows() == pre.handler_rows().push(post.handler_rows().last())
        &&& stored_handler_from(post.handler_rows().last(), h, id)
        &&& post.agent_rows() == pre.agent_rows()
        &&& post.log_rows() == pre.log_rows()
        &&& post.next_agent_rowid() == pre.next_agent_rowid()
        &&& post.next_log_rowid() == pre.next_log_rowid()
    })
}

/// The rows whose handler is switched on, in insertion order.
pub open spec fn active_handlers(s: Seq<EventHandler>) -> Seq<EventHandler> {
    s.filter(|h: EventHandler| h.is_active)
}

/// The index of the handler row holding id `id`, if any.
#[verifier::loop_isolation(false)]
fn find_handler_index(handlers: &Vec<EventHandler>, id: i64) -> (r: Option<usize>)
    ensures
        r matches Some(k) ==> k < handlers@.len() && handlers@[k as int].id == Some(id),
        r is None ==> !has_handler_id(handlers@, id),
{
    let n = handlers.len();
    let mut i: usize = 0;
    while i < n
        invariant
            i <= n,
            forall|j: int| 0 <= j < i ==> (#[trigger] handlers@[j]).id != Some(id),
        decreases n - i,
    {
        if let Some(rowid) = handlers[i].id {
            if rowid == id {
                return Some(i);
            }
        }
        i = i + 1;
    }
    None
}

/// `h2` is `h1` with its last-check mark rewritten to `now` and every other
/// field kept.
pub open spec fn marked_last_check(h2: EventHandler, h1: EventHandler, now: Seq<char>) -> bool {
    &&& h2.id == h1.id
    &&& h2.name == h1.name
    &&& h2.event_type == h1.event_type
    &&& h2.url == h1.url
    &&& h2.interval_seconds == h1.interval_seconds
    &&& (h2.last_check matches Some(t) && t@ == now)
    &&& h2.is_active == h1.is_active
    &&& h2.config_json == h1.config_json
}

/// What marking handler `id` as checked at instant `now` does: the row's
/// last-check timestamp is rewritten in place; an unknown id is a no-op.
/// Nothing else changes.
pub open spec fn handler_mark_post(pre: Database, post: Database, id: i64, now: Seq<char>) -> bool {
    &&& (has_handler_id(pre.handler_rows(), id) ==> exists|k: int|
        0 <= k < pre.handler_rows().len() && (#[trigger] pre.handler_rows()[k]).id == Some(id)
            && post.handler_rows() == pre.handler_rows().update(k, post.handler_rows()[k])
            && marked_last_check(post.handler_rows()[k], pre.handler_rows()[k], now))
    &&& (!has_handler_id(pre.handler_rows(), id) ==> post.handler_rows() == pre.handler_rows())
    &&& post.agent_rows() == pre.agent_rows()
    &&& post.log_rows() == pre.log_rows()
    &&& post.next_agent_rowid() == pre.next_agent_rowid()
    &&& post.next_log_rowid() == pre.next_log_rowid()
    &&& post.next_handler_rowid() == pre.next_handler_rowid()
}

/// What a delete of handler `id` does: the row leaves, or nothing changes
/// where no row holds the id.
pub open spec fn handler_delete_post(pre: Database, post: Database, id: i64) -> bool {
    &&& (has_handler_id(pre.handler_rows(), id) ==> exists|k: int|
        0 <= k < pre.handler_rows().len() && (#[trigger] pre.handler_rows()[k]).id == Some(id)
            && post.handler_rows() == pre.handler_rows().remove(k))
    &&& (!has_handler_id(pre.handler_rows(), id) ==> post.handler_rows() == pre.handler_rows())
    &&& post.agent_rows() == pre.agent_rows()
    &&& post.log_rows() == pre.log_rows()
    &&& post.next_agent_rowid() == pre.next_agent_rowid()
    &&& post.next_log_rowid() == pre.next_log_rowid()
    &&& post.next_handler_rowid() == pre.next_handler_rowid()
}

impl Database {
    /// Stores handler `h`, assigning the next row id. Fails with
    /// `ConstraintViolation` exactly when another handler already holds the
    /// name. Rows keep their insertion order.
    #[verifier::loop_isolation(false)]
    pub fn create_event_handler(&mut self, h: &EventHandler) -> (r: Result<i64, StoreError>)
        requires
            old(self).wf(),
        ensures
            final(self).wf(),
            handler_create_post(*old(self), *final(self), *h, r),
    {
        let n = self.handlers.len();
        let mut i: usize = 0;
        while i < n
            invariant
                i <= n,
                forall|j: int| 0 <= j < i ==> (#[trigger] self.handlers@[j]).name@ != h.name@,
            decreases n - i,
        {
            if str_eq(self.handlers[i].name.as_str(), h.name.as_str()) {
                return Err(StoreError::ConstraintViolation);
            }
            i = i + 1;
        }
        assert(!has_handler_name(self.handlers@, h.name@));
        if self.next_handler_id == i64::MAX {
            return Err(StoreError::StoreUnavailable);
        }
        let id = self.next_handler_id;
        let stored = EventHandler {
            id: Some(id),
            name: h.name.clone(),
            event_type: h.event_type.clone(),
            url: clone_opt_text(&h.url),
            interval_seconds: h.interval_seconds,
            last_check: clone_opt_text(&h.last_check),
            is_active: h.is_active,
            config_json: h.config_json.clone(),
        };
        let ghost pre_rows = self.handlers@;
        self.handlers.push(stored);
        self.next_handler_id = id + 1;
        proof {
            assert(stored_handler_from(stored, *h, id));
            assert(self.handler_rows() == pre_rows.push(stored));
            assert(self.handler_rows().last() == stored);
            assert forall|p: int|
                0 <= p < self.handlers@.len() implies ((#[trigger] self.handlers@[p]).id
                matches Some(pid) && 1 <= pid && pid < id + 1) by {
                if p < pre_rows.len() {
                    assert(self.handlers@[p] == pre_rows[p]);
                } else {
                    assert(self.handlers@[p] == stored);
                }
            }
            assert forall|p: int, q: int|
                0 <= p < q < self.handlers@.len() implies ((#[trigger] self.handlers@[p]).id
                != (#[trigger] self.handlers@[q]).id && self.handlers@[p].name@
                != self.handlers@[q].name@) by {
                if q < pre_rows.len() {
                    assert(self.handlers@[p] == pre_rows[p] && self.handlers@[q] == pre_rows[q]);
                } else {
                    assert(self.handlers@[p] == pre_rows[p] && self.handlers@[q] == stored);
                }
            }
        }
        Ok(id)
    }

    /// Lists the handlers that are switched on, in insertion order. Rows that
    /// are switched off are not evaluated and not listed.
    #[verifier::loop_isolation(false)]
    pub fn get_all_event_handlers(&self) -> (r: Result<Vec<EventHandler>, StoreError>)
        requires
            self.wf(),
        ensures
            r matches Ok(v) && v@ == active_handlers(self.handler_rows()),
    {
        let ghost pred = |h: EventHandler| h.is_active;
        let n = self.handlers.len();
        let mut out: Vec<EventHandler> = Vec::new();
        let mut i: usize = 0;
        while i < n
            invariant
                i <= n,
                out@ =~= active_handlers(self.handlers@.take(i as int)),
            decreases n - i,
        {
            proof {
                assert(self.handlers@.take(i + 1 as int) =~= self.handlers@.take(i as int).push(
                    self.handlers@[i as int],
                ));
                self.handlers@.take(i as int).lemma_filter_push(self.handlers@[i as int], pred);
            }
            if self.handlers[i].is_active {
                out.push(self.handlers[i].clone());
            }
            i = i + 1;
        }
        proof {
            assert(self.handlers@.take(n as int) =~= self.handlers@);
        }
        Ok(out)
    }

    /// Rewrites the last-check mark of handler `id` to the instant written
    /// `now`; marking an unknown id is a no-op.
    pub fn update_event_handler_last_check_at(&mut self, id: i64, now: &str) -> (r: Result<
        (),
        StoreError,
    >)
        requires
            old(self).wf(),
        ensures
            final(self).wf(),
            r is Ok,
            handler_mark_post(*old(self), *final(self), id, now@),
    {
        let k = match find_handler_index(&self.handlers, id) {
            None => {
                return Ok(());
            },
            Some(k) => k,
        };
        let prev = self.handlers[k].clone();
        let updated = EventHandler {
            id: prev.id,
            name: prev.name,
            event_type: prev.event_type,
            url: prev.url,
            interval_seconds: prev.interval_seconds,
            last_check: Some(now.to_owned()),
            is_active: prev.is_active,
            config_json: prev.config_json,
        };
        let ghost pre_rows = self.handlers@;
        self.handlers.set(k, updated);
        proof {
            assert(marked_last_check(self.handlers@[k as int], pre_rows[k as int], now@));
            assert forall|p: int, q: int|
                0 <= p < q < self.handlers@.len() implies ((#[trigger] self.handlers@[p]).id
                != (#[trigger] self.handlers@[q]).id && self.handlers@[p].name@
                != self.handlers@[q].name@) by {
                assert(self.handlers@[p].id == pre_rows[p].id && self.handlers@[p].name@
                    == pre_rows[p].name@);
                assert(self.handlers@[q].id == pre_rows[q].id && self.handlers@[q].name@
                    == pre_rows[q].name@);
            }
        }
        Ok(())
    }

    /// Rewrites the last-check mark of handler `id` to the present instant,
    /// reading the clock.
    pub fn update_event_handler_last_check(&mut self, id: i64) -> (r: Result<(), StoreError>)
        requires
            old(self).wf(),
        ensures
            final(self).wf(),
            r is Ok,
            exists|now: Seq<char>|
                #[trigger] handler_mark_post(*old(self), *final(self), id, now),
    {
        let (_secs, text) = clock_now();
        let r = self.update_event_handler_last_check_at(id, text.as_str());
        proof {
            assert(handler_mark_post(*old(self), *final(self), id, text@));
        }
        r
    }

    /// Removes the handler row holding id `id`; removing an unknown id is a
    /// no-op.
    pub fn delete_event_handler(&mut self, id: i64) -> (r: Result<(), StoreError>)
        requires
            old(self).wf(),
        ensures
            final(self).wf(),
            r is Ok,
            handler_delete_post(*old(self), *final(self), id),
    {
        match find_handler_index(&self.handlers, id) {
            None => Ok(()),
            Some(k) => {
                let ghost pre_rows = self.handlers@;
                self.handlers.remove(k);
                proof {
                    pre_rows.remove_ensures(k as int);
                    assert forall|p: int|
                        0 <= p < self.handlers@.len() implies ((#[trigger] self.handlers@[p]).id
                        matches Some(pid) && 1 <= pid && pid < self.next_handler_id) by {
                        if p < k {
                            assert(self.handlers@[p] == pre_rows[p]);
                        } else {
                            assert(self.handlers@[p] == pre_rows[p + 1]);
                        }
                    }
                    assert forall|p: int, q: int|
                        0 <= p < q < self.handlers@.len() implies ((
                        #[trigger] self.handlers@[p]).id != (#[trigger] self.handlers@[q]).id
                        && self.handlers@[p].name@ != self.handlers@[q].name@) by {
                        let p0: int = if p < k {
                            p
                        } else {
                            p + 1
                        };
                        let q0: int = if q < k {
                            q
                        } else {
                            q + 1
                        };
                        assert(self.handlers@[p] == pre_rows[p0]);
                        assert(self.handlers@[q] == pre_rows[q0]);
                    }
                }
                Ok(())
            },
        }
    }

    /// How many handler rows the store holds, active or not.
    pub fn handler_count(&self) -> (n: usize)
        ensures
            n == self.handler_rows().len(),
    {
        self.handlers.len()
    }

    /// A copy of the handler row at position `i` of the insertion order.
    pub fn handler_at(&self, i: usize) -> (h: EventHandler)
        requires
            i < self.handler_rows().len(),
        ensures
            h == self.handler_rows()[i as int],
    {
        self.handlers[i].clone()
    }
}

/// Looking a name up after a successful create finds exactly the agent just
/// stored: the name is present, every row holding it is the stamped row, and
/// a lookup of any other name finds a row exactly where it found one before.
pub proof fn lemma_create_then_lookup(pre: Database, post: Database, a: Agent, now: Seq<char>, id: i64)
    requires
        pre.wf(),
        agent_create_post(pre, post, a, now, Result::<i64, StoreError>::Ok(id)),
    ensures
        has_agent_name(post.agent_rows(), a.name@),
        forall|i: int|
            0 <= i < post.agent_rows().len() && (#[trigger] post.agent_rows()[i]).name@ == a.name@
                ==> stored_agent_from(post.agent_rows()[i], a, id, now),
        forall|n: Seq<char>|
            n != a.name@ ==> (#[trigger] has_agent_name(post.agent_rows(), n) <==> has_agent_name(
                pre.agent_rows(),
                n,
            )),
{
    let rows = pre.agent_rows();
    let (k, v) = choose|k: int, v: Agent|
        #[trigger] row_inserted_at(rows, post.agent_rows(), k, v) && stored_agent_from(
            v,
            a,
            id,
            now,
        );
    rows.insert_ensures(k, v);
    assert(post.agent_rows()[k] == v);
    assert(has_agent_name(post.agent_rows(), a.name@));
    assert forall|i: int|
        0 <= i < post.agent_rows().len() && (#[trigger] post.agent_rows()[i]).name@ == a.name@
            implies stored_agent_from(post.agent_rows()[i], a, id, now) by {
        if i != k {
            let i0: int = if i < k {
                i
            } else {
                i - 1
            };
            assert(post.agent_rows()[i] == rows[i0]);
            assert(has_agent_name(rows, a.name@));
        }
    }
    assert forall|n: Seq<char>|
        n != a.name@ implies (#[trigger] has_agent_name(post.agent_rows(), n) <==> has_agent_name(
        rows,
        n,
    )) by {
        if has_agent_name(post.agent_rows(), n) {
            let i = choose|i: int|
                0 <= i < post.agent_rows().len() && (#[trigger] post.agent_rows()[i]).name@ == n;
            assert(i != k);
            let i0: int = if i < k {
                i
            } else {
                i - 1
            };
            assert(rows[i0] == post.agent_rows()[i]);
            assert(has_agent_name(rows, n));
        }
        if has_agent_name(rows, n) {
            let j = choose|j: int| 0 <= j < rows.len() && (#[trigger] rows[j]).name@ == n;
            let j1: int = if j < k {
                j
            } else {
                j + 1
            };
            assert(post.agent_rows()[j1] == rows[j]);
            assert(has_agent_name(post.agent_rows(), n));
        }
    }
}

/// Creating a second agent under an already stored name is rejected with
/// `ConstraintViolation`, the store is left as it was, and exactly one row
/// holds the name afterwards.
pub proof fn lemma_duplicate_create_rejected(
    pre: Database,
    post: Database,
    b: Agent,
    now: Seq<char>,
    r: Result<i64, StoreError>,
)
    requires
        pre.wf(),
        agent_create_post(pre, post, b, now, r),
        has_agent_name(pre.agent_rows(), b.name@),
    ensures
        r matches Err(StoreError::ConstraintViolation),
        post == pre,
        has_agent_name(post.agent_rows(), b.name@),
        forall|p: int, q: int|
            0 <= p < post.agent_rows().len() && 0 <= q < post.agent_rows().len() && (
            #[trigger] post.agent_rows()[p]).name@ == b.name@ && (
            #[trigger] post.agent_rows()[q]).name@ == b.name@ ==> p == q,
{
    assert forall|p: int, q: int|
        0 <= p < post.agent_rows().len() && 0 <= q < post.agent_rows().len() && (
        #[trigger] post.agent_rows()[p]).name@ == b.name@ && (#[trigger] post.agent_rows()[q]).name@
        == b.name@ implies p == q by {
        if p < q {
            assert(post.agent_rows()[p].name@ != post.agent_rows()[q].name@);
        } else if q < p {
            assert(post.agent_rows()[q].name@ != post.agent_rows()[p].name@);
        }
    }
}

/// An agent written by a successful create and read back from the listed rows
/// agrees with what was written on every caller-supplied field; only the
/// store-assigned `id`, `created_at` and `updated_at` differ, and those carry
/// the assigned row id and the creation instant.
pub proof fn lemma_create_round_trip(pre: Database, post: Database, a: Agent, now: Seq<char>, id: i64)
    requires
        pre.wf(),
        agent_create_post(pre, post, a, now, Result::<i64, StoreError>::Ok(id)),
    ensures
        exists|i: int|
            0 <= i < post.agent_rows().len() && stored_agent_from(
                #[trigger] post.agent_rows()[i],
                a,
                id,
                now,
            ),
        forall|i: int|
            0 <= i < post.agent_rows().len() && stored_agent_from(
                #[trigger] post.agent_rows()[i],
                a,
                id,
                now,
            ) ==> agent_fields_from(post.agent_rows()[i], a),
{
    let rows = pre.agent_rows();
    let (k, v) = choose|k: int, v: Agent|
        #[trigger] row_inserted_at(rows, post.agent_rows(), k, v) && stored_agent_from(
            v,
            a,
            id,
            now,
        );
    rows.insert_ensures(k, v);
    assert(post.agent_rows()[k] == v);
}

/// Creating three agents in succession from an empty store, each at a
/// strictly later instant, lists them newest first: the stored rows — which
/// `get_all_agents` returns as they stand — read third, second, first.
pub proof fn lemma_three_creates_list_newest_first(
    d0: Database,
    d1: Database,
    d2: Database,
    d3: Database,
    a: Agent,
    b: Agent,
    c: Agent,
    ta: Seq<char>,
    tb: Seq<char>,
    tc: Seq<char>,
    ia: i64,
    ib: i64,
    ic: i64,
)
    requires
        d0.agent_rows().len() == 0,
        d2.wf(),
        d3.wf(),
        agent_create_post(d0, d1, a, ta, Result::<i64, StoreError>::Ok(ia)),
        agent_create_post(d1, d2, b, tb, Result::<i64, StoreError>::Ok(ib)),
        agent_create_post(d2, d3, c, tc, Result::<i64, StoreError>::Ok(ic)),
        lex_le(ta, tb),
        ta != tb,
        lex_le(tb, tc),
        tb != tc,
    ensures
        d3.agent_rows().len() == 3,
        stored_agent_from(d3.agent_rows()[0], c, ic, tc),
        stored_agent_from(d3.agent_rows()[1], b, ib, tb),
        stored_agent_from(d3.agent_rows()[2], a, ia, ta),
{
    let (k1, v1) = choose|k: int, v: Agent|
        #[trigger] row_inserted_at(d0.agent_rows(), d1.agent_rows(), k, v) && stored_agent_from(
            v,
            a,
            ia,
            ta,
        );
    d0.agent_rows().insert_ensures(k1, v1);
    assert(k1 == 0);
    assert(d1.agent_rows().len() == 1 && d1.agent_rows()[0] == v1);

    let (k2, v2) = choose|k: int, v: Agent|
        #[trigger] row_inserted_at(d1.agent_rows(), d2.agent_rows(), k, v) && stored_agent_from(
            v,
            b,
            ib,
            tb,
        );
    d1.agent_rows().insert_ensures(k2, v2);
    assert(d2.agent_rows().len() == 2);
    if k2 == 1 {
        assert(d2.agent_rows()[0] == v1 && d2.agent_rows()[1] == v2);
        assert(created_keys(d2.agent_rows())[0] == ta);
        assert(created_keys(d2.agent_rows())[1] == tb);
        assert(lex_le(tb, ta));
        lemma_lex_antisym(ta, tb);
        assert(false);
    }
    assert(k2 == 0);
    assert(d2.agent_rows()[0] == v2 && d2.agent_rows()[1] == v1);

    let (k3, v3) = choose|k: int, v: Agent|
        #[trigger] row_inserted_at(d2.agent_rows(), d3.agent_rows(), k, v) && stored_agent_from(
            v,
            c,
            ic,
            tc,
        );
    d2.agent_rows().insert_ensures(k3, v3);
    assert(d3.agent_rows().len() == 3);
    if k3 == 1 {
        assert(d3.agent_rows()[0] == v2 && d3.agent_rows()[1] == v3);
        assert(created_keys(d3.agent_rows())[0] == tb);
        assert(created_keys(d3.agent_rows())[1] == tc);
        assert(lex_le(tc, tb));
        lemma_lex_antisym(tb, tc);
        assert(false);
    }
    if k3 == 2 {
        assert(d3.agent_rows()[1] == v1 && d3.agent_rows()[2] == v3);
        assert(created_keys(d3.agent_rows())[1] == ta);
        assert(created_keys(d3.agent_rows())[2] == tc);
        assert(lex_le(tc, ta));
        lemma_lex_trans(tc, ta, tb);
        lemma_lex_antisym(tb, tc);
        assert(false);
    }
    assert(k3 == 0);
    assert(d3.agent_rows()[0] == v3 && d3.agent_rows()[1] == v2 && d3.agent_rows()[2] == v1);
}

} // verus!
