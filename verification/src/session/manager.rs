//! The sessions of all users: making, switching, listing and deleting them, and
//! loading them from the store.

use vstd::prelude::*;

use crate::ids::{is_uuid_text, random_uuid};
use crate::session::backend::{
    empty_store, in_scope, info_of, infos_of, lists_sessions, lookup, numbered, session_id_of,
    stored_messages, with_message, with_session, with_text, without_session, InMemoryBackend,
    InfoView, MetaView, Scope, SessionInfo, Store, DEFAULT_NAMESPACE,
};
use crate::session::breakpoint_detect::{identify_breakpoint, pending_calls};
use crate::session::chat::{messages_of, ChatMessage, MessageView};
use crate::session::session_override::{
    belonging_rows, drop_orphan_rows, messages_only, pruned_rows, row_ids, row_messages, rows_of,
    sanitize_paired, SessionOverride,
};
use crate::session::types::{blank, ends_open, Session, SummaryMetadata};
use crate::session_context::helpers::history_looks_incomplete;
use crate::session_context::suspension::TurnSuspension;
use crate::session_context::{PendingYieldEvent, SessionContext};
use crate::text::{copy_str, opt_str, opt_text, same_str, texts};
use crate::text_map::TextMap;
use crate::time::{is_reading, UtcInstant};

verus! {

/// The session exists but belongs to another routing key.
#[derive(Debug, Clone)]
pub struct SessionNotOwned {
    pub session_id: String,
    pub routing_key: String,
}

/// What is said of a session that belongs to another routing key.
pub open spec fn not_owned_text(e: SessionNotOwned) -> Seq<char> {
    "session '"@ + e.session_id@ + "' is not owned by routing_key '"@ + e.routing_key@ + "'"@
}

impl SessionNotOwned {
    /// The error as a text.
    pub fn message(&self) -> (r: String)
        ensures
            r@ == not_owned_text(*self),
    {
        let mut r = copy_str("session '");
        r.append(&self.session_id);
        r.append("' is not owned by routing_key '");
        r.append(&self.routing_key);
        r.append("'");
        assert(r@ =~= not_owned_text(*self));
        r
    }
}

/// Why a request about a session is refused.
#[derive(Debug)]
pub enum SessionError {
    /// There is no such session.
    NotFound,
    /// The session that was to have another under it is not there.
    ParentNotFound,
    /// The session to be made active belongs to somebody else.
    NotOwned(SessionNotOwned),
    /// The session to be deleted belongs to somebody else.
    NotYours,
    /// The active session cannot be deleted.
    Active,
    /// The store failed.
    Storage(String),
}

/// The text of an error about a session.
pub open spec fn session_error_text(e: SessionError) -> Seq<char> {
    match e {
        SessionError::NotFound => "session not found"@,
        SessionError::ParentNotFound => "parent session not found"@,
        SessionError::NotOwned(n) => not_owned_text(n),
        SessionError::NotYours => "not your session"@,
        SessionError::Active => "cannot delete the active session"@,
        SessionError::Storage(said) => said@,
    }
}

impl SessionError {
    /// The text of the error.
    pub fn message(&self) -> (r: String)
        ensures
            r@ == session_error_text(*self),
    {
        match self {
            SessionError::NotFound => copy_str("session not found"),
            SessionError::ParentNotFound => copy_str("parent session not found"),
            SessionError::NotOwned(n) => n.message(),
            SessionError::NotYours => copy_str("not your session"),
            SessionError::Active => copy_str("cannot delete the active session"),
            SessionError::Storage(said) => said.clone(),
        }
    }
}

/// Which tools an agent may use.
#[derive(Debug)]
pub enum ToolFilter {
    All,
    Only(Vec<String>),
}

/// What an agent is made of.
#[derive(Debug)]
pub struct SubAgentConfig {
    pub name: String,
    pub description: Option<String>,
    pub system_prompt: String,
    pub tools: ToolFilter,
    pub model: Option<String>,
    pub max_tool_calls: Option<usize>,
}

/// The agent used where none is defined under a name: it may use every tool and
/// has no prompt of its own.
pub fn permissive_main_default(agent_name: &str) -> (r: SubAgentConfig)
    ensures
        r.name@ == agent_name@,
        r.description is None,
        r.system_prompt@ == ""@,
        r.tools is All,
        r.model is None,
        r.max_tool_calls is None,
{
    SubAgentConfig {
        name: copy_str(agent_name),
        description: None,
        system_prompt: copy_str(""),
        tools: ToolFilter::All,
        model: None,
        max_tool_calls: None,
    }
}

// ── Loading ────────────────────────────────────────────────────────────────

/// The rows of a session that are taken up when it is loaded. Orphan results are
/// dropped. If some call has no result, the calls stay, so that they can be
/// made again; otherwise unanswered rounds at the end go as well.
pub open spec fn loaded_rows(s: Store, id: Seq<char>) -> Seq<(i64, MessageView)> {
    let rows = numbered(stored_messages(s, id), 0);
    if pending_calls(row_messages(rows)).dom() == Set::<Seq<char>>::empty() {
        pruned_rows(rows)
    } else {
        belonging_rows(rows, row_messages(rows))
    }
}

/// What a store knows of the last summary of a session.
pub open spec fn loaded_summary(s: Store, id: Seq<char>) -> Option<SummaryMetadata> {
    if s.summaries.contains_key(id) && s.summaries[id].len() > 0 {
        let last = s.summaries[id].last();
        Some(
            SummaryMetadata {
                version: last.version,
                token_estimate: match last.token_estimate {
                    Some(n) => n,
                    None => 0,
                },
                up_to_message: last.up_to_message,
            },
        )
    } else {
        None
    }
}

/// Whether `r` is the session as the store holds it.
pub open spec fn is_loaded(
    r: Session,
    s: Store,
    id: Seq<char>,
    owner: Seq<char>,
    over: Option<SessionOverride>,
) -> bool {
    &&& r.wf()
    &&& r.id@ == id
    &&& r.owner@ == owner
    &&& r.agent_name@ == (match lookup(s.agent_names, id) {
        Some(n) => n,
        None => "main"@,
    })
    &&& opt_text(r.parent_session_id) == lookup(s.parents, id)
    &&& r.log() == row_messages(loaded_rows(s, id))
    &&& r.message_ids@ == row_ids(loaded_rows(s, id))
    &&& r.summary_metadata == loaded_summary(s, id)
    &&& r.compact_version == (match loaded_summary(s, id) {
        Some(m) => m.version,
        None => 0,
    })
    &&& match over {
        Some(o) => r.session_override == o,
        None => r.session_override.no_override(),
    }
    &&& r.incomplete_turn == ends_open(r.log())
    &&& r.last_message == (if s.last_messages.contains_key(id) {
        Some(s.last_messages[id])
    } else {
        None
    })
    &&& r.total_tokens == (if s.tokens.contains_key(id) {
        s.tokens[id]
    } else {
        0
    })
    &&& r.delegation_deadline is None
    &&& r.turn_injections@.len() == 0
    &&& !r.turn_silenced
    &&& !r.turn_headless
    &&& r.turn_tool_allowlist is None
    &&& r.pending_yield is None
}

/// The messages and the ids of a list of rows.
fn part_rows(rows: Vec<(i64, ChatMessage)>) -> (r: (Vec<ChatMessage>, Vec<i64>))
    ensures
        messages_of(r.0@) == row_messages(rows_of(rows@)),
        r.1@ == row_ids(rows_of(rows@)),
{
    let msgs = messages_only(&rows);
    let mut ids: Vec<i64> = Vec::new();
    let ghost all = row_ids(rows_of(rows@));
    let mut i: usize = 0;
    while i < rows.len()
        invariant
            i <= rows@.len(),
            all == row_ids(rows_of(rows@)),
            ids@ == all.take(i as int),
        decreases rows@.len() - i,
    {
        ids.push(rows[i].0);
        assert(ids@ =~= all.take(i as int + 1));
        i += 1;
    }
    assert(all.take(all.len() as int) =~= all);
    (msgs, ids)
}

/// Takes up rows as they were stored.
fn take_up(rows: Vec<(i64, ChatMessage)>) -> (r: Vec<(i64, ChatMessage)>)
    ensures
        rows_of(r@) == (if pending_calls(row_messages(rows_of(rows@))).dom()
            == Set::<Seq<char>>::empty() {
            pruned_rows(rows_of(rows@))
        } else {
            belonging_rows(rows_of(rows@), row_messages(rows_of(rows@)))
        }),
{
    let msgs = messages_only(&rows);
    let breaks = identify_breakpoint(&msgs);
    let ghost p = pending_calls(row_messages(rows_of(rows@)));
    let ghost items = crate::session::breakpoint_detect::breaks_of(breaks@);
    if breaks.len() > 0 {
        proof {
            assert(p.contains_key(items[0].id));
            assert(!Set::<Seq<char>>::empty().contains(items[0].id));
            assert(p.dom().contains(items[0].id));
        }
        drop_orphan_rows(rows)
    } else {
        proof {
            assert(p.dom() =~= Set::<Seq<char>>::empty()) by {
                assert forall|id: Seq<char>| !p.dom().contains(id) by {
                    if p.contains_key(id) {
                        let i = choose|i: int|
                            0 <= i < items.len() && (#[trigger] items[i]).id == id;
                    }
                }
            }
        }
        sanitize_paired(rows)
    }
}

// ── Listing ────────────────────────────────────────────────────────────────

/// Whether the session has no parent.
pub open spec fn is_top(s: Store, id: Seq<char>) -> bool {
    !s.parents.contains_key(id)
}

/// Whether `r` lists the sessions of `s` for which `keep` holds, each once, in
/// some order.
pub open spec fn lists_kept(r: Seq<InfoView>, s: Store, keep: spec_fn(Seq<char>) -> bool) -> bool {
    &&& forall|i: int, j: int|
        0 <= i < j < r.len() ==> (#[trigger] r[i]).id != (#[trigger] r[j]).id
    &&& forall|i: int|
        0 <= i < r.len() ==> s.sessions.contains_key((#[trigger] r[i]).id) && r[i] == info_of(
            s,
            r[i].id,
        ) && keep(r[i].id)
    &&& forall|id: Seq<char>| #[trigger]
        s.sessions.contains_key(id) && keep(id) ==> exists|i: int|
            0 <= i < r.len() && (#[trigger] r[i]).id == id
}

/// The top-level sessions of an owner.
pub open spec fn top_of(s: Store, owner: Seq<char>) -> spec_fn(Seq<char>) -> bool {
    |id: Seq<char>| s.sessions[id].owner == owner && is_top(s, id)
}

/// The sessions under a parent.
pub open spec fn under(s: Store, parent: Seq<char>) -> spec_fn(Seq<char>) -> bool {
    |id: Seq<char>| lookup(s.parents, id) == Some(parent)
}

/// The top-level sessions whose owner is one of those given.
pub open spec fn top_of_any(s: Store, owners: Seq<Seq<char>>) -> spec_fn(Seq<char>) -> bool {
    |id: Seq<char>| owners.contains(s.sessions[id].owner) && is_top(s, id)
}

// ── Deleting ───────────────────────────────────────────────────────────────

/// The session and the sessions under it.
pub open spec fn family(s: Store, id: Seq<char>) -> Set<Seq<char>> {
    Set::new(
        |k: Seq<char>|
            k == id || (s.sessions.contains_key(k) && lookup(s.parents, k) == Some(id)),
    )
}

/// `s` without the sessions of a set, as if they were deleted one by one.
#[verifier::opaque]
pub open spec fn without_sessions(s: Store, gone: Set<Seq<char>>) -> Store {
    Store {
        sessions: s.sessions.remove_keys(gone),
        messages: s.messages.remove_keys(gone),
        summaries: s.summaries.remove_keys(gone),
        parents: s.parents.remove_keys(gone),
        active: Map::new(
            |k: Seq<char>| s.active.contains_key(k) && !gone.contains(s.active[k]),
            |k: Seq<char>| s.active[k],
        ),
        ..s
    }
}

proof fn lemma_without_none(s: Store)
    ensures
        without_sessions(s, Set::empty()) == s,
{
    reveal(without_sessions);
    let t = without_sessions(s, Set::empty());
    assert(t.sessions =~= s.sessions);
    assert(t.messages =~= s.messages);
    assert(t.summaries =~= s.summaries);
    assert(t.parents =~= s.parents);
    assert(t.active =~= s.active);
}

proof fn lemma_without_one_more(s: Store, gone: Set<Seq<char>>, id: Seq<char>)
    ensures
        without_session(without_sessions(s, gone), id) == without_sessions(s, gone.insert(id)),
{
    reveal(without_sessions);
    let a = without_session(without_sessions(s, gone), id);
    let b = without_sessions(s, gone.insert(id));
    assert(a.sessions =~= b.sessions);
    assert(a.messages =~= b.messages);
    assert(a.summaries =~= b.summaries);
    assert(a.parents =~= b.parents);
    assert(a.active =~= b.active);
}

// ── The manager ────────────────────────────────────────────────────────────

/// Manages the sessions of all users. There is at most one context for each
/// routing key.
pub struct SessionManager {
    pub backend: InMemoryBackend,
    pub contexts: TextMap<SessionContext>,
}

/// The id of a session that is not stored.
pub open spec fn ephemeral_id(uuid: Seq<char>) -> Seq<char> {
    "ephemeral:"@ + uuid
}

/// The name of a session under another.
pub open spec fn sub_name(parent: Seq<char>, agent: Seq<char>) -> Seq<char> {
    "sub:"@ + parent + ":"@ + agent
}

/// `s` with a new session `id` under `parent`, which belongs to the owner of its
/// parent.
pub open spec fn with_sub_session(
    s: Store,
    id: Seq<char>,
    parent: Seq<char>,
    agent: Seq<char>,
    now: UtcInstant,
) -> Store {
    let t = with_session(s, id, s.sessions[parent].owner, Some(sub_name(parent, agent)), now);
    Store {
        parents: with_text(t.parents, id, parent),
        agent_names: t.agent_names.insert(id, agent),
        ..t
    }
}

/// The store once a user has an active session: it is unchanged if there was
/// one, and otherwise holds a new one, `id`.
pub open spec fn with_active(s: Store, user: Seq<char>, id: Seq<char>, now: UtcInstant) -> Store {
    if s.active.contains_key(user) {
        s
    } else {
        let t = with_session(s, id, user, None, now);
        Store { active: t.active.insert(user, id), ..t }
    }
}

/// Whether `after` is a store once a user has an active session, which is made if
/// there was none.
pub open spec fn makes_active(before: Store, user: Seq<char>, after: Store) -> bool {
    exists|uuid: Seq<char>, now: UtcInstant|
        after == #[trigger] with_active(
            before,
            user,
            session_id_of(before.namespace, uuid),
            now,
        ) && (before.active.contains_key(user) || (is_uuid_text(uuid, '7') && is_reading(now)))
}

impl SessionManager {
    /// Whether the store and the table of contexts are well formed.
    pub open spec fn wf(&self) -> bool {
        self.backend.wf() && self.contexts.wf()
    }

    /// What the store holds.
    pub open spec fn store(&self) -> Store {
        self.backend.store()
    }

    /// A manager over a store.
    pub fn new(backend: InMemoryBackend) -> (r: SessionManager)
        requires
            backend.wf(),
        ensures
            r.wf(),
            r.store() == backend.store(),
            r.contexts@ == Map::<Seq<char>, SessionContext>::empty(),
    {
        SessionManager { backend, contexts: TextMap::new() }
    }

    /// A manager over an empty store.
    pub fn in_memory() -> (r: SessionManager)
        ensures
            r.wf(),
            r.store() == empty_store(DEFAULT_NAMESPACE@),
            r.contexts@ == Map::<Seq<char>, SessionContext>::empty(),
    {
        SessionManager::new(InMemoryBackend::new())
    }

    /// Loads a session from the store. `parsed` is what its stored override
    /// spells.
    pub fn load_session(&self, session_id: &str, owner: &str, parsed: Option<SessionOverride>) -> (r:
        Session)
        requires
            stored_messages(self.store(), session_id@).len() <= i64::MAX,
        ensures
            is_loaded(r, self.store(), session_id@, owner@, parsed),
    {
        let session_override = match parsed {
            Some(o) => o,
            None => SessionOverride::default(),
        };
        let summary_metadata: Option<SummaryMetadata> = match self.backend.load_latest_summary(
            session_id,
        ) {
            Some(s) => Some(
                SummaryMetadata {
                    version: s.version,
                    token_estimate: match s.token_estimate {
                        Some(n) => n,
                        None => 0,
                    },
                    up_to_message: s.up_to_message,
                },
            ),
            None => None,
        };
        let compact_version: u32 = match summary_metadata {
            Some(m) => m.version,
            None => 0,
        };
        let rows = self.backend.load_incremental(session_id, 0);
        let kept = take_up(rows);
        let parts = part_rows(kept);
        let incomplete_turn: bool = history_looks_incomplete(&parts.0);
        let ghost h = messages_of(parts.0@);
        assert(h.len() == parts.0@.len());
        assert(row_messages(rows_of(kept@)).len() == row_ids(rows_of(kept@)).len());
        Session {
            id: copy_str(session_id),
            owner: copy_str(owner),
            agent_name: match self.backend.load_agent_name(session_id) {
                Some(n) => n,
                None => copy_str("main"),
            },
            parent_session_id: self.backend.load_parent_session_id(session_id),
            history: parts.0,
            message_ids: parts.1,
            compact_version,
            summary_metadata,
            session_override,
            incomplete_turn,
            last_message: self.backend.load_last_message(session_id),
            total_tokens: match self.backend.load_token_count(session_id) {
                Some(n) => n,
                None => 0,
            },
            delegation_deadline: None,
            turn_injections: Vec::new(),
            turn_silenced: false,
            turn_headless: false,
            turn_tool_allowlist: None,
            pending_yield: None,
        }
    }

    /// Makes a session that was made the user's active one, unless the store failed
    /// to make it.
    pub fn enter_session(&mut self, user_id: &str, made: Result<SessionInfo, String>) -> (r: Result<
        SessionInfo,
        SessionError,
    >)
        requires
            old(self).wf(),
        ensures
            final(self).wf(),
            final(self).contexts == old(self).contexts,
            match made {
                Ok(info) => {
                    &&& r matches Ok(entered) && entered == info
                    &&& final(self).store() == (Store {
                        active: old(self).store().active.insert(user_id@, info@.id),
                        ..old(self).store()
                    })
                },
                Err(e) => {
                    &&& r matches Err(SessionError::Storage(said)) && said == e
                    &&& final(self).store() == old(self).store()
                },
            },
    {
        match made {
            Ok(info) => {
                self.backend.set_active_session(user_id, &info.id);
                Ok(info)
            },
            Err(e) => Err(SessionError::Storage(e)),
        }
    }

    /// The session that a user is in once one was to be made: the one that was made,
    /// or one that is not stored if the store failed to make it.
    pub fn settle_active(&mut self, user_id: &str, made: Result<SessionInfo, String>) -> (r: String)
        requires
            old(self).wf(),
        ensures
            final(self).wf(),
            final(self).contexts == old(self).contexts,
            match made {
                Ok(info) => {
                    &&& r@ == info@.id
                    &&& final(self).store() == (Store {
                        active: old(self).store().active.insert(user_id@, info@.id),
                        ..old(self).store()
                    })
                },
                Err(_) => {
                    &&& exists|uuid: Seq<char>| r@ == #[trigger] ephemeral_id(uuid) && is_uuid_text(uuid, '4')
                    &&& final(self).store() == old(self).store()
                },
            },
    {
        match self.enter_session(user_id, made) {
            Ok(info) => info.id,
            Err(_) => {
                let mut id = copy_str("ephemeral:");
                let uuid = random_uuid();
                id.append(&uuid);
                assert(id@ =~= ephemeral_id(uuid@));
                id
            },
        }
    }

    /// The active session of a user, which is made if there is none.
    pub fn resolve_active(&mut self, user_id: &str) -> (r: String)
        requires
            old(self).wf(),
        ensures
            final(self).wf(),
            final(self).contexts == old(self).contexts,
            makes_active(old(self).store(), user_id@, final(self).store()),
            lookup(final(self).store().active, user_id@) == Some(r@),
    {
        let ghost before = self.store();
        if let Some(id) = self.backend.get_active_session(user_id) {
            proof {
                let now = crate::time::UtcInstant { secs: 0, nanos: 0 };
                let any = session_id_of(before.namespace, Seq::empty());
                assert(self.store() == with_active(before, user_id@, any, now));
            }
            return id;
        }
        let made = self.backend.create_session(user_id, None);
        let ghost held = self.store();
        let ghost id = made->Ok_0@.id;
        let r = self.settle_active(user_id, made);
        proof {
            let uuid = choose|uuid: Seq<char>|
                id == #[trigger] session_id_of(before.namespace, uuid) && is_uuid_text(uuid, '7');
            let now = choose|now: UtcInstant|
                held == #[trigger] with_session(before, id, user_id@, opt_str(None), now)
                    && is_reading(now);
            assert(held == with_session(before, id, user_id@, None, now));
            assert(self.store() == with_active(
                before,
                user_id@,
                session_id_of(before.namespace, uuid),
                now,
            ));
        }
        r
    }

    /// The active session of a user, loaded from the store; it is made if there
    /// is none. `parsed` is what its stored override spells.
    pub fn get_or_create(&mut self, user_id: &str, parsed: Option<SessionOverride>) -> (r: Session)
        requires
            old(self).wf(),
            forall|id: Seq<char>|
                (#[trigger] stored_messages(old(self).store(), id)).len() <= i64::MAX,
        ensures
            final(self).wf(),
            final(self).contexts == old(self).contexts,
            makes_active(old(self).store(), user_id@, final(self).store()),
            is_loaded(r, final(self).store(), r.id@, user_id@, parsed),
            lookup(final(self).store().active, user_id@) == Some(r.id@),
    {
        let ghost before = self.store();
        let id = self.resolve_active(user_id);
        proof {
            assert(stored_messages(before, id@).len() <= i64::MAX);
            assert(stored_messages(self.store(), id@).len() <= i64::MAX);
        }
        self.load_session(&id, user_id, parsed)
    }

    /// Makes a session and makes it the user's active one.
    pub fn new_session(&mut self, user_id: &str, name: Option<&str>) -> (r: Result<
        SessionInfo,
        SessionError,
    >)
        requires
            old(self).wf(),
        ensures
            final(self).wf(),
            final(self).contexts == old(self).contexts,
            r matches Ok(info) && {
                &&& exists|uuid: Seq<char>|
                    info@.id == #[trigger] session_id_of(old(self).store().namespace, uuid)
                        && is_uuid_text(uuid, '7')
                &&& exists|now: UtcInstant| {
                    let t = #[trigger] with_session(
                        old(self).store(),
                        info@.id,
                        user_id@,
                        opt_str(name),
                        now,
                    );
                    &&& final(self).store() == (Store {
                        active: t.active.insert(user_id@, info@.id),
                        ..t
                    })
                    &&& info@ == info_of(t, info@.id)
                    &&& is_reading(now)
                }
            },
    {
        let ghost before = self.store();
        let made = self.backend.create_session(user_id, name);
        let ghost held = self.store();
        let ghost id = made->Ok_0@.id;
        let r = self.enter_session(user_id, made);
        proof {
            let now = choose|now: UtcInstant|
                held == #[trigger] with_session(before, id, user_id@, opt_str(name), now)
                    && is_reading(now);
            let t = with_session(before, id, user_id@, opt_str(name), now);
            assert(self.store() == (Store { active: t.active.insert(user_id@, id), ..t }));
            assert(r->Ok_0@ == info_of(t, id));
        }
        r
    }

    /// Makes an existing session the user's active one. It has to be the user's
    /// own.
    pub fn switch_session(&mut self, user_id: &str, session_id: &str) -> (r: Result<
        SessionInfo,
        SessionError,
    >)
        requires
            old(self).wf(),
        ensures
            final(self).wf(),
            final(self).contexts == old(self).contexts,
            if !old(self).store().sessions.contains_key(session_id@) {
                &&& r matches Err(e)
                &&& e is NotFound
                &&& final(self).store() == old(self).store()
            } else if old(self).store().sessions[session_id@].owner != user_id@ {
                &&& r matches Err(SessionError::NotOwned(e))
                &&& e.session_id@ == session_id@
                &&& e.routing_key@ == user_id@
                &&& final(self).store() == old(self).store()
            } else {
                &&& r matches Ok(info)
                &&& info@ == info_of(old(self).store(), session_id@)
                &&& final(self).store() == (Store {
                    active: old(self).store().active.insert(user_id@, session_id@),
                    ..old(self).store()
                })
            },
    {
        match self.backend.get_session(session_id) {
            None => Err(SessionError::NotFound),
            Some(info) => {
                if !same_str(&info.owner, user_id) {
                    return Err(
                        SessionError::NotOwned(
                            SessionNotOwned {
                                session_id: copy_str(session_id),
                                routing_key: copy_str(user_id),
                            },
                        ),
                    );
                }
                self.backend.set_active_session(user_id, session_id);
                Ok(info)
            },
        }
    }

    /// Deletes a session and the sessions under it. The user's active session
    /// cannot be deleted, nor one of somebody else.
    pub fn delete_session(&mut self, user_id: &str, session_id: &str) -> (r: Result<
        (),
        SessionError,
    >)
        requires
            old(self).wf(),
        ensures
            final(self).wf(),
            final(self).contexts == old(self).contexts,
            if lookup(old(self).store().active, user_id@) == Some(session_id@) {
                &&& r matches Err(e)
                &&& e is Active
                &&& final(self).store() == old(self).store()
            } else if !old(self).store().sessions.contains_key(session_id@) {
                &&& r matches Err(e)
                &&& e is NotFound
                &&& final(self).store() == old(self).store()
            } else if old(self).store().sessions[session_id@].owner != user_id@ {
                &&& r matches Err(e)
                &&& e is NotYours
                &&& final(self).store() == old(self).store()
            } else {
                &&& r is Ok
                &&& final(self).store() == without_sessions(
                    old(self).store(),
                    family(old(self).store(), session_id@),
                )
            },
    {
        if let Some(a) = self.backend.get_active_session(user_id) {
            if same_str(&a, session_id) {
                return Err(SessionError::Active);
            }
        }
        match self.backend.get_session(session_id) {
            None => Err(SessionError::NotFound),
            Some(info) => {
                if !same_str(&info.owner, user_id) {
                    return Err(SessionError::NotYours);
                }
                let ghost before = self.store();
                let subs = self.list_sub_sessions(session_id);
                let ghost all = infos_of(subs@);
                let ghost mut gone: Set<Seq<char>> = Set::empty();
                proof {
                    lemma_without_none(before);
                }
                let mut i: usize = 0;
                while i < subs.len()
                    invariant
                        i <= subs@.len(),
                        self.wf(),
                        self.contexts == old(self).contexts,
                        all == infos_of(subs@),
                        self.store() == without_sessions(before, gone),
                        forall|k: Seq<char>| #[trigger]
                            gone.contains(k) <==> exists|j: int|
                                0 <= j < i && (#[trigger] all[j]).id == k,
                    decreases subs@.len() - i,
                {
                    self.backend.delete_session(&subs[i].id);
                    proof {
                        let id = subs@[i as int].id@;
                        assert(all[i as int].id == id);
                        lemma_without_one_more(before, gone, id);
                        let old_gone = gone;
                        gone = gone.insert(id);
                        assert forall|k: Seq<char>| #[trigger]
                            gone.contains(k) <==> exists|j: int|
                                0 <= j < i + 1 && (#[trigger] all[j]).id == k by {
                            if gone.contains(k) {
                                if k == id {
                                    assert(all[i as int].id == k);
                                } else {
                                    assert(old_gone.contains(k));
                                }
                            }
                            if exists|j: int| 0 <= j < i + 1 && (#[trigger] all[j]).id == k {
                                let j = choose|j: int|
                                    0 <= j < i + 1 && (#[trigger] all[j]).id == k;
                                if j < i {
                                    assert(all[j].id == k);
                                    assert(old_gone.contains(k));
                                }
                            }
                        }
                    }
                    i += 1;
                }
                self.backend.delete_session(session_id);
                proof {
                    lemma_without_one_more(before, gone, session_id@);
                    let f = family(before, session_id@);
                    assert(gone.insert(session_id@) =~= f) by {
                        assert forall|k: Seq<char>| gone.insert(session_id@).contains(k)
                            == f.contains(k) by {
                            if gone.contains(k) {
                                let j = choose|j: int|
                                    0 <= j < subs@.len() && (#[trigger] all[j]).id == k;
                                assert(under(before, session_id@)(all[j].id));
                            }
                            if before.sessions.contains_key(k) && lookup(before.parents, k) == Some(
                                session_id@,
                            ) {
                                assert(under(before, session_id@)(k));
                                let j = choose|j: int|
                                    0 <= j < all.len() && (#[trigger] all[j]).id == k;
                                assert(all[j].id == k);
                            }
                        }
                    }
                }
                Ok(())
            },
        }
    }

    /// Gives a session a name. Nothing happens where there is no such session.
    pub fn rename_session(&mut self, session_id: &str, name: &str)
        requires
            old(self).wf(),
        ensures
            final(self).wf(),
            final(self).contexts == old(self).contexts,
            final(self).store() == (if old(self).store().sessions.contains_key(session_id@) {
                Store {
                    sessions: old(self).store().sessions.insert(
                        session_id@,
                        MetaView {
                            display_name: Some(name@),
                            ..old(self).store().sessions[session_id@]
                        },
                    ),
                    ..old(self).store()
                }
            } else {
                old(self).store()
            }),
    {
        self.backend.rename_session(session_id, name);
    }

    /// The top-level sessions of a user, in no promised order.
    pub fn list_sessions(&self, user_id: &str) -> (r: Vec<SessionInfo>)
        requires
            self.wf(),
        ensures
            lists_kept(infos_of(r@), self.store(), top_of(self.store(), user_id@)),
    {
        let all = self.backend.list_sessions(user_id);
        let ghost s = self.store();
        let ghost keep = top_of(s, user_id@);
        let ghost given = infos_of(all@);
        let mut r: Vec<SessionInfo> = Vec::new();
        let mut i: usize = 0;
        while i < all.len()
            invariant
                i <= all@.len(),
                given == infos_of(all@),
                s == self.store(),
                lists_sessions(given, s, Scope::Owner(user_id@)),
                keep == top_of(s, user_id@),
                keeps(infos_of(r@), given, keep, i as int),
            decreases all@.len() - i,
        {
            assert(given[i as int] == all@[i as int]@);
            let ghost before = infos_of(r@);
            if self.backend.load_parent_session_id(&all[i].id).is_none() {
                let x = all[i].copy();
                r.push(x);
                assert(infos_of(r@) =~= before.push(given[i as int]));
                assert(keep(given[i as int].id));
                proof {
                    lemma_keeps(before, given, keep, i as int, true);
                }
            } else {
                assert(!keep(given[i as int].id));
                proof {
                    lemma_keeps(before, given, keep, i as int, false);
                }
            }
            i += 1;
        }
        proof {
            lemma_kept(infos_of(r@), given, s, Scope::Owner(user_id@), keep);
        }
        r
    }

    /// The sessions under a parent, in no promised order.
    pub fn list_sub_sessions(&self, parent_session_id: &str) -> (r: Vec<SessionInfo>)
        requires
            self.wf(),
        ensures
            lists_kept(infos_of(r@), self.store(), under(self.store(), parent_session_id@)),
    {
        let all = self.backend.list_all_sessions();
        let ghost s = self.store();
        let ghost keep = under(s, parent_session_id@);
        let ghost given = infos_of(all@);
        let mut r: Vec<SessionInfo> = Vec::new();
        let mut i: usize = 0;
        while i < all.len()
            invariant
                i <= all@.len(),
                given == infos_of(all@),
                s == self.store(),
                lists_sessions(given, s, Scope::All),
                keep == under(s, parent_session_id@),
                keeps(infos_of(r@), given, keep, i as int),
            decreases all@.len() - i,
        {
            assert(given[i as int] == all@[i as int]@);
            let ghost before = infos_of(r@);
            let found: bool = match self.backend.load_parent_session_id(&all[i].id) {
                Some(p) => same_str(&p, parent_session_id),
                None => false,
            };
            assert(found == keep(given[i as int].id));
            if found {
                let x = all[i].copy();
                r.push(x);
                assert(infos_of(r@) =~= before.push(given[i as int]));
            }
            proof {
                lemma_keeps(before, given, keep, i as int, found);
            }
            i += 1;
        }
        proof {
            lemma_kept(infos_of(r@), given, s, Scope::All, keep);
        }
        r
    }

    /// All sessions, in no promised order.
    pub fn list_all_sessions(&self) -> (r: Vec<SessionInfo>)
        requires
            self.wf(),
        ensures
            lists_sessions(infos_of(r@), self.store(), Scope::All),
    {
        self.backend.list_all_sessions()
    }

    /// The active session of a routing key.
    pub fn session_id_for_routing_key(&self, routing_key: &str) -> (r: Option<String>)
        ensures
            opt_text(r) == lookup(self.store().active, routing_key@),
    {
        self.active_session_id(routing_key)
    }

    /// The active session of a user.
    pub fn active_session_id(&self, user_id: &str) -> (r: Option<String>)
        ensures
            opt_text(r) == lookup(self.store().active, user_id@),
    {
        self.backend.get_active_session(user_id)
    }

    /// A session by its id, whoever owns it. `parsed` is what its stored
    /// override spells.
    pub fn get_by_id(&self, session_id: &str, parsed: Option<SessionOverride>) -> (r: Option<Session>)
        requires
            stored_messages(self.store(), session_id@).len() <= i64::MAX,
        ensures
            match r {
                Some(x) => self.store().sessions.contains_key(session_id@) && is_loaded(
                    x,
                    self.store(),
                    session_id@,
                    self.store().sessions[session_id@].owner,
                    parsed,
                ),
                None => !self.store().sessions.contains_key(session_id@),
            },
    {
        match self.backend.get_session(session_id) {
            Some(info) => Some(self.load_session(&info.id, &info.owner, parsed)),
            None => None,
        }
    }

    /// Makes a session under another. It belongs to the owner of its parent and
    /// does not become the active one.
    pub fn create_sub_session(&mut self, parent_session_id: &str, agent_name: &str) -> (r: Result<
        SessionInfo,
        SessionError,
    >)
        requires
            old(self).wf(),
        ensures
            final(self).wf(),
            final(self).contexts == old(self).contexts,
            if !old(self).store().sessions.contains_key(parent_session_id@) {
                &&& r matches Err(e)
                &&& e is ParentNotFound
                &&& final(self).store() == old(self).store()
            } else {
                &&& r matches Ok(info)
                &&& exists|uuid: Seq<char>|
                    info@.id == #[trigger] session_id_of(old(self).store().namespace, uuid)
                        && is_uuid_text(uuid, '7')
                &&& exists|now: UtcInstant|
                    final(self).store() == #[trigger] with_sub_session(
                        old(self).store(),
                        info@.id,
                        parent_session_id@,
                        agent_name@,
                        now,
                    ) && is_reading(now)
                &&& info@ == info_of(final(self).store(), info@.id)
            },
    {
        let ghost before = self.store();
        match self.backend.get_session(parent_session_id) {
            None => Err(SessionError::ParentNotFound),
            Some(parent) => {
                let mut name = copy_str("sub:");
                name.append(parent_session_id);
                name.append(":");
                name.append(agent_name);
                assert(name@ =~= sub_name(parent_session_id@, agent_name@));
                let shown: &str = name.as_str();
                match self.backend.create_session(&parent.owner, Some(shown)) {
                    Ok(info) => {
                        let ghost made = self.store();
                        self.backend.save_parent_session_id(&info.id, parent_session_id);
                        self.backend.save_agent_name(&info.id, agent_name);
                        proof {
                            let now = choose|now: UtcInstant|
                                made == #[trigger] with_session(
                                    before,
                                    info@.id,
                                    parent.owner@,
                                    opt_str(Some(shown)),
                                    now,
                                ) && is_reading(now);
                            assert(self.store() == with_sub_session(
                                before,
                                info@.id,
                                parent_session_id@,
                                agent_name@,
                                now,
                            ));
                        }
                        Ok(info)
                    },
                    Err(e) => Err(SessionError::Storage(e)),
                }
            },
        }
    }

    /// Appends a message to a stored session. Nothing happens if its numbers
    /// have run out.
    pub fn append_message(&mut self, session_id: &str, message: ChatMessage)
        requires
            old(self).wf(),
        ensures
            final(self).wf(),
            final(self).contexts == old(self).contexts,
            stored_messages(old(self).store(), session_id@).len() < i64::MAX ==> exists|
                now: UtcInstant,
            |
                final(self).store() == #[trigger] with_message(
                    old(self).store(),
                    session_id@,
                    message@,
                    now,
                ) && is_reading(now),
            stored_messages(old(self).store(), session_id@).len() >= i64::MAX
                ==> final(self).store() == old(self).store(),
    {
        let n: usize = self.backend.message_count(session_id);
        if (n as u64) < i64::MAX as u64 {
            let _ = self.backend.append_message(session_id, &message);
        }
    }
}

/// Whether `r` holds the infos among the first `n` of `given` that are kept, in
/// their order.
spec fn keeps(
    r: Seq<InfoView>,
    given: Seq<InfoView>,
    keep: spec_fn(Seq<char>) -> bool,
    n: int,
) -> bool {
    &&& forall|k: int| 0 <= k < r.len() ==> keep((#[trigger] r[k]).id)
    &&& forall|k: int|
        0 <= k < r.len() ==> (exists|j: int| 0 <= j < n && given[j] == #[trigger] r[k])
    &&& forall|j: int|
        0 <= j < n && keep((#[trigger] given[j]).id) ==> r.contains(given[j])
    &&& forall|a: int, b: int|
        0 <= a < b < r.len() ==> (#[trigger] r[a]).id != (#[trigger] r[b]).id
}

proof fn lemma_keeps(
    r: Seq<InfoView>,
    given: Seq<InfoView>,
    keep: spec_fn(Seq<char>) -> bool,
    n: int,
    found: bool,
)
    requires
        0 <= n < given.len(),
        keeps(r, given, keep, n),
        found == keep(given[n].id),
        forall|i: int, j: int|
            0 <= i < j < given.len() ==> (#[trigger] given[i]).id != (#[trigger] given[j]).id,
    ensures
        found ==> keeps(r.push(given[n]), given, keep, n + 1),
        !found ==> keeps(r, given, keep, n + 1),
{
    if found {
        let t = r.push(given[n]);
        assert forall|k: int| 0 <= k < t.len() implies (exists|j: int|
            0 <= j < n + 1 && given[j] == #[trigger] t[k]) by {
            if k < r.len() {
                let j = choose|j: int| 0 <= j < n && given[j] == r[k];
                assert(given[j] == t[k]);
            } else {
                assert(given[n] == t[k]);
            }
        }
        assert forall|j: int| 0 <= j < n + 1 && keep((#[trigger] given[j]).id) implies t.contains(
            given[j],
        ) by {
            if j < n {
                let k = choose|k: int| 0 <= k < r.len() && r[k] == given[j];
                assert(t[k] == given[j]);
            } else {
                assert(t[r.len() as int] == given[j]);
            }
        }
        assert forall|a: int, b: int| 0 <= a < b < t.len() implies (#[trigger] t[a]).id != (
        #[trigger] t[b]).id by {
            if b == r.len() {
                let j = choose|j: int| 0 <= j < n && given[j] == r[a];
                assert(given[j].id != given[n].id);
            } else {
                assert(r[a].id != r[b].id);
            }
        }
    } else {
        assert forall|k: int| 0 <= k < r.len() implies (exists|j: int|
            0 <= j < n + 1 && given[j] == #[trigger] r[k]) by {
            let j = choose|j: int| 0 <= j < n && given[j] == r[k];
            assert(given[j] == r[k]);
        }
    }
}

proof fn lemma_kept(
    r: Seq<InfoView>,
    given: Seq<InfoView>,
    s: Store,
    scope: Scope,
    keep: spec_fn(Seq<char>) -> bool,
)
    requires
        lists_sessions(given, s, scope),
        keeps(r, given, keep, given.len() as int),
        forall|id: Seq<char>| #[trigger]
            s.sessions.contains_key(id) && keep(id) ==> in_scope(scope, s.sessions[id].owner),
    ensures
        lists_kept(r, s, keep),
{
    assert forall|i: int| 0 <= i < r.len() implies s.sessions.contains_key((#[trigger] r[i]).id)
        && r[i] == info_of(s, r[i].id) && keep(r[i].id) by {
        let j = choose|j: int| 0 <= j < given.len() && given[j] == r[i];
        assert(s.sessions.contains_key(given[j].id));
    }
    assert forall|id: Seq<char>| #[trigger]
        s.sessions.contains_key(id) && keep(id) implies exists|i: int|
        0 <= i < r.len() && (#[trigger] r[i]).id == id by {
        let j = choose|j: int| 0 <= j < given.len() && (#[trigger] given[j]).id == id;
        assert(keep(given[j].id));
        assert(r.contains(given[j]));
        let i = choose|i: int| 0 <= i < r.len() && r[i] == given[j];
        assert(r[i].id == id);
    }
}

/// The sessions that are in one or the other.
pub open spec fn either(
    a: spec_fn(Seq<char>) -> bool,
    b: spec_fn(Seq<char>) -> bool,
) -> spec_fn(Seq<char>) -> bool {
    |id: Seq<char>| a(id) || b(id)
}

proof fn lemma_lists_same(
    r: Seq<InfoView>,
    s: Store,
    a: spec_fn(Seq<char>) -> bool,
    b: spec_fn(Seq<char>) -> bool,
)
    requires
        lists_kept(r, s, a),
        forall|id: Seq<char>| #[trigger] s.sessions.contains_key(id) ==> a(id) == b(id),
    ensures
        lists_kept(r, s, b),
{
    assert forall|i: int| 0 <= i < r.len() implies s.sessions.contains_key((#[trigger] r[i]).id)
        && r[i] == info_of(s, r[i].id) && b(r[i].id) by {
        assert(s.sessions.contains_key(r[i].id));
    }
}

/// Whether a session with this id is listed.
fn is_listed(v: &Vec<SessionInfo>, id: &str) -> (r: bool)
    ensures
        r == (exists|i: int| 0 <= i < v@.len() && (#[trigger] infos_of(v@)[i]).id == id@),
{
    let mut i: usize = 0;
    while i < v.len()
        invariant
            i <= v@.len(),
            forall|k: int| 0 <= k < i ==> (#[trigger] infos_of(v@)[k]).id != id@,
        decreases v@.len() - i,
    {
        assert(infos_of(v@)[i as int].id == v@[i as int].id@);
        if same_str(&v[i].id, id) {
            return true;
        }
        i += 1;
    }
    false
}

/// Adds the infos that are not listed yet.
fn add_unlisted(
    out: &mut Vec<SessionInfo>,
    more: &Vec<SessionInfo>,
    Ghost(s): Ghost<Store>,
    Ghost(a): Ghost<spec_fn(Seq<char>) -> bool>,
    Ghost(b): Ghost<spec_fn(Seq<char>) -> bool>,
)
    requires
        lists_kept(infos_of(old(out)@), s, a),
        lists_kept(infos_of(more@), s, b),
    ensures
        lists_kept(infos_of(final(out)@), s, either(a, b)),
{
    let ghost given = infos_of(more@);
    let ghost start = infos_of(out@);
    let mut i: usize = 0;
    while i < more.len()
        invariant
            i <= more@.len(),
            given == infos_of(more@),
            lists_kept(given, s, b),
            lists_kept(start, s, a),
            start == infos_of(old(out)@),
            infos_of(out@).len() >= start.len(),
            forall|k: int| 0 <= k < start.len() ==> infos_of(out@)[k] == #[trigger] start[k],
            forall|x: int, y: int|
                0 <= x < y < infos_of(out@).len() ==> (#[trigger] infos_of(out@)[x]).id != (
                #[trigger] infos_of(out@)[y]).id,
            forall|k: int|
                0 <= k < infos_of(out@).len() ==> s.sessions.contains_key(
                    (#[trigger] infos_of(out@)[k]).id,
                ) && infos_of(out@)[k] == info_of(s, infos_of(out@)[k].id) && either(a, b)(
                    infos_of(out@)[k].id,
                ),
            forall|j: int|
                0 <= j < i ==> (exists|k: int|
                    0 <= k < infos_of(out@).len() && (#[trigger] infos_of(out@)[k]).id == (
                    #[trigger] given[j]).id),
        decreases more@.len() - i,
    {
        let ghost before = infos_of(out@);
        assert(given[i as int] == more@[i as int]@);
        if !is_listed(out, &more[i].id) {
            let x = more[i].copy();
            out.push(x);
            let ghost now = infos_of(out@);
            assert(now =~= before.push(given[i as int]));
            assert forall|x: int, y: int| 0 <= x < y < now.len() implies (#[trigger] now[x]).id != (
            #[trigger] now[y]).id by {
                if y == before.len() {
                    assert(before[x].id != given[i as int].id);
                } else {
                    assert(before[x].id != before[y].id);
                }
            }
            assert forall|k: int| 0 <= k < now.len() implies s.sessions.contains_key(
                (#[trigger] now[k]).id,
            ) && now[k] == info_of(s, now[k].id) && either(a, b)(now[k].id) by {
                if k < before.len() {
                    assert(now[k] == before[k]);
                } else {
                    assert(now[k] == given[i as int]);
                    assert(b(given[i as int].id));
                }
            }
            assert forall|j: int| 0 <= j < i + 1 implies (exists|k: int|
                0 <= k < now.len() && (#[trigger] now[k]).id == (#[trigger] given[j]).id) by {
                if j < i {
                    let k = choose|k: int|
                        0 <= k < before.len() && (#[trigger] before[k]).id == given[j].id;
                    assert(now[k].id == given[j].id);
                } else {
                    assert(now[before.len() as int].id == given[j].id);
                }
            }
        }
        i += 1;
    }
    proof {
        let now = infos_of(out@);
        let keep = either(a, b);
        assert forall|id: Seq<char>| #[trigger]
            s.sessions.contains_key(id) && keep(id) implies exists|k: int|
            0 <= k < now.len() && (#[trigger] now[k]).id == id by {
            if a(id) {
                let k = choose|k: int| 0 <= k < start.len() && (#[trigger] start[k]).id == id;
                assert(now[k].id == id);
            } else {
                let j = choose|j: int| 0 <= j < given.len() && (#[trigger] given[j]).id == id;
                let k = choose|k: int|
                    0 <= k < now.len() && (#[trigger] now[k]).id == given[j].id;
                assert(now[k].id == id);
            }
        }
    }
}

/// The sessions that are listed for a user with several routing keys: the
/// top-level sessions of the keys, and those of the user's own name, unless that
/// is the id of a session that is listed.
pub open spec fn sessions_for_user(s: Store, user: Seq<char>, keys: Seq<Seq<char>>) -> spec_fn(
    Seq<char>,
) -> bool {
    if s.sessions.contains_key(user) && top_of_any(s, keys)(user) {
        top_of_any(s, keys)
    } else {
        top_of_any(s, keys.push(user))
    }
}

impl SessionManager {
    /// The top-level sessions of a user, under every routing key that stands for
    /// the user, each once.
    pub fn list_sessions_for_user(&self, user_id: &str, routing_keys: &Vec<String>) -> (r: Vec<
        SessionInfo,
    >)
        requires
            self.wf(),
        ensures
            lists_kept(
                infos_of(r@),
                self.store(),
                sessions_for_user(self.store(), user_id@, texts(routing_keys@)),
            ),
    {
        let ghost s = self.store();
        let ghost keys = texts(routing_keys@);
        let mut out: Vec<SessionInfo> = Vec::new();
        let mut i: usize = 0;
        while i < routing_keys.len()
            invariant
                i <= routing_keys@.len(),
                self.wf(),
                s == self.store(),
                keys == texts(routing_keys@),
                lists_kept(infos_of(out@), s, top_of_any(s, keys.take(i as int))),
            decreases routing_keys@.len() - i,
        {
            let more = self.list_sessions(&routing_keys[i]);
            let ghost a = top_of_any(s, keys.take(i as int));
            let ghost b = top_of(s, routing_keys@[i as int]@);
            add_unlisted(&mut out, &more, Ghost(s), Ghost(a), Ghost(b));
            proof {
                let next = keys.take(i as int + 1);
                assert(next =~= keys.take(i as int).push(keys[i as int]));
                lemma_owners(keys.take(i as int), keys[i as int]);
                lemma_lists_same(infos_of(out@), s, either(a, b), top_of_any(s, next));
            }
            i += 1;
        }
        assert(keys.take(keys.len() as int) =~= keys);
        let ghost a = top_of_any(s, keys);
        let listed: bool = is_listed(&out, user_id);
        proof {
            let v = infos_of(out@);
            if s.sessions.contains_key(user_id@) && a(user_id@) {
                let k = choose|k: int| 0 <= k < v.len() && (#[trigger] v[k]).id == user_id@;
                assert(v[k].id == user_id@);
                assert(listed);
            }
            if listed {
                let k = choose|k: int| 0 <= k < v.len() && (#[trigger] v[k]).id == user_id@;
                assert(a(v[k].id));
            }
        }
        if !listed {
            let more = self.list_sessions(user_id);
            let ghost b = top_of(s, user_id@);
            add_unlisted(&mut out, &more, Ghost(s), Ghost(a), Ghost(b));
            proof {
                lemma_owners(keys, user_id@);
                lemma_lists_same(infos_of(out@), s, either(a, b), top_of_any(s, keys.push(user_id@)));
            }
        }
        out
    }

    // ── Contexts ───────────────────────────────────────────────────────────

    /// The context of a routing key.
    pub fn get_context(&self, routing_key: &str) -> (r: Option<&SessionContext>)
        ensures
            match r {
                Some(c) => self.contexts@.contains_key(routing_key@) && *c
                    == self.contexts@[routing_key@],
                None => !self.contexts@.contains_key(routing_key@),
            },
    {
        self.contexts.get(routing_key)
    }

    /// Enters a context for a routing key.
    pub fn register_context(&mut self, routing_key: &str, ctx: SessionContext)
        requires
            old(self).wf(),
        ensures
            final(self).wf(),
            final(self).backend == old(self).backend,
            final(self).contexts@ == old(self).contexts@.insert(routing_key@, ctx),
    {
        self.contexts.insert(copy_str(routing_key), ctx);
    }

    /// Takes the context of a routing key out of the table.
    pub fn take_context(&mut self, routing_key: &str) -> (r: Option<SessionContext>)
        requires
            old(self).wf(),
        ensures
            final(self).wf(),
            final(self).backend == old(self).backend,
            final(self).contexts@ == old(self).contexts@.remove(routing_key@),
            match r {
                Some(c) => old(self).contexts@.contains_key(routing_key@) && c
                    == old(self).contexts@[routing_key@],
                None => !old(self).contexts@.contains_key(routing_key@),
            },
    {
        self.contexts.remove(routing_key)
    }

    /// Drops the context of a routing key; the next turn makes it anew.
    pub fn drop_context(&mut self, routing_key: &str)
        requires
            old(self).wf(),
        ensures
            final(self).wf(),
            final(self).backend == old(self).backend,
            final(self).contexts@ == old(self).contexts@.remove(routing_key@),
    {
        let _ = self.contexts.remove(routing_key);
    }

    /// The context that is entered for the session, under whatever key.
    pub fn registered_context_by_session_id(&self, session_id: &str) -> (r: Option<&SessionContext>)
        requires
            self.wf(),
        ensures
            match r {
                Some(c) => c.session_id@ == session_id@ && exists|k: Seq<char>| #[trigger]
                    self.contexts@.contains_key(k) && self.contexts@[k] == *c,
                None => forall|k: Seq<char>| #[trigger]
                    self.contexts@.contains_key(k) ==> self.contexts@[k].session_id@
                        != session_id@,
            },
    {
        let ghost rows = self.contexts.rows();
        proof {
            self.contexts.lemma_rows();
        }
        let mut i: usize = 0;
        while i < self.contexts.len()
            invariant
                i <= rows.len(),
                rows == self.contexts.rows(),
                forall|k: int|
                    0 <= k < rows.len() ==> self.contexts@.dom().contains(
                        (#[trigger] rows[k]).0@,
                    ) && self.contexts@[rows[k].0@] == rows[k].1,
                forall|k: int| 0 <= k < i ==> (#[trigger] rows[k]).1.session_id@ != session_id@,
            decreases rows.len() - i,
        {
            let c = self.contexts.value_at(i);
            if same_str(&c.session_id, session_id) {
                proof {
                    assert(self.contexts@.dom().contains(rows[i as int].0@));
                    assert(self.contexts@.contains_key(rows[i as int].0@));
                }
                return Some(c);
            }
            i += 1;
        }
        proof {
            assert forall|k: Seq<char>| #[trigger]
                self.contexts@.contains_key(k) implies self.contexts@[k].session_id@
                != session_id@ by {
                assert(self.contexts@.dom().contains(k));
                let j = choose|j: int| 0 <= j < rows.len() && (#[trigger] rows[j]).0@ == k;
                assert(self.contexts@[rows[j].0@] == rows[j].1);
            }
        }
        None
    }

    /// Makes a context of a loaded session and takes up what is stored of it.
    fn open_context(
        &self,
        session: Session,
        suspension: Option<TurnSuspension>,
        events: Option<Vec<PendingYieldEvent>>,
    ) -> (r: SessionContext)
        requires
            session.wf(),
            suspension matches Some(x) ==> x.wf(),
        ensures
            is_opened(r, session, self.store(), suspension, events),
    {
        let json = self.backend.load_suspension(&session.id);
        let waiting = self.backend.load_pending_yield_events(&session.id);
        let mut ctx = SessionContext::new(session);
        match &json {
            Some(j) => {
                ctx.restore_suspension(Some(j.as_str()), suspension);
            },
            None => {},
        }
        match &waiting {
            Some(j) => {
                ctx.restore_pending_yield_events(Some(j.as_str()), events);
            },
            None => {},
        }
        ctx
    }

    /// Sees to it that a routing key has a context. If it has none, its active
    /// session is loaded, and made if need be. `parsed`, `suspension` and
    /// `events` are what the stored override, suspension and events spell.
    pub fn get_or_create_context(
        &mut self,
        routing_key: &str,
        parsed: Option<SessionOverride>,
        suspension: Option<TurnSuspension>,
        events: Option<Vec<PendingYieldEvent>>,
    )
        requires
            old(self).wf(),
            suspension matches Some(x) ==> x.wf(),
            forall|id: Seq<char>|
                (#[trigger] stored_messages(old(self).store(), id)).len() <= i64::MAX,
        ensures
            final(self).wf(),
            old(self).contexts@.contains_key(routing_key@) ==> *final(self) == *old(self),
            !old(self).contexts@.contains_key(routing_key@) ==> {
                &&& makes_active(old(self).store(), routing_key@, final(self).store())
                &&& final(self).contexts@.contains_key(routing_key@)
                &&& final(self).contexts@.remove(routing_key@) == old(self).contexts@.remove(
                    routing_key@,
                )
                &&& is_loaded(
                    final(self).contexts@[routing_key@].session,
                    final(self).store(),
                    final(self).contexts@[routing_key@].session.id@,
                    routing_key@,
                    parsed,
                )
                &&& is_opened(
                    final(self).contexts@[routing_key@],
                    final(self).contexts@[routing_key@].session,
                    final(self).store(),
                    suspension,
                    events,
                )
                &&& lookup(final(self).store().active, routing_key@) == Some(
                    final(self).contexts@[routing_key@].session_id@,
                )
            },
    {
        if self.contexts.contains(routing_key) {
            return;
        }
        let ghost before = self.contexts@;
        let session = self.get_or_create(routing_key, parsed);
        let ctx = self.open_context(session, suspension, events);
        self.contexts.insert(copy_str(routing_key), ctx);
        assert(self.contexts@.remove(routing_key@) =~= before.remove(routing_key@));
    }

    /// The context of a session that is not entered in the table.
    pub fn load_context_by_session_id(
        &self,
        session_id: &str,
        parsed: Option<SessionOverride>,
        suspension: Option<TurnSuspension>,
        events: Option<Vec<PendingYieldEvent>>,
    ) -> (r: Option<SessionContext>)
        requires
            suspension matches Some(x) ==> x.wf(),
            stored_messages(self.store(), session_id@).len() <= i64::MAX,
        ensures
            match r {
                Some(c) => {
                    &&& self.store().sessions.contains_key(session_id@)
                    &&& is_loaded(
                        c.session,
                        self.store(),
                        session_id@,
                        self.store().sessions[session_id@].owner,
                        parsed,
                    )
                    &&& is_opened(c, c.session, self.store(), suspension, events)
                },
                None => !self.store().sessions.contains_key(session_id@),
            },
    {
        match self.get_by_id(session_id, parsed) {
            Some(session) => Some(self.open_context(session, suspension, events)),
            None => None,
        }
    }

    /// Makes a session under another, and a context for it that is not entered
    /// in the table. The owner gets an active session if there was none.
    pub fn create_sub_session_context(&mut self, parent_session_id: &str, agent_name: &str) -> (r:
        Result<SessionContext, SessionError>)
        requires
            old(self).wf(),
        ensures
            final(self).wf(),
            final(self).contexts == old(self).contexts,
            match r {
                Ok(c) => {
                    &&& old(self).store().sessions.contains_key(parent_session_id@)
                    &&& c.wf()
                    &&& c.session.id@ == c.session_id@
                    &&& exists|uuid: Seq<char>|
                        c.session_id@ == #[trigger] session_id_of(old(self).store().namespace, uuid)
                            && is_uuid_text(uuid, '7')
                    &&& exists|now: UtcInstant|
                        makes_active(
                            #[trigger] with_sub_session(
                                old(self).store(),
                                c.session_id@,
                                parent_session_id@,
                                agent_name@,
                                now,
                            ),
                            old(self).store().sessions[parent_session_id@].owner,
                            final(self).store(),
                        ) && is_reading(now)
                    &&& c.session.owner@
                        == old(self).store().sessions[parent_session_id@].owner
                    &&& opt_text(c.session.parent_session_id) == Some(parent_session_id@)
                    &&& c.session.agent_name@ == agent_name@
                    &&& c.session.is_fresh()
                    &&& c.is_idle()
                },
                Err(e) => {
                    &&& e is ParentNotFound
                    &&& !old(self).store().sessions.contains_key(parent_session_id@)
                    &&& final(self).store() == old(self).store()
                },
            },
    {
        match self.backend.get_session(parent_session_id) {
            None => Err(SessionError::ParentNotFound),
            Some(parent) => match self.create_sub_session(parent_session_id, agent_name) {
                Err(e) => Err(e),
                Ok(info) => {
                    let owner = parent.owner;
                    let _ = self.resolve_active(&owner);
                    let mut session = Session::new(info.id);
                    session.owner = owner;
                    session.parent_session_id = Some(copy_str(parent_session_id));
                    session.agent_name = copy_str(agent_name);
                    Ok(SessionContext::new(session))
                },
            },
        }
    }

    // ── Overrides ──────────────────────────────────────────────────────────

    /// Sets the override of a user's active session, in its context if there is
    /// one and in the store, where it is kept as `json`. Nothing happens if the
    /// user has no active session.
    pub fn save_session_override(
        &mut self,
        user_id: &str,
        session_override: SessionOverride,
        json: &str,
    )
        requires
            old(self).wf(),
        ensures
            final(self).wf(),
            match lookup(old(self).store().active, user_id@) {
                None => *final(self) == *old(self),
                Some(id) => {
                    &&& final(self).store() == (Store {
                        overrides: old(self).store().overrides.insert(id, json@),
                        ..old(self).store()
                    })
                    &&& final(self).contexts@ == (if old(self).contexts@.contains_key(user_id@) {
                        old(self).contexts@.insert(
                            user_id@,
                            SessionContext {
                                session: Session {
                                    session_override,
                                    ..old(self).contexts@[user_id@].session
                                },
                                ..old(self).contexts@[user_id@]
                            },
                        )
                    } else {
                        old(self).contexts@
                    })
                },
            },
    {
        let id = match self.active_session_id(user_id) {
            Some(id) => id,
            None => {
                return;
            },
        };
        let ghost before = self.contexts@;
        match self.contexts.remove(user_id) {
            Some(c) => {
                let mut c = c;
                c.session.session_override = session_override;
                let ghost now = c;
                self.contexts.insert(copy_str(user_id), c);
                assert(self.contexts@ =~= before.insert(user_id@, now));
            },
            None => {
                assert(self.contexts@ =~= before);
            },
        }
        self.backend.save_session_override(&id, json);
    }

    /// The override of a user's active session: that of its context if there is
    /// one, or else what the stored override spells.
    pub fn get_session_override(&self, user_id: &str, parsed: Option<SessionOverride>) -> (r:
        SessionOverride)
        ensures
            if self.contexts@.contains_key(user_id@) {
                r == self.contexts@[user_id@].session.session_override
            } else if self.store().active.contains_key(user_id@) && parsed is Some {
                r == parsed->0
            } else {
                r.no_override()
            },
    {
        if let Some(c) = self.contexts.get(user_id) {
            return c.session.session_override.copy();
        }
        match self.active_session_id(user_id) {
            Some(_) => match parsed {
                Some(o) => o,
                None => SessionOverride::default(),
            },
            None => SessionOverride::default(),
        }
    }
}

/// Whether `c` is a fresh context of `session` that has taken up what the store
/// holds.
pub open spec fn is_opened(
    c: SessionContext,
    session: Session,
    s: Store,
    suspension: Option<TurnSuspension>,
    events: Option<Vec<PendingYieldEvent>>,
) -> bool {
    &&& c.wf()
    &&& c.session == session
    &&& c.session_id == session.id
    &&& c.turn_suspension == (if lookup(s.suspensions, session.id@) matches Some(j) && !blank(j) {
        suspension
    } else {
        None
    })
    &&& if lookup(s.yield_events, session.id@) matches Some(j) && !blank(j) && events is Some {
        c.pending_yield_events == events->0
    } else {
        c.pending_yield_events@.len() == 0
    }
    &&& c.pending_retry is None
    &&& c.notice_turns_in_flight == 0
    &&& c.delegation_notice_queue@.len() == 0
    &&& c.recently_recorded_terminals@.len() == 0
    &&& c.yield_waiter is None
}

proof fn lemma_owners(owners: Seq<Seq<char>>, x: Seq<char>)
    ensures
        forall|o: Seq<char>| #[trigger]
            owners.push(x).contains(o) == (owners.contains(o) || o == x),
{
    assert forall|o: Seq<char>| #[trigger] owners.push(x).contains(o) == (owners.contains(o) || o
        == x) by {
        if owners.contains(o) {
            let i = choose|i: int| 0 <= i < owners.len() && owners[i] == o;
            assert(owners.push(x)[i] == o);
        }
        if o == x {
            assert(owners.push(x)[owners.len() as int] == o);
        }
        if owners.push(x).contains(o) {
            let i = choose|i: int| 0 <= i < owners.push(x).len() && owners.push(x)[i] == o;
            if i < owners.len() {
                assert(owners[i] == o);
            }
        }
    }
}

// ── Laws ───────────────────────────────────────────────────────────────────

/// A message that was stored is loaded, unless it is dropped as an orphan result
/// or an unanswered round: nothing is loaded that was not stored.
pub proof fn law_loaded_rows_were_stored(s: Store, id: Seq<char>)
    ensures
        crate::session::sanitize_laws::subsequence(
            loaded_rows(s, id),
            numbered(stored_messages(s, id), 0),
        ),
{
    let rows = numbered(stored_messages(s, id), 0);
    crate::session::sanitize_laws::law_ids_stay_with_their_messages(rows);
}

/// Deleting a session leaves no session under it and no user active in it, and
/// leaves every other session as it was.
pub proof fn law_delete_takes_the_family(
    s: Store,
    id: Seq<char>,
    other: Seq<char>,
    user: Seq<char>,
)
    ensures
        !without_sessions(s, family(s, id)).sessions.contains_key(id),
        s.sessions.contains_key(other) && lookup(s.parents, other) == Some(id)
            ==> !without_sessions(s, family(s, id)).sessions.contains_key(other),
        s.sessions.contains_key(other) && other != id && lookup(s.parents, other) != Some(id) ==> {
            let t = without_sessions(s, family(s, id));
            t.sessions.contains_key(other) && info_of(t, other) == info_of(s, other)
        },
        lookup(without_sessions(s, family(s, id)).active, user) != Some(id),
{
    reveal(without_sessions);
}

} // verus!
