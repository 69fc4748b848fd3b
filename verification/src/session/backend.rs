//! The store of sessions, and the hook through which a session is stored.

use vstd::prelude::*;

use crate::ids::{fresh_uuid, is_uuid_text};
use crate::session::channel::PersistedChannelMessage;
use crate::session::chat::{
    copy_messages, messages_of, text_of_parts, ChatMessage, MessageView,
};
use crate::session::session_override::{messages_only, row_messages, rows_of};
use crate::split::{head_of, take_chars};
use crate::text::{begins_with, chars_of, copy_opt, copy_str, opt_str, opt_text, same_str, starts_with, string_of};
use crate::text_map::{distinct_keys, TextMap};
use crate::time::{is_reading, read_clock, UtcInstant};

verus! {

// ── What is stored ─────────────────────────────────────────────────────────

/// What is known of a session without its messages.
#[derive(Debug)]
pub struct SessionInfo {
    pub id: String,
    pub owner: String,
    pub display_name: Option<String>,
    pub created_at: UtcInstant,
    pub last_activity: UtcInstant,
    pub message_count: usize,
}

pub struct InfoView {
    pub id: Seq<char>,
    pub owner: Seq<char>,
    pub display_name: Option<Seq<char>>,
    pub created_at: UtcInstant,
    pub last_activity: UtcInstant,
    pub message_count: nat,
}

impl View for SessionInfo {
    type V = InfoView;

    open spec fn view(&self) -> InfoView {
        InfoView {
            id: self.id@,
            owner: self.owner@,
            display_name: opt_text(self.display_name),
            created_at: self.created_at,
            last_activity: self.last_activity,
            message_count: self.message_count as nat,
        }
    }
}

impl SessionInfo {
    pub fn copy(&self) -> (r: SessionInfo)
        ensures
            r@ == self@,
    {
        SessionInfo {
            id: self.id.clone(),
            owner: self.owner.clone(),
            display_name: copy_opt(&self.display_name),
            created_at: self.created_at,
            last_activity: self.last_activity,
            message_count: self.message_count,
        }
    }
}

/// The views of a list of infos.
pub open spec fn infos_of(v: Seq<SessionInfo>) -> Seq<InfoView> {
    v.map_values(|i: SessionInfo| i@)
}

/// A summary that stands for compacted messages.
#[derive(Debug)]
pub struct SummaryRecord {
    pub version: u32,
    pub token_estimate: Option<u64>,
    pub up_to_message: i64,
    pub summary: String,
}

pub struct SummaryView {
    pub version: u32,
    pub token_estimate: Option<u64>,
    pub up_to_message: i64,
    pub summary: Seq<char>,
}

impl View for SummaryRecord {
    type V = SummaryView;

    open spec fn view(&self) -> SummaryView {
        SummaryView {
            version: self.version,
            token_estimate: self.token_estimate,
            up_to_message: self.up_to_message,
            summary: self.summary@,
        }
    }
}

impl SummaryRecord {
    pub fn copy(&self) -> (r: SummaryRecord)
        ensures
            r@ == self@,
    {
        SummaryRecord {
            version: self.version,
            token_estimate: self.token_estimate,
            up_to_message: self.up_to_message,
            summary: self.summary.clone(),
        }
    }
}

/// The views of a list of summaries.
pub open spec fn summaries_of(v: Seq<SummaryRecord>) -> Seq<SummaryView> {
    v.map_values(|s: SummaryRecord| s@)
}

/// The state of a delegation that is to be resumed after a restart.
#[derive(Debug)]
pub struct DelegationCheckpoint {
    pub task_id: String,
    pub state: String,
}

struct SessionMeta {
    owner: String,
    display_name: Option<String>,
    created_at: UtcInstant,
    last_activity: UtcInstant,
}

pub struct MetaView {
    pub owner: Seq<char>,
    pub display_name: Option<Seq<char>>,
    pub created_at: UtcInstant,
    pub last_activity: UtcInstant,
}

impl SessionMeta {
    spec fn info(&self) -> MetaView {
        MetaView {
            owner: self.owner@,
            display_name: opt_text(self.display_name),
            created_at: self.created_at,
            last_activity: self.last_activity,
        }
    }
}

/// What a store holds.
#[verifier::ext_equal]
pub struct Store {
    pub sessions: Map<Seq<char>, MetaView>,
    pub messages: Map<Seq<char>, Seq<MessageView>>,
    pub summaries: Map<Seq<char>, Seq<SummaryView>>,
    /// The active session of each user.
    pub active: Map<Seq<char>, Seq<char>>,
    pub suspensions: Map<Seq<char>, Seq<char>>,
    pub yield_events: Map<Seq<char>, Seq<char>>,
    pub parents: Map<Seq<char>, Seq<char>>,
    pub agent_names: Map<Seq<char>, Seq<char>>,
    pub overrides: Map<Seq<char>, Seq<char>>,
    pub checkpoints: Map<Seq<char>, Seq<char>>,
    pub tokens: Map<Seq<char>, u64>,
    pub last_messages: Map<Seq<char>, PersistedChannelMessage>,
    pub namespace: Seq<char>,
}

/// A store without anything.
pub open spec fn empty_store(namespace: Seq<char>) -> Store {
    Store {
        sessions: Map::empty(),
        messages: Map::empty(),
        summaries: Map::empty(),
        active: Map::empty(),
        suspensions: Map::empty(),
        yield_events: Map::empty(),
        parents: Map::empty(),
        agent_names: Map::empty(),
        overrides: Map::empty(),
        checkpoints: Map::empty(),
        tokens: Map::empty(),
        last_messages: Map::empty(),
        namespace,
    }
}

/// The id of the session with the given uuid.
pub open spec fn session_id_of(namespace: Seq<char>, uuid: Seq<char>) -> Seq<char> {
    namespace + "/session/"@ + uuid
}

/// The number of messages stored for a session.
pub open spec fn count_of(s: Store, id: Seq<char>) -> nat {
    if s.messages.contains_key(id) {
        s.messages[id].len()
    } else {
        0
    }
}

/// What a store knows of a session.
pub open spec fn info_of(s: Store, id: Seq<char>) -> InfoView {
    InfoView {
        id,
        owner: s.sessions[id].owner,
        display_name: s.sessions[id].display_name,
        created_at: s.sessions[id].created_at,
        last_activity: s.sessions[id].last_activity,
        message_count: count_of(s, id),
    }
}

/// Which sessions are listed.
pub enum Scope {
    All,
    /// Those of one owner.
    Owner(Seq<char>),
    /// Those whose owner begins with a text.
    OwnerPrefix(Seq<char>),
}

/// Whether a session of `owner` is listed.
pub open spec fn in_scope(scope: Scope, owner: Seq<char>) -> bool {
    match scope {
        Scope::All => true,
        Scope::Owner(o) => owner == o,
        Scope::OwnerPrefix(p) => begins_with(owner, p),
    }
}

/// Whether `r` lists the sessions of `s` in the scope, each once, in some order.
pub open spec fn lists_sessions(r: Seq<InfoView>, s: Store, scope: Scope) -> bool {
    &&& forall|i: int, j: int|
        0 <= i < j < r.len() ==> (#[trigger] r[i]).id != (#[trigger] r[j]).id
    &&& forall|i: int|
        0 <= i < r.len() ==> s.sessions.contains_key((#[trigger] r[i]).id) && r[i] == info_of(
            s,
            r[i].id,
        ) && in_scope(scope, r[i].owner)
    &&& forall|id: Seq<char>| #[trigger]
        s.sessions.contains_key(id) && in_scope(scope, s.sessions[id].owner) ==> exists|i: int|
            0 <= i < r.len() && (#[trigger] r[i]).id == id
}

/// Whether the sessions come in order of their last activity, latest first.
pub open spec fn latest_first(r: Seq<InfoView>) -> bool {
    forall|i: int, j: int|
        0 <= i < j < r.len() ==> (#[trigger] r[j]).last_activity.at_or_before(
            (#[trigger] r[i]).last_activity,
        )
}

/// `s` with a new session `id` of `owner`.
pub open spec fn with_session(
    s: Store,
    id: Seq<char>,
    owner: Seq<char>,
    display_name: Option<Seq<char>>,
    now: UtcInstant,
) -> Store {
    Store {
        sessions: s.sessions.insert(
            id,
            MetaView { owner, display_name, created_at: now, last_activity: now },
        ),
        messages: s.messages.insert(id, Seq::empty()),
        ..s
    }
}

/// `active` without the users whose active session is `id`.
pub open spec fn without_active(active: Map<Seq<char>, Seq<char>>, id: Seq<char>) -> Map<
    Seq<char>,
    Seq<char>,
> {
    Map::new(|k: Seq<char>| active.contains_key(k) && active[k] != id, |k: Seq<char>| active[k])
}

/// `s` without the session, its messages, summaries and parent, and with no user
/// active in it.
pub open spec fn without_session(s: Store, id: Seq<char>) -> Store {
    Store {
        sessions: s.sessions.remove(id),
        messages: s.messages.remove(id),
        summaries: s.summaries.remove(id),
        parents: s.parents.remove(id),
        active: without_active(s.active, id),
        ..s
    }
}

/// The messages stored for a session.
pub open spec fn stored_messages(s: Store, id: Seq<char>) -> Seq<MessageView> {
    if s.messages.contains_key(id) {
        s.messages[id]
    } else {
        Seq::empty()
    }
}

/// `s` with one more message of a session, which was active at `now`.
pub open spec fn with_message(s: Store, id: Seq<char>, m: MessageView, now: UtcInstant) -> Store {
    Store {
        sessions: if s.sessions.contains_key(id) {
            s.sessions.insert(id, MetaView { last_activity: now, ..s.sessions[id] })
        } else {
            s.sessions
        },
        messages: s.messages.insert(id, stored_messages(s, id).push(m)),
        ..s
    }
}

/// `m` with the value of a key set, or with no value where the text is empty.
pub open spec fn with_text(m: Map<Seq<char>, Seq<char>>, key: Seq<char>, text: Seq<char>) -> Map<
    Seq<char>,
    Seq<char>,
> {
    if text.len() == 0 {
        m.remove(key)
    } else {
        m.insert(key, text)
    }
}

/// The messages of `h` numbered from 1, as far as their number is above `after`.
pub open spec fn numbered(h: Seq<MessageView>, after: int) -> Seq<(i64, MessageView)>
    decreases h.len(),
{
    if h.len() == 0 {
        Seq::empty()
    } else {
        let before = numbered(h.drop_last(), after);
        if h.len() > after {
            before.push((h.len() as i64, h.last()))
        } else {
            before
        }
    }
}

/// The text stored for a key.
pub open spec fn lookup(m: Map<Seq<char>, Seq<char>>, key: Seq<char>) -> Option<Seq<char>> {
    if m.contains_key(key) {
        Some(m[key])
    } else {
        None
    }
}

// ── Tables ─────────────────────────────────────────────────────────────────

spec fn texts_in(t: Map<Seq<char>, String>) -> Map<Seq<char>, Seq<char>> {
    t.map_values(|s: String| s@)
}

spec fn logs_in(t: Map<Seq<char>, Vec<ChatMessage>>) -> Map<Seq<char>, Seq<MessageView>> {
    t.map_values(|v: Vec<ChatMessage>| messages_of(v@))
}

spec fn summaries_in(t: Map<Seq<char>, Vec<SummaryRecord>>) -> Map<Seq<char>, Seq<SummaryView>> {
    t.map_values(|v: Vec<SummaryRecord>| summaries_of(v@))
}

spec fn metas_in(t: Map<Seq<char>, SessionMeta>) -> Map<Seq<char>, MetaView> {
    t.map_values(|m: SessionMeta| m.info())
}

fn put_text(t: &mut TextMap<String>, key: &str, text: &str)
    requires
        old(t).wf(),
    ensures
        final(t).wf(),
        texts_in(final(t)@) == texts_in(old(t)@).insert(key@, text@),
{
    let ghost before = t@;
    let k = copy_str(key);
    let v = copy_str(text);
    t.insert(k, v);
    assert(texts_in(t@) =~= texts_in(before).insert(key@, text@));
}

fn drop_text(t: &mut TextMap<String>, key: &str)
    requires
        old(t).wf(),
    ensures
        final(t).wf(),
        texts_in(final(t)@) == texts_in(old(t)@).remove(key@),
{
    let ghost before = t@;
    let _ = t.remove(key);
    assert(texts_in(t@) =~= texts_in(before).remove(key@));
}

fn set_text(t: &mut TextMap<String>, key: &str, text: &str)
    requires
        old(t).wf(),
    ensures
        final(t).wf(),
        texts_in(final(t)@) == with_text(texts_in(old(t)@), key@, text@),
{
    if text.is_empty() {
        drop_text(t, key);
    } else {
        put_text(t, key, text);
    }
}

fn get_text(t: &TextMap<String>, key: &str) -> (r: Option<String>)
    ensures
        opt_text(r) == lookup(texts_in(t@), key@),
{
    match t.get(key) {
        Some(s) => Some(s.clone()),
        None => None,
    }
}

/// The rows whose text is not `text`.
fn rows_without(t: &TextMap<String>, text: &str) -> (r: TextMap<String>)
    requires
        t.wf(),
    ensures
        r.wf(),
        texts_in(r@) == without_active(texts_in(t@), text@),
{
    let mut r: TextMap<String> = TextMap::new();
    let ghost rows = t.rows();
    proof {
        t.lemma_rows();
    }
    let mut i: usize = 0;
    while i < t.len()
        invariant
            i <= rows.len(),
            rows == t.rows(),
            r.wf(),
            distinct_keys(rows),
            forall|k: Seq<char>| #[trigger]
                r@.contains_key(k) ==> exists|j: int|
                    0 <= j < i && (#[trigger] rows[j]).0@ == k && rows[j].1@ != text@ && r@[k]@
                        == rows[j].1@,
            forall|j: int|
                0 <= j < i && (#[trigger] rows[j]).1@ != text@ ==> r@.contains_key(rows[j].0@)
                    && r@[rows[j].0@]@ == rows[j].1@,
        decreases rows.len() - i,
    {
        if !same_str(t.value_at(i), text) {
            let ghost before = r@;
            r.insert(t.key_at(i).clone(), t.value_at(i).clone());
            assert forall|k: Seq<char>| #[trigger] r@.contains_key(k) implies exists|j: int|
                0 <= j < i + 1 && (#[trigger] rows[j]).0@ == k && rows[j].1@ != text@ && r@[k]@
                    == rows[j].1@ by {
                if k == rows[i as int].0@ {
                    assert(rows[i as int].0@ == k);
                } else {
                    assert(before.contains_key(k));
                    let j = choose|j: int|
                        0 <= j < i && (#[trigger] rows[j]).0@ == k && rows[j].1@ != text@
                            && before[k]@ == rows[j].1@;
                    assert(rows[j].0@ == k);
                }
            }
            assert forall|j: int|
                0 <= j < i + 1 && (#[trigger] rows[j]).1@ != text@ implies r@.contains_key(
                rows[j].0@,
            ) && r@[rows[j].0@]@ == rows[j].1@ by {
                if j < i {
                    assert(rows[j].0@ != rows[i as int].0@);
                }
            }
        }
        i += 1;
    }
    assert(texts_in(r@) =~= without_active(texts_in(t@), text@)) by {
        assert forall|k: Seq<char>| texts_in(r@).contains_key(k) == without_active(
            texts_in(t@),
            text@,
        ).contains_key(k) by {
            if r@.contains_key(k) {
                let j = choose|j: int|
                    0 <= j < rows.len() && (#[trigger] rows[j]).0@ == k && rows[j].1@ != text@
                        && r@[k]@ == rows[j].1@;
                assert(t@.dom().contains(rows[j].0@));
            }
            if t@.contains_key(k) && t@[k]@ != text@ {
                assert(t@.dom().contains(k));
                let j = choose|j: int| 0 <= j < rows.len() && (#[trigger] rows[j]).0@ == k;
                assert(t@[rows[j].0@] == rows[j].1);
            }
        }
        assert forall|k: Seq<char>| texts_in(r@).contains_key(k) implies texts_in(r@)[k]
            == without_active(texts_in(t@), text@)[k] by {
            let j = choose|j: int|
                0 <= j < rows.len() && (#[trigger] rows[j]).0@ == k && rows[j].1@ != text@
                    && r@[k]@ == rows[j].1@;
            assert(t@[rows[j].0@] == rows[j].1);
        }
    }
    r
}

// ── The store in memory ────────────────────────────────────────────────────

/// A store of sessions that lives in memory.
pub struct InMemoryBackend {
    sessions: TextMap<SessionMeta>,
    messages: TextMap<Vec<ChatMessage>>,
    summaries: TextMap<Vec<SummaryRecord>>,
    active: TextMap<String>,
    suspensions: TextMap<String>,
    yield_events: TextMap<String>,
    parents: TextMap<String>,
    agent_names: TextMap<String>,
    overrides: TextMap<String>,
    checkpoints: TextMap<String>,
    tokens: TextMap<u64>,
    last_messages: TextMap<PersistedChannelMessage>,
    namespace: String,
}

/// The namespace of a store that is made without one.
pub const DEFAULT_NAMESPACE: &'static str = "default";

impl InMemoryBackend {
    /// Whether the tables are tables.
    pub closed spec fn wf(&self) -> bool {
        &&& self.sessions.wf()
        &&& self.messages.wf()
        &&& self.summaries.wf()
        &&& self.active.wf()
        &&& self.suspensions.wf()
        &&& self.yield_events.wf()
        &&& self.parents.wf()
        &&& self.agent_names.wf()
        &&& self.overrides.wf()
        &&& self.checkpoints.wf()
        &&& self.tokens.wf()
        &&& self.last_messages.wf()
    }

    /// What the store holds.
    pub closed spec fn store(&self) -> Store {
        Store {
            sessions: metas_in(self.sessions@),
            messages: logs_in(self.messages@),
            summaries: summaries_in(self.summaries@),
            active: texts_in(self.active@),
            suspensions: texts_in(self.suspensions@),
            yield_events: texts_in(self.yield_events@),
            parents: texts_in(self.parents@),
            agent_names: texts_in(self.agent_names@),
            overrides: texts_in(self.overrides@),
            checkpoints: texts_in(self.checkpoints@),
            tokens: self.tokens@,
            last_messages: self.last_messages@,
            namespace: self.namespace@,
        }
    }

    /// An empty store whose session ids stand under `namespace`.
    pub fn with_namespace(namespace: &str) -> (r: InMemoryBackend)
        ensures
            r.wf(),
            r.store() == empty_store(namespace@),
    {
        let r = InMemoryBackend {
            sessions: TextMap::new(),
            messages: TextMap::new(),
            summaries: TextMap::new(),
            active: TextMap::new(),
            suspensions: TextMap::new(),
            yield_events: TextMap::new(),
            parents: TextMap::new(),
            agent_names: TextMap::new(),
            overrides: TextMap::new(),
            checkpoints: TextMap::new(),
            tokens: TextMap::new(),
            last_messages: TextMap::new(),
            namespace: copy_str(namespace),
        };
        assert(r.store() =~= empty_store(namespace@));
        r
    }

    /// An empty store.
    pub fn new() -> (r: InMemoryBackend)
        ensures
            r.wf(),
            r.store() == empty_store(DEFAULT_NAMESPACE@),
    {
        InMemoryBackend::with_namespace(DEFAULT_NAMESPACE)
    }

    /// Makes a session with the id of a uuid, at `now`.
    pub fn create_session_at(
        &mut self,
        owner: &str,
        display_name: Option<&str>,
        uuid: &str,
        now: UtcInstant,
    ) -> (r: SessionInfo)
        requires
            old(self).wf(),
        ensures
            final(self).wf(),
            r@.id == session_id_of(old(self).store().namespace, uuid@),
            final(self).store() == with_session(
                old(self).store(),
                r@.id,
                owner@,
                opt_str(display_name),
                now,
            ),
            r@ == info_of(final(self).store(), r@.id),
    {
        let ghost before = *self;
        let mut id = self.namespace.clone();
        id.append("/session/");
        id.append(uuid);
        assert(id@ =~= session_id_of(self.namespace@, uuid@));
        let name: Option<String> = match display_name {
            Some(d) => Some(copy_str(d)),
            None => None,
        };
        let meta = SessionMeta {
            owner: copy_str(owner),
            display_name: copy_opt(&name),
            created_at: now,
            last_activity: now,
        };
        let ghost info = meta.info();
        self.sessions.insert(id.clone(), meta);
        assert(metas_in(self.sessions@) =~= metas_in(before.sessions@).insert(id@, info));
        let none: Vec<ChatMessage> = Vec::new();
        assert(messages_of(none@) =~= Seq::<MessageView>::empty());
        self.messages.insert(id.clone(), none);
        assert(logs_in(self.messages@) =~= logs_in(before.messages@).insert(
            id@,
            Seq::<MessageView>::empty(),
        ));
        SessionInfo {
            id,
            owner: copy_str(owner),
            display_name: name,
            created_at: now,
            last_activity: now,
            message_count: 0,
        }
    }

    /// Makes a session. Its id is made of the namespace and a new uuid.
    pub fn create_session(&mut self, owner: &str, display_name: Option<&str>) -> (r: Result<
        SessionInfo,
        String,
    >)
        requires
            old(self).wf(),
        ensures
            final(self).wf(),
            r matches Ok(info) && {
                &&& exists|uuid: Seq<char>|
                    info@.id == #[trigger] session_id_of(old(self).store().namespace, uuid)
                        && is_uuid_text(uuid, '7')
                &&& exists|now: UtcInstant|
                    final(self).store() == #[trigger] with_session(
                        old(self).store(),
                        info@.id,
                        owner@,
                        opt_str(display_name),
                        now,
                    ) && is_reading(now)
                &&& info@ == info_of(final(self).store(), info@.id)
            },
    {
        let stamp = read_clock();
        let uuid = fresh_uuid();
        Ok(self.create_session_at(owner, display_name, uuid.as_str(), stamp.at))
    }

    /// Takes a session away, with its messages, summaries and parent. Nobody is
    /// active in it any more.
    pub fn delete_session(&mut self, session_id: &str)
        requires
            old(self).wf(),
        ensures
            final(self).wf(),
            final(self).store() == without_session(old(self).store(), session_id@),
    {
        let ghost before = *self;
        let _ = self.sessions.remove(session_id);
        assert(metas_in(self.sessions@) =~= metas_in(before.sessions@).remove(session_id@));
        let _ = self.messages.remove(session_id);
        assert(logs_in(self.messages@) =~= logs_in(before.messages@).remove(session_id@));
        let _ = self.summaries.remove(session_id);
        assert(summaries_in(self.summaries@) =~= summaries_in(before.summaries@).remove(
            session_id@,
        ));
        drop_text(&mut self.parents, session_id);
        self.active = rows_without(&self.active, session_id);
    }

    /// Gives a session a name. Nothing happens where there is no such session.
    pub fn rename_session(&mut self, session_id: &str, name: &str)
        requires
            old(self).wf(),
        ensures
            final(self).wf(),
            final(self).store() == (if old(self).store().sessions.contains_key(session_id@) {
                Store {
                    sessions: old(self).store().sessions.insert(
                        session_id@,
                        MetaView {
                            display_name: Some(name@),
                            ..old(self).store().sessions[session_id@]
                        },
                    ),
                    ..old(self).store()
                }
            } else {
                old(self).store()
            }),
    {
        let ghost before = *self;
        match self.sessions.remove(session_id) {
            Some(m) => {
                let meta = SessionMeta {
                    owner: m.owner,
                    display_name: Some(copy_str(name)),
                    created_at: m.created_at,
                    last_activity: m.last_activity,
                };
                let ghost info = meta.info();
                self.sessions.insert(copy_str(session_id), meta);
                assert(metas_in(self.sessions@) =~= metas_in(before.sessions@).insert(
                    session_id@,
                    info,
                ));
            },
            None => {
                assert(self.sessions@ =~= before.sessions@);
            },
        }
    }

    fn count(&self, id: &str) -> (n: usize)
        ensures
            n == count_of(self.store(), id@),
    {
        match self.messages.get(id) {
            Some(v) => v.len(),
            None => 0,
        }
    }

    /// The number of messages stored for a session.
    pub fn message_count(&self, session_id: &str) -> (n: usize)
        ensures
            n == stored_messages(self.store(), session_id@).len(),
    {
        self.count(session_id)
    }

    fn info(&self, id: &str, meta: &SessionMeta) -> (r: SessionInfo)
        requires
            self.sessions@.contains_key(id@),
            *meta == self.sessions@[id@],
        ensures
            r@ == info_of(self.store(), id@),
    {
        SessionInfo {
            id: copy_str(id),
            owner: meta.owner.clone(),
            display_name: copy_opt(&meta.display_name),
            created_at: meta.created_at,
            last_activity: meta.last_activity,
            message_count: self.count(id),
        }
    }

    /// What is known of a session.
    pub fn get_session(&self, session_id: &str) -> (r: Option<SessionInfo>)
        ensures
            match r {
                Some(info) => self.store().sessions.contains_key(session_id@) && info@ == info_of(
                    self.store(),
                    session_id@,
                ),
                None => !self.store().sessions.contains_key(session_id@),
            },
    {
        match self.sessions.get(session_id) {
            Some(meta) => Some(self.info(session_id, meta)),
            None => None,
        }
    }

    /// The sessions of an owner, of the owners that begin with a text, or all.
    fn collect(&self, owner: Option<&str>, prefix: bool) -> (r: Vec<SessionInfo>)
        requires
            self.wf(),
        ensures
            lists_sessions(
                infos_of(r@),
                self.store(),
                match owner {
                    None => Scope::All,
                    Some(o) => if prefix {
                        Scope::OwnerPrefix(o@)
                    } else {
                        Scope::Owner(o@)
                    },
                },
            ),
    {
        let ghost scope = match owner {
            None => Scope::All,
            Some(o) => if prefix {
                Scope::OwnerPrefix(o@)
            } else {
                Scope::Owner(o@)
            },
        };
        let ghost rows = self.sessions.rows();
        let ghost s = self.store();
        proof {
            self.sessions.lemma_rows();
        }
        let mut r: Vec<SessionInfo> = Vec::new();
        let mut i: usize = 0;
        while i < self.sessions.len()
            invariant
                i <= rows.len(),
                rows == self.sessions.rows(),
                s == self.store(),
                distinct_keys(rows),
                forall|j: int|
                    0 <= j < rows.len() ==> self.sessions@.dom().contains(
                        (#[trigger] rows[j]).0@,
                    ) && self.sessions@[rows[j].0@] == rows[j].1,
                scope == (match owner {
                    None => Scope::All,
                    Some(o) => if prefix {
                        Scope::OwnerPrefix(o@)
                    } else {
                        Scope::Owner(o@)
                    },
                }),
                forall|k: int|
                    0 <= k < r@.len() ==> (exists|j: int|
                        0 <= j < i && (#[trigger] rows[j]).0@ == (#[trigger] infos_of(r@)[k]).id),
                forall|a: int, b: int|
                    0 <= a < b < r@.len() ==> (#[trigger] infos_of(r@)[a]).id != (
                    #[trigger] infos_of(r@)[b]).id,
                forall|k: int|
                    0 <= k < r@.len() ==> s.sessions.contains_key(
                        (#[trigger] infos_of(r@)[k]).id,
                    ) && infos_of(r@)[k] == info_of(s, infos_of(r@)[k].id) && in_scope(
                        scope,
                        infos_of(r@)[k].owner,
                    ),
                forall|j: int|
                    0 <= j < i && in_scope(scope, (#[trigger] rows[j]).1.owner@) ==> exists|k: int|
                        0 <= k < r@.len() && (#[trigger] infos_of(r@)[k]).id == rows[j].0@,
            decreases rows.len() - i,
        {
            let meta = self.sessions.value_at(i);
            let id = self.sessions.key_at(i);
            assert(self.sessions@.dom().contains(rows[i as int].0@));
            let wanted: bool = match owner {
                None => true,
                Some(o) => if prefix {
                    let v = chars_of(&meta.owner);
                    starts_with(&v, o)
                } else {
                    same_str(&meta.owner, o)
                },
            };
            if wanted {
                let ghost before = infos_of(r@);
                let info = self.info(id, meta);
                let ghost v = info@;
                r.push(info);
                assert(infos_of(r@) =~= before.push(v));
                assert(s.sessions[id@] == meta.info());
                assert forall|a: int, b: int| 0 <= a < b < r@.len() implies (
                #[trigger] infos_of(r@)[a]).id != (#[trigger] infos_of(r@)[b]).id by {
                    if b == before.len() {
                        let j = choose|j: int|
                            0 <= j < i && (#[trigger] rows[j]).0@ == before[a].id;
                        assert(rows[j].0@ != rows[i as int].0@);
                    } else {
                        assert(before[a].id != before[b].id);
                    }
                }
                assert forall|k: int| 0 <= k < r@.len() implies (exists|j: int|
                    0 <= j < i + 1 && (#[trigger] rows[j]).0@ == (#[trigger] infos_of(
                        r@,
                    )[k]).id) by {
                    if k < before.len() {
                        let j = choose|j: int|
                            0 <= j < i && (#[trigger] rows[j]).0@ == before[k].id;
                        assert(rows[j].0@ == infos_of(r@)[k].id);
                    } else {
                        assert(rows[i as int].0@ == infos_of(r@)[k].id);
                    }
                }
                assert forall|j: int|
                    0 <= j < i + 1 && in_scope(
                        scope,
                        (#[trigger] rows[j]).1.owner@,
                    ) implies exists|k: int|
                    0 <= k < r@.len() && (#[trigger] infos_of(r@)[k]).id == rows[j].0@ by {
                    if j < i {
                        let k = choose|k: int|
                            0 <= k < before.len() && (#[trigger] before[k]).id == rows[j].0@;
                        assert(infos_of(r@)[k].id == rows[j].0@);
                    } else {
                        assert(infos_of(r@)[before.len() as int].id == rows[j].0@);
                    }
                }
            }
            i += 1;
        }
        assert forall|id: Seq<char>| #[trigger]
            s.sessions.contains_key(id) && in_scope(
                scope,
                s.sessions[id].owner,
            ) implies exists|k: int|
            0 <= k < infos_of(r@).len() && (#[trigger] infos_of(r@)[k]).id == id by {
            assert(self.sessions@.dom().contains(id));
            let j = choose|j: int| 0 <= j < rows.len() && (#[trigger] rows[j]).0@ == id;
            assert(rows[j].1.owner@ == s.sessions[id].owner);
        }
        r
    }

    /// The sessions of an owner, in no promised order.
    pub fn list_sessions(&self, owner: &str) -> (r: Vec<SessionInfo>)
        requires
            self.wf(),
        ensures
            lists_sessions(infos_of(r@), self.store(), Scope::Owner(owner@)),
    {
        self.collect(Some(owner), false)
    }

    /// All sessions, in no promised order.
    pub fn list_all_sessions(&self) -> (r: Vec<SessionInfo>)
        requires
            self.wf(),
        ensures
            lists_sessions(infos_of(r@), self.store(), Scope::All),
    {
        self.collect(None, false)
    }

    /// The sessions whose owner begins with `owner`, the latest active first.
    pub fn list_sessions_for_owner(&self, owner: &str) -> (r: Vec<SessionInfo>)
        requires
            self.wf(),
        ensures
            lists_sessions(infos_of(r@), self.store(), Scope::OwnerPrefix(owner@)),
            latest_first(infos_of(r@)),
    {
        let found = self.collect(Some(owner), true);
        sort_by_activity(&found, Ghost(self.store()), Ghost(Scope::OwnerPrefix(owner@)))
    }

    /// The role of a stored message and the first 200 characters of its text.
    /// Messages are numbered from 1.
    pub fn query_message(&self, session_id: &str, message_id: i64) -> (r: Option<(String, String)>)
        ensures
            match r {
                Some(p) => {
                    let h = stored_messages(self.store(), session_id@);
                    &&& 1 <= message_id <= h.len()
                    &&& p.0@ == h[message_id - 1].role
                    &&& p.1@ == head_of(text_of_parts(h[message_id - 1].parts), 200)
                },
                None => !(1 <= message_id <= stored_messages(self.store(), session_id@).len()),
            },
    {
        match self.messages.get(session_id) {
            Some(msgs) => {
                if message_id <= 0 || message_id as u64 > msgs.len() as u64 {
                    return None;
                }
                let i: usize = (message_id - 1) as usize;
                assert(messages_of(msgs@)[i as int] == msgs@[i as int]@);
                let text = msgs[i].text_content();
                let v = chars_of(&text);
                Some((msgs[i].role.clone(), string_of(take_chars(&v, 200))))
            },
            None => None,
        }
    }

    /// The active session of a user.
    pub fn get_active_session(&self, user_id: &str) -> (r: Option<String>)
        ensures
            opt_text(r) == lookup(self.store().active, user_id@),
    {
        get_text(&self.active, user_id)
    }

    /// Makes a session the active one of a user.
    pub fn set_active_session(&mut self, user_id: &str, session_id: &str)
        requires
            old(self).wf(),
        ensures
            final(self).wf(),
            final(self).store() == (Store {
                active: old(self).store().active.insert(user_id@, session_id@),
                ..old(self).store()
            }),
    {
        put_text(&mut self.active, user_id, session_id);
    }

    /// The messages of a session.
    pub fn load_messages(&self, session_id: &str) -> (r: Vec<ChatMessage>)
        ensures
            messages_of(r@) == stored_messages(self.store(), session_id@),
    {
        match self.messages.get(session_id) {
            Some(v) => copy_messages(v),
            None => {
                let r: Vec<ChatMessage> = Vec::new();
                assert(messages_of(r@) =~= Seq::<MessageView>::empty());
                r
            },
        }
    }

    /// Appends a message at `now` and returns its number.
    pub fn append_message_at(&mut self, session_id: &str, message: &ChatMessage, now: UtcInstant) -> (r:
        i64)
        requires
            old(self).wf(),
            stored_messages(old(self).store(), session_id@).len() < i64::MAX,
        ensures
            final(self).wf(),
            final(self).store() == with_message(old(self).store(), session_id@, message@, now),
            r == stored_messages(old(self).store(), session_id@).len() + 1,
    {
        let ghost before = *self;
        match self.sessions.remove(session_id) {
            Some(m) => {
                let meta = SessionMeta {
                    owner: m.owner,
                    display_name: m.display_name,
                    created_at: m.created_at,
                    last_activity: now,
                };
                let ghost info = meta.info();
                self.sessions.insert(copy_str(session_id), meta);
                assert(metas_in(self.sessions@) =~= metas_in(before.sessions@).insert(
                    session_id@,
                    info,
                ));
            },
            None => {
                assert(self.sessions@ =~= before.sessions@);
            },
        }
        let mut msgs: Vec<ChatMessage> = match self.messages.remove(session_id) {
            Some(v) => v,
            None => Vec::new(),
        };
        let ghost h = messages_of(msgs@);
        assert(h =~= stored_messages(before.store(), session_id@));
        msgs.push(message.copy());
        assert(messages_of(msgs@) =~= h.push(message@));
        let n: i64 = msgs.len() as i64;
        self.messages.insert(copy_str(session_id), msgs);
        assert(logs_in(self.messages@) =~= logs_in(before.messages@).insert(
            session_id@,
            h.push(message@),
        ));
        n
    }

    /// Appends a message and returns its number.
    pub fn append_message(&mut self, session_id: &str, message: &ChatMessage) -> (r: i64)
        requires
            old(self).wf(),
            stored_messages(old(self).store(), session_id@).len() < i64::MAX,
        ensures
            final(self).wf(),
            exists|now: UtcInstant|
                final(self).store() == #[trigger] with_message(
                    old(self).store(),
                    session_id@,
                    message@,
                    now,
                ) && is_reading(now),
            r == stored_messages(old(self).store(), session_id@).len() + 1,
    {
        let stamp = read_clock();
        self.append_message_at(session_id, message, stamp.at)
    }

    /// Puts a message in the place of the one with the given number, and says
    /// whether there was one.
    pub fn update_message(&mut self, session_id: &str, message_id: i64, message: &ChatMessage) -> (r:
        bool)
        requires
            old(self).wf(),
        ensures
            final(self).wf(),
            r == (1 <= message_id <= stored_messages(old(self).store(), session_id@).len()),
            final(self).store() == (if r {
                Store {
                    messages: old(self).store().messages.insert(
                        session_id@,
                        old(self).store().messages[session_id@].update(message_id - 1, message@),
                    ),
                    ..old(self).store()
                }
            } else {
                old(self).store()
            }),
    {
        let n: usize = self.count(session_id);
        if message_id <= 0 || message_id as u64 > n as u64 {
            return false;
        }
        let ghost before = *self;
        match self.messages.remove(session_id) {
            Some(v) => {
                let ghost h = messages_of(v@);
                let mut msgs = v;
                msgs.set((message_id - 1) as usize, message.copy());
                assert(messages_of(msgs@) =~= h.update(message_id - 1, message@));
                self.messages.insert(copy_str(session_id), msgs);
                assert(logs_in(self.messages@) =~= logs_in(before.messages@).insert(
                    session_id@,
                    h.update(message_id - 1, message@),
                ));
                true
            },
            None => false,
        }
    }

    /// Keeps only the messages that survive a compaction.
    pub fn rotate_history(&mut self, session_id: &str, surviving: &Vec<(i64, ChatMessage)>)
        requires
            old(self).wf(),
        ensures
            final(self).wf(),
            final(self).store() == (Store {
                messages: old(self).store().messages.insert(
                    session_id@,
                    row_messages(rows_of(surviving@)),
                ),
                ..old(self).store()
            }),
    {
        let ghost before = *self;
        let msgs = messages_only(surviving);
        self.messages.insert(copy_str(session_id), msgs);
        assert(logs_in(self.messages@) =~= logs_in(before.messages@).insert(
            session_id@,
            row_messages(rows_of(surviving@)),
        ));
    }

    /// Keeps only the first `keep_count` messages of a session.
    pub fn truncate_messages(&mut self, session_id: &str, keep_count: usize)
        requires
            old(self).wf(),
        ensures
            final(self).wf(),
            final(self).store() == (if old(self).store().messages.contains_key(session_id@)
                && keep_count < old(self).store().messages[session_id@].len() {
                Store {
                    messages: old(self).store().messages.insert(
                        session_id@,
                        old(self).store().messages[session_id@].take(keep_count as int),
                    ),
                    ..old(self).store()
                }
            } else {
                old(self).store()
            }),
    {
        let ghost before = *self;
        match self.messages.remove(session_id) {
            Some(v) => {
                let ghost h = messages_of(v@);
                let mut msgs = v;
                msgs.truncate(keep_count);
                assert(keep_count < h.len() ==> messages_of(msgs@) =~= h.take(keep_count as int));
                let ghost left = messages_of(msgs@);
                self.messages.insert(copy_str(session_id), msgs);
                assert(logs_in(self.messages@) =~= logs_in(before.messages@).insert(
                    session_id@,
                    left,
                ));
                proof {
                    if keep_count >= h.len() {
                        assert(left =~= h);
                        assert(logs_in(self.messages@) =~= logs_in(before.messages@));
                    }
                }
            },
            None => {
                assert(self.messages@ =~= before.messages@);
            },
        }
    }

    /// Takes the last message of a session away, and says whether there was one.
    pub fn remove_last_message(&mut self, session_id: &str) -> (r: bool)
        requires
            old(self).wf(),
        ensures
            final(self).wf(),
            r == (stored_messages(old(self).store(), session_id@).len() > 0),
            final(self).store() == (if r {
                Store {
                    messages: old(self).store().messages.insert(
                        session_id@,
                        old(self).store().messages[session_id@].drop_last(),
                    ),
                    ..old(self).store()
                }
            } else {
                old(self).store()
            }),
    {
        let n: usize = self.count(session_id);
        if n == 0 {
            return false;
        }
        let ghost h = self.store().messages[session_id@];
        assert(h.take(n as int - 1) =~= h.drop_last());
        self.truncate_messages(session_id, n - 1);
        true
    }

    /// Keeps a summary.
    pub fn save_summary(&mut self, session_id: &str, summary: &SummaryRecord)
        requires
            old(self).wf(),
        ensures
            final(self).wf(),
            final(self).store() == (Store {
                summaries: old(self).store().summaries.insert(
                    session_id@,
                    if old(self).store().summaries.contains_key(session_id@) {
                        old(self).store().summaries[session_id@].push(summary@)
                    } else {
                        seq![summary@]
                    },
                ),
                ..old(self).store()
            }),
    {
        let ghost before = *self;
        let mut all: Vec<SummaryRecord> = match self.summaries.remove(session_id) {
            Some(v) => v,
            None => Vec::new(),
        };
        let ghost h = summaries_of(all@);
        all.push(summary.copy());
        assert(summaries_of(all@) =~= h.push(summary@));
        let ghost now = summaries_of(all@);
        self.summaries.insert(copy_str(session_id), all);
        assert(summaries_in(self.summaries@) =~= summaries_in(before.summaries@).insert(
            session_id@,
            now,
        ));
        assert(!before.summaries@.contains_key(session_id@) ==> now =~= seq![summary@]);
    }

    /// The summary that was kept last.
    pub fn load_latest_summary(&self, session_id: &str) -> (r: Option<SummaryRecord>)
        ensures
            match r {
                Some(s) => {
                    &&& self.store().summaries.contains_key(session_id@)
                    &&& self.store().summaries[session_id@].len() > 0
                    &&& s@ == self.store().summaries[session_id@].last()
                },
                None => !self.store().summaries.contains_key(session_id@)
                    || self.store().summaries[session_id@].len() == 0,
            },
    {
        match self.summaries.get(session_id) {
            Some(v) => {
                let n: usize = v.len();
                if n == 0 {
                    return None;
                }
                assert(summaries_of(v@).last() == v@.last()@);
                Some(v[n - 1].copy())
            },
            None => None,
        }
    }

    /// Forgets the summaries of a session.
    pub fn clear_summary(&mut self, session_id: &str)
        requires
            old(self).wf(),
        ensures
            final(self).wf(),
            final(self).store() == (Store {
                summaries: old(self).store().summaries.remove(session_id@),
                ..old(self).store()
            }),
    {
        let ghost before = *self;
        let _ = self.summaries.remove(session_id);
        assert(summaries_in(self.summaries@) =~= summaries_in(before.summaries@).remove(
            session_id@,
        ));
    }

    /// The messages of a session numbered from 1, as far as their number is
    /// above `after_message_id`.
    pub fn load_incremental(&self, session_id: &str, after_message_id: i64) -> (r: Vec<
        (i64, ChatMessage),
    >)
        requires
            stored_messages(self.store(), session_id@).len() <= i64::MAX,
        ensures
            rows_of(r@) == numbered(
                stored_messages(self.store(), session_id@),
                after_message_id as int,
            ),
    {
        let mut r: Vec<(i64, ChatMessage)> = Vec::new();
        match self.messages.get(session_id) {
            Some(msgs) => {
                let ghost h = messages_of(msgs@);
                let mut i: usize = 0;
                assert(rows_of(r@) =~= numbered(h.take(0), after_message_id as int));
                while i < msgs.len()
                    invariant
                        i <= msgs@.len(),
                        h == messages_of(msgs@),
                        h.len() <= i64::MAX,
                        rows_of(r@) == numbered(h.take(i as int), after_message_id as int),
                    decreases msgs@.len() - i,
                {
                    assert(h.take(i as int + 1).drop_last() =~= h.take(i as int));
                    assert(h.take(i as int + 1).last() == msgs@[i as int]@);
                    let n: i64 = (i + 1) as i64;
                    if n > after_message_id {
                        let ghost before = rows_of(r@);
                        r.push((n, msgs[i].copy()));
                        assert(rows_of(r@) =~= before.push((n, msgs@[i as int]@)));
                    }
                    i += 1;
                }
                assert(h.take(h.len() as int) =~= h);
            },
            None => {
                assert(rows_of(r@) =~= numbered(
                    Seq::<MessageView>::empty(),
                    after_message_id as int,
                ));
            },
        }
        r
    }

    /// Drops sessions that were not used for long. A store in memory keeps all.
    pub fn cleanup_stale(&self, ttl_hours: u32) -> (r: usize)
        ensures
            r == 0,
    {
        let _ = ttl_hours;
        0
    }

    /// Keeps the state of a suspended turn; an empty text forgets it.
    pub fn save_suspension(&mut self, session_id: &str, json: &str)
        requires
            old(self).wf(),
        ensures
            final(self).wf(),
            final(self).store() == (Store {
                suspensions: with_text(old(self).store().suspensions, session_id@, json@),
                ..old(self).store()
            }),
    {
        set_text(&mut self.suspensions, session_id, json);
    }

    /// The kept state of a suspended turn.
    pub fn load_suspension(&self, session_id: &str) -> (r: Option<String>)
        ensures
            opt_text(r) == lookup(self.store().suspensions, session_id@),
    {
        get_text(&self.suspensions, session_id)
    }

    /// Keeps the events that wait for a yield; an empty text forgets them.
    pub fn save_pending_yield_events(&mut self, session_id: &str, json: &str)
        requires
            old(self).wf(),
        ensures
            final(self).wf(),
            final(self).store() == (Store {
                yield_events: with_text(old(self).store().yield_events, session_id@, json@),
                ..old(self).store()
            }),
    {
        set_text(&mut self.yield_events, session_id, json);
    }

    /// The kept events that wait for a yield.
    pub fn load_pending_yield_events(&self, session_id: &str) -> (r: Option<String>)
        ensures
            opt_text(r) == lookup(self.store().yield_events, session_id@),
    {
        get_text(&self.yield_events, session_id)
    }

    /// Keeps the parent of a session; an empty text forgets it.
    pub fn save_parent_session_id(&mut self, session_id: &str, parent: &str)
        requires
            old(self).wf(),
        ensures
            final(self).wf(),
            final(self).store() == (Store {
                parents: with_text(old(self).store().parents, session_id@, parent@),
                ..old(self).store()
            }),
    {
        set_text(&mut self.parents, session_id, parent);
    }

    /// The parent of a session.
    pub fn load_parent_session_id(&self, session_id: &str) -> (r: Option<String>)
        ensures
            opt_text(r) == lookup(self.store().parents, session_id@),
    {
        get_text(&self.parents, session_id)
    }

    /// Keeps the agent of a session.
    pub fn save_agent_name(&mut self, session_id: &str, agent_name: &str)
        requires
            old(self).wf(),
        ensures
            final(self).wf(),
            final(self).store() == (Store {
                agent_names: old(self).store().agent_names.insert(session_id@, agent_name@),
                ..old(self).store()
            }),
    {
        put_text(&mut self.agent_names, session_id, agent_name);
    }

    /// The agent of a session.
    pub fn load_agent_name(&self, session_id: &str) -> (r: Option<String>)
        ensures
            opt_text(r) == lookup(self.store().agent_names, session_id@),
    {
        get_text(&self.agent_names, session_id)
    }

    /// Keeps the override of a session.
    pub fn save_session_override(&mut self, session_id: &str, json: &str)
        requires
            old(self).wf(),
        ensures
            final(self).wf(),
            final(self).store() == (Store {
                overrides: old(self).store().overrides.insert(session_id@, json@),
                ..old(self).store()
            }),
    {
        put_text(&mut self.overrides, session_id, json);
    }

    /// The kept override of a session.
    pub fn load_session_override(&self, session_id: &str) -> (r: Option<String>)
        ensures
            opt_text(r) == lookup(self.store().overrides, session_id@),
    {
        get_text(&self.overrides, session_id)
    }

    /// Keeps the token count of a session.
    pub fn save_token_count(&mut self, session_id: &str, total: u64)
        requires
            old(self).wf(),
        ensures
            final(self).wf(),
            final(self).store() == (Store {
                tokens: old(self).store().tokens.insert(session_id@, total),
                ..old(self).store()
            }),
    {
        self.tokens.insert(copy_str(session_id), total);
    }

    /// The kept token count of a session.
    pub fn load_token_count(&self, session_id: &str) -> (r: Option<u64>)
        ensures
            r == (if self.store().tokens.contains_key(session_id@) {
                Some(self.store().tokens[session_id@])
            } else {
                None
            }),
    {
        match self.tokens.get(session_id) {
            Some(n) => Some(*n),
            None => None,
        }
    }

    /// Keeps the last incoming message of a session.
    pub fn save_last_message(&mut self, session_id: &str, msg: &PersistedChannelMessage)
        requires
            old(self).wf(),
        ensures
            final(self).wf(),
            final(self).store() == (Store {
                last_messages: old(self).store().last_messages.insert(session_id@, *msg),
                ..old(self).store()
            }),
    {
        self.last_messages.insert(copy_str(session_id), msg.copy());
    }

    /// The kept last incoming message of a session.
    pub fn load_last_message(&self, session_id: &str) -> (r: Option<PersistedChannelMessage>)
        ensures
            r == (if self.store().last_messages.contains_key(session_id@) {
                Some(self.store().last_messages[session_id@])
            } else {
                None
            }),
    {
        match self.last_messages.get(session_id) {
            Some(m) => Some(m.copy()),
            None => None,
        }
    }

    /// Keeps the state of a delegation.
    pub fn save_delegation_checkpoint(&mut self, checkpoint: &DelegationCheckpoint)
        requires
            old(self).wf(),
        ensures
            final(self).wf(),
            final(self).store() == (Store {
                checkpoints: old(self).store().checkpoints.insert(
                    checkpoint.task_id@,
                    checkpoint.state@,
                ),
                ..old(self).store()
            }),
    {
        put_text(&mut self.checkpoints, &checkpoint.task_id, &checkpoint.state);
    }

    /// Forgets the state of a delegation.
    pub fn delete_delegation_checkpoint(&mut self, task_id: &str)
        requires
            old(self).wf(),
        ensures
            final(self).wf(),
            final(self).store() == (Store {
                checkpoints: old(self).store().checkpoints.remove(task_id@),
                ..old(self).store()
            }),
    {
        drop_text(&mut self.checkpoints, task_id);
    }
}

/// Whether `r` lists the checkpoints, each once, in some order.
pub open spec fn lists_checkpoints(
    r: Seq<DelegationCheckpoint>,
    kept: Map<Seq<char>, Seq<char>>,
) -> bool {
    &&& forall|i: int, j: int|
        0 <= i < j < r.len() ==> (#[trigger] r[i]).task_id@ != (#[trigger] r[j]).task_id@
    &&& forall|i: int|
        0 <= i < r.len() ==> kept.contains_key((#[trigger] r[i]).task_id@) && kept[r[i].task_id@]
            == r[i].state@
    &&& forall|id: Seq<char>| #[trigger]
        kept.contains_key(id) ==> exists|i: int|
            0 <= i < r.len() && (#[trigger] r[i]).task_id@ == id
}

impl InMemoryBackend {
    /// The kept states of delegations, in no promised order.
    pub fn load_delegation_checkpoints(&self) -> (r: Vec<DelegationCheckpoint>)
        requires
            self.wf(),
        ensures
            lists_checkpoints(r@, self.store().checkpoints),
    {
        let ghost rows = self.checkpoints.rows();
        let ghost kept = self.store().checkpoints;
        proof {
            self.checkpoints.lemma_rows();
        }
        let mut r: Vec<DelegationCheckpoint> = Vec::new();
        let mut i: usize = 0;
        while i < self.checkpoints.len()
            invariant
                i <= rows.len(),
                rows == self.checkpoints.rows(),
                r@.len() == i,
                forall|k: int|
                    0 <= k < i ==> (#[trigger] r@[k]).task_id@ == rows[k].0@ && r@[k].state@
                        == rows[k].1@,
            decreases rows.len() - i,
        {
            r.push(
                DelegationCheckpoint {
                    task_id: self.checkpoints.key_at(i).clone(),
                    state: self.checkpoints.value_at(i).clone(),
                },
            );
            i += 1;
        }
        proof {
            assert forall|i: int, j: int| 0 <= i < j < r@.len() implies (
            #[trigger] r@[i]).task_id@ != (#[trigger] r@[j]).task_id@ by {
                assert(rows[i].0@ != rows[j].0@);
            }
            assert forall|i: int| 0 <= i < r@.len() implies kept.contains_key(
                (#[trigger] r@[i]).task_id@,
            ) && kept[r@[i].task_id@] == r@[i].state@ by {
                assert(self.checkpoints@.dom().contains(rows[i].0@));
            }
            assert forall|id: Seq<char>| #[trigger] kept.contains_key(id) implies exists|i: int|
                0 <= i < r@.len() && (#[trigger] r@[i]).task_id@ == id by {
                assert(self.checkpoints@.dom().contains(id));
                let k = choose|k: int| 0 <= k < rows.len() && (#[trigger] rows[k]).0@ == id;
                assert(r@[k].task_id@ == id);
            }
        }
        r
    }
}

/// A hook through which a session is stored as a turn goes on.
pub trait PersistHook: Sized {
    /// Whether the hook can be used.
    spec fn ready(&self) -> bool;

    /// Stores a message and returns its id, or nothing if that failed.
    fn persist_message(&mut self, session_id: &str, message: &ChatMessage) -> (r: Option<i64>)
        requires
            old(self).ready(),
        ensures
            final(self).ready(),
    ;

    fn save_compaction(&mut self, session_id: &str, summary: &SummaryRecord)
        requires
            old(self).ready(),
        ensures
            final(self).ready(),
    ;

    /// Archives the history; the surviving messages stay.
    fn rotate_history(&mut self, session_id: &str, surviving: &Vec<(i64, ChatMessage)>)
        requires
            old(self).ready(),
        ensures
            final(self).ready(),
    ;

    fn save_token_count(&mut self, session_id: &str, total: u64)
        requires
            old(self).ready(),
        ensures
            final(self).ready(),
    ;

    fn save_session_override(&mut self, session_id: &str, override_json: &str)
        requires
            old(self).ready(),
        ensures
            final(self).ready(),
    ;

    fn save_last_message(&mut self, session_id: &str, msg: &PersistedChannelMessage)
        requires
            old(self).ready(),
        ensures
            final(self).ready(),
    ;

    /// Stores the state of a suspended turn; an empty text forgets it.
    fn save_suspension(&mut self, session_id: &str, json: &str)
        requires
            old(self).ready(),
        ensures
            final(self).ready(),
    ;

    fn load_suspension(&self, session_id: &str) -> (r: Option<String>)
        requires
            self.ready(),
    ;

    /// Stores the events that wait for a yield; an empty text forgets them.
    fn save_pending_yield_events(&mut self, session_id: &str, json: &str)
        requires
            old(self).ready(),
        ensures
            final(self).ready(),
    ;

    fn load_pending_yield_events(&self, session_id: &str) -> (r: Option<String>)
        requires
            self.ready(),
    ;

    /// Keeps only the first `keep_count` messages.
    fn truncate_messages(&mut self, session_id: &str, keep_count: usize)
        requires
            old(self).ready(),
        ensures
            final(self).ready(),
    ;

    /// Replaces a stored message, and says whether there was one.
    fn update_message(&mut self, session_id: &str, message_id: i64, message: &ChatMessage) -> (r:
        bool)
        requires
            old(self).ready(),
        ensures
            final(self).ready(),
    ;
}

/// A hook that stores into a store in memory.
pub struct BackendPersistHook {
    pub backend: InMemoryBackend,
}

impl BackendPersistHook {
    /// A hook on the store.
    pub fn new(backend: InMemoryBackend) -> (r: BackendPersistHook)
        ensures
            r.backend == backend,
    {
        BackendPersistHook { backend }
    }
}

impl PersistHook for BackendPersistHook {
    open spec fn ready(&self) -> bool {
        self.backend.wf()
    }

    fn persist_message(&mut self, session_id: &str, message: &ChatMessage) -> (r: Option<i64>)
        ensures
            match r {
                Some(id) => id == stored_messages(old(self).backend.store(), session_id@).len() + 1
                    && exists|now: UtcInstant|
                    final(self).backend.store() == #[trigger] with_message(
                        old(self).backend.store(),
                        session_id@,
                        message@,
                        now,
                    ) && is_reading(now),
                None => stored_messages(old(self).backend.store(), session_id@).len() >= i64::MAX
                    && *final(self) == *old(self),
            },
    {
        if self.backend.count(session_id) as u64 >= i64::MAX as u64 {
            return None;
        }
        Some(self.backend.append_message(session_id, message))
    }

    fn save_compaction(&mut self, session_id: &str, summary: &SummaryRecord)
        ensures
            final(self).backend.store() == (Store {
                summaries: old(self).backend.store().summaries.insert(
                    session_id@,
                    if old(self).backend.store().summaries.contains_key(session_id@) {
                        old(self).backend.store().summaries[session_id@].push(summary@)
                    } else {
                        seq![summary@]
                    },
                ),
                ..old(self).backend.store()
            }),
    {
        self.backend.save_summary(session_id, summary);
    }

    fn rotate_history(&mut self, session_id: &str, surviving: &Vec<(i64, ChatMessage)>)
        ensures
            final(self).backend.store() == (Store {
                messages: old(self).backend.store().messages.insert(
                    session_id@,
                    row_messages(rows_of(surviving@)),
                ),
                ..old(self).backend.store()
            }),
    {
        self.backend.rotate_history(session_id, surviving);
    }

    fn save_token_count(&mut self, session_id: &str, total: u64)
        ensures
            final(self).backend.store() == (Store {
                tokens: old(self).backend.store().tokens.insert(session_id@, total),
                ..old(self).backend.store()
            }),
    {
        self.backend.save_token_count(session_id, total);
    }

    fn save_session_override(&mut self, session_id: &str, override_json: &str)
        ensures
            final(self).backend.store() == (Store {
                overrides: old(self).backend.store().overrides.insert(
                    session_id@,
                    override_json@,
                ),
                ..old(self).backend.store()
            }),
    {
        self.backend.save_session_override(session_id, override_json);
    }

    fn save_last_message(&mut self, session_id: &str, msg: &PersistedChannelMessage)
        ensures
            final(self).backend.store() == (Store {
                last_messages: old(self).backend.store().last_messages.insert(session_id@, *msg),
                ..old(self).backend.store()
            }),
    {
        self.backend.save_last_message(session_id, msg);
    }

    fn save_suspension(&mut self, session_id: &str, json: &str)
        ensures
            final(self).backend.store() == (Store {
                suspensions: with_text(old(self).backend.store().suspensions, session_id@, json@),
                ..old(self).backend.store()
            }),
    {
        self.backend.save_suspension(session_id, json);
    }

    fn load_suspension(&self, session_id: &str) -> (r: Option<String>)
        ensures
            opt_text(r) == lookup(self.backend.store().suspensions, session_id@),
    {
        self.backend.load_suspension(session_id)
    }

    fn save_pending_yield_events(&mut self, session_id: &str, json: &str)
        ensures
            final(self).backend.store() == (Store {
                yield_events: with_text(
                    old(self).backend.store().yield_events,
                    session_id@,
                    json@,
                ),
                ..old(self).backend.store()
            }),
    {
        self.backend.save_pending_yield_events(session_id, json);
    }

    fn load_pending_yield_events(&self, session_id: &str) -> (r: Option<String>)
        ensures
            opt_text(r) == lookup(self.backend.store().yield_events, session_id@),
    {
        self.backend.load_pending_yield_events(session_id)
    }

    fn truncate_messages(&mut self, session_id: &str, keep_count: usize)
        ensures
            keep_count < stored_messages(old(self).backend.store(), session_id@).len()
                ==> final(self).backend.store() == (Store {
                messages: old(self).backend.store().messages.insert(
                    session_id@,
                    old(self).backend.store().messages[session_id@].take(keep_count as int),
                ),
                ..old(self).backend.store()
            }),
            keep_count >= stored_messages(old(self).backend.store(), session_id@).len()
                ==> final(self).backend.store() == old(self).backend.store(),
    {
        self.backend.truncate_messages(session_id, keep_count);
    }

    fn update_message(&mut self, session_id: &str, message_id: i64, message: &ChatMessage) -> (r:
        bool)
        ensures
            r == (1 <= message_id <= stored_messages(
                old(self).backend.store(),
                session_id@,
            ).len()),
            final(self).backend.store() == (if r {
                Store {
                    messages: old(self).backend.store().messages.insert(
                        session_id@,
                        old(self).backend.store().messages[session_id@].update(
                            message_id - 1,
                            message@,
                        ),
                    ),
                    ..old(self).backend.store()
                }
            } else {
                old(self).backend.store()
            }),
    {
        self.backend.update_message(session_id, message_id, message)
    }
}

impl Default for InMemoryBackend {
    fn default() -> (r: InMemoryBackend)
        ensures
            r.wf(),
            r.store() == empty_store(DEFAULT_NAMESPACE@),
    {
        InMemoryBackend::new()
    }
}

/// The same sessions, the latest active first.
fn sort_by_activity(found: &Vec<SessionInfo>, Ghost(s): Ghost<Store>, Ghost(scope): Ghost<Scope>) -> (r: Vec<
    SessionInfo,
>)
    requires
        lists_sessions(infos_of(found@), s, scope),
    ensures
        lists_sessions(infos_of(r@), s, scope),
        latest_first(infos_of(r@)),
{
    let ghost all = infos_of(found@);
    let mut r: Vec<SessionInfo> = Vec::new();
    let mut i: usize = 0;
    while i < found.len()
        invariant
            i <= found@.len(),
            all == infos_of(found@),
            lists_sessions(all, s, scope),
            same_members(infos_of(r@), all.take(i as int)),
            latest_first(infos_of(r@)),
        decreases found@.len() - i,
    {
        let ghost before = infos_of(r@);
        let mut p: usize = 0;
        while p < r.len() && found[i].last_activity.not_after(&r[p].last_activity)
            invariant
                p <= r@.len(),
                i < found@.len(),
                before == infos_of(r@),
                all == infos_of(found@),
                forall|k: int|
                    0 <= k < p ==> all[i as int].last_activity.at_or_before(
                        (#[trigger] before[k]).last_activity,
                    ),
            decreases r@.len() - p,
        {
            assert(before[p as int] == r@[p as int]@);
            p += 1;
        }
        let x = found[i].copy();
        let ghost v = x@;
        assert(v == all[i as int]);
        proof {
            if p < r@.len() {
                assert(before[p as int] == r@[p as int]@);
            }
        }
        r.insert(p, x);
        assert(infos_of(r@) =~= before.insert(p as int, v));
        proof {
            lemma_insert_members(before, all, i as int, p as int);
            lemma_insert_sorted(before, p as int, v);
        }
        i += 1;
    }
    proof {
        assert(all.take(all.len() as int) =~= all);
        let out = infos_of(r@);
        assert forall|id: Seq<char>| #[trigger]
            s.sessions.contains_key(id) && in_scope(
                scope,
                s.sessions[id].owner,
            ) implies exists|k: int| 0 <= k < out.len() && (#[trigger] out[k]).id == id by {
            let j = choose|j: int| 0 <= j < all.len() && (#[trigger] all[j]).id == id;
            assert(out.contains(all[j]));
            let k = choose|k: int| 0 <= k < out.len() && out[k] == all[j];
            assert(out[k].id == id);
        }
    }
    r
}

/// Whether `a` holds the same infos as `b`, each id once.
spec fn same_members(a: Seq<InfoView>, b: Seq<InfoView>) -> bool {
    &&& forall|i: int, j: int|
        0 <= i < j < a.len() ==> (#[trigger] a[i]).id != (#[trigger] a[j]).id
    &&& forall|i: int| 0 <= i < a.len() ==> b.contains(#[trigger] a[i])
    &&& forall|i: int| 0 <= i < b.len() ==> a.contains(#[trigger] b[i])
}

proof fn lemma_insert_members(a: Seq<InfoView>, all: Seq<InfoView>, n: int, p: int)
    requires
        0 <= n < all.len(),
        0 <= p <= a.len(),
        same_members(a, all.take(n)),
        forall|i: int, j: int|
            0 <= i < j < all.len() ==> (#[trigger] all[i]).id != (#[trigger] all[j]).id,
    ensures
        same_members(a.insert(p, all[n]), all.take(n + 1)),
{
    let b = all.take(n);
    let c = all.take(n + 1);
    let x = all[n];
    let r = a.insert(p, x);
    assert forall|i: int| 0 <= i < a.len() implies (#[trigger] a[i]).id != x.id by {
        assert(b.contains(a[i]));
        let k = choose|k: int| 0 <= k < b.len() && b[k] == a[i];
        assert(all[k] == a[i]);
        assert(all[k].id != all[n].id);
    }
    assert forall|i: int, j: int| 0 <= i < j < r.len() implies (#[trigger] r[i]).id != (
    #[trigger] r[j]).id by {
        if i == p {
            assert(r[j] == a[j - 1]);
        } else if j == p {
            assert(r[i] == a[i]);
        } else {
            let i2 = if i < p { i } else { i - 1 };
            let j2 = if j < p { j } else { j - 1 };
            assert(r[i] == a[i2] && r[j] == a[j2]);
            assert(a[i2].id != a[j2].id);
        }
    }
    assert forall|i: int| 0 <= i < r.len() implies c.contains(#[trigger] r[i]) by {
        if i == p {
            assert(c[n] == x);
        } else {
            let i2 = if i < p { i } else { i - 1 };
            assert(r[i] == a[i2]);
            assert(b.contains(a[i2]));
            let k = choose|k: int| 0 <= k < b.len() && b[k] == a[i2];
            assert(c[k] == a[i2]);
        }
    }
    assert forall|i: int| 0 <= i < c.len() implies r.contains(#[trigger] c[i]) by {
        if i == n {
            assert(r[p] == x);
        } else {
            assert(b[i] == c[i]);
            assert(a.contains(b[i]));
            let k = choose|k: int| 0 <= k < a.len() && a[k] == b[i];
            let k2 = if k < p { k } else { k + 1 };
            assert(r[k2] == a[k]);
        }
    }
}

proof fn lemma_insert_sorted(a: Seq<InfoView>, p: int, x: InfoView)
    requires
        0 <= p <= a.len(),
        latest_first(a),
        forall|k: int|
            0 <= k < p ==> x.last_activity.at_or_before((#[trigger] a[k]).last_activity),
        p < a.len() ==> !x.last_activity.at_or_before(a[p].last_activity),
    ensures
        latest_first(a.insert(p, x)),
{
    let r = a.insert(p, x);
    assert forall|i: int, j: int|
        0 <= i < j < r.len() implies (#[trigger] r[j]).last_activity.at_or_before(
        (#[trigger] r[i]).last_activity,
    ) by {
        if j == p {
            assert(r[i] == a[i]);
        } else if i == p {
            assert(r[j] == a[j - 1]);
            if j - 1 > p {
                assert(a[j - 1].last_activity.at_or_before(a[p].last_activity));
            }
        } else {
            let i2 = if i < p { i } else { i - 1 };
            let j2 = if j < p { j } else { j - 1 };
            assert(r[i] == a[i2] && r[j] == a[j2]);
            assert(a[j2].last_activity.at_or_before(a[i2].last_activity));
        }
    }
}

// ── Laws ───────────────────────────────────────────────────────────────────

/// A message that was appended to a session is read back as its last one, after
/// those that were there; the other sessions keep theirs.
pub proof fn law_appended_message_is_read_back(
    s: Store,
    id: Seq<char>,
    other: Seq<char>,
    m: MessageView,
    now: UtcInstant,
)
    ensures
        stored_messages(with_message(s, id, m, now), id) == stored_messages(s, id).push(m),
        other != id ==> stored_messages(with_message(s, id, m, now), other) == stored_messages(
            s,
            other,
        ),
{
}

/// A text that was kept for a session is read back, and an empty one forgets what
/// was kept; the other sessions keep theirs.
pub proof fn law_kept_text_is_read_back(
    m: Map<Seq<char>, Seq<char>>,
    id: Seq<char>,
    other: Seq<char>,
    text: Seq<char>,
)
    ensures
        lookup(with_text(m, id, text), id) == (if text.len() == 0 {
            None
        } else {
            Some(text)
        }),
        other != id ==> lookup(with_text(m, id, text), other) == lookup(m, other),
{
}

/// Nothing is read back of a session that was deleted, it is nobody's active
/// session, and the other sessions keep what they have.
pub proof fn law_deleted_session_is_gone(
    s: Store,
    id: Seq<char>,
    other: Seq<char>,
    user: Seq<char>,
)
    ensures
        !without_session(s, id).sessions.contains_key(id),
        stored_messages(without_session(s, id), id).len() == 0,
        lookup(without_session(s, id).active, user) != Some(id),
        other != id ==> stored_messages(without_session(s, id), other) == stored_messages(s, other),
        other != id ==> (without_session(s, id).sessions.contains_key(other)
            <==> s.sessions.contains_key(other)),
{
}

} // verus!
