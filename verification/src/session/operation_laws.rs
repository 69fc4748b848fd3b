//! How the operations on sessions and their storage relate to one another: what one call
//! leaves behind for the next.

use vstd::prelude::*;

use crate::session::backend::{
    info_of, infos_of, lookup, stored_messages, DelegationCheckpoint, InMemoryBackend, SessionInfo,
    Store, SummaryRecord,
};
use crate::session::chat::{ChatMessage, PartView};
use crate::session::manager::{
    law_delete_takes_the_family, lists_kept, top_of, under, SessionError, SessionManager,
};
use crate::session::session_override::{SessionOverride, ThinkingConfig};
use crate::session::types::Session;
use crate::session_context::SessionContext;
use crate::text::{opt_text, trimmed};

verus! {

// ── The manager of sessions ────────────────────────────────────────────────

/// A user switches to a session exactly if it is theirs: it is active from then on, and
/// nothing else changes. Any other session is refused and nothing changes at all.
pub proof fn law_users_switch_to_their_sessions(
    m: &mut SessionManager,
    user: &str,
    id: &str,
    r: Result<SessionInfo, SessionError>,
    other: Seq<char>,
)
    requires
        call_ensures(SessionManager::switch_session, (m, user, id), r),
    ensures
        r is Ok <==> old(m).store().sessions.contains_key(id@) && old(m).store().sessions[id@].owner
            == user@,
        r is Ok ==> lookup(final(m).store().active, user@) == Some(id@) && r->Ok_0@ == info_of(
            old(m).store(),
            id@,
        ),
        r is Ok && other != user@ ==> lookup(final(m).store().active, other) == lookup(
            old(m).store().active,
            other,
        ),
        r is Ok ==> final(m).store().sessions == old(m).store().sessions
            && final(m).store().messages == old(m).store().messages,
        r is Err ==> final(m).store() == old(m).store(),
        !old(m).store().sessions.contains_key(id@) ==> r->Err_0 is NotFound,
        old(m).store().sessions.contains_key(id@) && r is Err ==> r->Err_0 is NotOwned,
        final(m).contexts == old(m).contexts,
{
}

/// A session is deleted exactly if it is its owner who asks and does not use it; it is
/// gone then, with the sessions below it, and no other is.
pub proof fn law_owners_delete_sessions(
    m: &mut SessionManager,
    user: &str,
    id: &str,
    r: Result<(), SessionError>,
    other: Seq<char>,
)
    requires
        call_ensures(SessionManager::delete_session, (m, user, id), r),
    ensures
        r is Ok <==> old(m).store().sessions.contains_key(id@) && old(m).store().sessions[id@].owner
            == user@ && lookup(old(m).store().active, user@) != Some(id@),
        r is Ok ==> !final(m).store().sessions.contains_key(id@),
        r is Ok && old(m).store().sessions.contains_key(other) && lookup(
            old(m).store().parents,
            other,
        ) == Some(id@) ==> !final(m).store().sessions.contains_key(other),
        r is Ok && old(m).store().sessions.contains_key(other) && other != id@ && lookup(
            old(m).store().parents,
            other,
        ) != Some(id@) ==> final(m).store().sessions.contains_key(other) && info_of(
            final(m).store(),
            other,
        ) == info_of(old(m).store(), other),
        r is Err ==> final(m).store() == old(m).store(),
        lookup(old(m).store().active, user@) == Some(id@) ==> r->Err_0 is Active,
        lookup(old(m).store().active, user@) != Some(id@) && !old(m).store().sessions.contains_key(
            id@,
        ) ==> r->Err_0 is NotFound,
        lookup(old(m).store().active, user@) != Some(id@) && old(m).store().sessions.contains_key(
            id@,
        ) && old(m).store().sessions[id@].owner != user@ ==> r->Err_0 is NotYours,
{
    law_delete_takes_the_family(old(m).store(), id@, other, user@);
}

/// A renamed session has its new name and keeps the rest; other sessions keep theirs.
pub proof fn law_sessions_are_renamed(
    m: &mut SessionManager,
    id: &str,
    name: &str,
    other: Seq<char>,
)
    requires
        call_ensures(SessionManager::rename_session, (m, id, name), ()),
    ensures
        old(m).store().sessions.contains_key(id@) ==> info_of(final(m).store(), id@).display_name
            == Some(name@) && info_of(final(m).store(), id@).owner == info_of(
            old(m).store(),
            id@,
        ).owner && info_of(final(m).store(), id@).last_activity == info_of(
            old(m).store(),
            id@,
        ).last_activity && info_of(final(m).store(), id@).message_count == info_of(
            old(m).store(),
            id@,
        ).message_count,
        !old(m).store().sessions.contains_key(id@) ==> final(m).store() == old(m).store(),
        other != id@ ==> info_of(final(m).store(), other) == info_of(old(m).store(), other),
        final(m).store().sessions.contains_key(other) <==> old(m).store().sessions.contains_key(
            other,
        ),
{
}

/// A conversation that was registered is found under its key, and is handed out once.
pub proof fn law_registered_conversations_are_found(
    m: &mut SessionManager,
    key: &str,
    ctx: SessionContext,
    after: &SessionManager,
    found: Option<&SessionContext>,
    taken: &mut SessionManager,
    r: Option<SessionContext>,
    empty: &SessionManager,
    missed: Option<&SessionContext>,
)
    requires
        call_ensures(SessionManager::register_context, (m, key, ctx), ()),
        *after == *final(m),
        call_ensures(SessionManager::get_context, (after, key), found),
        *old(taken) == *final(m),
        call_ensures(SessionManager::take_context, (taken, key), r),
        *empty == *final(taken),
        call_ensures(SessionManager::get_context, (empty, key), missed),
    ensures
        found is Some && *found->0 == ctx,
        r == Some(ctx),
        missed is None,
        final(m).store() == old(m).store(),
{
}

/// Settings that a user saved are those that are read back, in the open conversation and
/// from the store.
pub proof fn law_saved_settings_are_read_back(
    m: &mut SessionManager,
    user: &str,
    settings: SessionOverride,
    json: &str,
    after: &SessionManager,
    parsed: Option<SessionOverride>,
    r: SessionOverride,
)
    requires
        call_ensures(SessionManager::save_session_override, (m, user, settings, json), ()),
        *after == *final(m),
        call_ensures(SessionManager::get_session_override, (after, user, parsed), r),
        old(m).store().active.contains_key(user@),
    ensures
        lookup(final(m).store().overrides, old(m).store().active[user@]) == Some(json@),
        old(m).contexts@.contains_key(user@) ==> r == settings,
        !old(m).contexts@.contains_key(user@) && parsed is Some ==> r == parsed->0,
{
}

/// The list of a user holds their sessions that stand below no other, each once; the list
/// of a session holds those below it.
pub proof fn law_lists_of_sessions(
    m: &SessionManager,
    user: &str,
    r: Vec<SessionInfo>,
    parent: &str,
    below: Vec<SessionInfo>,
    id: Seq<char>,
)
    requires
        call_ensures(SessionManager::list_sessions, (m, user), r),
        call_ensures(SessionManager::list_sub_sessions, (m, parent), below),
    ensures
        (exists|i: int| 0 <= i < r@.len() && (#[trigger] r@[i])@.id == id)
            <==> m.store().sessions.contains_key(id) && m.store().sessions[id].owner == user@
            && lookup(m.store().parents, id) is None,
        (exists|i: int| 0 <= i < below@.len() && (#[trigger] below@[i])@.id == id)
            <==> m.store().sessions.contains_key(id) && lookup(m.store().parents, id) == Some(
            parent@,
        ),
{
    lemma_listed(r@, m.store(), top_of(m.store(), user@), id);
    lemma_listed(below@, m.store(), under(m.store(), parent@), id);
}

proof fn lemma_listed(
    r: Seq<SessionInfo>,
    s: Store,
    keep: spec_fn(Seq<char>) -> bool,
    id: Seq<char>,
)
    requires
        lists_kept(infos_of(r), s, keep),
    ensures
        (exists|i: int| 0 <= i < r.len() && (#[trigger] r[i])@.id == id)
            <==> s.sessions.contains_key(id) && keep(id),
{
    let infos = infos_of(r);
    if exists|i: int| 0 <= i < r.len() && (#[trigger] r[i])@.id == id {
        let i = choose|i: int| 0 <= i < r.len() && (#[trigger] r[i])@.id == id;
        assert(infos[i] == r[i]@);
    }
    if s.sessions.contains_key(id) && keep(id) {
        let i = choose|i: int| 0 <= i < infos.len() && (#[trigger] infos[i]).id == id;
        assert(r[i]@ == infos[i]);
    }
}

// ── The store ──────────────────────────────────────────────────────────────

/// A message that was appended is the last that is loaded, and its number finds it.
pub proof fn law_appended_messages_are_loaded(
    b: &mut InMemoryBackend,
    id: &str,
    message: &ChatMessage,
    n: i64,
    after: &InMemoryBackend,
    loaded: Vec<ChatMessage>,
    before: &InMemoryBackend,
    had: Vec<ChatMessage>,
    found: Option<(String, String)>,
)
    requires
        *before == *old(b),
        call_ensures(InMemoryBackend::load_messages, (before, id), had),
        call_ensures(InMemoryBackend::append_message, (b, id, message), n),
        *after == *final(b),
        call_ensures(InMemoryBackend::load_messages, (after, id), loaded),
        call_ensures(InMemoryBackend::query_message, (after, id, n), found),
    ensures
        loaded@.len() == had@.len() + 1,
        crate::session::chat::messages_of(loaded@) == crate::session::chat::messages_of(
            had@,
        ).push(message@),
        n == loaded@.len(),
        found is Some,
        found matches Some(p) ==> p.0@ == message@.role,
{
}

/// A message that was put in another's place is found there; all others stay. A number
/// that names no message changes nothing.
pub proof fn law_messages_are_replaced(
    b: &mut InMemoryBackend,
    id: &str,
    n: i64,
    message: &ChatMessage,
    r: bool,
    k: int,
)
    requires
        call_ensures(InMemoryBackend::update_message, (b, id, n, message), r),
    ensures
        ({
            let had = stored_messages(old(b).store(), id@);
            let has = stored_messages(final(b).store(), id@);
            &&& r <==> 1 <= n <= had.len()
            &&& r ==> has.len() == had.len() && has[n - 1] == message@
            &&& r && 0 <= k < had.len() && k != n - 1 ==> has[k] == had[k]
            &&& !r ==> final(b).store() == old(b).store()
        }),
{
}

/// Cutting a history keeps its first messages; taking the last one off keeps the others.
pub proof fn law_histories_are_cut(
    b: &mut InMemoryBackend,
    id: &str,
    keep: usize,
    c: &mut InMemoryBackend,
    r: bool,
)
    requires
        call_ensures(InMemoryBackend::truncate_messages, (b, id, keep), ()),
        call_ensures(InMemoryBackend::remove_last_message, (c, id), r),
    ensures
        keep < stored_messages(old(b).store(), id@).len() ==> stored_messages(
            final(b).store(),
            id@,
        ) == stored_messages(old(b).store(), id@).take(keep as int),
        keep >= stored_messages(old(b).store(), id@).len() ==> stored_messages(
            final(b).store(),
            id@,
        ) == stored_messages(old(b).store(), id@),
        r <==> stored_messages(old(c).store(), id@).len() > 0,
        r ==> stored_messages(final(c).store(), id@) == stored_messages(old(c).store(), id@).take(
            stored_messages(old(c).store(), id@).len() - 1,
        ),
        !r ==> final(c).store() == old(c).store(),
{
    if r {
        let h = stored_messages(old(c).store(), id@);
        assert(h.drop_last() =~= h.take(h.len() - 1));
    }
}

/// The summary that was saved last is the one that is loaded; once cleared there is none.
pub proof fn law_the_last_summary_is_loaded(
    b: &mut InMemoryBackend,
    id: &str,
    summary: &SummaryRecord,
    after: &InMemoryBackend,
    loaded: Option<SummaryRecord>,
    c: &mut InMemoryBackend,
    cleared: &InMemoryBackend,
    missed: Option<SummaryRecord>,
)
    requires
        call_ensures(InMemoryBackend::save_summary, (b, id, summary), ()),
        *after == *final(b),
        call_ensures(InMemoryBackend::load_latest_summary, (after, id), loaded),
        *old(c) == *final(b),
        call_ensures(InMemoryBackend::clear_summary, (c, id), ()),
        *cleared == *final(c),
        call_ensures(InMemoryBackend::load_latest_summary, (cleared, id), missed),
    ensures
        loaded is Some,
        loaded->0@ == summary@,
        missed is None,
        final(b).store().messages == old(b).store().messages,
        final(b).store().sessions == old(b).store().sessions,
{
}

/// Waits, events, parents, names, settings and counts that were saved of a session are
/// read back as they were; an empty text is as good as none.
pub proof fn law_kept_values_are_read_back(
    b: &mut InMemoryBackend,
    id: &str,
    text: &str,
    after: &InMemoryBackend,
    read: Option<String>,
    c: &mut InMemoryBackend,
    after_name: &InMemoryBackend,
    name: Option<String>,
    d: &mut InMemoryBackend,
    total: u64,
    after_count: &InMemoryBackend,
    count: Option<u64>,
)
    requires
        call_ensures(InMemoryBackend::save_suspension, (b, id, text), ()),
        *after == *final(b),
        call_ensures(InMemoryBackend::load_suspension, (after, id), read),
        call_ensures(InMemoryBackend::save_agent_name, (c, id, text), ()),
        *after_name == *final(c),
        call_ensures(InMemoryBackend::load_agent_name, (after_name, id), name),
        call_ensures(InMemoryBackend::save_token_count, (d, id, total), ()),
        *after_count == *final(d),
        call_ensures(InMemoryBackend::load_token_count, (after_count, id), count),
    ensures
        text@.len() > 0 ==> opt_text(read) == Some(text@),
        text@.len() == 0 ==> read is None,
        opt_text(name) == Some(text@),
        count == Some(total),
{
}

/// Checkpoints that were saved are loaded with their state, each task once, until they are
/// deleted.
pub proof fn law_checkpoints_are_loaded_until_deleted(
    b: &mut InMemoryBackend,
    checkpoint: &DelegationCheckpoint,
    after: &InMemoryBackend,
    loaded: Vec<DelegationCheckpoint>,
    c: &mut InMemoryBackend,
    task: &str,
    later: &InMemoryBackend,
    left: Vec<DelegationCheckpoint>,
    i: int,
    j: int,
)
    requires
        call_ensures(InMemoryBackend::save_delegation_checkpoint, (b, checkpoint), ()),
        *after == *final(b),
        call_ensures(InMemoryBackend::load_delegation_checkpoints, (after,), loaded),
        *old(c) == *final(b),
        task@ == checkpoint.task_id@,
        call_ensures(InMemoryBackend::delete_delegation_checkpoint, (c, task), ()),
        *later == *final(c),
        call_ensures(InMemoryBackend::load_delegation_checkpoints, (later,), left),
    ensures
        exists|k: int|
            0 <= k < loaded@.len() && (#[trigger] loaded@[k]).task_id@ == task@
                && loaded@[k].state@ == checkpoint.state@,
        0 <= i < j < loaded@.len() ==> loaded@[i].task_id@ != loaded@[j].task_id@,
        0 <= i < left@.len() ==> left@[i].task_id@ != task@,
{
    assert(final(b).store().checkpoints.contains_key(task@));
    let k = choose|k: int| 0 <= k < loaded@.len() && (#[trigger] loaded@[k]).task_id@ == task@;
    assert(loaded@[k].state@ == checkpoint.state@);
}

// ── A session ──────────────────────────────────────────────────────────────

/// What was said after a point is taken back by rolling back to it.
pub proof fn law_rolling_back_undoes_a_message(
    s: &mut Session,
    text: String,
    t: &mut Session,
    n: usize,
)
    requires
        old(s).wf(),
        n == old(s).log().len(),
        call_ensures(Session::add_user_text, (s, text), ()),
        *old(t) == *final(s),
        call_ensures(Session::rollback_to, (t, n), ()),
    ensures
        final(s).log().len() == n + 1,
        final(s).log().last().role == "user"@,
        final(s).log().last().parts == seq![PartView::Text(text@)],
        final(t).log() == old(s).log(),
        final(t).message_ids@ == old(s).message_ids@,
{
    assert(old(s).log().push(final(s).log().last()).take(n as int) =~= old(s).log());
    assert(old(s).message_ids@.push(0).take(n as int) =~= old(s).message_ids@);
}

/// Rolling back keeps the first messages with their ids, and never adds any.
pub proof fn law_rolling_back_keeps_the_first(s: &mut Session, n: usize)
    requires
        call_ensures(Session::rollback_to, (s, n), ()),
    ensures
        n <= old(s).log().len() ==> final(s).log() == old(s).log().take(n as int),
        n >= old(s).log().len() ==> final(s).log() == old(s).log(),
        final(s).id == old(s).id,
        final(s).owner == old(s).owner,
        final(s).total_tokens == old(s).total_tokens,
{
    assert(old(s).log().take(old(s).log().len() as int) =~= old(s).log());
}

/// A blank answer is not kept; any other becomes the last message.
pub proof fn law_answers_are_kept(s: &mut Session, text: String)
    requires
        call_ensures(Session::add_assistant_text, (s, text), ()),
    ensures
        trimmed(text@).len() == 0 ==> *final(s) == *old(s),
        trimmed(text@).len() > 0 ==> final(s).log().len() == old(s).log().len() + 1
            && final(s).log().drop_last() == old(s).log() && final(s).log().last().role
            == "assistant"@ && final(s).log().last().parts == seq![PartView::Text(text@)],
{
    if trimmed(text@).len() > 0 {
        assert(final(s).log().drop_last() =~= old(s).log());
    }
}

/// The last message is taken off if it is the assistant's, and only then.
pub proof fn law_the_last_answer_is_taken_off(s: &mut Session)
    requires
        call_ensures(Session::pop_last_assistant, (s,), ()),
    ensures
        old(s).log().len() > 0 && old(s).log().last().role == "assistant"@ ==> final(s).log()
            == old(s).log().take(old(s).log().len() - 1),
        old(s).log().len() == 0 || old(s).log().last().role != "assistant"@ ==> *final(s) == *old(s),
{
    if old(s).log().len() > 0 {
        assert(old(s).log().drop_last() =~= old(s).log().take(old(s).log().len() - 1));
    }
}

/// A summary stands in the place of what it sums up: everything before and behind stays,
/// each message with its id.
pub proof fn law_summaries_take_the_place(
    s: &mut Session,
    from: usize,
    to: usize,
    summary: ChatMessage,
    version: u32,
    up_to: i64,
    tokens: u64,
)
    requires
        old(s).wf(),
        from <= to <= old(s).log().len(),
        call_ensures(Session::apply_compaction, (s, from, to, summary, version, up_to, tokens), ()),
    ensures
        final(s).log().len() == old(s).log().len() - (to - from) + 1,
        final(s).log().take(from as int) == old(s).log().take(from as int),
        final(s).log()[from as int] == summary@,
        final(s).log().skip(from + 1) == old(s).log().skip(to as int),
        final(s).message_ids@.skip(from + 1) == old(s).message_ids@.skip(to as int),
        final(s).compact_version == version,
        final(s).summary_metadata is Some,
        final(s).summary_metadata->0.version == version,
        final(s).summary_metadata->0.up_to_message == up_to,
        final(s).summary_metadata->0.token_estimate == tokens,
{
    let h = old(s).log();
    let g = final(s).log();
    assert(g.take(from as int) =~= h.take(from as int));
    assert(g.skip(from + 1) =~= h.skip(to as int));
    assert(final(s).message_ids@.skip(from + 1) =~= old(s).message_ids@.skip(to as int));
}

/// Messages before a boundary are dropped; those behind it stay, each with its id.
pub proof fn law_boundaries_drop_what_is_before(
    s: &mut Session,
    boundary: usize,
    version: u32,
    i: int,
)
    requires
        old(s).wf(),
        boundary <= old(s).log().len(),
        call_ensures(Session::drop_pre_boundary, (s, boundary, version), ()),
        0 <= i < old(s).log().len() - boundary,
    ensures
        final(s).log().len() == old(s).log().len() - boundary,
        final(s).log()[i] == old(s).log()[i + boundary],
        final(s).message_ids@[i] == old(s).message_ids@[i + boundary],
        final(s).compact_version == version,
        final(s).summary_metadata == old(s).summary_metadata,
{
}

/// Thinking is on, off, or not spoken of, as the settings say; an effort belongs to
/// thinking that is on.
pub proof fn law_thinking_follows_the_settings(o: &SessionOverride, r: Option<ThinkingConfig>)
    requires
        call_ensures(SessionOverride::to_thinking_config, (o,), r),
    ensures
        o.thinking is None <==> r is None,
        o.thinking is Some ==> r->0.enabled == o.thinking->0,
        o.thinking == Some(true) ==> opt_text(r->0.effort) == opt_text(o.effort),
        o.thinking == Some(false) ==> r->0.effort is None,
{
}

} // verus!
