//! A reminder, at most once a day, that draft skills pile up unreviewed.
//!
//! There are two scopes: the drafts of the owner of a session, and those of the
//! agent, which only the operator sees. Each has its own count and its own day.

use crate::scheduling::scheduler::{bare_dir_name, bare_name};
use crate::session::queue::{join_path, path_below};
use crate::text::{copy_str, opt_str, opt_text, same_str, texts};
use crate::time::{date_text, format_date, is_reading, read_clock, UtcInstant};
use vstd::prelude::*;

verus! {

/// How many drafts of a scope it takes for a reminder.
pub const THRESHOLD: usize = 5;

/// The drafts to be reminded of, by scope. A scope of which no reminder is due
/// has none.
#[derive(Debug)]
pub struct Backlog {
    /// Drafts of the owner of the session.
    pub user_layer: Vec<String>,
    /// Drafts of the agent.
    pub agent_layer: Vec<String>,
}

/// The mathematical value of a [`Backlog`].
pub struct BacklogView {
    pub user_layer: Seq<Seq<char>>,
    pub agent_layer: Seq<Seq<char>>,
}

impl View for Backlog {
    type V = BacklogView;

    open spec fn view(&self) -> BacklogView {
        BacklogView { user_layer: texts(self.user_layer@), agent_layer: texts(self.agent_layer@) }
    }
}

/// The view of an optional backlog.
pub open spec fn opt_backlog(o: Option<Backlog>) -> Option<BacklogView> {
    match o {
        Some(b) => Some(b@),
        None => None,
    }
}

impl BacklogView {
    /// Whether there is nothing to be reminded of.
    pub open spec fn is_empty(self) -> bool {
        self.user_layer.len() == 0 && self.agent_layer.len() == 0
    }
}

impl Default for Backlog {
    fn default() -> (r: Backlog)
        ensures
            r@.is_empty(),
    {
        Backlog { user_layer: Vec::new(), agent_layer: Vec::new() }
    }
}

impl Backlog {
    /// Whether there is nothing to be reminded of.
    pub fn is_empty(&self) -> (r: bool)
        ensures
            r == self@.is_empty(),
    {
        self.user_layer.len() == 0 && self.agent_layer.len() == 0
    }
}

// ── Days ───────────────────────────────────────────────────────────────────

/// The date at an instant where clocks are some hours ahead of UTC.
pub open spec fn date_at(now: UtcInstant, timezone_offset: i32) -> Option<Seq<char>> {
    date_text((now.secs + timezone_offset * 3600) as i64)
}

/// The date at an instant where clocks are some hours ahead of UTC. There is none
/// beyond the calendar.
pub fn today_at(now: &UtcInstant, timezone_offset: i32) -> (r: Option<String>)
    requires
        0 <= now.secs <= crate::time::CALENDAR_END,
    ensures
        opt_text(r) == date_at(*now, timezone_offset),
{
    let secs: i64 = now.secs + (timezone_offset as i64) * 3600;
    format_date(secs)
}

/// Whether the owner of a session is the operator.
pub fn is_operator(owner_fqid: &str, operator: Option<&str>) -> (r: bool)
    ensures
        r == (owner_fqid@.len() > 0 && opt_str(operator) == Some(bare_name(owner_fqid@))),
{
    if owner_fqid.is_empty() {
        return false;
    }
    match operator {
        Some(op) => {
            let bare = bare_dir_name(owner_fqid);
            same_str(bare.as_str(), op)
        },
        None => false,
    }
}

// ── One scope ──────────────────────────────────────────────────────────────

/// Whether the drafts of a scope need not be counted: the reminder was given
/// today.
pub fn is_throttled(last_reminded: Option<&str>, today: &str) -> (r: bool)
    ensures
        r == (opt_str(last_reminded) == Some(today@)),
{
    match last_reminded {
        Some(d) => same_str(d, today),
        None => false,
    }
}

/// The drafts of a scope to be reminded of today.
pub open spec fn due_drafts(
    last_reminded: Option<Seq<char>>,
    today: Seq<char>,
    drafts: Seq<Seq<char>>,
) -> Seq<Seq<char>> {
    if last_reminded == Some(today) || drafts.len() < THRESHOLD {
        Seq::empty()
    } else {
        drafts
    }
}

/// The drafts of a scope to be reminded of today: all of them, if they are enough
/// and the reminder was not given today.
pub fn check_scope(last_reminded: Option<&str>, today: &str, drafts: Vec<String>) -> (r: Option<
    Vec<String>,
>)
    ensures
        match r {
            Some(due) => texts(due@) == texts(drafts@) && due_drafts(
                opt_str(last_reminded),
                today@,
                texts(drafts@),
            ) == texts(drafts@) && due@.len() >= THRESHOLD,
            None => due_drafts(opt_str(last_reminded), today@, texts(drafts@)) == Seq::<
                Seq<char>,
            >::empty(),
        },
{
    if is_throttled(last_reminded, today) {
        return None;
    }
    if drafts.len() < THRESHOLD {
        return None;
    }
    Some(drafts)
}

/// The directory of the owner of a session, which holds the drafts of the owner.
pub fn user_scope_root(base_dir: &str, owner_fqid: &str) -> (r: String)
    ensures
        r@ == path_below(path_below(base_dir@, "users"@), bare_name(owner_fqid@)),
{
    let users = join_path(base_dir, "users");
    let bare = bare_dir_name(owner_fqid);
    join_path(users.as_str(), bare.as_str())
}

// ── Both scopes ────────────────────────────────────────────────────────────

/// What is known of a scope: when its reminder was last given, and its drafts.
#[derive(Debug)]
pub struct ScopeState {
    pub last_reminded: Option<String>,
    pub drafts: Vec<String>,
}

/// What a check of both scopes comes to.
#[derive(Debug)]
pub struct Armed {
    pub backlog: Option<Backlog>,
    /// The date to be kept as that of the last reminder of the owner's drafts.
    pub user_date: Option<String>,
    /// The date to be kept as that of the last reminder of the agent's drafts.
    pub agent_date: Option<String>,
}

/// The drafts of both scopes to be reminded of today. Without an owner there are
/// no drafts of an owner; the agent's are for the operator only.
pub open spec fn backlog_on(
    today: Seq<char>,
    owner: Seq<char>,
    is_operator: bool,
    user: ScopeState,
    agent: ScopeState,
) -> BacklogView {
    BacklogView {
        user_layer: if owner.len() > 0 {
            due_drafts(opt_text(user.last_reminded), today, texts(user.drafts@))
        } else {
            Seq::empty()
        },
        agent_layer: if is_operator {
            due_drafts(opt_text(agent.last_reminded), today, texts(agent.drafts@))
        } else {
            Seq::empty()
        },
    }
}

/// The date to be kept for a scope: today, if its reminder is given.
pub open spec fn date_kept(due: Seq<Seq<char>>, today: Seq<char>) -> Option<Seq<char>> {
    if due.len() > 0 {
        Some(today)
    } else {
        None
    }
}

/// Whether a check on a date comes to this.
pub open spec fn is_armed(
    r: Armed,
    today: Seq<char>,
    owner: Seq<char>,
    is_operator: bool,
    user: ScopeState,
    agent: ScopeState,
) -> bool {
    let due = backlog_on(today, owner, is_operator, user, agent);
    &&& opt_backlog(r.backlog) == (if due.is_empty() {
        None
    } else {
        Some(due)
    })
    &&& opt_text(r.user_date) == date_kept(due.user_layer, today)
    &&& opt_text(r.agent_date) == date_kept(due.agent_layer, today)
}

/// Checks both scopes on a date.
pub fn check_and_arm_on(
    today: &str,
    owner_fqid: &str,
    is_operator: bool,
    user: ScopeState,
    agent: ScopeState,
) -> (r: Armed)
    ensures
        is_armed(r, today@, owner_fqid@, is_operator, user, agent),
{
    let ghost due = backlog_on(today@, owner_fqid@, is_operator, user, agent);
    let mut backlog = Backlog::default();
    let mut user_date: Option<String> = None;
    let mut agent_date: Option<String> = None;
    assert(texts(backlog.user_layer@) =~= Seq::<Seq<char>>::empty());
    assert(texts(backlog.agent_layer@) =~= Seq::<Seq<char>>::empty());
    if !owner_fqid.is_empty() {
        let last = match user.last_reminded {
            Some(ref d) => Some(d.as_str()),
            None => None,
        };
        match check_scope(last, today, user.drafts) {
            Some(drafts) => {
                backlog.user_layer = drafts;
                user_date = Some(copy_str(today));
            },
            None => {},
        }
    }
    if is_operator {
        let last = match agent.last_reminded {
            Some(ref d) => Some(d.as_str()),
            None => None,
        };
        match check_scope(last, today, agent.drafts) {
            Some(drafts) => {
                backlog.agent_layer = drafts;
                agent_date = Some(copy_str(today));
            },
            None => {},
        }
    }
    assert(backlog@ == due);
    if backlog.is_empty() {
        Armed { backlog: None, user_date, agent_date }
    } else {
        Armed { backlog: Some(backlog), user_date, agent_date }
    }
}

/// Checks both scopes now.
pub fn check_and_arm(
    timezone_offset: i32,
    owner_fqid: &str,
    is_operator: bool,
    user: ScopeState,
    agent: ScopeState,
) -> (r: Armed)
    ensures
        exists|now: UtcInstant|
            is_reading(now) && match #[trigger] date_at(now, timezone_offset) {
                Some(today) => is_armed(r, today, owner_fqid@, is_operator, user, agent),
                None => r.backlog is None && r.user_date is None && r.agent_date is None,
            },
        owner_fqid@.len() == 0 && !is_operator ==> r.backlog is None,
        user.drafts@.len() < THRESHOLD && agent.drafts@.len() < THRESHOLD ==> r.backlog is None,
{
    let stamp = read_clock();
    match today_at(&stamp.at, timezone_offset) {
        Some(today) => {
            assert(date_at(stamp.at, timezone_offset) == Some(today@));
            check_and_arm_on(today.as_str(), owner_fqid, is_operator, user, agent)
        },
        None => {
            assert(date_at(stamp.at, timezone_offset) is None);
            Armed { backlog: None, user_date: None, agent_date: None }
        },
    }
}

// ── Laws ───────────────────────────────────────────────────────────────────

/// Once the reminder of a scope was given, and its date kept, none follows on the
/// same day, however many drafts there are.
pub proof fn law_once_a_day(today: Seq<char>, drafts: Seq<Seq<char>>)
    ensures
        due_drafts(Some(today), today, drafts).len() == 0,
{
}

/// On another day than that of the last reminder, enough drafts are reminded of
/// again, all of them.
pub proof fn law_again_on_a_new_day(
    last_reminded: Option<Seq<char>>,
    today: Seq<char>,
    drafts: Seq<Seq<char>>,
)
    requires
        last_reminded != Some(today),
        drafts.len() >= THRESHOLD,
    ensures
        due_drafts(last_reminded, today, drafts) == drafts,
{
}

/// The scopes do not bear on each other: what is shown of one depends on that
/// scope alone.
pub proof fn law_scopes_are_independent(
    today: Seq<char>,
    owner: Seq<char>,
    is_operator: bool,
    user: ScopeState,
    agent: ScopeState,
    other_user: ScopeState,
    other_agent: ScopeState,
)
    ensures
        backlog_on(today, owner, is_operator, user, agent).user_layer == backlog_on(
            today,
            owner,
            is_operator,
            user,
            other_agent,
        ).user_layer,
        backlog_on(today, owner, is_operator, user, agent).agent_layer == backlog_on(
            today,
            owner,
            is_operator,
            other_user,
            agent,
        ).agent_layer,
{
}

/// Who is not the operator sees no draft of the agent.
pub proof fn law_agent_drafts_are_for_the_operator(
    today: Seq<char>,
    owner: Seq<char>,
    user: ScopeState,
    agent: ScopeState,
)
    ensures
        backlog_on(today, owner, false, user, agent).agent_layer.len() == 0,
{
}

} // verus!
