//! Data of the cron system: delivery, run records, schedule kinds.

use crate::split::{head_of, take_chars};
use crate::text::{chars_of, opt_text, string_of};
use crate::time::{read_clock, text_of, UtcInstant};
use vstd::prelude::*;

verus! {

/// Where a job's output goes. When set it overrides the job's `target`.
#[derive(Debug)]
pub struct DeliveryConfig {
    /// Channel name, such as "telegram".
    pub channel: String,
    /// User or group id, in the channel's own format.
    pub to: Option<String>,
    /// Thread or topic id, for channels that have them.
    pub thread_id: Option<String>,
}

/// How one execution of a job ended.
#[derive(Clone, Copy, PartialEq, Eq, Structural, Debug)]
pub enum RunStatus {
    Succeeded,
    Error,
    Timeout,
    Skipped,
}

impl Default for RunStatus {
    fn default() -> (r: RunStatus)
        ensures
            r == RunStatus::Succeeded,
    {
        RunStatus::Succeeded
    }
}

/// The name of a status.
pub open spec fn status_name(s: RunStatus) -> Seq<char> {
    match s {
        RunStatus::Succeeded => "ok"@,
        RunStatus::Error => "error"@,
        RunStatus::Timeout => "timeout"@,
        RunStatus::Skipped => "skipped"@,
    }
}

impl RunStatus {
    /// The name of the status.
    pub fn as_str(&self) -> (r: &'static str)
        ensures
            r@ == status_name(*self),
    {
        match self {
            RunStatus::Succeeded => "ok",
            RunStatus::Error => "error",
            RunStatus::Timeout => "timeout",
            RunStatus::Skipped => "skipped",
        }
    }
}

/// Different statuses have different names.
pub proof fn law_status_names_differ(a: RunStatus, b: RunStatus)
    ensures
        status_name(a) == status_name(b) ==> a == b,
{
    reveal_strlit("ok");
    reveal_strlit("error");
    reveal_strlit("timeout");
    reveal_strlit("skipped");
    assert("error"@.len() == 5 && "ok"@.len() == 2);
    assert("timeout"@.len() == 7 && "skipped"@.len() == 7);
    assert("timeout"@[0] == 't' && "skipped"@[0] == 's');
}

/// One execution of a job.
#[derive(Debug)]
pub struct RunRecord {
    /// RFC 3339 text of the time of execution.
    pub run_at: String,
    /// How it ended.
    pub status: RunStatus,
    /// How long it took, in milliseconds.
    pub duration_ms: u64,
    /// The first 200 characters of the output.
    pub output_preview: String,
    /// The error, if there was one.
    pub error: Option<String>,
    /// Input tokens consumed.
    pub input_tokens: u64,
    /// Output tokens produced.
    pub output_tokens: u64,
    /// What set the run off, where it was not the timer.
    pub trigger: Option<String>,
    /// The payload of a webhook run.
    pub payload: Option<String>,
    /// The beginning of the prompt of a webhook run.
    pub prompt_head: Option<String>,
}

/// The mathematical value of a [`RunRecord`].
pub struct RunRecordView {
    pub run_at: Seq<char>,
    pub status: RunStatus,
    pub duration_ms: u64,
    pub output_preview: Seq<char>,
    pub error: Option<Seq<char>>,
    pub input_tokens: u64,
    pub output_tokens: u64,
    pub trigger: Option<Seq<char>>,
    pub payload: Option<Seq<char>>,
    pub prompt_head: Option<Seq<char>>,
}

impl View for RunRecord {
    type V = RunRecordView;

    open spec fn view(&self) -> RunRecordView {
        RunRecordView {
            run_at: self.run_at@,
            status: self.status,
            duration_ms: self.duration_ms,
            output_preview: self.output_preview@,
            error: opt_text(self.error),
            input_tokens: self.input_tokens,
            output_tokens: self.output_tokens,
            trigger: opt_text(self.trigger),
            payload: opt_text(self.payload),
            prompt_head: opt_text(self.prompt_head),
        }
    }
}

/// A record of a run at a time with a status and nothing else.
pub open spec fn bare_record(run_at: Seq<char>, status: RunStatus) -> RunRecordView {
    RunRecordView {
        run_at,
        status,
        duration_ms: 0,
        output_preview: Seq::empty(),
        error: None,
        input_tokens: 0,
        output_tokens: 0,
        trigger: None,
        payload: None,
        prompt_head: None,
    }
}

impl Default for RunRecord {
    fn default() -> (r: RunRecord)
        ensures
            r@ == bare_record(Seq::empty(), RunStatus::Succeeded),
    {
        RunRecord::at(String::new(), RunStatus::Succeeded)
    }
}

impl RunRecord {
    /// A record of a run at the time with this text.
    pub fn at(run_at: String, status: RunStatus) -> (r: RunRecord)
        ensures
            r@ == bare_record(run_at@, status),
    {
        RunRecord {
            run_at,
            status,
            duration_ms: 0,
            output_preview: String::new(),
            error: None,
            input_tokens: 0,
            output_tokens: 0,
            trigger: None,
            payload: None,
            prompt_head: None,
        }
    }

    /// A record of a run at the current time.
    pub fn now(status: RunStatus) -> (r: RunRecord)
        ensures
            r@ == bare_record(r.run_at@, status),
            exists|t: UtcInstant| text_of(t) == Some(r.run_at@),
    {
        let stamp = read_clock();
        assert(text_of(stamp.at) == Some(stamp.text@));
        RunRecord::at(stamp.text, status)
    }

    /// The record with a duration.
    pub fn with_duration(self, ms: u64) -> (r: RunRecord)
        ensures
            r@ == (RunRecordView { duration_ms: ms, ..self@ }),
    {
        let mut r = self;
        r.duration_ms = ms;
        r
    }

    /// The record with an error.
    pub fn with_error(self, err: String) -> (r: RunRecord)
        ensures
            r@ == (RunRecordView { error: Some(err@), ..self@ }),
    {
        let mut r = self;
        r.error = Some(err);
        r
    }

    /// The record with the first 200 characters of an output.
    pub fn with_output_preview(self, output: &str) -> (r: RunRecord)
        ensures
            r@ == (RunRecordView { output_preview: head_of(output@, 200), ..self@ }),
    {
        let mut r = self;
        let v = chars_of(output);
        r.output_preview = string_of(take_chars(&v, 200));
        r
    }

    /// A copy of the record.
    pub fn copy(&self) -> (r: RunRecord)
        ensures
            r == *self,
    {
        RunRecord {
            run_at: self.run_at.clone(),
            status: self.status,
            duration_ms: self.duration_ms,
            output_preview: self.output_preview.clone(),
            error: crate::text::copy_opt(&self.error),
            input_tokens: self.input_tokens,
            output_tokens: self.output_tokens,
            trigger: crate::text::copy_opt(&self.trigger),
            payload: crate::text::copy_opt(&self.payload),
            prompt_head: crate::text::copy_opt(&self.prompt_head),
        }
    }
}

/// When a job runs. Overrides the job's `schedule` text.
#[derive(Debug)]
pub enum ScheduleKind {
    /// A cron expression.
    Cron { expr: String },
    /// A fixed interval.
    Every { interval_ms: u64 },
    /// Once, at a given time; the job is disabled after that.
    At { at: String },
}

/// The mathematical value of a [`ScheduleKind`].
pub enum KindView {
    Cron(Seq<char>),
    Every(u64),
    At(Seq<char>),
}

impl View for ScheduleKind {
    type V = KindView;

    open spec fn view(&self) -> KindView {
        match self {
            ScheduleKind::Cron { expr } => KindView::Cron(expr@),
            ScheduleKind::Every { interval_ms } => KindView::Every(*interval_ms),
            ScheduleKind::At { at } => KindView::At(at@),
        }
    }
}

/// The view of an optional kind.
pub open spec fn opt_kind(o: Option<&ScheduleKind>) -> Option<KindView> {
    match o {
        Some(k) => Some(k@),
        None => None,
    }
}

/// The view of an optional kind held by value.
pub open spec fn held_kind(o: Option<ScheduleKind>) -> Option<KindView> {
    match o {
        Some(k) => Some(k@),
        None => None,
    }
}

/// How a job retries after a passing error.
#[derive(Clone, Copy, PartialEq, Eq, Structural, Debug)]
pub struct RetryConfig {
    pub max_attempts: u32,
    pub backoff_ms: u64,
}

/// When a failing job raises an alert.
#[derive(Clone, Copy, PartialEq, Eq, Structural, Debug)]
pub struct FailureAlertConfig {
    /// Consecutive failures before an alert.
    pub after: u32,
    /// Least number of seconds between two alerts.
    pub cooldown_secs: u64,
    /// Whether a skipped run counts as a failure.
    pub include_skipped: bool,
}

} // verus!
