//! Cron jobs in Markdown files.
//!
//! ```markdown
//! ---
//! schedule: "0 9 * * *"
//! target: telegram
//! ---
//!
//! Write a report on yesterday's work.
//! ```

use crate::skill_loader::{extract_yaml_string, front_matter_of, parse_front_matter, yaml_string};
use crate::text::{chars_of, copy_str, is_text, opt_text, piece, trim_str, trimmed};
use vstd::prelude::*;

verus! {

/// A cron job of a Markdown file.
#[derive(Debug)]
pub struct CronJob {
    pub schedule: String,
    pub prompt: String,
    pub target: String,
    pub active_hours: Option<String>,
}

/// The mathematical value of a [`CronJob`].
pub struct CronJobView {
    pub schedule: Seq<char>,
    pub prompt: Seq<char>,
    pub target: Seq<char>,
    pub active_hours: Option<Seq<char>>,
}

impl View for CronJob {
    type V = CronJobView;

    open spec fn view(&self) -> CronJobView {
        CronJobView {
            schedule: self.schedule@,
            prompt: self.prompt@,
            target: self.target@,
            active_hours: opt_text(self.active_hours),
        }
    }
}

/// Why a file is no cron job.
#[derive(Clone, Copy, PartialEq, Eq, Structural, Debug)]
pub enum CronFileError {
    /// The front matter has no `schedule`.
    MissingSchedule,
    /// There is nothing after the front matter.
    EmptyPrompt,
}

/// What is said of a file that is no cron job, given its path.
pub open spec fn file_error_text(e: CronFileError, path: Seq<char>) -> Seq<char> {
    match e {
        CronFileError::MissingSchedule => "missing 'schedule' in front matter of "@ + path,
        CronFileError::EmptyPrompt => "empty prompt body in "@ + path,
    }
}

impl CronFileError {
    /// The text of the error, given the path of the file.
    pub fn message(&self, path: &str) -> (r: String)
        ensures
            r@ == file_error_text(*self, path@),
    {
        let mut r = match self {
            CronFileError::MissingSchedule => copy_str("missing 'schedule' in front matter of "),
            CronFileError::EmptyPrompt => copy_str("empty prompt body in "),
        };
        r.append(path);
        r
    }
}

/// The cron job that the content of a file describes.
pub open spec fn cron_job_of(content: Seq<char>) -> Result<CronJobView, CronFileError> {
    let (front, body) = front_matter_of(content);
    match yaml_string(front, "schedule"@) {
        None => Err(CronFileError::MissingSchedule),
        Some(schedule) => if trimmed(body).len() == 0 {
            Err(CronFileError::EmptyPrompt)
        } else {
            Ok(
                CronJobView {
                    schedule,
                    prompt: trimmed(body),
                    target: match yaml_string(front, "target"@) {
                        Some(t) => t,
                        None => "last"@,
                    },
                    active_hours: yaml_string(front, "active_hours"@),
                },
            )
        },
    }
}

/// The view of a parsed file.
pub open spec fn parsed_view(r: Result<CronJob, CronFileError>) -> Result<
    CronJobView,
    CronFileError,
> {
    match r {
        Ok(j) => Ok(j@),
        Err(e) => Err(e),
    }
}

/// Parses the content of a cron job file. Where it names no target, output goes
/// to the last channel.
pub fn parse_cron_file(content: &str) -> (r: Result<CronJob, CronFileError>)
    ensures
        parsed_view(r) == cron_job_of(content@),
{
    let (front, body) = parse_front_matter(content);
    let schedule = match extract_yaml_string(front.as_str(), "schedule") {
        Some(s) => s,
        None => {
            return Err(CronFileError::MissingSchedule);
        },
    };
    let target = match extract_yaml_string(front.as_str(), "target") {
        Some(t) => t,
        None => copy_str("last"),
    };
    let prompt = trim_str(body.as_str());
    if prompt.as_str().is_empty() {
        return Err(CronFileError::EmptyPrompt);
    }
    let active_hours = extract_yaml_string(front.as_str(), "active_hours");
    Ok(CronJob { schedule, prompt, target, active_hours })
}

/// A file of the cron directory.
#[derive(Debug)]
pub struct CronFile {
    /// The name of the file, without its directory.
    pub name: String,
    pub content: String,
}

/// Whether a file name has the extension `md`.
pub open spec fn has_md_extension(name: Seq<char>) -> bool {
    name.len() > 3 && name.skip(name.len() - 3) == ".md"@
}

/// Whether a file name has the extension `md`.
pub fn is_markdown_name(name: &str) -> (r: bool)
    ensures
        r == has_md_extension(name@),
{
    let v = chars_of(name);
    if v.len() <= 3 {
        return false;
    }
    let tail = piece(&v, v.len() - 3, v.len());
    assert(tail@ =~= name@.skip(name@.len() - 3));
    is_text(tail, ".md")
}

/// The jobs of the Markdown files that are cron jobs, in the order of the files.
pub open spec fn cron_jobs_of(files: Seq<CronFile>) -> Seq<CronJobView>
    decreases files.len(),
{
    if files.len() == 0 {
        Seq::empty()
    } else {
        let before = cron_jobs_of(files.drop_last());
        match cron_job_of(files.last().content@) {
            Ok(j) => if has_md_extension(files.last().name@) {
                before.push(j)
            } else {
                before
            },
            Err(_) => before,
        }
    }
}

/// The views of a row of cron jobs.
pub open spec fn cron_job_views(v: Seq<CronJob>) -> Seq<CronJobView> {
    v.map_values(|j: CronJob| j@)
}

/// Parses the files of the cron directory. Files of another extension and files
/// that are no cron job are left out.
pub fn load_cron_jobs(files: &Vec<CronFile>) -> (r: Vec<CronJob>)
    ensures
        cron_job_views(r@) == cron_jobs_of(files@),
{
    let mut r: Vec<CronJob> = Vec::new();
    let mut i: usize = 0;
    assert(files@.take(0) =~= Seq::<CronFile>::empty());
    assert(cron_job_views(r@) =~= Seq::<CronJobView>::empty());
    while i < files.len()
        invariant
            i <= files@.len(),
            cron_job_views(r@) == cron_jobs_of(files@.take(i as int)),
        decreases files@.len() - i,
    {
        assert(files@.take(i as int + 1).drop_last() =~= files@.take(i as int));
        assert(files@.take(i as int + 1).last() == files@[i as int]);
        if is_markdown_name(files[i].name.as_str()) {
            match parse_cron_file(files[i].content.as_str()) {
                Ok(job) => {
                    assert(cron_job_views(r@.push(job)) =~= cron_job_views(r@).push(job@));
                    r.push(job);
                },
                Err(_) => {},
            }
        }
        i += 1;
    }
    assert(files@.take(files@.len() as int) =~= files@);
    r
}

} // verus!
