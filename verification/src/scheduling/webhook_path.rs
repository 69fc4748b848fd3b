//! Webhook jobs that listen on a path of their own, with an optional secret.

use crate::json::{json_parsed, Json, JsonView};
use crate::scheduling::webhook_auth::{
    bears, bears_token, signature_of, verify_hmac_signature, AuthFailure, Credentials,
    CredentialsView,
};
use crate::scheduling::webhook_loader::{
    filled, render_template, WebhookAuth, WebhookJobDef,
};
use crate::split::{replace_text, replaced};
use crate::text::{chars_of, copy_str, opt_text, same_str, strip_start, stripped_start};
use vstd::prelude::*;

verus! {

/// The place of the first job that listens on a path, or the number of jobs.
pub open spec fn path_index(jobs: Seq<WebhookJobDef>, path: Seq<char>) -> int
    decreases jobs.len(),
{
    if jobs.len() == 0 {
        0
    } else if jobs[0].path@ == path {
        0
    } else {
        1 + path_index(jobs.skip(1), path)
    }
}

proof fn lemma_path_index(jobs: Seq<WebhookJobDef>, path: Seq<char>, i: int)
    requires
        0 <= i <= jobs.len(),
        forall|j: int| 0 <= j < i ==> (#[trigger] jobs[j]).path@ != path,
        i < jobs.len() ==> jobs[i].path@ == path,
    ensures
        path_index(jobs, path) == i,
    decreases jobs.len(),
{
    if jobs.len() > 0 && i > 0 {
        assert(jobs[0].path@ != path);
        assert forall|j: int| 0 <= j < i - 1 implies (#[trigger] jobs.skip(1)[j]).path@ != path by {
            assert(jobs.skip(1)[j] == jobs[j + 1]);
        }
        lemma_path_index(jobs.skip(1), path, i - 1);
    }
}

/// The place of the first job that listens on a path, if there is one.
pub fn find_path_job(jobs: &Vec<WebhookJobDef>, path: &str) -> (r: Option<usize>)
    ensures
        match r {
            Some(i) => i < jobs@.len() && i == path_index(jobs@, path@),
            None => path_index(jobs@, path@) == jobs@.len(),
        },
{
    let mut i: usize = 0;
    while i < jobs.len()
        invariant
            i <= jobs@.len(),
            forall|j: int| 0 <= j < i ==> (#[trigger] jobs@[j]).path@ != path@,
        decreases jobs@.len() - i,
    {
        if same_str(jobs[i].path.as_str(), path) {
            proof {
                lemma_path_index(jobs@, path@, i as int);
            }
            return Some(i);
        }
        i += 1;
    }
    proof {
        lemma_path_index(jobs@, path@, i as int);
    }
    None
}

/// What is wrong with the credentials of a request to a job. A job without a
/// secret takes every request.
pub open spec fn path_auth_failure(
    secret: Option<Seq<char>>,
    auth: WebhookAuth,
    c: CredentialsView,
    body: Seq<u8>,
) -> Option<AuthFailure> {
    match secret {
        Some(key) => match auth {
            WebhookAuth::Hmac => match c.signature {
                Some(s) => if s == signature_of(key, body) {
                    None
                } else {
                    Some(AuthFailure::InvalidSignature)
                },
                None => Some(AuthFailure::MissingSignature),
            },
            WebhookAuth::Bearer => if bears(c.authorization, key) {
                None
            } else {
                Some(AuthFailure::InvalidToken)
            },
        },
        None => None,
    }
}

/// Checks the credentials of a request to a job.
pub fn authorize_path_job(job: &WebhookJobDef, c: &Credentials, body: &[u8]) -> (r: Option<
    AuthFailure,
>)
    ensures
        r == path_auth_failure(opt_text(job.secret), job.auth, c@, body@),
{
    match job.secret {
        Some(ref key) => match job.auth {
            WebhookAuth::Hmac => match c.signature {
                Some(s) => if verify_hmac_signature(body, key.as_str(), s) {
                    None
                } else {
                    Some(AuthFailure::InvalidSignature)
                },
                None => Some(AuthFailure::MissingSignature),
            },
            WebhookAuth::Bearer => if bears_token(c.authorization, key.as_str()) {
                None
            } else {
                Some(AuthFailure::InvalidToken)
            },
        },
        None => None,
    }
}

/// The payload of a body that parses to a value, or to none.
pub open spec fn value_or_null(parsed: Option<JsonView>) -> JsonView {
    match parsed {
        Some(v) => v,
        None => JsonView::Null,
    }
}

/// The prompt of a request to a job: its template, filled from the body.
pub fn path_prompt(job: &WebhookJobDef, body: &[u8]) -> (r: String)
    ensures
        r@ == filled(job.prompt_template@, value_or_null(json_parsed(body@)), None),
{
    let payload = match Json::parse(body) {
        Some(v) => v,
        None => Json::Null,
    };
    render_template(job.prompt_template.as_str(), &payload)
}

/// The session key of a path.
pub open spec fn path_session(path: Seq<char>) -> Seq<char> {
    "_webhook_"@ + replaced(stripped_start(path, seq!['/']), "/"@, "_"@)
}

/// The session key of a path: its parts joined by underscores.
pub fn path_session_key(path: &str) -> (r: String)
    ensures
        r@ == path_session(path@),
{
    let v = chars_of(path);
    let slash: Vec<char> = vec!['/'];
    assert(slash@ =~= seq!['/']);
    let bare = strip_start(&v, &slash);
    proof {
        reveal_strlit("/");
    }
    let tail = replace_text(bare, "/", "_");
    let mut key = copy_str("_webhook_");
    key.append(tail.as_str());
    key
}

} // verus!
