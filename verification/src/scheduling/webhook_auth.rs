//! How webhook requests prove themselves: signatures, timestamps and tokens.

use crate::number::{hex_char, parse_i64, parsed_i64};
use crate::scheduling::job::{WebhookJobDef, WebhookJobView};
use crate::scheduling::webhook_loader::WebhookAuth;
use crate::text::{chars_of, opt_str, same_str};
use crate::time::{UtcInstant, CALENDAR_END, CALENDAR_START};
use hmac::Mac;
use vstd::prelude::*;
use vstd::utf8::{decode_utf8, encode_utf8, encode_utf8_decode_utf8, valid_utf8};

verus! {

/// How far, in seconds, the timestamp of a signed request may be from now.
pub const WEBHOOK_V2_MAX_SKEW_SECS: i64 = 300;

// ── Signatures ─────────────────────────────────────────────────────────────

/// The HMAC-SHA256 code of a message under a key.
pub uninterp spec fn hmac_code(key: Seq<u8>, message: Seq<u8>) -> Seq<u8>;

/// Calls `new_from_slice`, `update` and `finalize` of `hmac::Hmac` over
/// `sha2::Sha256`. A key of any length is taken; the code has 32 bytes.
#[verifier::external_body]
fn hmac_sha256(key: &[u8], message: &[u8]) -> (r: Option<Vec<u8>>)
    ensures
        match r {
            Some(c) => c@ == hmac_code(key@, message@) && c@.len() == 32,
            None => false,
        },
{
    let mut mac = hmac::Hmac::<sha2::Sha256>::new_from_slice(key).ok()?;
    mac.update(message);
    Some(mac.finalize().into_bytes().to_vec())
}

/// Each byte as two lower-case hexadecimal digits.
pub open spec fn hex_bytes(b: Seq<u8>) -> Seq<char>
    decreases b.len(),
{
    if b.len() == 0 {
        Seq::empty()
    } else {
        hex_bytes(b.drop_last()) + seq![
            hex_char((b.last() / 16) as nat),
            hex_char((b.last() % 16) as nat),
        ]
    }
}

/// Calls `hex::encode`, which writes each byte as two lower-case digits.
#[verifier::external_body]
fn hex_encode(bytes: &[u8]) -> (r: String)
    ensures
        r@ == hex_bytes(bytes@),
{
    hex::encode(bytes)
}

/// Compares two rows of bytes in a time that depends on their lengths only.
fn same_bytes(a: &[u8], b: &[u8]) -> (r: bool)
    ensures
        r == (a@ == b@),
{
    if a.len() != b.len() {
        return false;
    }
    let mut diff: u8 = 0;
    let mut i: usize = 0;
    while i < a.len()
        invariant
            i <= a@.len(),
            a@.len() == b@.len(),
            (diff == 0) == (forall|j: int| 0 <= j < i ==> a@[j] == b@[j]),
        decreases a@.len() - i,
    {
        let x: u8 = a[i];
        let y: u8 = b[i];
        assert((diff | (x ^ y)) == 0u8 <==> diff == 0u8 && x == y) by (bit_vector);
        diff = diff | (x ^ y);
        i += 1;
    }
    assert(diff == 0 ==> a@ =~= b@);
    diff == 0
}

/// Texts with the same bytes are the same.
pub proof fn lemma_same_encoding(a: Seq<char>, b: Seq<char>)
    requires
        encode_utf8(a) == encode_utf8(b),
    ensures
        a == b,
{
    encode_utf8_decode_utf8(a);
    encode_utf8_decode_utf8(b);
}

/// The header value that carries a code.
pub open spec fn code_header(code: Seq<u8>) -> Seq<char> {
    "sha256="@ + hex_bytes(code)
}

/// Whether a header value carries a code.
pub fn carries_code(code: &[u8], header_value: &str) -> (r: bool)
    ensures
        r == (header_value@ == code_header(code@)),
{
    let mut expected = String::new();
    expected.append("sha256=");
    expected.append(hex_encode(code).as_str());
    let shown: &str = expected.as_str();
    assert(shown@ =~= code_header(code@));
    let r = same_bytes(shown.as_bytes(), header_value.as_bytes());
    proof {
        if r {
            lemma_same_encoding(shown@, header_value@);
        }
    }
    r
}

/// The value of the `X-Hub-Signature-256` header that signs a body.
pub open spec fn signature_of(secret: Seq<char>, body: Seq<u8>) -> Seq<char> {
    code_header(hmac_code(encode_utf8(secret), body))
}

/// Whether a header value is the HMAC-SHA256 signature of a body.
pub fn verify_hmac_signature(body: &[u8], secret: &str, header_value: &str) -> (r: bool)
    ensures
        r == (header_value@ == signature_of(secret@, body@)),
{
    match hmac_sha256(secret.as_bytes(), body) {
        Some(code) => carries_code(&code, header_value),
        None => false,
    }
}

// ── Bodies ─────────────────────────────────────────────────────────────────

/// What `String::from_utf8_lossy` reads from bytes.
pub uninterp spec fn lossy_text(bytes: Seq<u8>) -> Seq<char>;

/// Calls `String::from_utf8_lossy`. Valid UTF-8 is read as it is.
#[verifier::external_body]
pub(crate) fn read_lossy(bytes: &[u8]) -> (r: String)
    ensures
        r@ == lossy_text(bytes@),
        valid_utf8(bytes@) ==> r@ == decode_utf8(bytes@),
{
    String::from_utf8_lossy(bytes).to_string()
}

// ── Timestamps ─────────────────────────────────────────────────────────────

/// The whole seconds between now and a second, whichever comes first.
pub open spec fn skew_secs(now: UtcInstant, t: int) -> int {
    if t <= now.secs {
        now.secs - t
    } else if now.nanos == 0 {
        t - now.secs
    } else {
        t - now.secs - 1
    }
}

/// Whether a timestamp spells a second of the calendar close enough to now.
pub open spec fn is_fresh(ts: Seq<char>, now: UtcInstant) -> bool {
    match parsed_i64(ts) {
        Some(t) => CALENDAR_START <= t <= CALENDAR_END && skew_secs(now, t)
            <= WEBHOOK_V2_MAX_SKEW_SECS,
        None => false,
    }
}

/// Whether a timestamp is close enough to now.
pub fn timestamp_is_fresh(ts: &str, now: &UtcInstant) -> (r: bool)
    ensures
        r == is_fresh(ts@, *now),
{
    let v = chars_of(ts);
    match parse_i64(&v) {
        Some(t) => {
            if t < CALENDAR_START || t > CALENDAR_END {
                return false;
            }
            let gap: i128 = if t <= now.secs {
                now.secs as i128 - t as i128
            } else if now.nanos == 0 {
                t as i128 - now.secs as i128
            } else {
                t as i128 - now.secs as i128 - 1
            };
            gap <= WEBHOOK_V2_MAX_SKEW_SECS as i128
        },
        None => false,
    }
}

/// The text that is signed when a request carries a timestamp.
pub open spec fn timed_text(ts: Seq<char>, body: Seq<u8>) -> Seq<char> {
    "v2:"@ + ts + ":"@ + lossy_text(body)
}

// ── Tokens ─────────────────────────────────────────────────────────────────

/// Whether an `Authorization` header carries the token.
pub open spec fn bears(header: Option<Seq<char>>, secret: Seq<char>) -> bool {
    header == Some("Bearer "@ + secret)
}

/// Whether an `Authorization` header carries the token.
pub fn bears_token(header: Option<&str>, secret: &str) -> (r: bool)
    ensures
        r == bears(opt_str(header), secret@),
{
    let mut expected = String::new();
    expected.append("Bearer ");
    expected.append(secret);
    assert(expected@ =~= "Bearer "@ + secret@);
    match header {
        Some(h) => same_str(h, expected.as_str()),
        None => false,
    }
}

// ── Requests ───────────────────────────────────────────────────────────────

/// The headers by which a request proves itself.
pub struct Credentials<'a> {
    /// `X-Hub-Signature-256`.
    pub signature: Option<&'a str>,
    /// `Authorization`.
    pub authorization: Option<&'a str>,
    /// `X-MyClaw-Timestamp`.
    pub timestamp: Option<&'a str>,
}

/// The mathematical value of [`Credentials`].
pub struct CredentialsView {
    pub signature: Option<Seq<char>>,
    pub authorization: Option<Seq<char>>,
    pub timestamp: Option<Seq<char>>,
}

impl<'a> View for Credentials<'a> {
    type V = CredentialsView;

    open spec fn view(&self) -> CredentialsView {
        CredentialsView {
            signature: opt_str(self.signature),
            authorization: opt_str(self.authorization),
            timestamp: opt_str(self.timestamp),
        }
    }
}

/// Why a request is turned away.
#[derive(Clone, Copy, PartialEq, Eq, Structural, Debug)]
pub enum AuthFailure {
    /// The route has no secret.
    Misconfigured,
    /// The timestamp is unreadable or too far from now.
    StaleTimestamp,
    /// The signature is not that of the request.
    InvalidSignature,
    /// There is no signature.
    MissingSignature,
    /// The token is not that of the route.
    InvalidToken,
}

/// What is wrong with the signature of a request. With a timestamp the signature
/// covers both the timestamp and the body.
pub open spec fn signature_failure(
    secret: Seq<char>,
    c: CredentialsView,
    body: Seq<u8>,
    now: UtcInstant,
) -> Option<AuthFailure> {
    match c.timestamp {
        Some(ts) => if !is_fresh(ts, now) {
            Some(AuthFailure::StaleTimestamp)
        } else if c.signature == Some(signature_of(secret, encode_utf8(timed_text(ts, body)))) {
            None
        } else {
            Some(AuthFailure::InvalidSignature)
        },
        None => match c.signature {
            Some(s) => if s == signature_of(secret, body) {
                None
            } else {
                Some(AuthFailure::InvalidSignature)
            },
            None => Some(AuthFailure::MissingSignature),
        },
    }
}

/// What is wrong with the credentials of a request.
pub open spec fn auth_failure(
    job: WebhookJobView,
    c: CredentialsView,
    body: Seq<u8>,
    now: UtcInstant,
) -> Option<AuthFailure> {
    if job.secret.len() == 0 {
        Some(AuthFailure::Misconfigured)
    } else {
        match job.auth {
            WebhookAuth::Hmac => signature_failure(job.secret, c, body, now),
            WebhookAuth::Bearer => if bears(c.authorization, job.secret) {
                None
            } else {
                Some(AuthFailure::InvalidToken)
            },
        }
    }
}

fn check_signature(secret: &str, c: &Credentials, body: &[u8], now: &UtcInstant) -> (r: Option<
    AuthFailure,
>)
    ensures
        r == signature_failure(secret@, c@, body@, *now),
{
    match c.timestamp {
        Some(ts) => {
            if !timestamp_is_fresh(ts, now) {
                return Some(AuthFailure::StaleTimestamp);
            }
            let mut signed = String::new();
            signed.append("v2:");
            signed.append(ts);
            signed.append(":");
            signed.append(read_lossy(body).as_str());
            let covered: &str = signed.as_str();
            assert(covered@ =~= timed_text(ts@, body@));
            let valid = match c.signature {
                Some(s) => verify_hmac_signature(covered.as_bytes(), secret, s),
                None => false,
            };
            if valid {
                None
            } else {
                Some(AuthFailure::InvalidSignature)
            }
        },
        None => match c.signature {
            Some(s) => if verify_hmac_signature(body, secret, s) {
                None
            } else {
                Some(AuthFailure::InvalidSignature)
            },
            None => Some(AuthFailure::MissingSignature),
        },
    }
}

/// Checks the credentials of a request.
pub fn authorize(
    job: &WebhookJobDef,
    c: &Credentials,
    body: &[u8],
    now: &UtcInstant,
) -> (r: Option<AuthFailure>)
    ensures
        r == auth_failure(job@, c@, body@, *now),
{
    if job.secret.as_str().is_empty() {
        return Some(AuthFailure::Misconfigured);
    }
    match job.auth {
        WebhookAuth::Hmac => check_signature(job.secret.as_str(), c, body, now),
        WebhookAuth::Bearer => if bears_token(c.authorization, job.secret.as_str()) {
            None
        } else {
            Some(AuthFailure::InvalidToken)
        },
    }
}

/// A request to a route with a secret is let in only if it shows that it knows
/// the secret: it carries the token, or a signature under the secret.
pub proof fn law_only_holders_of_the_secret_enter(
    job: WebhookJobView,
    c: CredentialsView,
    body: Seq<u8>,
    now: UtcInstant,
)
    requires
        auth_failure(job, c, body, now) is None,
    ensures
        job.secret.len() > 0,
        job.auth is Bearer ==> bears(c.authorization, job.secret),
        job.auth is Hmac ==> exists|message: Seq<u8>|
            c.signature == Some(#[trigger] signature_of(job.secret, message)),
{
}

/// A signed request with a timestamp is let in only near that time.
pub proof fn law_no_late_replay(
    job: WebhookJobView,
    c: CredentialsView,
    body: Seq<u8>,
    now: UtcInstant,
)
    requires
        job.auth is Hmac,
        c.timestamp is Some,
        auth_failure(job, c, body, now) is None,
    ensures
        parsed_i64(c.timestamp.unwrap()) matches Some(t) && now.secs - WEBHOOK_V2_MAX_SKEW_SECS
            <= t <= now.secs + WEBHOOK_V2_MAX_SKEW_SECS + 1,
{
}

} // verus!
