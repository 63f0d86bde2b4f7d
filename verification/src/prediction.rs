//! Following a prediction from its creation to the image URL: the decisions
//! taken on each response, the polling deadline and the retries on HTTP 429.

use vstd::prelude::*;
use crate::json::{items_of, str_of, Json};
use crate::numeral::{parse_u64, unsigned_numeral};
use crate::text::str_eq;

verus! {

pub const REPLICATE_API_BASE: &'static str = "https://api.replicate.com/v1";

pub const DEFAULT_MODEL: &'static str = "black-forest-labs/flux-1.1-pro";

pub const DEFAULT_WIDTH: u32 = 1024;

pub const DEFAULT_HEIGHT: u32 = 768;

/// Seconds between two polls.
pub const POLL_INTERVAL_SECS: u64 = 2;

/// Seconds after which a prediction is given up.
pub const TIMEOUT_SECS: u64 = 120;

/// Seconds after which a single HTTP request is given up.
pub const REQUEST_TIMEOUT_SECS: u64 = 30;

/// Retries of one request answered with HTTP 429.
pub const MAX_RETRIES: u32 = 5;

/// Seconds to wait on HTTP 429 without a usable `Retry-After`.
pub const RETRY_FALLBACK_SECS: u64 = 10;

/// A prediction as the API reports it.
pub struct Prediction {
    pub id: String,
    pub status: String,
    pub output: Option<Json>,
    pub error: Option<Json>,
    /// `urls.get`, the URL to poll.
    pub urls_get: Option<String>,
}

/// Why no image URL could be taken from a finished prediction.
#[derive(Debug, PartialEq, Eq, Structural, Clone, Copy)]
pub enum ExtractError {
    /// The prediction succeeded but has no output.
    MissingOutput,
    /// The output is neither a string nor an array starting with a string.
    UnexpectedFormat,
}

/// The image URL in a prediction's output: the output itself when it is a
/// string, else the first item of an array output when that is a string.
pub open spec fn image_url(output: Option<Json>) -> Result<Seq<char>, ExtractError> {
    match output {
        None => Err(ExtractError::MissingOutput),
        Some(Json::Str(s)) => Ok(s@),
        Some(o) => match items_of(Some(o)) {
            Some(items) => if items.len() > 0 && items[0] is Str {
                Ok(items[0]->Str_0@)
            } else {
                Err(ExtractError::UnexpectedFormat)
            },
            None => Err(ExtractError::UnexpectedFormat),
        },
    }
}

pub open spec fn rv_url(r: Result<String, ExtractError>) -> Result<Seq<char>, ExtractError> {
    match r {
        Ok(s) => Ok(s@),
        Err(e) => Err(e),
    }
}

/// The image URL of a finished prediction.
pub fn extract_image_url(pred: &Prediction) -> (r: Result<String, ExtractError>)
    ensures
        rv_url(r) == image_url(pred.output),
{
    let output = match &pred.output {
        Some(o) => o,
        None => {
            return Err(ExtractError::MissingOutput);
        },
    };
    if let Some(url) = output.as_str() {
        return Ok(url.clone());
    }
    if let Some(items) = output.as_array() {
        if items.len() > 0 {
            if let Some(first) = items[0].as_str() {
                return Ok(first.clone());
            }
        }
    }
    Err(ExtractError::UnexpectedFormat)
}

/// The URL to poll: `urls.get`, else the prediction's URL under the API base.
pub open spec fn poll_url_of(pred: Prediction) -> Seq<char> {
    match pred.urls_get {
        Some(u) => u@,
        None => REPLICATE_API_BASE@ + "/predictions/"@ + pred.id@,
    }
}

/// The URL to poll for `pred`.
pub fn poll_url(pred: &Prediction) -> (r: String)
    ensures
        r@ == poll_url_of(*pred),
{
    match &pred.urls_get {
        Some(u) => u.clone(),
        None => {
            let mut s = String::from_str(REPLICATE_API_BASE);
            s.append("/predictions/");
            s.append(pred.id.as_str());
            s
        },
    }
}

/// What to do after a poll.
pub enum PollOutcome {
    /// The prediction succeeded; here is the image URL.
    Done(String),
    /// The prediction failed or was canceled.
    Failed,
    /// The prediction succeeded without a usable output.
    Invalid(ExtractError),
    /// The prediction is still starting or processing.
    Pending,
}

pub open spec fn is_status(pred: Prediction, s: Seq<char>) -> bool {
    pred.status@ == s
}

/// The outcome of a poll that returned `pred`.
pub open spec fn poll_outcome_of(pred: Prediction, r: PollOutcome) -> bool {
    if is_status(pred, "succeeded"@) {
        match image_url(pred.output) {
            Ok(u) => r matches PollOutcome::Done(x) && x@ == u,
            Err(e) => r == PollOutcome::Invalid(e),
        }
    } else if is_status(pred, "failed"@) || is_status(pred, "canceled"@) {
        r is Failed
    } else {
        r is Pending
    }
}

/// Decides on a polled prediction: done with its image URL, failed, or still
/// running.
pub fn poll_outcome(pred: &Prediction) -> (r: PollOutcome)
    ensures
        poll_outcome_of(*pred, r),
{
    if str_eq(pred.status.as_str(), "succeeded") {
        match extract_image_url(pred) {
            Ok(u) => PollOutcome::Done(u),
            Err(e) => PollOutcome::Invalid(e),
        }
    } else if str_eq(pred.status.as_str(), "failed") || str_eq(pred.status.as_str(), "canceled") {
        PollOutcome::Failed
    } else {
        PollOutcome::Pending
    }
}

/// What to do with a newly created prediction.
pub enum CreateOutcome {
    /// It already succeeded; here is the image URL.
    Ready(String),
    /// It succeeded without a usable output.
    Invalid(ExtractError),
    /// It has to be polled.
    Poll,
}

/// Decides on a newly created prediction: a prediction that already succeeded
/// yields its image URL, any other is polled.
pub fn after_create(pred: &Prediction) -> (r: CreateOutcome)
    ensures
        is_status(*pred, "succeeded"@) ==> match image_url(pred.output) {
            Ok(u) => r matches CreateOutcome::Ready(x) && x@ == u,
            Err(e) => r == CreateOutcome::Invalid(e),
        },
        !is_status(*pred, "succeeded"@) ==> r is Poll,
{
    if str_eq(pred.status.as_str(), "succeeded") {
        match extract_image_url(pred) {
            Ok(u) => CreateOutcome::Ready(u),
            Err(e) => CreateOutcome::Invalid(e),
        }
    } else {
        CreateOutcome::Poll
    }
}

/// Whether a prediction polled for `secs` seconds and `nanos` nanoseconds has
/// run past the deadline.
pub fn timed_out(secs: u64, nanos: u32) -> (r: bool)
    requires
        nanos < 1_000_000_000,
    ensures
        r == (secs * 1_000_000_000 + nanos > TIMEOUT_SECS * 1_000_000_000),
{
    secs > TIMEOUT_SECS || (secs == TIMEOUT_SECS && nanos > 0)
}

/// The seconds that a `Retry-After` value asks for, else the fallback.
pub open spec fn retry_after_secs(retry_after: Option<Seq<char>>) -> u64 {
    match retry_after {
        Some(t) => match unsigned_numeral(t) {
            Some(v) => if v <= u64::MAX {
                v as u64
            } else {
                RETRY_FALLBACK_SECS
            },
            None => RETRY_FALLBACK_SECS,
        },
        None => RETRY_FALLBACK_SECS,
    }
}

pub open spec fn opt_str_view(o: Option<&str>) -> Option<Seq<char>> {
    match o {
        Some(s) => Some(s@),
        None => None,
    }
}

/// How long to wait before repeating a request that was answered with `status`
/// after `retries_done` retries: only HTTP 429 is retried, at most
/// [`MAX_RETRIES`] times, after `Retry-After` seconds or the fallback.
pub fn retry_delay(status: u16, retry_after: Option<&str>, retries_done: u32) -> (r: Option<u64>)
    ensures
        r == (if status == 429 && retries_done < MAX_RETRIES {
            Some(retry_after_secs(opt_str_view(retry_after)))
        } else {
            None
        }),
{
    if status != 429 || retries_done >= MAX_RETRIES {
        return None;
    }
    let secs = match retry_after {
        Some(t) => match parse_u64(t) {
            Some(v) => v,
            None => RETRY_FALLBACK_SECS,
        },
        None => RETRY_FALLBACK_SECS,
    };
    Some(secs)
}

/// How many times a request is repeated when its answers come with `statuses`
/// in turn: it is repeated while [`retry_delay`] asks for a wait.
pub open spec fn retries_taken(statuses: Seq<u16>, retries_done: u32) -> nat
    decreases statuses.len(),
{
    if statuses.len() == 0 {
        0
    } else if statuses[0] == 429 && retries_done < MAX_RETRIES {
        1 + retries_taken(statuses.drop_first(), (retries_done + 1) as u32)
    } else {
        0
    }
}

/// A request is repeated at most [`MAX_RETRIES`] times, whatever the answers.
pub proof fn lemma_retries_bounded(statuses: Seq<u16>, retries_done: u32)
    requires
        retries_done <= MAX_RETRIES,
    ensures
        retries_done + retries_taken(statuses, retries_done) <= MAX_RETRIES,
    decreases statuses.len(),
{
    if statuses.len() > 0 && statuses[0] == 429 && retries_done < MAX_RETRIES {
        lemma_retries_bounded(statuses.drop_first(), (retries_done + 1) as u32);
    }
}


/// A string output is itself the image URL.
pub proof fn lemma_string_output_is_url(s: String)
    ensures
        image_url(Some(Json::Str(s))) == Ok::<Seq<char>, ExtractError>(s@),
{
}

/// An array output whose first item is a string yields that string, however
/// many items follow it (one, or more).
pub proof fn lemma_first_item_is_url(items: Vec<Json>, s: String)
    requires
        items@.len() >= 1,
        items@[0] == Json::Str(s),
    ensures
        image_url(Some(Json::Array(items))) == Ok::<Seq<char>, ExtractError>(s@),
{
}

/// A URL is found only in a string output or in an array output whose first
/// item is a string, and it is that string; without output there is none.
pub proof fn lemma_url_only_from_strings(output: Option<Json>)
    ensures
        output is None ==> image_url(output) == Err::<Seq<char>, ExtractError>(ExtractError::MissingOutput),
        image_url(output) matches Ok(u) ==> str_of(output) == Some(u) || (items_of(output) matches Some(
            items,
        ) && items.len() >= 1 && str_of(Some(items[0])) == Some(u)),
{
}

} // verus!
