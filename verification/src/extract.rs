//! Per-request extraction decisions: the immutable configuration, the failure
//! carrying a flattened report, and the outcome once the validator has run.
//! Reading the body and running the deserializer and validator are the host's
//! work; the functions here decide what each of their results means.

use vstd::prelude::*;
use vstd::string::StringExecFns;
use crate::flatten::{flatten, flatten_spec};
use crate::report::{Report, ReportValue, ValueModel};
use crate::tree::ErrorTree;
use crate::AppJson;

verus! {

/// The default body size limit, in bytes.
pub const DEFAULT_LIMIT: usize = 32768;

/// An extraction failure. It carries the flattened report that becomes the
/// response body, and always classifies as an invalid-request status.
#[derive(Debug, PartialEq)]
pub enum AppError {
    ValidationError(Report),
}

pub open spec fn error_report(e: AppError) -> Report {
    match e {
        AppError::ValidationError(r) => r,
    }
}

impl AppError {
    /// The HTTP status classification of this failure.
    pub fn status_code(&self) -> (c: u16)
        ensures
            c == 400,
    {
        400
    }

    /// The report whose JSON serialization is the response body.
    pub fn report(&self) -> (r: &Report)
        ensures
            *r == error_report(*self),
    {
        match self {
            AppError::ValidationError(r) => r,
        }
    }
}

/// Immutable per-server extraction configuration: the body size limit. The
/// host layers content-type predicates and custom error hooks on top of it.
#[derive(Debug, Clone, PartialEq)]
pub struct JsonConfig {
    limit: usize,
}

impl JsonConfig {
    pub closed spec fn spec_limit(&self) -> usize {
        self.limit
    }

    /// Change max size of payload. By default max size is 32Kb
    pub fn limit(self, limit: usize) -> (c: Self)
        ensures
            c.spec_limit() == limit,
    {
        JsonConfig { limit }
    }

    /// The configured body size limit, in bytes.
    pub fn get_limit(&self) -> (n: usize)
        ensures
            n == self.spec_limit(),
    {
        self.limit
    }
}

impl Default for JsonConfig {
    fn default() -> (c: Self)
        ensures
            c.spec_limit() == DEFAULT_LIMIT,
    {
        JsonConfig { limit: DEFAULT_LIMIT }
    }
}

/// The limit a request is read under: the configured one, or the default
/// where no configuration was registered.
pub fn effective_limit(config: Option<&JsonConfig>) -> (n: usize)
    ensures
        match config {
            Some(c) => n == c.spec_limit(),
            None => n == DEFAULT_LIMIT,
        },
{
    match config {
        Some(c) => c.get_limit(),
        None => DEFAULT_LIMIT,
    }
}

/// The failure built when the body cannot be read, is oversized, or fails to
/// parse: a report with the single key `error` bound to the one message.
pub fn transport_failure(message: String) -> (e: AppError)
    ensures
        error_report(e)@ == seq![("error"@, ValueModel::Messages(seq![message@]))],
{
    let ghost msg_view = message@;
    let mut msgs: Vec<String> = Vec::new();
    msgs.push(message);
    let ghost msgs_view = msgs@;
    let mut r = Report::new();
    r.insert(String::from_str("error"), ReportValue::Messages(msgs));
    proof {
        assert(crate::report::msg_views(msgs_view) =~= seq![msg_view]);
        assert(r@ =~= seq![("error"@, ValueModel::Messages(seq![msg_view]))]);
    }
    AppError::ValidationError(r)
}

/// The outcome once the validator has run over a deserialized value: hand the
/// value through when it found nothing, else flatten its tree into a failure.
pub fn validate_outcome<T>(value: T, errors: Option<ErrorTree>) -> (r: Result<
    AppJson<T>,
    AppError,
>)
    ensures
        match errors {
            None => r matches Ok(j) && j.0 == value,
            Some(t) => r matches Err(e) && error_report(e)@ == flatten_spec(t),
        },
{
    match errors {
        None => Ok(AppJson(value)),
        Some(t) => Err(AppError::ValidationError(flatten(&t))),
    }
}

} // verus!
