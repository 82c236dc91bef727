//! The options of the command line, and when a failed request is tried again.
use vstd::prelude::*;

verus! {

/// The languages to import: both, or one.
#[derive(Debug, Clone, Copy, PartialEq, Eq, Structural)]
pub enum Language {
    All,
    Japanese,
    English,
}

impl Language {
    /// The card language this option names; `All` names none.
    pub fn into_model(self) -> (r: crate::model::Language)
        requires
            self != Language::All,
        ensures
            self == Language::Japanese ==> r == crate::model::Language::Japanese,
            self == Language::English ==> r == crate::model::Language::English,
    {
        match self {
            Language::Japanese => crate::model::Language::Japanese,
            _ => crate::model::Language::English,
        }
    }

    /// Whether the option takes in cards of `language`.
    pub fn selects(self, language: crate::model::Language) -> (r: bool)
        ensures
            r == (self == Language::All || (self == Language::Japanese && language
                == crate::model::Language::Japanese) || (self == Language::English && language
                == crate::model::Language::English)),
    {
        match self {
            Language::All => true,
            Language::Japanese => language == crate::model::Language::Japanese,
            Language::English => language == crate::model::Language::English,
        }
    }
}

/// How prices are matched to printings.
#[derive(Debug, Clone, Copy, PartialEq, Eq, Structural)]
pub enum PriceCheckMode {
    /// Use the first urls found
    Quick,
    /// Compare images to find the best match
    Images,
}

/// A status that may pass on a later try: a timeout, too many requests, or
/// a server error.
pub open spec fn transient_status(status: u16) -> bool {
    status == 408 || status == 429 || (500 <= status && status <= 599)
}

pub fn should_retry_transient_status(status: u16) -> (r: bool)
    ensures
        r == transient_status(status),
{
    status == 408 || status == 429 || (500 <= status && status <= 599)
}

/// The method of a request, as far as retrying cares.
#[derive(Debug, Clone, Copy, PartialEq, Eq, Structural)]
pub enum RequestMethod {
    Get,
    Head,
    Post,
    Other,
}

/// A request is tried again when it is a read (`GET`, `HEAD`), or a `POST`
/// where posts may be retried, and it got a transient status, or no answer
/// but an error.
pub open spec fn retryable(method: RequestMethod, status: Option<u16>, failed: bool, retry_post: bool) -> bool {
    let reads = method == RequestMethod::Get || method == RequestMethod::Head;
    let posts = method == RequestMethod::Post && retry_post;
    (reads || posts) && match status {
        Some(s) => transient_status(s),
        None => failed,
    }
}

/// Whether to try a request again, from its method, its status (when it got
/// an answer) and whether it failed.
pub fn should_retry(method: RequestMethod, status: Option<u16>, failed: bool, retry_post: bool) -> (r: bool)
    ensures
        r == retryable(method, status, failed, retry_post),
{
    match (method, status) {
        (RequestMethod::Get, Some(s)) | (RequestMethod::Head, Some(s)) => should_retry_transient_status(s),
        (RequestMethod::Get, None) | (RequestMethod::Head, None) => failed,
        (RequestMethod::Post, Some(s)) => retry_post && should_retry_transient_status(s),
        (RequestMethod::Post, None) => retry_post && failed,
        _ => false,
    }
}

} // verus!
