//! What clients ask and what the server answers.

use vstd::prelude::*;

use crate::text::{opt_text, split_on, split_text, texts};
use crate::value::{opt_model, Json, Value};

verus! {

/// What an introspection request is about.
#[derive(Debug, Clone, Copy, PartialEq, Eq, Structural)]
pub enum IntrospectSubject {
    Daemon,
    Providers,
    Config,
    Cache,
    Lifecycle,
    Watches,
    Timers,
    Demand,
    Procs,
}

/// A client's request.
#[derive(Debug)]
pub enum Request {
    /// Read a key.
    Get { key: String, path: Option<String>, force: bool, wait: bool },
    /// Read a key now and whenever it changes.
    Watch { key: String, path: Option<String> },
    /// Have a provider run again.
    Refresh { key: String, path: Option<String> },
    /// Set the path that later requests of the connection use by default.
    Context { path: String },
    /// Store data under a name, or clear it.
    Put { key: String, data: Option<Value>, ttl: Option<String>, path: Option<String> },
    /// List the cache.
    Status,
    /// Report on the daemon itself.
    Introspect { subject: IntrospectSubject, duration_secs: Option<u64> },
    /// Ask for the versions.
    Hello,
}

/// The server's answer.
#[derive(Debug)]
pub struct Response {
    pub ok: bool,
    pub data: Option<Value>,
    pub age_ms: Option<u128>,
    pub stale: Option<bool>,
    pub error: Option<String>,
}

/// The mathematical content of a [`Response`].
pub struct ResponseView {
    pub ok: bool,
    pub data: Option<Json>,
    pub age_ms: Option<u128>,
    pub stale: Option<bool>,
    pub error: Option<Seq<char>>,
}

impl View for Response {
    type V = ResponseView;

    open spec fn view(&self) -> ResponseView {
        ResponseView {
            ok: self.ok,
            data: opt_model(self.data),
            age_ms: self.age_ms,
            stale: self.stale,
            error: opt_text(self.error),
        }
    }
}

/// The answer that carries data.
pub open spec fn ok_view(data: Json, age_ms: u128, stale: bool) -> ResponseView {
    ResponseView {
        ok: true,
        data: Some(data),
        age_ms: Some(age_ms),
        stale: Some(stale),
        error: None,
    }
}

/// The answer to a request that was carried out and has no data to return, which
/// is also the answer when nothing is cached.
pub open spec fn done_view() -> ResponseView {
    ResponseView { ok: true, data: None, age_ms: None, stale: None, error: None }
}

/// The answer to a request that cannot be carried out.
pub open spec fn error_view(message: Seq<char>) -> ResponseView {
    ResponseView { ok: false, data: None, age_ms: None, stale: None, error: Some(message) }
}

impl Response {
    /// An answer that carries data.
    pub fn ok(data: Value, age_ms: u128, stale: bool) -> (response: Response)
        ensures
            response@ == ok_view(data.model(), age_ms, stale),
    {
        Response { ok: true, data: Some(data), age_ms: Some(age_ms), stale: Some(stale), error: None }
    }

    /// The answer when nothing is cached.
    pub fn miss() -> (response: Response)
        ensures
            response@ == done_view(),
    {
        Response { ok: true, data: None, age_ms: None, stale: None, error: None }
    }

    /// The answer to a request that was carried out and has no data to return.
    pub fn done() -> (response: Response)
        ensures
            response@ == done_view(),
    {
        Response::miss()
    }

    /// The answer to a request that cannot be carried out.
    pub fn error(message: String) -> (response: Response)
        ensures
            response@ == error_view(message@),
    {
        Response { ok: false, data: None, age_ms: None, stale: None, error: Some(message) }
    }
}

/// The part of a key before its first dot.
pub fn provider_of(key: &str) -> (provider: String)
    ensures
        provider@ == split_on(key@, '.')[0],
{
    let parts = split_text(key, '.');
    assert(texts(parts@)[0] == parts@[0]@);
    parts[0].clone()
}

/// The three kinds of answer, member by member.
pub proof fn law_kinds_of_answer(data: Json, age_ms: u128, stale: bool, message: Seq<char>)
    ensures
        ({
            let r = ok_view(data, age_ms, stale);
            &&& r.ok && r.error is None
            &&& r.data == Some(data) && r.age_ms == Some(age_ms) && r.stale == Some(stale)
        }),
        ({
            let r = done_view();
            &&& r.ok && r.error is None
            &&& r.data is None && r.age_ms is None && r.stale is None
        }),
        ({
            let r = error_view(message);
            &&& !r.ok && r.error == Some(message)
            &&& r.data is None && r.age_ms is None && r.stale is None
        }),
{
}

/// An answer says what its members say.
pub proof fn law_answer_is_known_by_its_members(r: Response)
    ensures
        r@.ok == r.ok,
        r@.age_ms == r.age_ms,
        r@.stale == r.stale,
        r@.data == match r.data {
            Some(v) => Some(v.model()),
            None => None,
        },
        r@.error == match r.error {
            Some(e) => Some(e@),
            None => None,
        },
{
}

} // verus!
