//! The client's side of the collector's interface: how a connection is
//! set up, and the bodies of the requests that need no run.

use vstd::prelude::*;
use vstd::string::StringExecFns;
use crate::store::ReportSummary;

verus! {

/// Seconds after which a request is given up.
pub const REQUEST_TIMEOUT_SECS: u64 = 15;

/// Seconds between the probes that keep a connection alive.
pub const TCP_KEEPALIVE_SECS: u64 = 30;

/// Seconds after which an attempt to connect is given up.
pub const CONNECT_TIMEOUT_SECS: u64 = 10;

/// Collects what a connection to the collector needs.
#[derive(Debug)]
pub struct ClientBuilder {
    url: String,
    token: Option<String>,
}

/// What a `ClientBuilder` holds.
pub struct ClientBuilderView {
    pub url: Seq<char>,
    pub token: Option<Seq<char>>,
}

impl View for ClientBuilder {
    type V = ClientBuilderView;

    closed spec fn view(&self) -> ClientBuilderView {
        ClientBuilderView {
            url: self.url@,
            token: match self.token {
                Some(t) => Some(t@),
                None => None,
            },
        }
    }
}

/// How to set up a connection: where to, with which `Authorization` header
/// on every request, and how long to wait.
#[derive(Debug)]
pub struct ClientPlan {
    pub url: String,
    pub authorization: Option<String>,
    pub timeout_secs: u64,
    pub tcp_keepalive_secs: u64,
    pub connect_timeout_secs: u64,
}

/// The `Authorization` header that carries `token`.
pub open spec fn bearer_header(token: Seq<char>) -> Seq<char> {
    "Bearer "@ + token
}

impl ClientBuilder {
    /// A builder for a connection to the collector at `url`, as nobody in
    /// particular.
    pub fn new(url: &str) -> (b: ClientBuilder)
        ensures
            b@ == (ClientBuilderView { url: url@, token: None }),
    {
        ClientBuilder { url: url.to_owned(), token: None }
    }

    /// Makes the connection carry `token` as the key of this host.
    pub fn bearer_token(&mut self, token: &str) -> (r: &mut Self)
        ensures
            r@ == (ClientBuilderView { url: old(self)@.url, token: Some(token@) }),
            *final(self) == *final(r),
    {
        self.token = Some(token.to_owned());
        self
    }

    /// How the connection is to be set up.
    pub fn build(&self) -> (plan: ClientPlan)
        ensures
            plan.url@ == self@.url,
            match self@.token {
                Some(t) => plan.authorization is Some && plan.authorization->0@ == bearer_header(t),
                None => plan.authorization is None,
            },
            plan.timeout_secs == REQUEST_TIMEOUT_SECS,
            plan.tcp_keepalive_secs == TCP_KEEPALIVE_SECS,
            plan.connect_timeout_secs == CONNECT_TIMEOUT_SECS,
    {
        let authorization = match &self.token {
            Some(t) => {
                let mut header = String::from_str("Bearer ");
                header.append(t.as_str());
                Some(header)
            },
            None => None,
        };
        ClientPlan {
            url: self.url.clone(),
            authorization,
            timeout_secs: REQUEST_TIMEOUT_SECS,
            tcp_keepalive_secs: TCP_KEEPALIVE_SECS,
            connect_timeout_secs: CONNECT_TIMEOUT_SECS,
        }
    }
}

/// The body of a request to enrol.
#[derive(Debug)]
pub struct EnrolBody {
    pub host: String,
    pub key: String,
}

impl EnrolBody {
    /// The request to enrol `host` with `key`.
    pub fn new(host: String, key: String) -> (b: EnrolBody)
        ensures
            b.host == host,
            b.key == key,
    {
        EnrolBody { host, key }
    }
}

/// The body of a request to enrol, as the interface first named it.
#[derive(Debug)]
pub struct InlineObject {
    pub host: String,
    pub key: String,
}

impl InlineObject {
    /// The request to enrol `host` with `key`.
    pub fn new(host: String, key: String) -> (b: InlineObject)
        ensures
            b.host == host,
            b.key == key,
    {
        InlineObject { host, key }
    }
}

/// The overview of the latest runs, as it is sent.
#[derive(Debug)]
pub struct GlobalJobsResult {
    pub summary: Vec<ReportSummary>,
}

impl GlobalJobsResult {
    /// The answer that carries the overview `summary`.
    pub fn new(summary: Vec<ReportSummary>) -> (r: GlobalJobsResult)
        ensures
            r.summary == summary,
    {
        GlobalJobsResult { summary }
    }
}

} // verus!
