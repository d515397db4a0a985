//! The execution context a check plugin inherits from the agent.
//!
//! An `ExecutionContext` bundles the hostname the agent resolved for the
//! machine it runs on — the empty string standing for "unknown host" — with
//! an [`HttpHeaders`] bag seeded with three default header fields. The
//! `User-Agent` value embeds the agent's version string, which the caller
//! injects; the hostname comes from an asynchronous host lookup performed
//! outside this crate, whose outcome [`ExecutionContext::from_host_lookup`]
//! folds in.

use crate::headers::HttpHeaders;
use vstd::prelude::*;
use vstd::string::StringExecFns;

verus! {

/// The header map every fresh context starts from: a `User-Agent` naming the
/// agent and its version, a form-encoded `Content-Type`, and an `Accept`.
pub open spec fn default_headers(version: Seq<char>) -> Map<Seq<char>, Seq<char>> {
    map![
        "User-Agent"@ => "Datadog Agent/"@ + version,
        "Content-Type"@ => "application/x-www-form-urlencoded"@,
        "Accept"@ => "text/html, */*"@,
    ]
}

/// The prefix of every warning issued for a failed host lookup.
pub open spec fn hostname_warning_prefix() -> Seq<char> {
    "Failed to get hostname: "@
}

/// Execution information a check inherits from the agent: the resolved
/// hostname and the default HTTP headers for outbound requests.
pub struct ExecutionContext {
    /// The machine's resolved hostname; empty when unknown.
    pub hostname: String,
    /// Default header fields for requests the check issues.
    pub http_headers: HttpHeaders,
}

impl ExecutionContext {
    pub open spec fn wf(&self) -> bool {
        self.http_headers.wf()
    }

    /// A context with an unknown (empty) hostname and the default headers,
    /// with `version` embedded verbatim in the `User-Agent` value.
    pub fn with_agent_version(version: &str) -> (r: Self)
        ensures
            r.wf(),
            r.hostname@ == Seq::<char>::empty(),
            r.http_headers@ == default_headers(version@),
    {
        let user_agent = String::from_str("Datadog Agent/").concat(version);
        let mut http_headers = HttpHeaders::default();
        http_headers.set("User-Agent", user_agent);
        http_headers.set("Content-Type", String::from_str("application/x-www-form-urlencoded"));
        http_headers.set("Accept", String::from_str("text/html, */*"));
        proof {
            assert(http_headers@ =~= default_headers(version@));
        }
        ExecutionContext { hostname: String::new(), http_headers }
    }

    /// A context built from the outcome of a host lookup: the default context
    /// for `version`, its hostname replaced by the resolved name when the
    /// lookup succeeded and left empty when it failed. A failed lookup also
    /// yields the warning message to log, naming the lookup's error; the
    /// caller always receives a well-formed context.
    pub fn from_host_lookup(version: &str, lookup: Result<String, String>) -> (r: (
        Self,
        Option<String>,
    ))
        ensures
            r.0.wf(),
            r.0.http_headers@ == default_headers(version@),
            lookup matches Ok(h) ==> r.0.hostname@ == h@ && r.1 is None,
            lookup matches Err(e) ==> {
                &&& r.0.hostname@ == Seq::<char>::empty()
                &&& r.1 matches Some(w) && w@ == hostname_warning_prefix() + e@
            },
    {
        let base = Self::with_agent_version(version);
        match lookup {
            Ok(hostname) => (ExecutionContext { hostname, ..base }, None),
            Err(error) => {
                let warning = String::from_str("Failed to get hostname: ").concat(error.as_str());
                (base, Some(warning))
            },
        }
    }
}

impl Default for ExecutionContext {
    /// A context with an unknown hostname and the default headers. The
    /// agent's version is not known to this crate, so the `User-Agent` value
    /// is the bare `Datadog Agent/` prefix; callers that know the version
    /// should construct through [`ExecutionContext::with_agent_version`].
    fn default() -> (r: Self)
        ensures
            r.wf(),
            r.hostname@ == Seq::<char>::empty(),
            r.http_headers@ == default_headers(Seq::<char>::empty()),
    {
        let r = Self::with_agent_version("");
        proof {
            reveal_strlit("");
            assert(""@ =~= Seq::<char>::empty());
        }
        r
    }
}

impl Clone for ExecutionContext {
    /// An independent deep copy: mutating the copy's headers leaves the
    /// original's untouched.
    fn clone(&self) -> (r: Self)
        ensures
            r.hostname == self.hostname,
            r.http_headers@ == self.http_headers@,
            r.wf() == self.wf(),
    {
        ExecutionContext {
            hostname: self.hostname.clone(),
            http_headers: self.http_headers.clone(),
        }
    }
}

/// The default header map holds exactly the three seeded fields, whatever the
/// agent version: `User-Agent`, `Content-Type` and `Accept`.
pub proof fn lemma_default_headers_shape(version: Seq<char>)
    ensures
        default_headers(version).dom() =~= set!["User-Agent"@, "Content-Type"@, "Accept"@],
        default_headers(version).dom().len() == 3,
        default_headers(version)["User-Agent"@] == "Datadog Agent/"@ + version,
        default_headers(version)["Content-Type"@] == "application/x-www-form-urlencoded"@,
        default_headers(version)["Accept"@] == "text/html, */*"@,
{
    reveal_strlit("User-Agent");
    reveal_strlit("Content-Type");
    reveal_strlit("Accept");
    assert("User-Agent"@.len() == 10);
    assert("Content-Type"@.len() == 12);
    assert("Accept"@.len() == 6);
}

} // verus!
