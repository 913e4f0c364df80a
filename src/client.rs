use vstd::prelude::*;

use std::time::Duration;
use vstd::string::{StrSliceExecFns, StringExecFns};

verus! {

/// `s` without the trailing run of `c`.
pub open spec fn trim_end(s: Seq<char>, c: char) -> Seq<char>
    decreases s.len(),
{
    if s.len() > 0 && s.last() == c {
        trim_end(s.drop_last(), c)
    } else {
        s
    }
}

/// `s` without the leading run of `c`.
pub open spec fn trim_start(s: Seq<char>, c: char) -> Seq<char>
    decreases s.len(),
{
    if s.len() > 0 && s[0] == c {
        trim_start(s.skip(1), c)
    } else {
        s
    }
}

/// The URL a request for `path` goes to: with a base URL, the base without
/// trailing slashes, one slash, and the path without leading slashes;
/// without one, the path as given.
pub open spec fn url_for(base_url: Option<Seq<char>>, path: Seq<char>) -> Seq<char> {
    match base_url {
        Some(b) => trim_end(b, '/') + seq!['/'] + trim_start(path, '/'),
        None => path,
    }
}

/// Joins a request path onto an optional base URL.
pub fn build_url(base_url: Option<&str>, path: &str) -> (r: String)
    ensures
        r@ == url_for(
            match base_url {
                Some(b) => Some(b@),
                None => None,
            },
            path@,
        ),
{
    match base_url {
        None => String::from_str(path),
        Some(base) => {
            let mut end: usize = base.unicode_len();
            assert(base@.subrange(0, end as int) =~= base@);
            while end > 0 && base.get_char(end - 1) == '/'
                invariant
                    0 <= end <= base@.len(),
                    trim_end(base@, '/') == trim_end(base@.subrange(0, end as int), '/'),
                decreases end,
            {
                assert(base@.subrange(0, end as int).drop_last() =~= base@.subrange(0, end - 1));
                end = end - 1;
            }
            let n: usize = path.unicode_len();
            let mut start: usize = 0;
            assert(path@.subrange(0, n as int) =~= path@);
            while start < n && path.get_char(start) == '/'
                invariant
                    0 <= start <= n,
                    n == path@.len(),
                    trim_start(path@, '/') == trim_start(path@.subrange(start as int, n as int), '/'),
                decreases n - start,
            {
                assert(path@.subrange(start as int, n as int).skip(1) =~= path@.subrange(start + 1, n as int));
                start = start + 1;
            }
            let mut r = String::from_str(base.substring_char(0, end));
            r.append("/");
            r.append(path.substring_char(start, n));
            proof {
                reveal_strlit("/");
                assert("/"@ =~= seq!['/']);
            }
            r
        },
    }
}

/// Settings for building an HTTP client: an optional base URL, request
/// timeout and user agent.
#[derive(Clone)]
pub struct ClientConfig {
    pub base_url: Option<String>,
    pub timeout: Option<Duration>,
    pub user_agent: Option<String>,
}

impl Default for ClientConfig {
    fn default() -> (r: Self)
        ensures
            r.base_url is None,
            r.timeout is None,
            r.user_agent is None,
    {
        ClientConfig { base_url: None, timeout: None, user_agent: None }
    }
}

impl ClientConfig {
    /// A configuration with nothing set.
    pub fn new() -> (r: Self)
        ensures
            r.base_url is None,
            r.timeout is None,
            r.user_agent is None,
    {
        ClientConfig { base_url: None, timeout: None, user_agent: None }
    }

    /// Sets the base URL; the other settings are kept.
    pub fn with_base_url(self, url: &str) -> (r: Self)
        ensures
            r.base_url is Some && r.base_url->Some_0@ == url@,
            r.timeout == self.timeout,
            r.user_agent == self.user_agent,
    {
        ClientConfig { base_url: Some(String::from_str(url)), ..self }
    }

    /// Sets the request timeout; the other settings are kept.
    pub fn with_timeout(self, timeout: Duration) -> (r: Self)
        ensures
            r.timeout == Some(timeout),
            r.base_url == self.base_url,
            r.user_agent == self.user_agent,
    {
        ClientConfig { timeout: Some(timeout), ..self }
    }

    /// Sets the user agent; the other settings are kept.
    pub fn with_user_agent(self, agent: &str) -> (r: Self)
        ensures
            r.user_agent is Some && r.user_agent->Some_0@ == agent@,
            r.base_url == self.base_url,
            r.timeout == self.timeout,
    {
        ClientConfig { user_agent: Some(String::from_str(agent)), ..self }
    }
}

} // verus!
