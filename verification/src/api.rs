//! Request-level types and decisions of the HTTP surface.
//!
//! The HTTP handlers themselves — routing, status codes, JSON replies — are
//! glue outside this crate. What stands here is everything they decide:
//! reading the session token out of a cookie header, answering a session
//! check against the cache, and the outcome of a login or registration given
//! the store's answers.

use vstd::prelude::*;

use crate::cache::SessionCache;
use crate::wire::chars_to_string;
use crate::wire::is_ws;
use crate::wire::str_to_chars;

verus! {

/// Query bound for chat-history requests.
pub struct LimitMessages {
    pub limit: i32,
}

/// Credentials as a login or registration request carries them.
pub struct LoginRequest {
    pub username: String,
    pub password: String,
}

/// Reply to a successful login or registration.
pub struct AuthResponse {
    pub message: String,
    pub session_token: String,
}

/// Reply to a session check.
pub struct MeResponse {
    pub valid: bool,
    pub session_token: Option<String>,
}

/// First position at or after `i`, below `end`, holding `c`; `end` when
/// there is none.
pub open spec fn find_to(s: Seq<char>, i: int, end: int, c: char) -> int
    decreases end - i,
{
    if 0 <= i < end && end <= s.len() {
        if s[i] == c {
            i
        } else {
            find_to(s, i + 1, end, c)
        }
    } else {
        i
    }
}

/// First position at or after `i`, below `end`, that holds no whitespace.
pub open spec fn ltrim(s: Seq<char>, i: int, end: int) -> int
    decreases end - i,
{
    if 0 <= i < end && end <= s.len() && is_ws(s[i]) {
        ltrim(s, i + 1, end)
    } else {
        i
    }
}

/// Position after the last non-whitespace character in `[start, j)`.
pub open spec fn rtrim(s: Seq<char>, start: int, j: int) -> int
    decreases j - start,
{
    if 0 <= start < j && j <= s.len() && is_ws(s[j - 1]) {
        rtrim(s, start, j - 1)
    } else {
        j
    }
}

/// The characters of the cookie name `session_token`.
pub open spec fn cookie_key() -> Seq<char> {
    seq!['s', 'e', 's', 's', 'i', 'o', 'n', '_', 't', 'o', 'k', 'e', 'n']
}

/// The token carried by one cookie segment `s[i..j)`: after trimming
/// whitespace, a `session_token=` prefix followed by the value (everything
/// up to the trimmed end, further `=` signs included).
pub open spec fn seg_token(s: Seq<char>, i: int, j: int) -> Option<Seq<char>> {
    let a = ltrim(s, i, j);
    let b = rtrim(s, a, j);
    let eq = find_to(s, a, b, '=');
    if eq < b && s.subrange(a, eq) == cookie_key() {
        Some(s.subrange(eq + 1, b))
    } else {
        None
    }
}

/// Scans `;`-separated cookie segments from `i` for the first one naming
/// `session_token`.
pub open spec fn cookie_token_from(s: Seq<char>, i: int) -> Option<Seq<char>>
    decreases s.len() - i,
{
    if !(0 <= i <= s.len()) {
        None
    } else {
        let j = find_to(s, i, s.len() as int, ';');
        if !(i <= j <= s.len()) {
            None
        } else {
            match seg_token(s, i, j) {
                Some(t) => Some(t),
                None => if j < s.len() {
                    cookie_token_from(s, j + 1)
                } else {
                    None
                },
            }
        }
    }
}

/// The session token named by a cookie header, if any segment carries one.
pub open spec fn spec_cookie_token(s: Seq<char>) -> Option<Seq<char>> {
    cookie_token_from(s, 0)
}

fn exec_find_to(v: &Vec<char>, i: usize, end: usize, c: char) -> (r: usize)
    requires
        end <= v.len(),
        i <= end,
    ensures
        r == find_to(v@, i as int, end as int, c),
        i <= r <= end,
{
    let mut k = i;
    while k < end
        invariant
            i <= k <= end <= v.len(),
            find_to(v@, i as int, end as int, c) == find_to(v@, k as int, end as int, c),
        ensures
            i <= k <= end,
            find_to(v@, i as int, end as int, c) == find_to(v@, k as int, end as int, c),
            k == end || v@[k as int] == c,
        decreases end - k,
    {
        if v[k] == c {
            break ;
        }
        k = k + 1;
    }
    k
}

fn exec_ltrim(v: &Vec<char>, i: usize, end: usize) -> (r: usize)
    requires
        end <= v.len(),
        i <= end,
    ensures
        r == ltrim(v@, i as int, end as int),
        i <= r <= end,
{
    let mut k = i;
    while k < end
        invariant
            i <= k <= end <= v.len(),
            ltrim(v@, i as int, end as int) == ltrim(v@, k as int, end as int),
        ensures
            i <= k <= end,
            ltrim(v@, i as int, end as int) == ltrim(v@, k as int, end as int),
            k == end || !is_ws(v@[k as int]),
        decreases end - k,
    {
        let c = v[k];
        if !(c == ' ' || c == '\t' || c == '\n' || c == '\r') {
            break ;
        }
        k = k + 1;
    }
    k
}

fn exec_rtrim(v: &Vec<char>, start: usize, j: usize) -> (r: usize)
    requires
        j <= v.len(),
        start <= j,
    ensures
        r == rtrim(v@, start as int, j as int),
        start <= r <= j,
{
    let mut k = j;
    while k > start
        invariant
            start <= k <= j <= v.len(),
            rtrim(v@, start as int, j as int) == rtrim(v@, start as int, k as int),
        ensures
            start <= k <= j,
            rtrim(v@, start as int, j as int) == rtrim(v@, start as int, k as int),
            k == start || !is_ws(v@[k as int - 1]),
        decreases k,
    {
        let c = v[k - 1];
        if !(c == ' ' || c == '\t' || c == '\n' || c == '\r') {
            break ;
        }
        k = k - 1;
    }
    k
}

fn exec_seg_token(v: &Vec<char>, i: usize, j: usize) -> (r: Option<Vec<char>>)
    requires
        i <= j <= v.len(),
    ensures
        match r {
            Some(t) => seg_token(v@, i as int, j as int) == Some(t@),
            None => seg_token(v@, i as int, j as int) is None,
        },
{
    let a = exec_ltrim(v, i, j);
    let b = exec_rtrim(v, a, j);
    let eq = exec_find_to(v, a, b, '=');
    if eq >= b {
        return None;
    }
    proof {
        assert(v@.subrange(a as int, eq as int).len() == eq - a);
    }
    if eq - a != 13 {
        return None;
    }
    let named = v[a] == 's' && v[a + 1] == 'e' && v[a + 2] == 's' && v[a + 3] == 's' && v[a + 4]
        == 'i' && v[a + 5] == 'o' && v[a + 6] == 'n' && v[a + 7] == '_' && v[a + 8] == 't' && v[a
        + 9] == 'o' && v[a + 10] == 'k' && v[a + 11] == 'e' && v[a + 12] == 'n';
    proof {
        if named {
            assert(v@.subrange(a as int, eq as int) =~= cookie_key());
        } else {
            if v@.subrange(a as int, eq as int) == cookie_key() {
                assert(v@[a as int] == 's' && v@[a as int + 1] == 'e' && v@[a as int + 2] == 's'
                    && v@[a as int + 3] == 's' && v@[a as int + 4] == 'i' && v@[a as int + 5]
                    == 'o' && v@[a as int + 6] == 'n' && v@[a as int + 7] == '_' && v@[a as int
                    + 8] == 't' && v@[a as int + 9] == 'o' && v@[a as int + 10] == 'k' && v@[
                    a as int + 11] == 'e' && v@[a as int + 12] == 'n');
            }
        }
    }
    if !named {
        return None;
    }
    let mut out: Vec<char> = Vec::new();
    let mut k = eq + 1;
    while k < b
        invariant
            eq + 1 <= k <= b <= v.len(),
            out@ == v@.subrange(eq as int + 1, k as int),
        decreases b - k,
    {
        out.push(v[k]);
        proof {
            assert(out@ =~= v@.subrange(eq as int + 1, k as int + 1));
        }
        k = k + 1;
    }
    proof {
        assert(out@ == v@.subrange(eq as int + 1, b as int));
    }
    Some(out)
}

/// Reads the session token out of a `Cookie` header value: the first
/// `;`-separated segment of the form `session_token=<value>`, names trimmed
/// of surrounding whitespace.
pub fn extract_session_token(cookie_str: &str) -> (r: Option<String>)
    ensures
        match r {
            Some(t) => spec_cookie_token(cookie_str@) == Some(t@),
            None => spec_cookie_token(cookie_str@) is None,
        },
{
    let v = str_to_chars(cookie_str);
    let mut i: usize = 0;
    loop
        invariant
            i <= v.len(),
            spec_cookie_token(cookie_str@) == cookie_token_from(v@, i as int),
        decreases v.len() - i,
    {
        let j = exec_find_to(&v, i, v.len(), ';');
        match exec_seg_token(&v, i, j) {
            Some(t) => {
                return Some(chars_to_string(&t));
            },
            None => {
                if j < v.len() {
                    i = j + 1;
                } else {
                    return None;
                }
            },
        }
    }
}

/// Answers a session check: valid exactly when the header names a token
/// that stands in the cache, and then the reply returns that token.
pub fn check_me(cache: &SessionCache, cookie_header: Option<&str>) -> (r: MeResponse)
    ensures
        match cookie_header {
            None => !r.valid && r.session_token is None,
            Some(h) => match spec_cookie_token(h@) {
                Some(t) => if cache@.contains(t) {
                    r.valid && (match r.session_token {
                        Some(s) => s@ == t,
                        None => false,
                    })
                } else {
                    !r.valid && r.session_token is None
                },
                None => !r.valid && r.session_token is None,
            },
        },
{
    match cookie_header {
        None => MeResponse { valid: false, session_token: None },
        Some(h) => match extract_session_token(h) {
            None => MeResponse { valid: false, session_token: None },
            Some(t) => {
                if cache.contains(t.as_str()) {
                    MeResponse { valid: true, session_token: Some(t) }
                } else {
                    MeResponse { valid: false, session_token: None }
                }
            },
        },
    }
}

/// Outcome of a login attempt.
pub enum AuthOutcome {
    /// Credentials checked out and a session token was stored.
    Success { token: String },
    /// Unknown user or wrong password; the reply never says which.
    InvalidCredentials,
    /// Credentials checked out but the store could not save a session.
    SessionFailure,
}

/// The login decision, given whether the credentials checked out and the
/// token the store saved, if it saved one.
pub fn login_outcome(credentials: bool, stored_token: Option<String>) -> (r: AuthOutcome)
    ensures
        match r {
            AuthOutcome::InvalidCredentials => !credentials,
            AuthOutcome::SessionFailure => credentials && stored_token is None,
            AuthOutcome::Success { token } => credentials && stored_token == Some(token),
        },
{
    if !credentials {
        AuthOutcome::InvalidCredentials
    } else {
        match stored_token {
            Some(token) => AuthOutcome::Success { token },
            None => AuthOutcome::SessionFailure,
        }
    }
}

/// Outcome of a registration attempt.
pub enum RegisterOutcome {
    /// The username is taken.
    UserExists,
    /// The store rejected the insert.
    StoreOffline,
    /// The user row could not be fetched back for its id.
    MissingId,
    /// Registered, but no session could be stored.
    SessionFailure,
    /// Registered with a fresh session token.
    Registered { token: String },
}

/// The registration decision, in the order the store is consulted: existing
/// user, failed insert, failed refetch, failed session, success.
pub fn register_outcome(
    user_exists: bool,
    created: bool,
    refetched: bool,
    stored_token: Option<String>,
) -> (r: RegisterOutcome)
    ensures
        match r {
            RegisterOutcome::UserExists => user_exists,
            RegisterOutcome::StoreOffline => !user_exists && !created,
            RegisterOutcome::MissingId => !user_exists && created && !refetched,
            RegisterOutcome::SessionFailure => !user_exists && created && refetched
                && stored_token is None,
            RegisterOutcome::Registered { token } => !user_exists && created && refetched
                && stored_token == Some(token),
        },
{
    if user_exists {
        RegisterOutcome::UserExists
    } else if !created {
        RegisterOutcome::StoreOffline
    } else if !refetched {
        RegisterOutcome::MissingId
    } else {
        match stored_token {
            Some(token) => RegisterOutcome::Registered { token },
            None => RegisterOutcome::SessionFailure,
        }
    }
}

} // verus!
