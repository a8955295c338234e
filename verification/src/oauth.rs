//! The OAuth decisions: what a grant code is, and what the token endpoint's
//! answer yields.
use vstd::prelude::*;
use crate::text::{chars_of, push_char};

verus! {

/// Whether `c` has the Unicode `White_Space` property.
pub open spec fn is_whitespace_spec(c: char) -> bool {
    let u = c as u32;
    (0x9 <= u && u <= 0xd) || u == 0x20 || u == 0x85 || u == 0xa0 || u == 0x1680 || (0x2000 <= u
        && u <= 0x200a) || u == 0x2028 || u == 0x2029 || u == 0x202f || u == 0x205f || u == 0x3000
}

/// Decides whether `c` is white space, as `char::is_whitespace` does.
pub fn is_whitespace(c: char) -> (r: bool)
    ensures
        r == is_whitespace_spec(c),
{
    let u = c as u32;
    (0x9 <= u && u <= 0xd) || u == 0x20 || u == 0x85 || u == 0xa0 || u == 0x1680 || (0x2000 <= u
        && u <= 0x200a) || u == 0x2028 || u == 0x2029 || u == 0x202f || u == 0x205f || u == 0x3000
}

/// `s` without its leading and trailing white space, as `str::trim` gives
/// it: the part from the first to the last character that is not white
/// space.
pub open spec fn trim_spec(s: Seq<char>) -> Seq<char> {
    if exists|i: int| 0 <= i < s.len() && !is_whitespace_spec(#[trigger] s[i]) {
        let a = choose|a: int|
            0 <= a < s.len() && !is_whitespace_spec(s[a]) && forall|k: int| 0 <= k < a ==> is_whitespace_spec(#[trigger] s[k]);
        let b = choose|b: int|
            0 <= b < s.len() && !is_whitespace_spec(s[b]) && forall|k: int| b < k < s.len() ==> is_whitespace_spec(#[trigger] s[k]);
        s.subrange(a, b + 1)
    } else {
        Seq::empty()
    }
}

/// `s` without leading and trailing white space.
pub fn trim(s: &str) -> (r: String)
    ensures
        r@ == trim_spec(s@),
{
    let cs = chars_of(s);
    let n = cs.len();
    let mut a: usize = 0;
    while a < n && is_whitespace(cs[a])
        invariant
            a <= n,
            n == s@.len(),
            cs@ == s@,
            forall|k: int| 0 <= k < a ==> is_whitespace_spec(#[trigger] s@[k]),
        decreases n - a,
    {
        a = a + 1;
    }
    if a == n {
        proof {
            assert(!(exists|i: int| 0 <= i < s@.len() && !is_whitespace_spec(#[trigger] s@[i])));
        }
        return String::new();
    }
    let mut b: usize = n - 1;
    while is_whitespace(cs[b])
        invariant
            a <= b < n,
            n == s@.len(),
            cs@ == s@,
            !is_whitespace_spec(s@[a as int]),
            forall|k: int| b < k < n ==> is_whitespace_spec(#[trigger] s@[k]),
        decreases b,
    {
        b = b - 1;
    }
    let mut r = String::new();
    let mut i: usize = a;
    while i <= b
        invariant
            a <= i <= b + 1,
            b < n,
            n == s@.len(),
            cs@ == s@,
            r@ == s@.subrange(a as int, i as int),
        decreases b + 1 - i,
    {
        push_char(&mut r, cs[i]);
        assert(s@.subrange(a as int, i as int + 1) =~= s@.subrange(a as int, i as int).push(s@[i as int]));
        i = i + 1;
    }
    proof {
        let s0 = s@;
        assert(exists|i: int| 0 <= i < s0.len() && !is_whitespace_spec(#[trigger] s0[i])) by {
            assert(!is_whitespace_spec(s0[a as int]));
        }
        let a2 = choose|x: int|
            0 <= x < s0.len() && !is_whitespace_spec(s0[x]) && forall|k: int| 0 <= k < x ==> is_whitespace_spec(#[trigger] s0[k]);
        let b2 = choose|x: int|
            0 <= x < s0.len() && !is_whitespace_spec(s0[x]) && forall|k: int| x < k < s0.len() ==> is_whitespace_spec(#[trigger] s0[k]);
        assert(0 <= a2 < s0.len() && !is_whitespace_spec(s0[a2]) && forall|k: int| 0 <= k < a2 ==> is_whitespace_spec(#[trigger] s0[k]));
        assert(0 <= b2 < s0.len() && !is_whitespace_spec(s0[b2]) && forall|k: int| b2 < k < s0.len() ==> is_whitespace_spec(#[trigger] s0[k]));
        if a2 < a {
            assert(is_whitespace_spec(s0[a2]));
        }
        if a < a2 {
            assert(is_whitespace_spec(s0[a as int]));
        }
        if b2 < b {
            assert(is_whitespace_spec(s0[b as int]));
        }
        if b < b2 {
            assert(is_whitespace_spec(s0[b2]));
        }
    }
    r
}

/// Why a grant code was refused.
#[derive(Clone, Copy, Debug, PartialEq, Eq, Structural)]
pub enum GrantCodeError {
    /// Nothing but white space was given.
    Empty,
}

/// The grant code that the user gave, without surrounding white space; an
/// empty code is refused.
pub fn normalize_grant_code(raw: &str) -> (r: Result<String, GrantCodeError>)
    ensures
        trim_spec(raw@).len() == 0 ==> r == Err::<String, GrantCodeError>(GrantCodeError::Empty),
        trim_spec(raw@).len() > 0 ==> r is Ok && r->Ok_0@ == trim_spec(raw@),
{
    let code = trim(raw);
    if code.as_str().is_empty() {
        Err(GrantCodeError::Empty)
    } else {
        Ok(code)
    }
}

/// Whether an HTTP status reports success (2xx).
pub fn is_success_status(status: u16) -> (r: bool)
    ensures
        r == (200 <= status && status <= 299),
{
    200 <= status && status <= 299
}

/// The answer of the token endpoint.
#[derive(Clone, Debug)]
pub struct TokenResponse {
    pub access_token: Option<String>,
    pub refresh_token: Option<String>,
    pub error: Option<String>,
}

/// Why the token endpoint's answer yields no token.
#[derive(Clone, Debug)]
pub enum TokenError {
    /// The endpoint reported this OAuth error.
    OAuth(String),
    /// The answer holds no refresh token.
    MissingRefreshToken,
    /// The answer holds no access token.
    MissingAccessToken,
}

/// The refresh token that a code exchange yields: an OAuth error is
/// reported first, then a missing refresh token, then a missing access
/// token.
pub fn grant_refresh_token(resp: TokenResponse) -> (r: Result<String, TokenError>)
    ensures
        match resp.error {
            Some(e) => r matches Err(TokenError::OAuth(x)) && x == e,
            None => match resp.refresh_token {
                None => r matches Err(TokenError::MissingRefreshToken),
                Some(t) => if resp.access_token is None {
                    r matches Err(TokenError::MissingAccessToken)
                } else {
                    r == Ok::<String, TokenError>(t)
                },
            },
        },
{
    if let Some(e) = resp.error {
        return Err(TokenError::OAuth(e));
    }
    let refresh = match resp.refresh_token {
        Some(t) => t,
        None => return Err(TokenError::MissingRefreshToken),
    };
    if resp.access_token.is_none() {
        return Err(TokenError::MissingAccessToken);
    }
    Ok(refresh)
}

/// The access token that a refresh yields: an OAuth error is reported
/// first, then a missing access token.
pub fn refreshed_access_token(resp: TokenResponse) -> (r: Result<String, TokenError>)
    ensures
        match resp.error {
            Some(e) => r matches Err(TokenError::OAuth(x)) && x == e,
            None => match resp.access_token {
                None => r matches Err(TokenError::MissingAccessToken),
                Some(t) => r == Ok::<String, TokenError>(t),
            },
        },
{
    if let Some(e) = resp.error {
        return Err(TokenError::OAuth(e));
    }
    match resp.access_token {
        Some(t) => Ok(t),
        None => Err(TokenError::MissingAccessToken),
    }
}

} // verus!
