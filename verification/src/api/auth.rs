//! Authorization: the bearer header of API requests, the access-key cookie
//! of page requests, and the password check of a login. The tokens themselves
//! are checked by the caller (they carry an expiry time).

use vstd::prelude::*;
use crate::api::util::{cookie_map, cookie_pair, encrypt, hex_lower, parsed_cookies, parse_cookies, sha256_digest};
use crate::text::{lemma_split_concat, lemma_split_without_sep, split_char};
use vstd::string::StrSliceExecFns;

verus! {

/// A request carried a valid bearer token.
pub struct AuthToken;

/// Whether a page request carried a valid access-key cookie.
pub struct CookieToken {
    pub authorized: bool,
}

/// The form of a login.
pub struct LoginRequest {
    pub password: String,
}

/// The claims of an access token.
pub struct Claims {
    pub sub: String,
    pub exp: u64,
}

/// Why an API request was not authorized.
#[derive(Clone, Copy, PartialEq, Eq, Structural, Debug)]
pub enum AuthError {
    NoHeader,
    InvalidHeader,
    InvalidToken,
}

impl AuthError {
    pub open spec fn spec_message(&self) -> Seq<char> {
        match self {
            AuthError::NoHeader => "No authorization header"@,
            AuthError::InvalidHeader => "Invalid authorization header"@,
            AuthError::InvalidToken => "Invalid token"@,
        }
    }

    /// The message the server answers with.
    pub fn message(&self) -> (res: String)
        ensures
            res@ == self.spec_message(),
    {
        match self {
            AuthError::NoHeader => "No authorization header".to_owned(),
            AuthError::InvalidHeader => "Invalid authorization header".to_owned(),
            AuthError::InvalidToken => "Invalid token".to_owned(),
        }
    }
}

/// The ASCII lower case of `c`; other characters are kept.
pub open spec fn ascii_lower(c: char) -> char {
    if 'A' <= c <= 'Z' {
        ((c as u8) + 32) as char
    } else {
        c
    }
}

fn ascii_lower_exec(c: char) -> (res: char)
    ensures
        res == ascii_lower(c),
{
    if 'A' <= c && c <= 'Z' {
        ((c as u8) + 32) as char
    } else {
        c
    }
}

/// The scheme that opens an `Authorization` header: `bearer ` in any case.
pub open spec fn bearer_scheme() -> Seq<char> {
    seq!['b', 'e', 'a', 'r', 'e', 'r', ' ']
}

/// Whether the header opens with the bearer scheme, letters in any case.
pub open spec fn opens_with_bearer(header: Seq<char>) -> bool {
    forall|k: int| 0 <= k < 7 ==> ascii_lower(#[trigger] header[k]) == bearer_scheme()[k]
}

/// The token of an `Authorization` header: `None` (no header) gives
/// `NoHeader`; a header whose first seven characters are not `bearer ` in
/// any case gives `InvalidHeader`; else the rest of the header. A header is
/// visible ASCII once read, and must hold at least seven characters (the
/// server stops on a shorter one).
pub fn bearer_token(header: Option<&str>) -> (res: Result<String, AuthError>)
    requires
        header matches Some(h) ==> h.is_ascii() && h@.len() >= 7,
    ensures
        match header {
            None => res == Err::<String, AuthError>(AuthError::NoHeader),
            Some(h) => if opens_with_bearer(h@) {
                res is Ok && res->Ok_0@ == h@.skip(7)
            } else {
                res == Err::<String, AuthError>(AuthError::InvalidHeader)
            },
        },
{
    match header {
        None => Err(AuthError::NoHeader),
        Some(h) => {
            let scheme: [char; 7] = ['b', 'e', 'a', 'r', 'e', 'r', ' '];
            assert(scheme@ =~= bearer_scheme());
            let mut k: usize = 0;
            while k < 7
                invariant
                    header == Some(h),
                    h@.len() >= 7,
                    scheme@ == bearer_scheme(),
                    k <= 7,
                    forall|j: int| 0 <= j < k ==> ascii_lower(#[trigger] h@[j]) == bearer_scheme()[j],
                decreases 7 - k,
            {
                let c = h.get_char(k);
                if ascii_lower_exec(c) != scheme[k] {
                    assert(ascii_lower(h@[k as int]) != bearer_scheme()[k as int]);
                    assert(!opens_with_bearer(h@));
                    return Err(AuthError::InvalidHeader);
                }
                k = k + 1;
            }
            let token = h.substring_ascii(7, h.unicode_len());
            Ok(token.to_owned())
        },
    }
}

impl AuthToken {
    /// The outcome of an API request's authorization, given what
    /// [`bearer_token`] found and, for a token, whether it decoded as a valid
    /// unexpired token.
    pub fn from_checks(bearer: Result<String, AuthError>, token_valid: bool) -> (res: Result<
        AuthToken,
        AuthError,
    >)
        ensures
            match bearer {
                Err(e) => res matches Err(f) && f == e,
                Ok(_) => if token_valid {
                    res is Ok
                } else {
                    res matches Err(f) && f == AuthError::InvalidToken
                },
            },
    {
        match bearer {
            Err(e) => Err(e),
            Ok(_) => if token_valid {
                Ok(AuthToken)
            } else {
                Err(AuthError::InvalidToken)
            },
        }
    }
}

/// The name of the cookie that holds the access token.
pub open spec fn access_key_name() -> Seq<char> {
    seq!['a', 'c', 'c', 'e', 's', 's', '_', 'k', 'e', 'y']
}

/// The access token among the cookies of a `Cookie` header, if the header
/// is there and holds an `access_key` cookie.
pub fn access_key(header: Option<&str>) -> (res: Option<String>)
    ensures
        match header {
            None => res is None,
            Some(h) => if parsed_cookies(h@).contains_key(access_key_name()) {
                res is Some && res->0@ == parsed_cookies(h@)[access_key_name()]
            } else {
                res is None
            },
        },
{
    match header {
        None => None,
        Some(h) => {
            let cookies = parse_cookies(h);
            let name = "access_key".to_owned();
            proof {
                reveal_strlit("access_key");
            }
            assert(name@ =~= access_key_name());
            match cookies.get(&name) {
                Some(v) => Some(v.clone()),
                None => None,
            }
        },
    }
}

impl CookieToken {
    /// A page request is authorized exactly when it carries an access key and
    /// that key decoded as a valid unexpired token.
    pub fn from_checks(access_key: &Option<String>, token_valid: bool) -> (res: CookieToken)
        ensures
            res.authorized == (access_key is Some && token_valid),
    {
        CookieToken { authorized: access_key.is_some() && token_valid }
    }
}

/// Whether a login password is right: its hex-encoded SHA-256 digest is the
/// stored `hashed` password.
pub fn password_matches(password: &str, hashed: &str) -> (res: bool)
    ensures
        res == (hex_lower(sha256_digest(password@)) == hashed@),
{
    let digest = encrypt(password);
    let expected = hashed.to_owned();
    digest == expected
}

/// Seconds an access token stays valid: one day.
pub const TOKEN_LIFETIME: u64 = 86400;

impl Claims {
    /// The claims of the token issued at a login at time `now` (seconds):
    /// subject `authorized_user`, expiring a day later.
    pub fn for_login(now: u64) -> (res: Claims)
        requires
            now + TOKEN_LIFETIME <= u64::MAX,
        ensures
            res.sub@ == "authorized_user"@,
            res.exp == now + TOKEN_LIFETIME,
    {
        Claims { sub: "authorized_user".to_owned(), exp: now + TOKEN_LIFETIME }
    }
}

/// The `Set-Cookie` value that hands a token to the browser.
pub fn access_key_cookie(token: &str) -> (res: String)
    ensures
        res@ == "access_key="@ + token@,
        res@ == access_key_name() + seq!['='] + token@,
{
    let mut res = "access_key=".to_owned();
    res.append(token);
    proof {
        reveal_strlit("access_key=");
        assert("access_key="@ =~= access_key_name() + seq!['=']);
    }
    res
}

/// The cookie a login hands out comes back as the access key: the header
/// `access_key=<token>` holds exactly the cookie `access_key` with value
/// `token`, provided the token holds no `;` and no `=`.
pub proof fn lemma_access_key_cookie_round_trip(token: Seq<char>)
    requires
        !token.contains(';'),
        !token.contains('='),
    ensures
        parsed_cookies(access_key_name() + seq!['='] + token) == Map::<Seq<char>, Seq<char>>::empty().insert(
            access_key_name(),
            token,
        ),
{
    let name = access_key_name();
    let s = name + seq!['='] + token;
    assert(!name.contains(';') && !name.contains('=')) by {
        if name.contains(';') || name.contains('=') {
            let k = choose|k: int| 0 <= k < name.len() && (name[k] == ';' || name[k] == '=');
            assert(name[k] != ';' && name[k] != '=');
        }
    }
    assert(!s.contains(';')) by {
        if s.contains(';') {
            let k = choose|k: int| 0 <= k < s.len() && s[k] == ';';
            if k < name.len() {
                assert(name[k] == ';');
            } else if k > name.len() {
                assert(token[k - name.len() - 1] == ';');
            }
        }
    }
    lemma_split_without_sep(s, ';');
    lemma_split_concat(name, token, '=');
    lemma_split_without_sep(name, '=');
    lemma_split_without_sep(token, '=');
    let kv = split_char(s, '=');
    assert(kv =~= seq![name, token]);
    assert(cookie_pair(s) == Some((name, token)));
    let pieces = seq![s];
    assert(pieces.drop_last() =~= Seq::<Seq<char>>::empty());
    assert(cookie_map(pieces) == cookie_map(Seq::<Seq<char>>::empty()).insert(name, token));
}

} // verus!
