//! Authorization levels, token claims and access decisions.

use vstd::prelude::*;
use crate::error::{Error, status_spec, is_auth_error, STATUS_UNAUTHORIZED};
use crate::groups::{split_on, lemma_split_concat, lemma_split_no_sep};

verus! {

/// Authorization level granted by a token.
#[derive(Debug, Clone, Copy, PartialEq, Eq)]
pub enum AuthLevel {
    /// All endpoints
    Admin,
    /// Only add or update event
    User,
}

/// The `Debug` name of a level.
pub open spec fn level_name_spec(l: AuthLevel) -> Seq<char> {
    match l {
        AuthLevel::Admin => "Admin"@,
        AuthLevel::User => "User"@,
    }
}

/// The `Debug` name of a level.
pub fn level_name(l: AuthLevel) -> (r: &'static str)
    ensures
        r@ == level_name_spec(l),
{
    match l {
        AuthLevel::Admin => "Admin",
        AuthLevel::User => "User",
    }
}


/// How long a token stays valid, in seconds: 31 days.
pub const TOKEN_DURATION: i64 = 2678400;

/// The last second that chrono's `DateTime<Utc>` can hold (December 31, 262142, 23:59:59),
/// as seconds since January 1, 1970 UTC.
pub const MAX_TIMESTAMP: i64 = 8210266876799;

/// The issuer that tokens name.
pub open spec fn issuer_spec() -> Seq<char> {
    "khronos"@
}

/// The issuer that tokens name.
pub fn issuer() -> (r: &'static str)
    ensures
        r@ == issuer_spec(),
{
    "khronos"
}

/// Reads the clock: calls `std::time::SystemTime::now()`, then
/// `duration_since(UNIX_EPOCH)`, and takes the whole seconds (`Duration::as_secs`).
/// `None` where the clock reads before January 1, 1970. Which second it reads
/// depends on the clock and is not stated.
#[verifier::external_body]
fn seconds_since_epoch() -> (r: Option<u64>) {
    match std::time::SystemTime::now().duration_since(std::time::UNIX_EPOCH) {
        Ok(elapsed) => Some(elapsed.as_secs()),
        Err(_) => None,
    }
}

/// What a token carries.
#[derive(Debug, PartialEq, Eq)]
pub struct Claims {
    /// Expiry, in seconds since January 1, 1970 UTC.
    pub exp: i64,
    /// Issuer: always `khronos`.
    pub iss: String,
    /// Level granted.
    pub level: AuthLevel,
}

impl Claims {
    /// The claims of a token issued at second `secs` (since January 1, 1970 UTC):
    /// it expires `TOKEN_DURATION` later. `None` where the expiry would lie beyond
    /// the last second that chrono's `DateTime<Utc>` can hold.
    pub fn claims_at(secs: u64, level: AuthLevel) -> (r: Option<Claims>)
        ensures
            r is Some <==> secs <= MAX_TIMESTAMP - TOKEN_DURATION,
            r matches Some(c) ==> {
                &&& c.exp == secs + TOKEN_DURATION
                &&& c.iss@ == issuer_spec()
                &&& c.level == level
            },
    {
        if secs <= (MAX_TIMESTAMP - TOKEN_DURATION) as u64 {
            let now = secs as i64;
            Some(Claims { exp: now + TOKEN_DURATION, iss: String::from_str(issuer()), level })
        } else {
            None
        }
    }

    /// The claims of a token issued now: `claims_at` of the clock's reading.
    /// `None` where the clock reads before 1970, or so late that the expiry would
    /// lie beyond the last second that chrono can hold.
    pub fn new(level: AuthLevel) -> (r: Option<Claims>)
        ensures
            r matches Some(c) ==> {
                &&& TOKEN_DURATION <= c.exp <= MAX_TIMESTAMP
                &&& c.iss@ == issuer_spec()
                &&& c.level == level
            },
    {
        match seconds_since_epoch() {
            Some(secs) => Claims::claims_at(secs, level),
            None => None,
        }
    }
}

/// The token in an `Authorization` header value such as `Bearer <token>`:
/// the second of its pieces between spaces.
pub open spec fn header_token(value: Seq<char>) -> Seq<char> {
    split_on(value, ' ')[1]
}

/// The first position at or after `from` that holds `c`, or the length of `v`.
proof fn lemma_next_index_of(v: Seq<char>, c: char, from: int) -> (j: int)
    requires
        0 <= from <= v.len(),
    ensures
        from <= j <= v.len(),
        forall|k: int| from <= k < j ==> v[k] != c,
        j == v.len() || v[j] == c,
    decreases v.len() - from,
{
    if from == v.len() || v[from] == c {
        from
    } else {
        lemma_next_index_of(v, c, from + 1)
    }
}

/// The token of a header value holding a space is the text between its first
/// space and the next space (or its end), whole, whatever its length: the value
/// is the text before the first space, that space, the token, then either
/// nothing or a rest that starts with a space.
pub proof fn lemma_header_token_lies_between_spaces(v: Seq<char>)
    requires
        v.contains(' '),
    ensures
        exists|i: int, j: int| {
            &&& 0 <= i < j <= v.len()
            &&& v[i] == ' '
            &&& (forall|k: int| 0 <= k < i ==> v[k] != ' ')
            &&& (forall|k: int| i < k < j ==> v[k] != ' ')
            &&& (j == v.len() || v[j] == ' ')
            &&& #[trigger] v.subrange(i + 1, j) == header_token(v)
            &&& v == v.take(i) + seq![' '] + header_token(v) + v.skip(j)
        },
{
    let i = lemma_next_index_of(v, ' ', 0);
    if i == v.len() {
        let k = choose|k: int| 0 <= k < v.len() && v[k] == ' ';
        assert(v[k] != ' ');
    }
    let j = lemma_next_index_of(v, ' ', i + 1);
    let head = v.take(i);
    let rest = v.skip(i + 1);
    assert(v =~= head + seq![' '] + rest);
    lemma_split_concat(head, rest, ' ');
    assert(!head.contains(' ')) by {
        if head.contains(' ') {
            let k = choose|k: int| 0 <= k < head.len() && head[k] == ' ';
            assert(v[k] == ' ');
        }
    }
    lemma_split_no_sep(head, ' ');
    let m = j - (i + 1);
    let first = rest.take(m);
    assert(!first.contains(' ')) by {
        if first.contains(' ') {
            let k = choose|k: int| 0 <= k < first.len() && first[k] == ' ';
            assert(v[i + 1 + k] == ' ');
        }
    }
    lemma_split_no_sep(first, ' ');
    if j < v.len() {
        assert(rest =~= first + seq![' '] + rest.skip(m + 1));
        lemma_split_concat(first, rest.skip(m + 1), ' ');
    } else {
        assert(rest =~= first);
    }
    assert(first =~= v.subrange(i + 1, j));
    assert(header_token(v) == first);
    assert(v =~= v.take(i) + seq![' '] + header_token(v) + v.skip(j));
}

/// Takes the token out of the `Authorization` header: without a header the
/// request is refused with `AuthRequired`; with one, the token is the piece
/// after the first space, up to the next space.
pub fn token_from_header(header: Option<&str>) -> (r: Result<String, Error>)
    requires
        header matches Some(v) ==> v@.contains(' '),
    ensures
        header is None ==> r matches Err(Error::AuthRequired),
        header matches Some(v) ==> (r matches Ok(t) && t@ == header_token(v@)),
{
    match header {
        None => Err(Error::AuthRequired),
        Some(v) => {
            let ghost s = v@;
            let n = v.unicode_len();
            let mut i: usize = 0;
            while i < n && v.get_char(i) != ' '
                invariant
                    n == s.len(),
                    s == v@,
                    0 <= i <= n,
                    forall|k: int| 0 <= k < i ==> s[k] != ' ',
                decreases n - i,
            {
                i = i + 1;
            }
            proof {
                if i == n {
                    let k = choose|k: int| 0 <= k < s.len() && s[k] == ' ';
                    assert(false);
                }
            }
            let mut j: usize = i + 1;
            while j < n && v.get_char(j) != ' '
                invariant
                    n == s.len(),
                    s == v@,
                    i < j <= n,
                    forall|k: int| i < k < j ==> s[k] != ' ',
                decreases n - j,
            {
                j = j + 1;
            }
            let token = v.substring_char(i + 1, j);
            proof {
                let head = s.take(i as int);
                let rest = s.skip(i + 1);
                assert(s =~= head + seq![' '] + rest);
                lemma_split_concat(head, rest, ' ');
                assert(!head.contains(' ')) by {
                    if head.contains(' ') {
                        let k = choose|k: int| 0 <= k < head.len() && head[k] == ' ';
                        assert(s[k] == ' ');
                    }
                }
                lemma_split_no_sep(head, ' ');
                let m = j - (i + 1);
                let first = rest.take(m);
                assert(!first.contains(' ')) by {
                    if first.contains(' ') {
                        let k = choose|k: int| 0 <= k < first.len() && first[k] == ' ';
                        assert(s[i + 1 + k] == ' ');
                    }
                }
                lemma_split_no_sep(first, ' ');
                if j < n {
                    assert(rest =~= first + seq![' '] + rest.skip(m + 1));
                    lemma_split_concat(first, rest.skip(m + 1), ' ');
                } else {
                    assert(rest =~= first);
                }
                assert(first =~= s.subrange(i + 1, j as int));
            }
            Ok(token.to_owned())
        },
    }
}

/// Proof that a request comes from a holder of a valid token, of any level.
pub struct UserAuth;

/// Proof that a request comes from a holder of a valid admin token.
pub struct AdminAuth;

impl UserAuth {
    /// Admits the request when its token was accepted, whatever its level;
    /// else passes on the token's refusal.
    pub fn from_token_level(checked: Result<AuthLevel, Error>) -> (r: Result<UserAuth, Error>)
        ensures
            checked is Ok ==> r is Ok,
            checked matches Err(e) ==> r == Err::<UserAuth, Error>(e),
    {
        match checked {
            Ok(_) => Ok(UserAuth),
            Err(e) => Err(e),
        }
    }
}

/// What an admin-only endpoint decides on a token check's outcome.
pub open spec fn admin_decision(checked: Result<AuthLevel, Error>) -> Result<(), Error> {
    match checked {
        Ok(AuthLevel::Admin) => Ok(()),
        Ok(got) => Err(Error::InsufficientPrivilege { expected: AuthLevel::Admin, got }),
        Err(e) => Err(e),
    }
}

impl AdminAuth {
    /// Admits the request when its token was accepted with the `Admin` level;
    /// a token of another level is refused with `InsufficientPrivilege`, and a
    /// refused token's error is passed on.
    pub fn from_token_level(checked: Result<AuthLevel, Error>) -> (r: Result<AdminAuth, Error>)
        ensures
            r is Ok <==> admin_decision(checked) is Ok,
            r matches Err(e) ==> admin_decision(checked) == Err::<(), Error>(e),
    {
        match checked {
            Ok(AuthLevel::Admin) => Ok(AdminAuth),
            Ok(got) => Err(Error::InsufficientPrivilege { expected: AuthLevel::Admin, got }),
            Err(e) => Err(e),
        }
    }
}

/// An admin-only endpoint admits exactly the holders of admin tokens, and every
/// request it refuses for want of authorization is answered with 401 Unauthorized.
pub proof fn lemma_admin_refusals_are_unauthorized(checked: Result<AuthLevel, Error>)
    requires
        checked matches Err(e) ==> is_auth_error(e),
    ensures
        admin_decision(checked) is Ok <==> checked == Ok::<AuthLevel, Error>(AuthLevel::Admin),
        admin_decision(checked) matches Err(e) ==> status_spec(e) == STATUS_UNAUTHORIZED,
{
}

} // verus!
