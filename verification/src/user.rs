//! Identity records, token claims, and the safe public projection.
use vstd::prelude::*;

verus! {

/// The full, private identity record.
#[derive(Clone, Debug)]
pub struct User {
    pub username: String,
    pub displayname: String,
    pub password: String,
    pub email: String,
    pub uid: String,
    pub suid: String,
}

/// The signed, time-bound token payload.
#[derive(Clone, Debug)]
pub struct UserClaims {
    pub username: String,
    pub uid: String,
    pub suid: String,
    pub exp: usize,
}

/// The subset of an identity record safe for third parties: no credential
/// digest, no email, no internal id.
#[derive(Clone, Debug)]
pub struct SafeUser {
    pub username: String,
    pub displayname: String,
    pub suid: String,
}

impl Default for User {
    /// An empty record: every field the empty string.
    fn default() -> (r: Self)
        ensures
            r.username@ == Seq::<char>::empty(),
            r.displayname@ == Seq::<char>::empty(),
            r.password@ == Seq::<char>::empty(),
            r.email@ == Seq::<char>::empty(),
            r.uid@ == Seq::<char>::empty(),
            r.suid@ == Seq::<char>::empty(),
    {
        User {
            username: String::new(),
            displayname: String::new(),
            password: String::new(),
            email: String::new(),
            uid: String::new(),
            suid: String::new(),
        }
    }
}

impl User {
    /// Projects a record to its safe view: exactly the username, display
    /// name and public id, and nothing else.
    pub fn to_safe(user: User) -> (r: SafeUser)
        ensures
            r.username@ == user.username@,
            r.displayname@ == user.displayname@,
            r.suid@ == user.suid@,
    {
        SafeUser { username: user.username, displayname: user.displayname, suid: user.suid }
    }
}

/// Relies on `uuid::Uuid::new_v4` with `as_hyphenated`: a fresh random
/// identifier written as 36 lowercase hexadecimal characters and hyphens.
/// Nothing is promised of which identifier comes back.
#[verifier::external_body]
pub fn generate_uuid() -> (r: String)
    ensures
        r@.len() == 36,
        forall|i: int|
            0 <= i < r@.len() ==> crate::text::is_hex_digit(#[trigger] r@[i]) || r@[i] == '-',
{
    uuid::Uuid::new_v4().as_hyphenated().to_string()
}

/// Relies on `uuid::Uuid::new_v4` with `as_simple`: a fresh random
/// identifier written as 32 lowercase hexadecimal characters.
/// Nothing is promised of which identifier comes back.
#[verifier::external_body]
pub fn generate_suid() -> (r: String)
    ensures
        r@.len() == 32,
        forall|i: int| 0 <= i < r@.len() ==> crate::text::is_hex_digit(#[trigger] r@[i]),
{
    uuid::Uuid::new_v4().as_simple().to_string()
}


/// Token expiry horizon: thirty days, in seconds.
pub open spec fn token_lifetime() -> int {
    2592000
}

/// The expiry for a token issued now: the current Unix time plus thirty
/// days, held within `usize`.
pub fn get_expiration_time() -> (r: usize)
    ensures
        r >= 2592000,
{
    let now = crate::utils::get_unix_epoch_time();
    let lifetime: u64 = 2592000;
    let sum: u64 = if now > u64::MAX - lifetime {
        u64::MAX
    } else {
        now + lifetime
    };
    let cap: u64 = usize::MAX as u64;
    if sum > cap {
        usize::MAX
    } else {
        sum as usize
    }
}

impl User {
    /// Issues a signed token carrying this record's identity, expiring
    /// thirty days from now. For records free of control characters the
    /// token decodes back to exactly that identity.
    pub fn generate_JWT(user: User, secret: &[u8]) -> (r: Result<String, ()>)
        ensures
            r is Ok,
            r matches Ok(t) ==> t@.len() >= 2 && ((crate::text::ctrl_free(user.username@)
                && crate::text::ctrl_free(user.uid@) && crate::text::ctrl_free(user.suid@))
                ==> exists|e: int|
                2592000 <= e <= usize::MAX && crate::token::spec_decode(t@, secret@) == Some(
                    (user.username@, user.uid@, user.suid@, e),
                )),
    {
        let claims = UserClaims {
            username: user.username.clone(),
            uid: user.uid.clone(),
            suid: user.suid.clone(),
            exp: get_expiration_time(),
        };
        let token = crate::token::issue_at(&claims, secret);
        Ok(token)
    }

    /// Decodes and verifies a token against the clock. A returned claims
    /// value always comes from a token with a valid signature and header;
    /// a token that carries no claims at all fails whatever the time.
    pub fn decode__JWT__token(token: &str, secret: &[u8]) -> (r: Result<UserClaims, ()>)
        ensures
            r matches Ok(c) ==> crate::token::spec_decode(token@, secret@) == Some(
                (c.username@, c.uid@, c.suid@, c.exp as int),
            ),
            crate::token::spec_decode(token@, secret@) is None ==> r is Err,
    {
        let now = crate::utils::get_unix_epoch_time();
        let cap: u64 = usize::MAX as u64;
        let now_us: usize = if now > cap {
            usize::MAX
        } else {
            now as usize
        };
        crate::token::decode_at(token, secret, now_us)
    }
}

/// The outcome of authorization extraction: a verified identity, a failed
/// attempt, or no attempt at all.
#[derive(Debug)]
pub enum AuthorizationStatus {
    Authorized(UserClaims),
    Unauthorized,
    Error,
}

/// The token text a bearer header carries: the header value with one
/// leading `"Bearer "` removed, where it is present.
pub open spec fn bearer_stripped(t: Seq<char>) -> Seq<char> {
    if crate::text::is_prefix("Bearer "@, t) {
        t.skip("Bearer "@.len() as int)
    } else {
        t
    }
}

/// The header value authorization reads: the `authorization` key, or
/// failing that `Authorization`.
pub open spec fn chosen_token(h: Seq<(Seq<char>, Seq<char>)>) -> Option<Seq<char>> {
    match crate::headers::lookup(h, "authorization"@) {
        Some(v) => Some(v),
        None => crate::headers::lookup(h, "Authorization"@),
    }
}

/// Resolves request metadata to a verified identity or a failure reason:
/// no bearer header at all is an error distinct from a token that fails
/// verification.
pub fn authenticate(headers: &crate::headers::HeaderMap, secret: &[u8]) -> (r:
    AuthorizationStatus)
    ensures
        (r is Error) <==> (chosen_token(headers@) is None),
        !(r is Error) ==> chosen_token(headers@) is Some,
        r matches AuthorizationStatus::Authorized(c) ==> crate::token::spec_decode(
            bearer_stripped(chosen_token(headers@).unwrap()),
            secret@,
        ) == Some((c.username@, c.uid@, c.suid@, c.exp as int)),
{
    let token: &String = match headers.get("authorization") {
        Some(t) => t,
        None => {
            match headers.get("Authorization") {
                Some(t) => t,
                None => {
                    return AuthorizationStatus::Error;
                },
            }
        },
    };
    let tv = crate::text::string_chars(token.as_str());
    let bearer = crate::text::string_chars("Bearer ");
    let stripped: Vec<char> = if crate::text::has_prefix_at(&tv, 0, &bearer) {
        proof {
            assert(tv@.skip(0) =~= tv@);
        }
        crate::text::copy_range(&tv, bearer.len(), tv.len())
    } else {
        proof {
            assert(tv@.skip(0) =~= tv@);
        }
        tv
    };
    proof {
        assert(stripped@ =~= bearer_stripped(token@));
    }
    let ts = crate::text::chars_string(&stripped);
    match User::decode__JWT__token(ts.as_str(), secret) {
        Ok(c) => AuthorizationStatus::Authorized(c),
        Err(_) => AuthorizationStatus::Unauthorized,
    }
}

} // verus!
