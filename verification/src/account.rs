//! The account service: registration with uniqueness enforcement, and
//! login with credential checking and token issuance.
use vstd::prelude::*;
use crate::email::{check_email, valid_email, trim_spec};
use crate::store::{IdentityStore, UserView, first_with_username, first_with_email};
use crate::text::ctrl_free;
use crate::token::{issue_at, spec_decode};
use crate::user::{User, UserClaims, generate_uuid, generate_suid};
use crate::utils::{hash, digest_of};

verus! {

/// The outcome of a registration attempt.
#[derive(Clone, Copy, Debug, PartialEq, Eq, Structural)]
pub enum RegisterOutcome {
    Success,
    InvalidEmail,
    UsernameTaken,
    EmailTaken,
}

/// The outcome of a login attempt.
#[derive(Clone, Debug)]
pub enum LoginOutcome {
    Success { token: String, suid: String },
    EmailNotFound,
    InvalidCredentials,
    InternalError,
}

/// What registration decides, from the records already stored and the
/// request: email shape first, then username uniqueness, then email
/// uniqueness.
pub open spec fn spec_register_outcome(
    s: Seq<UserView>,
    username: Seq<char>,
    email: Seq<char>,
) -> RegisterOutcome {
    if !valid_email(trim_spec(email)) {
        RegisterOutcome::InvalidEmail
    } else if first_with_username(s, username) is Some {
        RegisterOutcome::UsernameTaken
    } else if first_with_email(s, email) is Some {
        RegisterOutcome::EmailTaken
    } else {
        RegisterOutcome::Success
    }
}

/// The account service: the store it owns and the token secret it signs
/// with, injected at construction.
pub struct AccountService {
    pub store: IdentityStore,
    pub secret: Vec<u8>,
}

impl AccountService {
    pub fn new(secret: Vec<u8>) -> (r: AccountService)
        ensures
            r.store@ == Seq::<UserView>::empty(),
            r.secret@ == secret@,
    {
        AccountService { store: IdentityStore::new(), secret }
    }

    /// Registers an account. The outcome is exactly
    /// `spec_register_outcome`; on success one record is appended, with
    /// the given username, display name and email, the credential stored
    /// only as its digest, and fresh internal and public ids.
    pub fn register(
        &mut self,
        username: &str,
        displayname: &str,
        password: &str,
        email: &str,
    ) -> (r: RegisterOutcome)
        ensures
            r == spec_register_outcome(old(self).store@, username@, email@),
            final(self).secret@ == old(self).secret@,
            r != RegisterOutcome::Success ==> final(self).store@ == old(self).store@,
            r == RegisterOutcome::Success ==> final(self).store@.len() == old(self).store@.len()
                + 1 && final(self).store@ == old(self).store@ + seq![final(self).store@.last()]
                && {
                let rec = final(self).store@.last();
                &&& rec.username == username@
                &&& rec.displayname == displayname@
                &&& rec.password == digest_of(password@)
                &&& rec.email == email@
                &&& rec.uid.len() == 36
                &&& rec.suid.len() == 32
                &&& forall|i: int|
                    0 <= i < rec.uid.len() ==> crate::text::is_hex_digit(#[trigger] rec.uid[i])
                        || rec.uid[i] == '-'
                &&& forall|i: int|
                    0 <= i < rec.suid.len() ==> crate::text::is_hex_digit(
                        #[trigger] rec.suid[i],
                    )
            },
    {
        let user = User {
            username: String::from_str(username),
            displayname: String::from_str(displayname),
            password: hash(password),
            email: String::from_str(email),
            uid: generate_uuid(),
            suid: generate_suid(),
        };
        if !check_email(user.email.as_str()) {
            return RegisterOutcome::InvalidEmail;
        }
        if self.store.find_by_username(user.username.as_str()).is_some() {
            return RegisterOutcome::UsernameTaken;
        }
        if self.store.find_by_email(user.email.as_str()).is_some() {
            return RegisterOutcome::EmailTaken;
        }
        let ghost uv = user@;
        self.store.insert(user);
        proof {
            assert(final(self).store@.last() == uv);
        }
        RegisterOutcome::Success
    }

    /// Logs an account in. `EmailNotFound` exactly when no record holds
    /// the email; `InvalidCredentials` exactly when one does but its
    /// digest is not the digest of the given password; otherwise success,
    /// with that record's public id and a signed token that carries its
    /// identity. `InternalError` never occurs here.
    pub fn login(&self, email: &str, password: &str) -> (r: LoginOutcome)
        ensures
            (r is EmailNotFound) <==> (first_with_email(self.store@, email@) is None),
            (r is InvalidCredentials) <==> (first_with_email(self.store@, email@) matches Some(m)
                && m.password != digest_of(password@)),
            !(r is InternalError),
            r matches LoginOutcome::Success { token, suid } ==> {
                let m = first_with_email(self.store@, email@).unwrap();
                &&& m.password == digest_of(password@)
                &&& suid@ == m.suid
                &&& token@.len() >= 2
                &&& (ctrl_free(m.username) && ctrl_free(m.uid) && ctrl_free(m.suid))
                    ==> exists|e: int|
                    2592000 <= e <= usize::MAX && spec_decode(token@, self.secret@) == Some(
                        (m.username, m.uid, m.suid, e),
                    )
            },
    {
        let user = match self.store.find_by_email(email) {
            Some(u) => u,
            None => {
                return LoginOutcome::EmailNotFound;
            },
        };
        let supplied = hash(password);
        if !crate::text::str_eq(user.password.as_str(), supplied.as_str()) {
            return LoginOutcome::InvalidCredentials;
        }
        let claims = UserClaims {
            username: user.username.clone(),
            uid: user.uid.clone(),
            suid: user.suid.clone(),
            exp: crate::user::get_expiration_time(),
        };
        let token = issue_at(&claims, self.secret.as_slice());
        LoginOutcome::Success { token, suid: user.suid.clone() }
    }
}

/// A valid email is never rejected for its shape, whatever is stored.
pub proof fn lemma_valid_email_never_rejected(
    s: Seq<UserView>,
    username: Seq<char>,
    email: Seq<char>,
)
    requires
        valid_email(trim_spec(email)),
    ensures
        spec_register_outcome(s, username, email) != RegisterOutcome::InvalidEmail,
{
}

/// An email with no at-sign is always rejected for its shape.
pub proof fn lemma_missing_at_always_rejected(
    s: Seq<UserView>,
    username: Seq<char>,
    email: Seq<char>,
)
    requires
        forall|i: int| 0 <= i < email.len() ==> email[i] != '@',
    ensures
        spec_register_outcome(s, username, email) == RegisterOutcome::InvalidEmail,
{
    crate::email::lemma_missing_at_rejected(email);
}

/// An email with no dot is always rejected for its shape.
pub proof fn lemma_missing_dot_always_rejected(
    s: Seq<UserView>,
    username: Seq<char>,
    email: Seq<char>,
)
    requires
        forall|i: int| 0 <= i < email.len() ==> email[i] != '.',
    ensures
        spec_register_outcome(s, username, email) == RegisterOutcome::InvalidEmail,
{
    crate::email::lemma_missing_dot_rejected(email);
}

/// Registering a username twice: once a record with that username is
/// stored, a second registration under it, with any valid email, yields
/// `UsernameTaken`.
pub proof fn lemma_reregister_username_taken(
    s: Seq<UserView>,
    rec: UserView,
    email2: Seq<char>,
)
    requires
        valid_email(trim_spec(email2)),
    ensures
        spec_register_outcome(s + seq![rec], rec.username, email2)
            == RegisterOutcome::UsernameTaken,
{
    lemma_first_username_found(s + seq![rec], rec.username, s.len() as int);
}

/// Registering an email twice: once a record with that email is stored, a
/// second registration of it under a username nobody holds yields
/// `EmailTaken`.
pub proof fn lemma_reregister_email_taken(s: Seq<UserView>, rec: UserView, username2: Seq<char>)
    requires
        valid_email(trim_spec(rec.email)),
        first_with_username(s + seq![rec], username2) is None,
    ensures
        spec_register_outcome(s + seq![rec], username2, rec.email) == RegisterOutcome::EmailTaken,
{
    lemma_first_email_found(s + seq![rec], rec.email, s.len() as int);
}

proof fn lemma_first_username_found(s: Seq<UserView>, name: Seq<char>, i: int)
    requires
        0 <= i < s.len(),
        s[i].username == name,
    ensures
        first_with_username(s, name) is Some,
    decreases i,
{
    if s[0].username == name {
    } else {
        assert(i != 0);
        assert(s.skip(1)[i - 1] == s[i]);
        lemma_first_username_found(s.skip(1), name, i - 1);
    }
}

proof fn lemma_first_email_found(s: Seq<UserView>, email: Seq<char>, i: int)
    requires
        0 <= i < s.len(),
        s[i].email == email,
    ensures
        first_with_email(s, email) is Some,
    decreases i,
{
    if s[0].email == email {
    } else {
        assert(i != 0);
        assert(s.skip(1)[i - 1] == s[i]);
        lemma_first_email_found(s.skip(1), email, i - 1);
    }
}

} // verus!
