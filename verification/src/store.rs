//! The identity store: a logical collection of identity records looked up
//! by unique fields. Uniqueness itself is enforced by the account service.
use vstd::prelude::*;
use crate::text::str_eq;
use crate::user::User;

verus! {

/// The mathematical image of one identity record.
pub ghost struct UserView {
    pub username: Seq<char>,
    pub displayname: Seq<char>,
    pub password: Seq<char>,
    pub email: Seq<char>,
    pub uid: Seq<char>,
    pub suid: Seq<char>,
}

impl View for User {
    type V = UserView;

    open spec fn view(&self) -> UserView {
        UserView {
            username: self.username@,
            displayname: self.displayname@,
            password: self.password@,
            email: self.email@,
            uid: self.uid@,
            suid: self.suid@,
        }
    }
}

/// The first record whose username is `name`.
pub open spec fn first_with_username(s: Seq<UserView>, name: Seq<char>) -> Option<UserView>
    decreases s.len(),
{
    if s.len() == 0 {
        None
    } else if s[0].username == name {
        Some(s[0])
    } else {
        first_with_username(s.skip(1), name)
    }
}

/// The first record whose email is `email`.
pub open spec fn first_with_email(s: Seq<UserView>, email: Seq<char>) -> Option<UserView>
    decreases s.len(),
{
    if s.len() == 0 {
        None
    } else if s[0].email == email {
        Some(s[0])
    } else {
        first_with_email(s.skip(1), email)
    }
}

/// The first record whose public id is `suid`.
pub open spec fn first_with_suid(s: Seq<UserView>, suid: Seq<char>) -> Option<UserView>
    decreases s.len(),
{
    if s.len() == 0 {
        None
    } else if s[0].suid == suid {
        Some(s[0])
    } else {
        first_with_suid(s.skip(1), suid)
    }
}

/// The sequence with its first `suid` match removed.
pub open spec fn remove_first_suid(s: Seq<UserView>, suid: Seq<char>) -> Seq<UserView>
    decreases s.len(),
{
    if s.len() == 0 {
        s
    } else if s[0].suid == suid {
        s.skip(1)
    } else {
        seq![s[0]] + remove_first_suid(s.skip(1), suid)
    }
}

/// A collection of identity records, in insertion order.
pub struct IdentityStore {
    users: Vec<User>,
}

impl IdentityStore {
    pub closed spec fn view(&self) -> Seq<UserView> {
        self.users@.map_values(|u: User| u@)
    }

    pub fn new() -> (r: IdentityStore)
        ensures
            r@ == Seq::<UserView>::empty(),
    {
        let r = IdentityStore { users: Vec::new() };
        proof {
            assert(r@ =~= Seq::<UserView>::empty());
        }
        r
    }

    /// How many records are held.
    pub fn count(&self) -> (r: usize)
        ensures
            r == self@.len(),
    {
        self.users.len()
    }

    /// Adds a record at the end; no uniqueness check here.
    pub fn insert(&mut self, user: User)
        ensures
            final(self)@ == old(self)@ + seq![user@],
    {
        let ghost uv = user@;
        self.users.push(user);
        proof {
            assert(self@ =~= old(self)@ + seq![uv]);
        }
    }

    /// The first record registered under this username.
    pub fn find_by_username(&self, name: &str) -> (r: Option<&User>)
        ensures
            (match r {
                Some(u) => first_with_username(self@, name@) == Some(u@),
                None => first_with_username(self@, name@) is None,
            }),
    {
        let mut i: usize = 0;
        proof {
            assert(self@.skip(0) =~= self@);
        }
        while i < self.users.len()
            invariant
                i <= self.users@.len(),
                self@.len() == self.users@.len(),
                first_with_username(self@, name@) == first_with_username(
                    self@.skip(i as int),
                    name@,
                ),
                forall|j: int| 0 <= j < self@.len() ==> #[trigger] self@[j] == self.users@[j]@,
            decreases self.users.len() - i,
        {
            proof {
                assert(self@.skip(i as int)[0] == self@[i as int]);
                assert(self@.skip(i as int).skip(1) =~= self@.skip(i + 1));
            }
            if str_eq(self.users[i].username.as_str(), name) {
                return Some(&self.users[i]);
            }
            i += 1;
        }
        None
    }

    /// The first record registered under this email.
    pub fn find_by_email(&self, email: &str) -> (r: Option<&User>)
        ensures
            (match r {
                Some(u) => first_with_email(self@, email@) == Some(u@),
                None => first_with_email(self@, email@) is None,
            }),
    {
        let mut i: usize = 0;
        proof {
            assert(self@.skip(0) =~= self@);
        }
        while i < self.users.len()
            invariant
                i <= self.users@.len(),
                self@.len() == self.users@.len(),
                first_with_email(self@, email@) == first_with_email(self@.skip(i as int), email@),
                forall|j: int| 0 <= j < self@.len() ==> #[trigger] self@[j] == self.users@[j]@,
            decreases self.users.len() - i,
        {
            proof {
                assert(self@.skip(i as int)[0] == self@[i as int]);
                assert(self@.skip(i as int).skip(1) =~= self@.skip(i + 1));
            }
            if str_eq(self.users[i].email.as_str(), email) {
                return Some(&self.users[i]);
            }
            i += 1;
        }
        None
    }

    /// The first record registered under this public id.
    pub fn find_by_suid(&self, suid: &str) -> (r: Option<&User>)
        ensures
            (match r {
                Some(u) => first_with_suid(self@, suid@) == Some(u@),
                None => first_with_suid(self@, suid@) is None,
            }),
    {
        let mut i: usize = 0;
        proof {
            assert(self@.skip(0) =~= self@);
        }
        while i < self.users.len()
            invariant
                i <= self.users@.len(),
                self@.len() == self.users@.len(),
                first_with_suid(self@, suid@) == first_with_suid(self@.skip(i as int), suid@),
                forall|j: int| 0 <= j < self@.len() ==> #[trigger] self@[j] == self.users@[j]@,
            decreases self.users.len() - i,
        {
            proof {
                assert(self@.skip(i as int)[0] == self@[i as int]);
                assert(self@.skip(i as int).skip(1) =~= self@.skip(i + 1));
            }
            if str_eq(self.users[i].suid.as_str(), suid) {
                return Some(&self.users[i]);
            }
            i += 1;
        }
        None
    }

    /// Every record, in insertion order.
    pub fn all(&self) -> (r: &Vec<User>)
        ensures
            r@.map_values(|u: User| u@) == self@,
    {
        &self.users
    }

    /// Deletes the first record under this public id; how many went.
    pub fn delete_by_suid(&mut self, suid: &str) -> (r: usize)
        ensures
            final(self)@ == remove_first_suid(old(self)@, suid@),
            r == if first_with_suid(old(self)@, suid@) is Some {
                1int
            } else {
                0int
            },
    {
        let mut i: usize = 0;
        proof {
            assert(self@.skip(0) =~= self@);
        }
        while i < self.users.len()
            invariant
                i <= self.users@.len(),
                self@.len() == self.users@.len(),
                self@ == old(self)@,
                forall|k: int| 0 <= k < i ==> #[trigger] self@[k].suid != suid@,
                forall|j: int| 0 <= j < self@.len() ==> #[trigger] self@[j] == self.users@[j]@,
            decreases self.users.len() - i,
        {
            if str_eq(self.users[i].suid.as_str(), suid) {
                self.users.remove(i);
                proof {
                    lemma_remove_first_at(old(self)@, suid@, i as int);
                    assert(self@ =~= old(self)@.subrange(0, i as int) + old(self)@.skip(i + 1));
                }
                return 1;
            }
            i += 1;
        }
        proof {
            lemma_remove_first_none(self@, suid@);
        }
        0
    }

    /// Deletes every record; how many went.
    pub fn delete_all(&mut self) -> (r: usize)
        ensures
            final(self)@ == Seq::<UserView>::empty(),
            r == old(self)@.len(),
    {
        let n = self.users.len();
        self.users = Vec::new();
        proof {
            assert(self@ =~= Seq::<UserView>::empty());
        }
        n
    }
}

proof fn lemma_remove_first_at(s: Seq<UserView>, suid: Seq<char>, i: int)
    requires
        0 <= i < s.len(),
        s[i].suid == suid,
        forall|k: int| 0 <= k < i ==> #[trigger] s[k].suid != suid,
    ensures
        remove_first_suid(s, suid) == s.subrange(0, i) + s.skip(i + 1),
        first_with_suid(s, suid) == Some(s[i]),
    decreases i,
{
    if i == 0 {
        assert(remove_first_suid(s, suid) == s.skip(1));
        assert(s.subrange(0, 0) + s.skip(1) =~= s.skip(1));
    } else {
        assert(s[0].suid != suid);
        assert(s.skip(1)[i - 1] == s[i]);
        assert(forall|k: int| 0 <= k < i - 1 ==> #[trigger] s.skip(1)[k] == s[k + 1] && s[k
            + 1].suid != suid);
        lemma_remove_first_at(s.skip(1), suid, i - 1);
        assert(s.skip(1).subrange(0, i - 1) =~= s.subrange(1, i));
        assert(s.skip(1).skip(i) =~= s.skip(i + 1));
        assert(seq![s[0]] + (s.subrange(1, i) + s.skip(i + 1)) =~= s.subrange(0, i) + s.skip(
            i + 1,
        ));
    }
}

proof fn lemma_remove_first_none(s: Seq<UserView>, suid: Seq<char>)
    requires
        forall|k: int| 0 <= k < s.len() ==> #[trigger] s[k].suid != suid,
    ensures
        remove_first_suid(s, suid) == s,
        first_with_suid(s, suid) is None,
    decreases s.len(),
{
    if s.len() > 0 {
        assert(forall|k: int| 0 <= k < s.skip(1).len() ==> #[trigger] s.skip(1)[k] == s[k + 1]
            && s[k + 1].suid != suid);
        lemma_remove_first_none(s.skip(1), suid);
        assert(seq![s[0]] + s.skip(1) =~= s);
    }
}

} // verus!
