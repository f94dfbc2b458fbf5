//! The saved user list: one entry, a name and an email, per saved user.

use vstd::prelude::*;
use crate::text::join;
use crate::user::{User, UserView, email_of, name_of, single};

verus! {

broadcast use vstd::string::group_string_axioms;

/// One saved user.
#[derive(Clone, Debug)]
pub struct UserEntry {
    pub name: String,
    pub email: String,
}

/// The saved users, in the order they were saved.
pub struct UserFile {
    entries: Vec<UserEntry>,
}

/// The views of saved entries.
pub open spec fn entries_view(v: Seq<UserEntry>) -> Seq<(Seq<char>, Seq<char>)> {
    v.map_values(|e: UserEntry| (e.name@, e.email@))
}

/// The users that saved entries stand for.
pub open spec fn entry_users(es: Seq<(Seq<char>, Seq<char>)>) -> Seq<UserView> {
    es.map_values(|e: (Seq<char>, Seq<char>)| single(e.0, e.1))
}

/// The saved entry of a user.
pub open spec fn entry_of(u: UserView) -> (Seq<char>, Seq<char>) {
    (name_of(u), email_of(u))
}

/// A user as it reads back from its saved entry.
pub open spec fn stored(u: UserView) -> UserView {
    single(name_of(u), email_of(u))
}

/// The views of users.
pub open spec fn users_view(s: Seq<User>) -> Seq<UserView> {
    s.map_values(|u: User| u@)
}

impl View for UserFile {
    type V = Seq<(Seq<char>, Seq<char>)>;

    closed spec fn view(&self) -> Seq<(Seq<char>, Seq<char>)> {
        entries_view(self.entries@)
    }
}

impl UserFile {
    /// The saved users that `entries` hold.
    pub fn new(entries: Vec<UserEntry>) -> (f: UserFile)
        ensures
            f@ == entries_view(entries@),
    {
        UserFile { entries }
    }

    /// The saved entries, for storing them.
    pub fn entries(&self) -> (r: &Vec<UserEntry>)
        ensures
            entries_view(r@) == self@,
    {
        &self.entries
    }

    /// Saves `user` after the others, by the name and the email Git is given.
    pub fn write(&mut self, user: &User)
        ensures
            final(self)@ == old(self)@.push(entry_of(user@)),
    {
        let entry = UserEntry { name: user.name(), email: user.email() };
        self.entries.push(entry);
        assert(entries_view(self.entries@) == entries_view(old(self).entries@).push(
            (name_of(user@), email_of(user@)),
        ));
    }

    /// The saved users, in order.
    pub fn read(&self) -> (r: Vec<User>)
        ensures
            users_view(r@) == entry_users(self@),
    {
        let mut r: Vec<User> = Vec::new();
        let mut i: usize = 0;
        while i < self.entries.len()
            invariant
                i <= self.entries@.len(),
                users_view(r@) == entry_users(self@).take(i as int),
            decreases self.entries@.len() - i,
        {
            let e = &self.entries[i];
            let ghost old_r = r@;
            r.push(User::new(e.name.as_str(), e.email.as_str()));
            assert(users_view(r@) == users_view(old_r).push(entry_users(self@)[i as int]));
            assert(entry_users(self@).take(i + 1) == entry_users(self@).take(i as int).push(
                entry_users(self@)[i as int],
            ));
            i = i + 1;
        }
        assert(entry_users(self@).take(self.entries@.len() as int) == entry_users(self@));
        r
    }
}

/// What is read back after saving `u`: the users read before, then `u` as saved, which
/// is `u` itself for a user with one name and one email.
pub proof fn law_read_after_write(entries: Seq<(Seq<char>, Seq<char>)>, u: UserView)
    ensures
        entry_users(entries.push(entry_of(u))) == entry_users(entries).push(stored(u)),
        u.names.len() == 1 && u.emails.len() == 1 && u.group_email is None ==> stored(u) == u,
{
    assert(entry_users(entries.push(entry_of(u))) == entry_users(entries).push(stored(u)));
    if u.names.len() == 1 && u.emails.len() == 1 && u.group_email is None {
        assert(u.names == seq![u.names[0]]);
        assert(join(u.names, " and "@) == u.names[0]);
        assert(u.emails == seq![u.emails[0]]);
    }
}

} // verus!
