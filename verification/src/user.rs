//! A Git user, or several users pairing: parsing `Name <email>`, combining users,
//! and the name, email and initials that Git is given.

use vstd::prelude::*;
use crate::text::{
    is_ws, trim_end, trim_start, char_vec, clone_strings, find_char, find_char_from, first_index, index_from, join, join_strings,
    lemma_words_from_nonempty, lowercase, push_char, split_words, to_lowercase, trim, trim_str, views,
    words,
};

verus! {

broadcast use vstd::string::group_string_axioms;

/// A user, or several users pairing, or nobody when both lists are empty.
#[derive(Clone, Debug)]
pub struct User {
    pub names: Vec<String>,
    pub emails: Vec<String>,
    group_email: Option<String>,
}

/// What a `User` holds, as sequences of characters.
pub ghost struct UserView {
    pub names: Seq<Seq<char>>,
    pub emails: Seq<Seq<char>>,
    pub group_email: Option<Seq<char>>,
}

impl View for User {
    type V = UserView;

    closed spec fn view(&self) -> UserView {
        UserView {
            names: views(self.names@),
            emails: views(self.emails@),
            group_email: match self.group_email {
                Some(g) => Some(g@),
                None => None,
            },
        }
    }
}

/// The view of a user with one name and one email.
pub open spec fn single(name: Seq<char>, email: Seq<char>) -> UserView {
    UserView { names: seq![name], emails: seq![email], group_email: None }
}

/// The view of nobody.
pub open spec fn nobody() -> UserView {
    UserView { names: seq![], emails: seq![], group_email: None }
}

/// No name and no email.
pub open spec fn is_nobody(u: UserView) -> bool {
    u.names.len() == 0 && u.emails.len() == 0
}

/// The name Git is given: the names joined with " and ", or "(none)" for nobody.
pub open spec fn name_of(u: UserView) -> Seq<char> {
    if is_nobody(u) {
        "(none)"@
    } else {
        join(u.names, " and "@)
    }
}

/// The part of an address before its first '@' (all of it when there is none).
pub open spec fn local_part(e: Seq<char>) -> Seq<char> {
    e.take(first_index(e, '@'))
}

/// The part of an address between its first '@' and the next one,
/// or "example.com" when it has no '@'.
pub open spec fn domain_part(e: Seq<char>) -> Seq<char> {
    let at = first_index(e, '@');
    if at == e.len() {
        "example.com"@
    } else {
        e.subrange(at + 1, index_from(e, '@', at + 1))
    }
}

/// The group address used for pairs when none was given.
pub open spec fn default_group_email() -> Seq<char> {
    "dev@example.com"@
}

/// The email Git is given: the only email of a single user, empty for nobody, and
/// for a pair `group+first+second@domain`, from the local parts of the emails and
/// of the group address.
pub open spec fn email_of(u: UserView) -> Seq<char> {
    if u.emails.len() == 0 {
        seq![]
    } else if u.emails.len() == 1 {
        u.emails[0]
    } else {
        let group = match u.group_email {
            Some(g) => g,
            None => default_group_email(),
        };
        local_part(group) + "+"@ + join(u.emails.map_values(|e: Seq<char>| local_part(e)), "+"@)
            + "@"@ + domain_part(group)
    }
}

/// The first characters of non-empty words.
pub open spec fn first_chars(ws: Seq<Seq<char>>) -> Seq<char> {
    Seq::new(ws.len(), |i: int| ws[i][0])
}

/// The initials: the first character of every word of the names, in lower case.
pub open spec fn initials_of(u: UserView) -> Seq<char> {
    lowercase(first_chars(words(join(u.names, " "@))))
}

/// How a user is shown: `Name <email>`.
pub open spec fn display_of(u: UserView) -> Seq<char> {
    name_of(u) + " <"@ + email_of(u) + ">"@
}

/// Two users are the same when Git would be given the same name and email.
pub open spec fn same_user(a: UserView, b: UserView) -> bool {
    name_of(a) == name_of(b) && email_of(a) == email_of(b)
}

/// The name and email that `parse` reads from `s`, if it reads any: after trimming,
/// `s` must end with the first '>', which must come after the first '<'; the trimmed
/// text before '<' is the name and the trimmed text between the brackets the email,
/// and neither may be empty.
pub open spec fn parse_fields(s: Seq<char>) -> Option<(Seq<char>, Seq<char>)> {
    let t = trim(s);
    let open = first_index(t, '<');
    let close = first_index(t, '>');
    if open < close && close == t.len() - 1 {
        let name = trim(t.subrange(0, open));
        let email = trim(t.subrange(open + 1, close));
        if name.len() > 0 && email.len() > 0 {
            Some((name, email))
        } else {
            None
        }
    } else {
        None
    }
}

/// `a` pairing with `b`, when `a` pairs with `b` in a group with the address `group`.
pub open spec fn combine_view(a: UserView, b: UserView, group: Seq<char>) -> UserView {
    if is_nobody(a) {
        b
    } else if is_nobody(b) {
        a
    } else {
        UserView { names: a.names + b.names, emails: a.emails + b.emails, group_email: Some(group) }
    }
}

/// A string that `User::parse` refused; `input` is the trimmed string.
#[derive(Debug)]
pub struct ParseError {
    pub input: String,
}

impl ParseError {
    /// The message shown for the refused string.
    pub fn to_string(&self) -> (r: String)
        ensures
            r@ == "Couldn't parse '"@ + self.input@
                + "' as user (expected user in format: 'Jane Doe <jane@example.com>')"@,
    {
        let mut r = String::new();
        r.append("Couldn't parse '");
        r.append(self.input.as_str());
        r.append("' as user (expected user in format: 'Jane Doe <jane@example.com>')");
        r
    }
}

impl User {
    /// A user with one name and one email.
    pub fn new(name: &str, email: &str) -> (u: User)
        ensures
            u@ == single(name@, email@),
    {
        let mut names: Vec<String> = Vec::new();
        names.push(name.to_string());
        let mut emails: Vec<String> = Vec::new();
        emails.push(email.to_string());
        let u = User { names, emails, group_email: None };
        assert(u@.names == seq![name@]);
        assert(u@.emails == seq![email@]);
        u
    }

    /// Reads `Name <email@example.com>`.
    pub fn parse(s: &str) -> (r: Result<User, ParseError>)
        ensures
            match r {
                Ok(u) => parse_fields(s@) matches Some((n, e)) && u@ == single(n, e),
                Err(err) => parse_fields(s@) is None && err.input@ == trim(s@),
            },
    {
        let t = trim_str(s);
        let v = char_vec(t.as_str());
        let open = find_char(&v, '<');
        let close = find_char(&v, '>');
        if open < close && close < v.len() && close == v.len() - 1 {
            let name = trim_str(t.as_str().substring_char(0, open));
            let email = trim_str(t.as_str().substring_char(open + 1, close));
            if !name.as_str().is_empty() && !email.as_str().is_empty() {
                return Ok(User::new(name.as_str(), email.as_str()));
            }
        }
        Err(ParseError { input: t })
    }

    /// Nobody.
    pub fn none() -> (u: User)
        ensures
            u@ == nobody(),
    {
        let u = User { names: Vec::new(), emails: Vec::new(), group_email: None };
        assert(u@.names == Seq::<Seq<char>>::empty());
        assert(u@.emails == Seq::<Seq<char>>::empty());
        u
    }

    /// The name Git is given.
    pub fn name(&self) -> (r: String)
        ensures
            r@ == name_of(self@),
    {
        if self.is_none() {
            return "(none)".to_string();
        }
        join_strings(&self.names, " and ")
    }

    /// The email Git is given.
    pub fn email(&self) -> (r: String)
        ensures
            r@ == email_of(self@),
    {
        if self.emails.len() == 0 {
            return String::new();
        }
        if self.emails.len() == 1 {
            return self.emails[0].clone();
        }
        let group: String = match &self.group_email {
            Some(g) => g.clone(),
            None => "dev@example.com".to_string(),
        };
        let gv = char_vec(group.as_str());
        let at = find_char(&gv, '@');
        let domain: String = if at == gv.len() {
            "example.com".to_string()
        } else {
            let end = find_char_from(&gv, '@', at + 1);
            group.as_str().substring_char(at + 1, end).to_string()
        };
        let mut locals: Vec<String> = Vec::new();
        let mut i: usize = 0;
        while i < self.emails.len()
            invariant
                i <= self.emails@.len(),
                views(locals@) == self@.emails.take(i as int).map_values(
                    |e: Seq<char>| local_part(e),
                ),
            decreases self.emails@.len() - i,
        {
            let ev = char_vec(self.emails[i].as_str());
            let end = find_char(&ev, '@');
            let ghost old_locals = locals@;
            locals.push(self.emails[i].as_str().substring_char(0, end).to_string());
            assert(views(locals@) == views(old_locals).push(local_part(self@.emails[i as int])));
            assert(self@.emails.take(i + 1) == self@.emails.take(i as int).push(
                self@.emails[i as int],
            ));
            i = i + 1;
        }
        assert(self@.emails.take(self.emails@.len() as int) == self@.emails);
        let mut r = String::new();
        r.append(group.as_str().substring_char(0, at));
        r.append("+");
        r.append(join_strings(&locals, "+").as_str());
        r.append("@");
        r.append(domain.as_str());
        r
    }

    /// The initials, in lower case.
    pub fn initials(&self) -> (r: String)
        ensures
            r@ == initials_of(self@),
    {
        let joined = join_strings(&self.names, " ");
        let ws = split_words(joined.as_str());
        proof {
            lemma_words_from_nonempty(joined@, 0);
            assert forall|k: int| 0 <= k < ws@.len() implies #[trigger] ws@[k]@.len() > 0 by {
                assert(views(ws@)[k] == ws@[k]@);
            }
        }
        let mut firsts = String::new();
        let mut i: usize = 0;
        while i < ws.len()
            invariant
                i <= ws@.len(),
                views(ws@) == words(joined@),
                forall|k: int| 0 <= k < ws@.len() ==> #[trigger] ws@[k]@.len() > 0,
                firsts@ == first_chars(views(ws@).take(i as int)),
            decreases ws@.len() - i,
        {
            assert(views(ws@)[i as int] == ws@[i as int]@);
            let c = ws[i].as_str().get_char(0);
            push_char(&mut firsts, c);
            assert(first_chars(views(ws@).take(i + 1)) == first_chars(views(ws@).take(i as int)).push(c));
            i = i + 1;
        }
        assert(views(ws@).take(ws@.len() as int) == views(ws@));
        to_lowercase(firsts.as_str())
    }

    /// Whether this is nobody.
    pub fn is_none(&self) -> (r: bool)
        ensures
            r == is_nobody(self@),
    {
        self.names.len() == 0 && self.emails.len() == 0
    }

    /// A copy of this user.
    pub fn duplicate(&self) -> (r: User)
        ensures
            r@ == self@,
    {
        let group_email = match &self.group_email {
            Some(g) => Some(g.clone()),
            None => None,
        };
        User { names: clone_strings(&self.names), emails: clone_strings(&self.emails), group_email }
    }

    /// This user pairing with `other`; nobody leaves the other unchanged, and a pair
    /// takes `group_email` as its group address.
    pub fn combine(self, other: &User, group_email: &str) -> (r: User)
        ensures
            r@ == combine_view(self@, other@, group_email@),
    {
        if self.is_none() {
            return other.duplicate();
        }
        if other.is_none() {
            return self;
        }
        let mut names = self.names;
        let mut more_names = clone_strings(&other.names);
        names.append(&mut more_names);
        let mut emails = self.emails;
        let mut more_emails = clone_strings(&other.emails);
        emails.append(&mut more_emails);
        let r = User { names, emails, group_email: Some(group_email.to_string()) };
        assert(r@.names == self@.names + other@.names);
        assert(r@.emails == self@.emails + other@.emails);
        r
    }

    /// `Name <email>`.
    pub fn to_string(&self) -> (r: String)
        ensures
            r@ == display_of(self@),
    {
        let mut r = self.name();
        r.append(" <");
        r.append(self.email().as_str());
        r.append(">");
        r
    }

    /// Whether Git would be given the same name and email for both users.
    pub fn same_as(&self, other: &User) -> (r: bool)
        ensures
            r == same_user(self@, other@),
    {
        self.name() == other.name() && self.email() == other.email()
    }
}

/// `index_from` stops at the first `c` from `i` on.
proof fn lemma_index_at(s: Seq<char>, c: char, i: int, k: int)
    requires
        0 <= i <= k < s.len(),
        s[k] == c,
        forall|j: int| i <= j < k ==> s[j] != c,
    ensures
        index_from(s, c, i) == k,
    decreases k - i,
{
    if i < k {
        lemma_index_at(s, c, i + 1, k);
    }
}

/// A text without white space at either end is its own trim.
proof fn lemma_trim_unchanged(s: Seq<char>)
    requires
        s.len() > 0,
        !is_ws(s[0]),
        !is_ws(s.last()),
    ensures
        trim(s) == s,
{
}

/// Joining a single part gives that part.
proof fn lemma_join_one(p: Seq<char>, sep: Seq<char>)
    ensures
        join(seq![p], sep) == p,
{
}

/// A name and an email without white space at their ends, with no angle bracket in
/// the name and no '>' in the email, are read back from `Name <email>`.
pub proof fn law_parse_reads_back_display(n: Seq<char>, e: Seq<char>)
    requires
        n.len() > 0,
        e.len() > 0,
        !is_ws(n[0]),
        !is_ws(n.last()),
        !is_ws(e[0]),
        !is_ws(e.last()),
        !n.contains('<'),
        !n.contains('>'),
        !e.contains('>'),
    ensures
        parse_fields(display_of(single(n, e))) == Some((n, e)),
{
    reveal_strlit(" <");
    reveal_strlit(">");
    reveal_strlit(" ");
    lemma_join_one(n, " and "@);
    let d = display_of(single(n, e));
    assert(name_of(single(n, e)) == n);
    assert(email_of(single(n, e)) == e);
    assert(d == n + " <"@ + e + ">"@);
    let len: int = d.len() as int;
    assert(len == n.len() + e.len() + 3);
    assert(d[0] == n[0]);
    assert(d[len - 1] == '>');
    lemma_trim_unchanged(d);
    let open: int = n.len() as int + 1;
    let close: int = len - 1;
    assert forall|j: int| 0 <= j < open implies d[j] != '<' by {
        if j < n.len() {
            assert(d[j] == n[j]);
        }
    }
    assert(d[open] == '<');
    lemma_index_at(d, '<', 0, open);
    assert forall|j: int| 0 <= j < close implies d[j] != '>' by {
        if j < n.len() {
            assert(d[j] == n[j]);
        } else if j > open {
            assert(d[j] == e[j - open - 1]);
        }
    }
    lemma_index_at(d, '>', 0, close);
    let before = d.subrange(0, open);
    assert(before == n.push(' '));
    assert(before.drop_last() == n);
    assert(trim_start(before) == before);
    assert(trim_end(before) == trim_end(n));
    lemma_trim_unchanged(n);
    assert(trim_start(n) == n);
    assert(trim(before) == n);
    assert(d.subrange(open + 1, close) == e);
    lemma_trim_unchanged(e);
}

/// Pairing with nobody leaves a user as it is: nobody pairing with a user gives that
/// user, and a user who is somebody pairing with nobody gives that user.
pub proof fn law_nobody_is_neutral(u: UserView, group: Seq<char>, other: UserView)
    requires
        is_nobody(other),
    ensures
        combine_view(other, u, group) == u,
        !is_nobody(u) ==> combine_view(u, other, group) == u,
{
}

/// Two users pairing are named `A and B` and get the address
/// `group+a+b@domain`, from the local parts of their addresses and of the group address.
pub proof fn law_pair_name_and_email(n1: Seq<char>, e1: Seq<char>, n2: Seq<char>, e2: Seq<char>, group: Seq<char>)
    ensures
        name_of(combine_view(single(n1, e1), single(n2, e2), group)) == n1
            + " and "@ + n2,
        email_of(combine_view(single(n1, e1), single(n2, e2), group))
            == local_part(group) + "+"@ + local_part(e1) + "+"@ + local_part(e2) + "@"@
            + domain_part(group),
{
    let p = combine_view(single(n1, e1), single(n2, e2), group);
    assert(p.names == seq![n1, n2]);
    assert(p.names.drop_last() == seq![n1]);
    lemma_join_one(n1, " and "@);
    assert(join(p.names, " and "@) == join(seq![n1], " and "@) + " and "@ + n2);
    assert(p.emails == seq![e1, e2]);
    let locals = p.emails.map_values(|e: Seq<char>| local_part(e));
    assert(locals == seq![local_part(e1), local_part(e2)]);
    assert(locals.drop_last() == seq![local_part(e1)]);
    lemma_join_one(local_part(e1), "+"@);
    assert(join(locals, "+"@) == local_part(e1) + "+"@ + local_part(e2));
    assert(p.group_email == Some(group));
}

/// With no `c` from `i` on, `index_from` reaches the end.
proof fn lemma_index_absent(s: Seq<char>, c: char, i: int)
    requires
        0 <= i <= s.len(),
        forall|j: int| i <= j < s.len() ==> s[j] != c,
    ensures
        index_from(s, c, i) == s.len(),
{
    crate::text::lemma_index_from(s, c, i);
}

/// The local part of an address is all of its text before the first '@', whatever
/// other characters that text holds, and all of the address when it has no '@'.
pub proof fn law_local_part_is_text_before_at(p: Seq<char>, d: Seq<char>)
    requires
        !p.contains('@'),
    ensures
        local_part(p + "@"@ + d) == p,
        local_part(p) == p,
{
    reveal_strlit("@");
    let e = p + "@"@ + d;
    assert forall|j: int| 0 <= j < p.len() implies e[j] != '@' by {
        assert(e[j] == p[j]);
    }
    assert(e[p.len() as int] == '@');
    lemma_index_at(e, '@', 0, p.len() as int);
    assert(e.take(p.len() as int) == p);
    lemma_index_absent(p, '@', 0);
    assert(p.take(p.len() as int) == p);
}

/// Two users with addresses `p1@d1` and `p2@d2` pairing in a group `gp@gd` (no '@'
/// in the parts) get the address `gp+p1+p2@gd`: the whole local parts of the three
/// addresses, and the group's domain.
pub proof fn law_pair_email_from_address_parts(
    n1: Seq<char>,
    p1: Seq<char>,
    d1: Seq<char>,
    n2: Seq<char>,
    p2: Seq<char>,
    d2: Seq<char>,
    gp: Seq<char>,
    gd: Seq<char>,
)
    requires
        !p1.contains('@'),
        !p2.contains('@'),
        !gp.contains('@'),
        !gd.contains('@'),
    ensures
        email_of(combine_view(single(n1, p1 + "@"@ + d1), single(n2, p2 + "@"@ + d2), gp + "@"@ + gd))
            == gp + "+"@ + p1 + "+"@ + p2 + "@"@ + gd,
{
    reveal_strlit("@");
    law_local_part_is_text_before_at(p1, d1);
    law_local_part_is_text_before_at(p2, d2);
    law_local_part_is_text_before_at(gp, gd);
    law_pair_name_and_email(n1, p1 + "@"@ + d1, n2, p2 + "@"@ + d2, gp + "@"@ + gd);
    let g = gp + "@"@ + gd;
    let at = first_index(g, '@');
    assert forall|j: int| 0 <= j < gp.len() implies g[j] != '@' by {
        assert(g[j] == gp[j]);
    }
    lemma_index_at(g, '@', 0, gp.len() as int);
    assert(at == gp.len());
    assert forall|j: int| at + 1 <= j < g.len() implies g[j] != '@' by {
        assert(g[j] == gd[j - at - 1]);
    }
    lemma_index_absent(g, '@', at + 1);
    assert(g.subrange(at + 1, g.len() as int) == gd);
    assert(domain_part(g) == gd);
}

/// A user is the same as the user read back from its saved entry.
pub proof fn lemma_stored_same(u: UserView)
    ensures
        same_user(single(name_of(u), email_of(u)), u),
{
    lemma_join_one(name_of(u), " and "@);
    assert(single(name_of(u), email_of(u)).emails == seq![email_of(u)]);
}

/// Being the same user is an equivalence.
pub proof fn law_same_user_is_equivalence(a: UserView, b: UserView, c: UserView)
    ensures
        same_user(a, a),
        same_user(a, b) ==> same_user(b, a),
        same_user(a, b) && same_user(b, c) ==> same_user(a, c),
{
}

impl PartialEq for User {
    fn eq(&self, other: &User) -> (r: bool) {
        self.same_as(other)
    }
}

impl vstd::std_specs::cmp::PartialEqSpecImpl for User {
    open spec fn obeys_eq_spec() -> bool {
        true
    }

    open spec fn eq_spec(&self, other: &User) -> bool {
        same_user(self@, other@)
    }
}

impl Eq for User {

}

} // verus!
