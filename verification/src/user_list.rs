//! The saved users, and the search that finds users by initials, name or email.

use vstd::prelude::*;
use crate::text::{
    char_vec, contains, contains_chars, join, join_strings, lowercase, split_words, starts_with,
    starts_with_chars, to_lowercase, views, words,
};
use crate::user::{User, UserView, email_of, initials_of, name_of, same_user};
use crate::user_file::{UserFile, entry_users, users_view};

verus! {

broadcast use vstd::string::group_string_axioms;

/// Whether `u` answers to the search term `term`. In lower case, the term must equal a
/// word of the name, or begin a word of the name, or begin with such a word, or stand
/// in the initials, in the name or in the email.
pub open spec fn matches(u: UserView, term: Seq<char>) -> bool {
    let t = lowercase(term);
    let name = name_of(u);
    let lname = lowercase(name);
    ||| exists|k: int| 0 <= k < words(name).len() && lowercase(#[trigger] words(name)[k]) == t
    ||| exists|k: int|
        0 <= k < words(lname).len() && (starts_with(#[trigger] words(lname)[k], t) || starts_with(
            t,
            lowercase(words(lname)[k]),
        ))
    ||| contains(initials_of(u), t)
    ||| contains(lname, t)
    ||| contains(lowercase(email_of(u)), t)
}

/// The users of `s` that answer to `term`, in order.
pub open spec fn answering(s: Seq<UserView>, term: Seq<char>) -> Seq<UserView>
    decreases s.len(),
{
    if s.len() == 0 {
        seq![]
    } else if matches(s.last(), term) {
        answering(s.drop_last(), term).push(s.last())
    } else {
        answering(s.drop_last(), term)
    }
}

/// `s` without the users that are the same as the user kept just before them.
pub open spec fn dedup(s: Seq<UserView>) -> Seq<UserView>
    decreases s.len(),
{
    if s.len() <= 1 {
        s
    } else if same_user(dedup(s.drop_last()).last(), s.last()) {
        dedup(s.drop_last())
    } else {
        dedup(s.drop_last()).push(s.last())
    }
}

/// The users of `all` that answer to `term`, without neighbouring repeats.
pub open spec fn matching(all: Seq<UserView>, term: Seq<char>) -> Seq<UserView> {
    dedup(answering(all, term))
}

/// Some user of `c` is the same as `u`.
pub open spec fn in_users(c: Seq<UserView>, u: UserView) -> bool {
    exists|i: int| 0 <= i < c.len() && same_user(#[trigger] c[i], u)
}

/// `c` extended by each user of `m` that it does not hold yet, in the order of `m`.
pub open spec fn extend_one(c: Seq<UserView>, m: Seq<UserView>) -> Seq<Seq<UserView>>
    decreases m.len(),
{
    if m.len() == 0 {
        seq![]
    } else if in_users(c, m.last()) {
        extend_one(c, m.drop_last())
    } else {
        extend_one(c, m.drop_last()).push(c.push(m.last()))
    }
}

/// Every combination of `cs` extended by the users of `m`, in order.
pub open spec fn extend_all(cs: Seq<Seq<UserView>>, m: Seq<UserView>) -> Seq<Seq<UserView>>
    decreases cs.len(),
{
    if cs.len() == 0 {
        seq![]
    } else {
        extend_all(cs.drop_last(), m) + extend_one(cs.last(), m)
    }
}

/// The combinations that pick one user for each term from its matches, no user twice,
/// in the order given by the matches of the first term, then the second, and so on.
pub open spec fn combos(ms: Seq<Seq<UserView>>) -> Seq<Seq<UserView>>
    decreases ms.len(),
{
    if ms.len() == 0 {
        seq![seq![]]
    } else {
        extend_all(combos(ms.drop_last()), ms.last())
    }
}

/// `c` picks, for each `i`, a user of `ms[i]`, and no two of them are the same.
pub open spec fn distinct_selection(ms: Seq<Seq<UserView>>, c: Seq<UserView>) -> bool {
    &&& c.len() == ms.len()
    &&& forall|i: int| 0 <= i < c.len() ==> ms[i].contains(#[trigger] c[i])
    &&& forall|i: int, j: int|
        0 <= i < j < c.len() ==> !same_user(#[trigger] c[i], #[trigger] c[j])
}

/// The first combination, if there is any.
pub open spec fn first_combination(ms: Seq<Seq<UserView>>) -> Option<Seq<UserView>> {
    if combos(ms).len() > 0 {
        Some(combos(ms)[0])
    } else {
        None
    }
}

/// `t` between single quotes.
pub open spec fn quoted(t: Seq<char>) -> Seq<char> {
    "'"@ + t + "'"@
}

/// The first index from `i` on of a term that no user of `all` answers to, or
/// `terms.len()` when there is none.
pub open spec fn first_unmatched(all: Seq<UserView>, terms: Seq<Seq<char>>, i: int) -> int
    decreases terms.len() - i,
{
    if i < 0 || i >= terms.len() {
        terms.len() as int
    } else if matching(all, terms[i]).len() == 0 {
        i
    } else {
        first_unmatched(all, terms, i + 1)
    }
}

/// The matches of every term.
pub open spec fn matches_per_term(all: Seq<UserView>, terms: Seq<Seq<char>>) -> Seq<
    Seq<UserView>,
> {
    terms.map_values(|t: Seq<char>| matching(all, t))
}

/// What a search of `all` for `terms` gives: no users for no terms; an error naming the
/// first term that nobody answers to; else the first combination of distinct users,
/// one for each term, or an error naming all the terms when there is none.
pub open spec fn find_result(all: Seq<UserView>, terms: Seq<Seq<char>>) -> Result<
    Seq<UserView>,
    Seq<char>,
> {
    if terms.len() == 0 {
        Ok(seq![])
    } else if first_unmatched(all, terms, 0) < terms.len() {
        Err("No user found matching '"@ + terms[first_unmatched(all, terms, 0)] + "'"@)
    } else {
        match first_combination(matches_per_term(all, terms)) {
            Some(c) => Ok(c),
            None => Err(
                "Couldn't find a combination of users matching "@ + join(
                    terms.map_values(|t: Seq<char>| quoted(t)),
                    ", "@,
                ),
            ),
        }
    }
}

/// The views of lists of users.
pub open spec fn lists_view(s: Seq<Vec<User>>) -> Seq<Seq<UserView>> {
    s.map_values(|c: Vec<User>| users_view(c@))
}

/// The saved users, with the search over them.
pub struct UserList {
    user_file: UserFile,
}

impl View for UserList {
    type V = Seq<(Seq<char>, Seq<char>)>;

    closed spec fn view(&self) -> Seq<(Seq<char>, Seq<char>)> {
        self.user_file@
    }
}

/// Whether `u` answers to `term`.
fn matches_term(u: &User, term: &str) -> (r: bool)
    ensures
        r == matches(u@, term@),
{
    let t = to_lowercase(term);
    let tv = char_vec(t.as_str());
    let name = u.name();
    let ws = split_words(name.as_str());
    let mut k: usize = 0;
    while k < ws.len()
        invariant
            k <= ws@.len(),
            views(ws@) == words(name@),
            name@ == name_of(u@),
            t@ == lowercase(term@),
            forall|j: int| 0 <= j < k ==> lowercase(#[trigger] words(name@)[j]) != t@,
        decreases ws@.len() - k,
    {
        assert(views(ws@)[k as int] == ws@[k as int]@);
        let lw = to_lowercase(ws[k].as_str());
        if lw == t {
            assert(lowercase(words(name_of(u@))[k as int]) == lowercase(term@));
            assert(0 <= k < words(name_of(u@)).len());
            return true;
        }
        k = k + 1;
    }
    let lname = to_lowercase(name.as_str());
    let lws = split_words(lname.as_str());
    let mut k: usize = 0;
    while k < lws.len()
        invariant
            k <= lws@.len(),
            views(lws@) == words(lname@),
            tv@ == t@,
            name@ == name_of(u@),
            lname@ == lowercase(name@),
            t@ == lowercase(term@),
            forall|j: int|
                0 <= j < k ==> !(starts_with(#[trigger] words(lname@)[j], t@) || starts_with(
                    t@,
                    lowercase(words(lname@)[j]),
                )),
        decreases lws@.len() - k,
    {
        assert(views(lws@)[k as int] == lws@[k as int]@);
        let wv = char_vec(lws[k].as_str());
        let lw = to_lowercase(lws[k].as_str());
        let lwv = char_vec(lw.as_str());
        if starts_with_chars(&wv, &tv) || starts_with_chars(&tv, &lwv) {
            let ghost ln = lowercase(name_of(u@));
            assert(0 <= k < words(ln).len());
            assert(starts_with(words(ln)[k as int], lowercase(term@)) || starts_with(
                lowercase(term@),
                lowercase(words(ln)[k as int]),
            ));
            return true;
        }
        k = k + 1;
    }
    let ini = u.initials();
    if contains_chars(&char_vec(ini.as_str()), &tv) {
        return true;
    }
    if contains_chars(&char_vec(lname.as_str()), &tv) {
        return true;
    }
    let le = to_lowercase(u.email().as_str());
    contains_chars(&char_vec(le.as_str()), &tv)
}

/// The users of `all` that answer to `term`, in order.
fn answering_users(all: &Vec<User>, term: &str) -> (r: Vec<User>)
    ensures
        users_view(r@) == answering(users_view(all@), term@),
{
    let mut r: Vec<User> = Vec::new();
    let mut i: usize = 0;
    while i < all.len()
        invariant
            i <= all@.len(),
            users_view(r@) == answering(users_view(all@).take(i as int), term@),
        decreases all@.len() - i,
    {
        let ghost prefix = users_view(all@).take(i + 1);
        assert(prefix.drop_last() == users_view(all@).take(i as int));
        assert(prefix.last() == all@[i as int]@);
        if matches_term(&all[i], term) {
            let ghost old_r = r@;
            r.push(all[i].duplicate());
            assert(users_view(r@) == users_view(old_r).push(all@[i as int]@));
        }
        i = i + 1;
    }
    assert(users_view(all@).take(all@.len() as int) == users_view(all@));
    r
}

/// `dedup` keeps a non-empty sequence non-empty.
proof fn lemma_dedup_nonempty(s: Seq<UserView>)
    ensures
        s.len() > 0 ==> dedup(s).len() > 0,
    decreases s.len(),
{
    if s.len() > 1 {
        lemma_dedup_nonempty(s.drop_last());
    }
}

/// `v` without neighbouring repeats.
fn dedup_users(v: &Vec<User>) -> (r: Vec<User>)
    ensures
        users_view(r@) == dedup(users_view(v@)),
{
    let mut r: Vec<User> = Vec::new();
    let mut i: usize = 0;
    while i < v.len()
        invariant
            i <= v@.len(),
            users_view(r@) == dedup(users_view(v@).take(i as int)),
        decreases v@.len() - i,
    {
        let ghost prefix = users_view(v@).take(i + 1);
        assert(prefix.drop_last() == users_view(v@).take(i as int));
        assert(prefix.last() == v@[i as int]@);
        proof {
            lemma_dedup_nonempty(users_view(v@).take(i as int));
        }
        if r.len() == 0 || !r[r.len() - 1].same_as(&v[i]) {
            let ghost old_r = r@;
            r.push(v[i].duplicate());
            assert(users_view(r@) == users_view(old_r).push(v@[i as int]@));
            if i == 0 {
                assert(prefix == seq![v@[0]@]);
            }
        } else {
            assert(users_view(r@).last() == r@[r@.len() - 1]@);
        }
        i = i + 1;
    }
    assert(users_view(v@).take(v@.len() as int) == users_view(v@));
    r
}

/// The users of `all` that answer to `term`, without neighbouring repeats.
fn matching_users(all: &Vec<User>, term: &str) -> (r: Vec<User>)
    ensures
        users_view(r@) == matching(users_view(all@), term@),
{
    let answered = answering_users(all, term);
    dedup_users(&answered)
}

/// Whether some user of `c` is the same as `u`.
pub fn contains_user(c: &Vec<User>, u: &User) -> (r: bool)
    ensures
        r == in_users(users_view(c@), u@),
{
    let mut i: usize = 0;
    while i < c.len()
        invariant
            i <= c@.len(),
            forall|j: int| 0 <= j < i ==> !same_user(#[trigger] users_view(c@)[j], u@),
        decreases c@.len() - i,
    {
        assert(users_view(c@)[i as int] == c@[i as int]@);
        if c[i].same_as(u) {
            return true;
        }
        i = i + 1;
    }
    false
}

/// Copies of the users of `c`.
fn clone_users(c: &Vec<User>) -> (r: Vec<User>)
    ensures
        users_view(r@) == users_view(c@),
{
    let mut r: Vec<User> = Vec::new();
    let mut i: usize = 0;
    while i < c.len()
        invariant
            i <= c@.len(),
            users_view(r@) == users_view(c@).take(i as int),
        decreases c@.len() - i,
    {
        let ghost old_r = r@;
        r.push(c[i].duplicate());
        assert(users_view(r@) == users_view(old_r).push(c@[i as int]@));
        assert(users_view(c@).take(i + 1) == users_view(c@).take(i as int).push(c@[i as int]@));
        i = i + 1;
    }
    assert(users_view(c@).take(c@.len() as int) == users_view(c@));
    r
}

/// Every extension of `c` is one user longer.
proof fn lemma_extend_one_len(c: Seq<UserView>, m: Seq<UserView>)
    ensures
        forall|k: int|
            0 <= k < extend_one(c, m).len() ==> #[trigger] extend_one(c, m)[k].len() == c.len() + 1,
    decreases m.len(),
{
    if m.len() > 0 {
        lemma_extend_one_len(c, m.drop_last());
        let rest = extend_one(c, m.drop_last());
        assert forall|k: int| 0 <= k < extend_one(c, m).len() implies #[trigger] extend_one(
            c,
            m,
        )[k].len() == c.len() + 1 by {
            if k < rest.len() {
                assert(extend_one(c, m)[k] == rest[k]);
            }
        }
    }
}

/// Extending combinations of length `n` gives combinations of length `n + 1`.
proof fn lemma_extend_all_len(cs: Seq<Seq<UserView>>, m: Seq<UserView>, n: int)
    requires
        forall|k: int| 0 <= k < cs.len() ==> #[trigger] cs[k].len() == n,
    ensures
        forall|k: int|
            0 <= k < extend_all(cs, m).len() ==> #[trigger] extend_all(cs, m)[k].len() == n + 1,
    decreases cs.len(),
{
    if cs.len() > 0 {
        lemma_extend_all_len(cs.drop_last(), m, n);
        lemma_extend_one_len(cs.last(), m);
        let a = extend_all(cs.drop_last(), m);
        let b = extend_one(cs.last(), m);
        assert forall|k: int| 0 <= k < extend_all(cs, m).len() implies #[trigger] extend_all(
            cs,
            m,
        )[k].len() == n + 1 by {
            if k < a.len() {
                assert(extend_all(cs, m)[k] == a[k]);
            } else {
                assert(extend_all(cs, m)[k] == b[k - a.len()]);
            }
        }
    }
}

/// Every combination picks one user per term.
proof fn lemma_combos_len(ms: Seq<Seq<UserView>>)
    ensures
        forall|k: int| 0 <= k < combos(ms).len() ==> #[trigger] combos(ms)[k].len() == ms.len(),
    decreases ms.len(),
{
    if ms.len() > 0 {
        lemma_combos_len(ms.drop_last());
        lemma_extend_all_len(combos(ms.drop_last()), ms.last(), ms.len() - 1);
    }
}

/// The first combination of distinct users that takes, for each `i`, one user of
/// `term_matches[i]`.
fn unique_combination(term_matches: &Vec<Vec<User>>) -> (r: Option<Vec<User>>)
    ensures
        match r {
            Some(c) => first_combination(lists_view(term_matches@)) == Some(users_view(c@)),
            None => first_combination(lists_view(term_matches@)) is None,
        },
{
    let ghost ms = lists_view(term_matches@);
    let mut combinations: Vec<Vec<User>> = Vec::new();
    combinations.push(Vec::new());
    assert(ms.take(0) == Seq::<Seq<UserView>>::empty());
    assert(users_view(combinations@[0]@) == Seq::<UserView>::empty());
    assert(lists_view(combinations@) == seq![Seq::<UserView>::empty()]);
    assert(lists_view(combinations@) == combos(ms.take(0)));
    let mut t: usize = 0;
    while t < term_matches.len()
        invariant
            t <= term_matches@.len(),
            ms == lists_view(term_matches@),
            lists_view(combinations@) == combos(ms.take(t as int)),
        decreases term_matches@.len() - t,
    {
        let matches = &term_matches[t];
        let ghost m = ms[t as int];
        let ghost cs = lists_view(combinations@);
        assert(m == users_view(matches@));
        let mut new_combos: Vec<Vec<User>> = Vec::new();
        let mut a: usize = 0;
        while a < combinations.len()
            invariant
                a <= combinations@.len(),
                cs == lists_view(combinations@),
                m == users_view(matches@),
                lists_view(new_combos@) == extend_all(cs.take(a as int), m),
            decreases combinations@.len() - a,
        {
            let combo = &combinations[a];
            let ghost c = cs[a as int];
            assert(c == users_view(combo@));
            let mut b: usize = 0;
            assert(m.take(0) == Seq::<UserView>::empty());
            assert(extend_all(cs.take(a as int), m) + extend_one(c, m.take(0)) == extend_all(
                cs.take(a as int),
                m,
            ));
            while b < matches.len()
                invariant
                    b <= matches@.len(),
                    m == users_view(matches@),
                    c == users_view(combo@),
                    lists_view(new_combos@) == extend_all(cs.take(a as int), m) + extend_one(
                        c,
                        m.take(b as int),
                    ),
                decreases matches@.len() - b,
            {
                let u = &matches[b];
                assert(m.take(b + 1).drop_last() == m.take(b as int));
                assert(m.take(b + 1).last() == u@);
                if !contains_user(combo, u) {
                    let mut extended = clone_users(combo);
                    extended.push(u.duplicate());
                    assert(users_view(extended@) == c.push(u@));
                    let ghost old_new = lists_view(new_combos@);
                    new_combos.push(extended);
                    assert(lists_view(new_combos@) == old_new.push(c.push(u@)));
                    assert(extend_all(cs.take(a as int), m) + extend_one(c, m.take(b + 1)) == (
                    extend_all(cs.take(a as int), m) + extend_one(c, m.take(b as int))).push(
                        c.push(u@),
                    ));
                }
                b = b + 1;
            }
            assert(m.take(matches@.len() as int) == m);
            assert(cs.take(a + 1).drop_last() == cs.take(a as int));
            assert(cs.take(a + 1).last() == c);
            a = a + 1;
        }
        assert(cs.take(combinations@.len() as int) == cs);
        assert(ms.take(t + 1).drop_last() == ms.take(t as int));
        assert(ms.take(t + 1).last() == m);
        combinations = new_combos;
        t = t + 1;
    }
    assert(ms.take(term_matches@.len() as int) == ms);
    proof {
        lemma_combos_len(ms);
    }
    let n = term_matches.len();
    let mut i: usize = 0;
    while i < combinations.len()
        invariant
            i <= combinations@.len(),
            i == 0,
            n == ms.len(),
            ms == lists_view(term_matches@),
            lists_view(combinations@) == combos(ms),
            forall|k: int| 0 <= k < combos(ms).len() ==> #[trigger] combos(ms)[k].len() == ms.len(),
        decreases combinations@.len() - i,
    {
        assert(lists_view(combinations@)[i as int] == users_view(combinations@[i as int]@));
        if combinations[i].len() == n {
            let c = clone_users(&combinations[i]);
            assert(users_view(c@) == combos(ms)[0]);
            assert(first_combination(ms) == Some(combos(ms)[0]));
            return Some(c);
        }
        i = i + 1;
    }
    None
}

/// Each extension of `c` adds a user of `m` that `c` does not hold.
proof fn lemma_extend_one_sound(c: Seq<UserView>, m: Seq<UserView>, k: int)
    requires
        0 <= k < extend_one(c, m).len(),
    ensures
        exists|j: int|
            0 <= j < m.len() && extend_one(c, m)[k] == c.push(#[trigger] m[j]) && !in_users(c, m[j]),
    decreases m.len(),
{
    let rest = extend_one(c, m.drop_last());
    if k < rest.len() {
        lemma_extend_one_sound(c, m.drop_last(), k);
        let j = choose|j: int|
            0 <= j < m.drop_last().len() && rest[k] == c.push(#[trigger] m.drop_last()[j])
                && !in_users(c, m.drop_last()[j]);
        assert(m.drop_last()[j] == m[j]);
        assert(extend_one(c, m)[k] == rest[k]);
    } else {
        assert(extend_one(c, m)[k] == c.push(m[m.len() - 1]));
    }
}

/// Each extension of the combinations `cs` extends one of them.
proof fn lemma_extend_all_sound(cs: Seq<Seq<UserView>>, m: Seq<UserView>, k: int)
    requires
        0 <= k < extend_all(cs, m).len(),
    ensures
        exists|i: int, j: int|
            0 <= i < cs.len() && 0 <= j < m.len() && extend_all(cs, m)[k] == (#[trigger] cs[i]).push(
                #[trigger] m[j],
            ) && !in_users(cs[i], m[j]),
    decreases cs.len(),
{
    let a = extend_all(cs.drop_last(), m);
    let b = extend_one(cs.last(), m);
    if k < a.len() {
        lemma_extend_all_sound(cs.drop_last(), m, k);
        let (i, j) = choose|i: int, j: int|
            0 <= i < cs.drop_last().len() && 0 <= j < m.len() && a[k] == (
            #[trigger] cs.drop_last()[i]).push(#[trigger] m[j]) && !in_users(cs.drop_last()[i], m[j]);
        assert(cs.drop_last()[i] == cs[i]);
        assert(extend_all(cs, m)[k] == a[k]);
    } else {
        lemma_extend_one_sound(cs.last(), m, k - a.len());
        let j = choose|j: int|
            0 <= j < m.len() && b[k - a.len()] == cs.last().push(#[trigger] m[j]) && !in_users(
                cs.last(),
                m[j],
            );
        assert(extend_all(cs, m)[k] == b[k - a.len()]);
        assert(cs[cs.len() - 1] == cs.last());
    }
}

/// Every combination is a selection of distinct users, one per term.
proof fn lemma_combos_sound(ms: Seq<Seq<UserView>>, k: int)
    requires
        0 <= k < combos(ms).len(),
    ensures
        distinct_selection(ms, combos(ms)[k]),
    decreases ms.len(),
{
    if ms.len() > 0 {
        let prev = combos(ms.drop_last());
        let m = ms.last();
        lemma_extend_all_sound(prev, m, k);
        let (i, j) = choose|i: int, j: int|
            0 <= i < prev.len() && 0 <= j < m.len() && combos(ms)[k] == (#[trigger] prev[i]).push(
                #[trigger] m[j],
            ) && !in_users(prev[i], m[j]);
        lemma_combos_sound(ms.drop_last(), i);
        let c = prev[i];
        let d = combos(ms)[k];
        assert forall|x: int| 0 <= x < d.len() implies ms[x].contains(#[trigger] d[x]) by {
            if x < c.len() {
                assert(ms.drop_last()[x].contains(c[x]));
                assert(ms.drop_last()[x] == ms[x]);
            } else {
                assert(d[x] == m[j]);
                assert(ms[x] == m);
            }
        }
        assert forall|x: int, y: int| 0 <= x < y < d.len() implies !same_user(
            #[trigger] d[x],
            #[trigger] d[y],
        ) by {
            if y < c.len() {
                assert(!same_user(c[x], c[y]));
            } else {
                assert(d[x] == c[x]);
                assert(d[y] == m[j]);
                if same_user(c[x], m[j]) {
                    assert(in_users(c, m[j]));
                }
            }
        }
    }
}

/// A user of `m` that `c` does not hold extends `c`.
proof fn lemma_extend_one_complete(c: Seq<UserView>, m: Seq<UserView>, j: int)
    requires
        0 <= j < m.len(),
        !in_users(c, m[j]),
    ensures
        extend_one(c, m).contains(c.push(m[j])),
    decreases m.len(),
{
    let rest = extend_one(c, m.drop_last());
    if j < m.len() - 1 {
        assert(m.drop_last()[j] == m[j]);
        lemma_extend_one_complete(c, m.drop_last(), j);
        let x = choose|x: int| 0 <= x < rest.len() && rest[x] == c.push(m[j]);
        if !in_users(c, m.last()) {
            assert(extend_one(c, m)[x] == rest[x]);
        }
    } else {
        assert(extend_one(c, m) == rest.push(c.push(m.last())));
        assert(extend_one(c, m)[rest.len() as int] == c.push(m[j]));
    }
}

/// An extension of one of the combinations `cs` is among their extensions.
proof fn lemma_extend_all_complete(cs: Seq<Seq<UserView>>, m: Seq<UserView>, i: int, d: Seq<UserView>)
    requires
        0 <= i < cs.len(),
        extend_one(cs[i], m).contains(d),
    ensures
        extend_all(cs, m).contains(d),
    decreases cs.len(),
{
    let a = extend_all(cs.drop_last(), m);
    let b = extend_one(cs.last(), m);
    if i < cs.len() - 1 {
        assert(cs.drop_last()[i] == cs[i]);
        lemma_extend_all_complete(cs.drop_last(), m, i, d);
        let x = choose|x: int| 0 <= x < a.len() && a[x] == d;
        assert(extend_all(cs, m)[x] == a[x]);
    } else {
        let x = choose|x: int| 0 <= x < b.len() && b[x] == d;
        assert(extend_all(cs, m)[a.len() + x] == b[x]);
    }
}

/// Every selection of distinct users, one per term, is a combination.
proof fn lemma_combos_complete(ms: Seq<Seq<UserView>>, d: Seq<UserView>)
    requires
        distinct_selection(ms, d),
    ensures
        combos(ms).contains(d),
    decreases ms.len(),
{
    if ms.len() == 0 {
        assert(d == Seq::<UserView>::empty());
        assert(combos(ms)[0] == d);
    } else {
        let n = ms.len() - 1;
        let prefix = d.drop_last();
        let m = ms.last();
        assert forall|x: int| 0 <= x < prefix.len() implies ms.drop_last()[x].contains(
            #[trigger] prefix[x],
        ) by {
            assert(ms[x].contains(d[x]));
        }
        assert forall|x: int, y: int| 0 <= x < y < prefix.len() implies !same_user(
            #[trigger] prefix[x],
            #[trigger] prefix[y],
        ) by {
            assert(!same_user(d[x], d[y]));
        }
        lemma_combos_complete(ms.drop_last(), prefix);
        let i = choose|i: int|
            0 <= i < combos(ms.drop_last()).len() && combos(ms.drop_last())[i] == prefix;
        assert(ms[n].contains(d[n]));
        let j = choose|j: int| 0 <= j < m.len() && m[j] == d[n];
        if in_users(prefix, m[j]) {
            let x = choose|x: int| 0 <= x < prefix.len() && same_user(#[trigger] prefix[x], m[j]);
            assert(!same_user(d[x], d[n]));
        }
        lemma_extend_one_complete(prefix, m, j);
        assert(prefix.push(m[j]) == d);
        lemma_extend_all_complete(combos(ms.drop_last()), m, i, d);
    }
}

/// The combinations are exactly the selections of distinct users, one user of `ms[i]`
/// for each `i`.
pub proof fn law_combinations_are_distinct_selections(ms: Seq<Seq<UserView>>, d: Seq<UserView>)
    ensures
        combos(ms).contains(d) <==> distinct_selection(ms, d),
{
    if combos(ms).contains(d) {
        let k = choose|k: int| 0 <= k < combos(ms).len() && combos(ms)[k] == d;
        lemma_combos_sound(ms, k);
    }
    if distinct_selection(ms, d) {
        lemma_combos_complete(ms, d);
    }
}

/// A search succeeds exactly when distinct users, one answering each term, exist; and
/// what it finds is such a selection.
pub proof fn law_find_succeeds_iff_selection_exists(all: Seq<UserView>, terms: Seq<Seq<char>>)
    ensures
        (find_result(all, terms) is Ok) <==> exists|v: Seq<UserView>|
            distinct_selection(matches_per_term(all, terms), v),
        find_result(all, terms) matches Ok(v) ==> distinct_selection(
            matches_per_term(all, terms),
            v,
        ),
{
    let ms = matches_per_term(all, terms);
    if terms.len() == 0 {
        assert(distinct_selection(ms, Seq::<UserView>::empty()));
    } else if first_unmatched(all, terms, 0) < terms.len() {
        let k = first_unmatched(all, terms, 0);
        lemma_first_unmatched(all, terms, 0);
        assert(ms[k].len() == 0);
        assert forall|v: Seq<UserView>| !distinct_selection(ms, v) by {
            if distinct_selection(ms, v) {
                assert(ms[k].contains(v[k]));
            }
        }
    } else {
        if combos(ms).len() > 0 {
            lemma_combos_sound(ms, 0);
        }
        assert forall|v: Seq<UserView>| distinct_selection(ms, v) implies combos(ms).len() > 0 by {
            lemma_combos_complete(ms, v);
        }
    }
}

/// `first_unmatched` finds a term that nobody answers to, if it finds one.
proof fn lemma_first_unmatched(all: Seq<UserView>, terms: Seq<Seq<char>>, i: int)
    requires
        0 <= i <= terms.len(),
    ensures
        i <= first_unmatched(all, terms, i) <= terms.len(),
        first_unmatched(all, terms, i) < terms.len() ==> matching(
            all,
            terms[first_unmatched(all, terms, i)],
        ).len() == 0,
    decreases terms.len() - i,
{
    if i < terms.len() && matching(all, terms[i]).len() != 0 {
        lemma_first_unmatched(all, terms, i + 1);
    }
}

/// The users that answer come from the list and answer.
proof fn lemma_answering_sound(all: Seq<UserView>, term: Seq<char>)
    ensures
        forall|k: int|
            0 <= k < answering(all, term).len() ==> all.contains(#[trigger] answering(all, term)[k])
                && matches(answering(all, term)[k], term),
    decreases all.len(),
{
    if all.len() > 0 {
        let prev = answering(all.drop_last(), term);
        lemma_answering_sound(all.drop_last(), term);
        assert forall|k: int| 0 <= k < answering(all, term).len() implies all.contains(
            #[trigger] answering(all, term)[k],
        ) && matches(answering(all, term)[k], term) by {
            if k < prev.len() {
                assert(answering(all, term)[k] == prev[k]);
                let j = choose|j: int| 0 <= j < all.drop_last().len() && all.drop_last()[j] == prev[k];
                assert(all[j] == prev[k]);
            } else {
                assert(answering(all, term)[k] == all[all.len() - 1]);
            }
        }
    }
}

/// What `dedup` keeps comes from its argument, and no two neighbours are the same.
proof fn lemma_dedup_sound(s: Seq<UserView>)
    ensures
        forall|k: int| 0 <= k < dedup(s).len() ==> s.contains(#[trigger] dedup(s)[k]),
        forall|k: int| 0 <= k < dedup(s).len() - 1 ==> !same_user(#[trigger] dedup(s)[k], dedup(s)[k + 1]),
    decreases s.len(),
{
    if s.len() > 1 {
        let d = dedup(s.drop_last());
        lemma_dedup_sound(s.drop_last());
        lemma_dedup_nonempty(s.drop_last());
        assert forall|k: int| 0 <= k < dedup(s).len() implies s.contains(#[trigger] dedup(s)[k]) by {
            if k < d.len() {
                assert(dedup(s)[k] == d[k]);
                let j = choose|j: int| 0 <= j < s.drop_last().len() && s.drop_last()[j] == d[k];
                assert(s[j] == d[k]);
            } else {
                assert(dedup(s)[k] == s[s.len() - 1]);
            }
        }
        assert forall|k: int| 0 <= k < dedup(s).len() - 1 implies !same_user(
            #[trigger] dedup(s)[k],
            dedup(s)[k + 1],
        ) by {
            if k + 1 < d.len() {
                assert(dedup(s)[k] == d[k]);
                assert(dedup(s)[k + 1] == d[k + 1]);
            } else {
                assert(dedup(s)[k] == d.last());
            }
        }
    } else if s.len() == 1 {
        assert(dedup(s)[0] == s[0]);
    }
}

/// The users that a term finds are saved users that answer to it, and no two
/// neighbours among them are the same.
pub proof fn law_matching_sound(all: Seq<UserView>, term: Seq<char>)
    ensures
        forall|k: int|
            0 <= k < matching(all, term).len() ==> all.contains(#[trigger] matching(all, term)[k])
                && matches(matching(all, term)[k], term),
        forall|k: int|
            0 <= k < matching(all, term).len() - 1 ==> !same_user(
                #[trigger] matching(all, term)[k],
                matching(all, term)[k + 1],
            ),
{
    let a = answering(all, term);
    lemma_answering_sound(all, term);
    lemma_dedup_sound(a);
    assert forall|k: int| 0 <= k < matching(all, term).len() implies all.contains(
        #[trigger] matching(all, term)[k],
    ) && matches(matching(all, term)[k], term) by {
        assert(a.contains(dedup(a)[k]));
        let j = choose|j: int| 0 <= j < a.len() && a[j] == dedup(a)[k];
        assert(all.contains(a[j]) && matches(a[j], term));
    }
}

/// A saved user answers to a term exactly when, in lower case, the term equals a word of
/// the user's name, or a word of the lower-case name begins with the term, or the term
/// begins with a whole such word, or the term stands somewhere in the initials, in the
/// name or in the email. A term that shares only its first letter with a word, and
/// stands nowhere else, finds nobody.
pub proof fn law_answers_to_term(u: UserView, term: Seq<char>)
    ensures
        matches(u, term) <==> ({
            let t = lowercase(term);
            let name = name_of(u);
            let ln = lowercase(name);
            ||| exists|k: int|
                0 <= k < words(name).len() && lowercase(#[trigger] words(name)[k]) == t
            ||| exists|k: int|
                0 <= k < words(ln).len() && ((t.len() <= (#[trigger] words(ln)[k]).len()
                    && words(ln)[k].subrange(0, t.len() as int) == t) || (lowercase(
                    words(ln)[k],
                ).len() <= t.len() && t.subrange(0, lowercase(words(ln)[k]).len() as int)
                    == lowercase(words(ln)[k])))
            ||| exists|i: int|
                0 <= i && i + t.len() <= initials_of(u).len() && #[trigger] initials_of(
                    u,
                ).subrange(i, i + t.len()) == t
            ||| exists|i: int|
                0 <= i && i + t.len() <= ln.len() && #[trigger] ln.subrange(i, i + t.len()) == t
            ||| exists|i: int|
                0 <= i && i + t.len() <= lowercase(email_of(u)).len() && #[trigger] lowercase(
                    email_of(u),
                ).subrange(i, i + t.len()) == t
        }),
{
    let t = lowercase(term);
    let name = name_of(u);
    let ln = lowercase(name);
    let ini = initials_of(u);
    let le = lowercase(email_of(u));
    assert(contains(ini, t) <==> exists|i: int|
        0 <= i && i + t.len() <= ini.len() && #[trigger] ini.subrange(i, i + t.len()) == t) by {
        if contains(ini, t) {
            let i = choose|i: int| crate::text::occurs_at(ini, t, i);
            assert(ini.subrange(i, i + t.len()) == t);
        }
        if exists|i: int|
            0 <= i && i + t.len() <= ini.len() && #[trigger] ini.subrange(i, i + t.len()) == t {
            let i = choose|i: int|
                0 <= i && i + t.len() <= ini.len() && #[trigger] ini.subrange(i, i + t.len()) == t;
            assert(crate::text::occurs_at(ini, t, i));
        }
    }
    assert(contains(ln, t) <==> exists|i: int|
        0 <= i && i + t.len() <= ln.len() && #[trigger] ln.subrange(i, i + t.len()) == t) by {
        if contains(ln, t) {
            let i = choose|i: int| crate::text::occurs_at(ln, t, i);
            assert(ln.subrange(i, i + t.len()) == t);
        }
        if exists|i: int|
            0 <= i && i + t.len() <= ln.len() && #[trigger] ln.subrange(i, i + t.len()) == t {
            let i = choose|i: int|
                0 <= i && i + t.len() <= ln.len() && #[trigger] ln.subrange(i, i + t.len()) == t;
            assert(crate::text::occurs_at(ln, t, i));
        }
    }
    assert(contains(le, t) <==> exists|i: int|
        0 <= i && i + t.len() <= le.len() && #[trigger] le.subrange(i, i + t.len()) == t) by {
        if contains(le, t) {
            let i = choose|i: int| crate::text::occurs_at(le, t, i);
            assert(le.subrange(i, i + t.len()) == t);
        }
        if exists|i: int|
            0 <= i && i + t.len() <= le.len() && #[trigger] le.subrange(i, i + t.len()) == t {
            let i = choose|i: int|
                0 <= i && i + t.len() <= le.len() && #[trigger] le.subrange(i, i + t.len()) == t;
            assert(crate::text::occurs_at(le, t, i));
        }
    }
}

/// `extend_one` of the empty combination lists each user alone, in order.
proof fn lemma_extend_empty(m: Seq<UserView>)
    ensures
        extend_one(seq![], m).len() == m.len(),
        forall|k: int| 0 <= k < m.len() ==> #[trigger] extend_one(seq![], m)[k] == seq![m[k]],
    decreases m.len(),
{
    if m.len() > 0 {
        lemma_extend_empty(m.drop_last());
        assert(!in_users(seq![], m.last()));
        let rest = extend_one(seq![], m.drop_last());
        assert forall|k: int| 0 <= k < m.len() implies #[trigger] extend_one(seq![], m)[k] == seq![
            m[k],
        ] by {
            if k < rest.len() {
                assert(extend_one(seq![], m)[k] == rest[k]);
                assert(m.drop_last()[k] == m[k]);
            } else {
                assert(Seq::<UserView>::empty().push(m.last()) == seq![m[k]]);
            }
        }
    }
}

/// The first user that answers: `answering` starts with the first user of the list that
/// answers, and it is empty exactly when no user answers.
proof fn lemma_answering_first(all: Seq<UserView>, term: Seq<char>)
    ensures
        answering(all, term).len() > 0 <==> exists|i: int|
            0 <= i < all.len() && matches(#[trigger] all[i], term),
        answering(all, term).len() > 0 ==> exists|i: int|
            0 <= i < all.len() && all[i] == answering(all, term)[0] && matches(#[trigger] all[i], term)
                && forall|j: int| 0 <= j < i ==> !matches(#[trigger] all[j], term),
    decreases all.len(),
{
    if all.len() > 0 {
        let prev = all.drop_last();
        lemma_answering_first(prev, term);
        if answering(prev, term).len() > 0 {
            let i = choose|i: int|
                0 <= i < prev.len() && prev[i] == answering(prev, term)[0] && matches(
                    #[trigger] prev[i],
                    term,
                ) && forall|j: int| 0 <= j < i ==> !matches(#[trigger] prev[j], term);
            assert(all[i] == prev[i]);
            assert(answering(all, term)[0] == answering(prev, term)[0]);
            assert forall|j: int| 0 <= j < i implies !matches(#[trigger] all[j], term) by {
                assert(all[j] == prev[j]);
            }
        } else {
            assert forall|j: int| 0 <= j < all.len() - 1 implies !matches(#[trigger] all[j], term) by {
                assert(all[j] == prev[j]);
                if matches(prev[j], term) {
                    assert(exists|i: int| 0 <= i < prev.len() && matches(#[trigger] prev[i], term));
                }
            }
            if matches(all.last(), term) {
                assert(answering(all, term) == seq![all.last()]);
                assert(matches(all[all.len() - 1], term));
            } else {
                assert(answering(all, term).len() == 0);
                assert forall|i: int| 0 <= i < all.len() implies !matches(#[trigger] all[i], term) by {
                    if i < all.len() - 1 {
                    } else {
                        assert(all[i] == all.last());
                    }
                }
            }
        }
        if exists|i: int| 0 <= i < all.len() && matches(#[trigger] all[i], term) {
            let i = choose|i: int| 0 <= i < all.len() && matches(#[trigger] all[i], term);
            if i < all.len() - 1 {
                assert(prev[i] == all[i]);
                assert(answering(prev, term).len() > 0);
            } else {
                assert(all[i] == all.last());
            }
        }
    }
}

/// `dedup` keeps the first user.
proof fn lemma_dedup_first(s: Seq<UserView>)
    ensures
        s.len() > 0 ==> dedup(s).len() > 0 && dedup(s)[0] == s[0],
    decreases s.len(),
{
    if s.len() > 1 {
        lemma_dedup_first(s.drop_last());
        let d = dedup(s.drop_last());
        if !same_user(d.last(), s.last()) {
            assert(dedup(s)[0] == d[0]);
        }
    }
}

/// Searching for one term finds the first saved user, in the list's order, that answers
/// to it; and it finds a user whenever some saved user answers.
pub proof fn law_one_term_finds_first_answering(all: Seq<UserView>, term: Seq<char>)
    ensures
        find_result(all, seq![term]) matches Ok(v) ==> v.len() == 1 && exists|i: int|
            0 <= i < all.len() && all[i] == v[0] && matches(#[trigger] all[i], term) && forall|j: int|
                0 <= j < i ==> !matches(#[trigger] all[j], term),
        (exists|i: int| 0 <= i < all.len() && matches(#[trigger] all[i], term)) ==> find_result(
            all,
            seq![term],
        ) is Ok,
{
    let terms = seq![term];
    let m = matching(all, term);
    lemma_answering_first(all, term);
    lemma_dedup_first(answering(all, term));
    lemma_dedup_nonempty(answering(all, term));
    if m.len() == 0 {
        assert(first_unmatched(all, terms, 0) == 0);
        assert(answering(all, term).len() == 0);
    } else {
        assert(first_unmatched(all, terms, 1) == 1);
        assert(first_unmatched(all, terms, 0) == 1);
        let ms = matches_per_term(all, terms);
        assert(ms == seq![m]);
        assert(ms.drop_last() == Seq::<Seq<UserView>>::empty());
        assert(combos(ms.drop_last()) == seq![Seq::<UserView>::empty()]);
        let cs = seq![Seq::<UserView>::empty()];
        assert(cs.drop_last() == Seq::<Seq<UserView>>::empty());
        assert(extend_all(cs, m) == extend_all(cs.drop_last(), m) + extend_one(cs.last(), m));
        assert(extend_all(cs.drop_last(), m) == Seq::<Seq<UserView>>::empty());
        lemma_extend_empty(m);
        assert(combos(ms) == extend_one(seq![], m));
        assert(combos(ms)[0] == seq![m[0]]);
        assert(m[0] == answering(all, term)[0]);
    }
}

impl UserList {
    /// A user list over the saved users of `user_file`.
    pub fn new(user_file: UserFile) -> (l: UserList)
        ensures
            l@ == user_file@,
    {
        UserList { user_file }
    }

    /// The saved users, for storing them.
    pub fn user_file(&self) -> (r: &UserFile)
        ensures
            r@ == self@,
    {
        &self.user_file
    }

    /// Saves `user` after the others.
    pub fn add(&mut self, user: &User)
        ensures
            final(self)@ == old(self)@.push((name_of(user@), email_of(user@))),
    {
        self.user_file.write(user);
    }

    /// The saved users, in order.
    pub fn list(&self) -> (r: Vec<User>)
        ensures
            users_view(r@) == entry_users(self@),
    {
        self.user_file.read()
    }

    /// Finds a combination of distinct users, one for each search term, or says which
    /// term nobody answers to, or that no such combination exists.
    pub fn find(&self, search_terms: &[String]) -> (r: Result<Vec<User>, String>)
        ensures
            match r {
                Ok(v) => find_result(entry_users(self@), views(search_terms@)) == Ok::<
                    Seq<UserView>,
                    Seq<char>,
                >(users_view(v@)),
                Err(e) => find_result(entry_users(self@), views(search_terms@)) == Err::<
                    Seq<UserView>,
                    Seq<char>,
                >(e@),
            },
    {
        let all = self.list();
        let ghost allv = users_view(all@);
        let ghost terms = views(search_terms@);
        if search_terms.len() == 0 {
            let v: Vec<User> = Vec::new();
            assert(users_view(v@) == Seq::<UserView>::empty());
            return Ok(v);
        }
        let mut per_term: Vec<Vec<User>> = Vec::new();
        let mut i: usize = 0;
        while i < search_terms.len()
            invariant
                i <= search_terms@.len(),
                allv == users_view(all@),
                allv == entry_users(self@),
                terms == views(search_terms@),
                lists_view(per_term@) == matches_per_term(allv, terms).take(i as int),
                first_unmatched(allv, terms, 0) == first_unmatched(allv, terms, i as int),
            decreases search_terms@.len() - i,
        {
            assert(terms[i as int] == search_terms@[i as int]@);
            let m = matching_users(&all, search_terms[i].as_str());
            if m.len() == 0 {
                assert(matching(allv, terms[i as int]).len() == 0);
                assert(first_unmatched(allv, terms, i as int) == i);
                let mut msg = String::new();
                msg.append("No user found matching '");
                msg.append(search_terms[i].as_str());
                msg.append("'");
                assert(msg@ == "No user found matching '"@ + terms[i as int] + "'"@);
                return Err(msg);
            }
            let ghost old_per = lists_view(per_term@);
            per_term.push(m);
            assert(lists_view(per_term@) == old_per.push(matching(allv, terms[i as int])));
            assert(matches_per_term(allv, terms).take(i + 1) == matches_per_term(allv, terms).take(
                i as int,
            ).push(matching(allv, terms[i as int])));
            i = i + 1;
        }
        assert(matches_per_term(allv, terms).take(search_terms@.len() as int) == matches_per_term(
            allv,
            terms,
        ));
        match unique_combination(&per_term) {
            Some(c) => Ok(c),
            None => {
                let mut quoted_terms: Vec<String> = Vec::new();
                let mut k: usize = 0;
                while k < search_terms.len()
                    invariant
                        k <= search_terms@.len(),
                        terms == views(search_terms@),
                        views(quoted_terms@) == terms.map_values(|t: Seq<char>| quoted(t)).take(
                            k as int,
                        ),
                    decreases search_terms@.len() - k,
                {
                    let mut q = String::new();
                    q.append("'");
                    q.append(search_terms[k].as_str());
                    q.append("'");
                    let ghost old_q = views(quoted_terms@);
                    quoted_terms.push(q);
                    assert(views(quoted_terms@) == old_q.push(quoted(terms[k as int])));
                    assert(terms.map_values(|t: Seq<char>| quoted(t)).take(k + 1) == terms.map_values(
                        |t: Seq<char>| quoted(t),
                    ).take(k as int).push(quoted(terms[k as int])));
                    k = k + 1;
                }
                assert(terms.map_values(|t: Seq<char>| quoted(t)).take(search_terms@.len() as int)
                    == terms.map_values(|t: Seq<char>| quoted(t)));
                let mut msg = String::new();
                msg.append("Couldn't find a combination of users matching ");
                msg.append(join_strings(&quoted_terms, ", ").as_str());
                Err(msg)
            },
        }
    }
}

} // verus!
