//! What the commands of this tool do: switch to users, show the current users, list,
//! add and clear them. Running `git config` and printing are left to the caller, who
//! gets the commands and the lines.

use vstd::prelude::*;
use crate::color::{Line, Message, Tone};
use crate::config_repository::{ConfigRepository, group_email_of, select_scope_of};
use crate::git::{
    Git, Palette, Scope, display_name_of, flag_of, palette_view, render_of, set_command,
};
use crate::text::{join, join_strings, owned, views};
use crate::user::{
    User, UserView, combine_view, display_of, email_of, initials_of, is_nobody, name_of, nobody,
    parse_fields, same_user, single,
};
use crate::user_file::{entry_of, entry_users, stored, users_view};
use crate::user_list::{UserList, contains_user, find_result, in_users};

verus! {

broadcast use vstd::string::group_string_axioms;

/// The users that the strings which read as `Name <email>` stand for, in order.
pub open spec fn parsed_users(strs: Seq<Seq<char>>) -> Seq<UserView>
    decreases strs.len(),
{
    if strs.len() == 0 {
        seq![]
    } else {
        match parse_fields(strs.last()) {
            Some((n, e)) => parsed_users(strs.drop_last()).push(single(n, e)),
            None => parsed_users(strs.drop_last()),
        }
    }
}

/// The strings that do not read as `Name <email>`, in order: search terms.
pub open spec fn unparsed(strs: Seq<Seq<char>>) -> Seq<Seq<char>>
    decreases strs.len(),
{
    if strs.len() == 0 {
        seq![]
    } else {
        match parse_fields(strs.last()) {
            Some(_) => unparsed(strs.drop_last()),
            None => unparsed(strs.drop_last()).push(strs.last()),
        }
    }
}

/// All of `us` pairing, starting from nobody.
pub open spec fn combine_all(us: Seq<UserView>, group: Seq<char>) -> UserView
    decreases us.len(),
{
    if us.len() == 0 {
        nobody()
    } else {
        combine_view(combine_all(us.drop_last(), group), us.last(), group)
    }
}

/// The scope a switch goes to: the configured default for `Default` and `Derived`.
pub open spec fn resolved_scope(scope: Scope, configured: Seq<char>) -> Scope {
    if scope == Scope::Default || scope == Scope::Derived {
        select_scope_of(configured)
    } else {
        scope
    }
}

/// The users of `us` that get saved after `listed`, in order: those that are somebody
/// and that are not the same as a user listed or saved before them.
pub open spec fn newly_added(listed: Seq<UserView>, us: Seq<UserView>) -> Seq<UserView>
    decreases us.len(),
{
    if us.len() == 0 {
        seq![]
    } else {
        let a = newly_added(listed, us.drop_last());
        let u = us.last();
        if !is_nobody(u) && !in_users(listed + a.map_values(|x: UserView| stored(x)), u) {
            a.push(u)
        } else {
            a
        }
    }
}

/// After a switch, every user given as `Name <email>` is among the saved users, and so
/// is every user saved before.
pub proof fn law_switch_saves_given_users(listed: Seq<UserView>, us: Seq<UserView>)
    ensures
        forall|k: int|
            0 <= k < us.len() && !is_nobody(#[trigger] us[k]) ==> in_users(
                listed + newly_added(listed, us).map_values(|x: UserView| stored(x)),
                us[k],
            ),
        forall|k: int|
            0 <= k < listed.len() ==> (listed + newly_added(listed, us).map_values(
                |x: UserView| stored(x),
            ))[k] == listed[k],
    decreases us.len(),
{
    if us.len() > 0 {
        let prev = us.drop_last();
        law_switch_saves_given_users(listed, prev);
        let a = newly_added(listed, prev);
        let before = listed + a.map_values(|x: UserView| stored(x));
        let u = us.last();
        let after = listed + newly_added(listed, us).map_values(|x: UserView| stored(x));
        if !is_nobody(u) && !in_users(before, u) {
            assert(newly_added(listed, us) == a.push(u));
            assert(a.push(u).map_values(|x: UserView| stored(x)) == a.map_values(
                |x: UserView| stored(x),
            ).push(stored(u)));
            assert(after == before.push(stored(u)));
            assert(same_user(stored(u), u)) by {
                crate::user::lemma_stored_same(u);
            }
            assert(after[before.len() as int] == stored(u));
        } else {
            assert(after == before);
        }
        assert forall|k: int|
            0 <= k < us.len() && !is_nobody(#[trigger] us[k]) implies in_users(after, us[k]) by {
            if k < prev.len() {
                assert(prev[k] == us[k]);
                assert(in_users(before, prev[k]));
                let j = choose|j: int| 0 <= j < before.len() && same_user(#[trigger] before[j], prev[k]);
                assert(after[j] == before[j]);
            }
        }
        assert forall|k: int| 0 <= k < listed.len() implies after[k] == listed[k] by {
            assert(before[k] == listed[k]);
            assert(after[k] == before[k]);
        }
    } else {
        assert(newly_added(listed, us).map_values(|x: UserView| stored(x)) == Seq::<UserView>::empty());
        assert(listed + Seq::<UserView>::empty() == listed);
    }
}

/// A switch asked for in the local, global or system scope is made in exactly that
/// scope, whatever the configured default; only `Default` and `Derived` go to the
/// configured scope: `global` or `system` after trimming, and the local scope otherwise.
pub proof fn law_explicit_scope_is_kept(scope: Scope, configured: Seq<char>)
    ensures
        scope == Scope::Local ==> resolved_scope(scope, configured) == Scope::Local,
        scope == Scope::Global ==> resolved_scope(scope, configured) == Scope::Global,
        scope == Scope::System ==> resolved_scope(scope, configured) == Scope::System,
        scope == Scope::Default || scope == Scope::Derived ==> resolved_scope(scope, configured)
            == (if crate::text::trim(configured) == "global"@ {
            Scope::Global
        } else if crate::text::trim(configured) == "system"@ {
            Scope::System
        } else {
            Scope::Local
        }),
{
}

/// With no scopes given, the derived user comes first, then each of the local, global
/// and system scopes on a line labelled with its own name and showing the user read for
/// that same scope: `users[k]` is the user of `shown_scopes(seq![])[k]`.
pub proof fn law_current_lines_show_each_scope(
    users: Seq<UserView>,
    p: Option<(Seq<char>, Seq<char>, Seq<char>)>,
)
    requires
        users.len() == 4,
    ensures
        shown_scopes(seq![]) == seq![Scope::Derived, Scope::Local, Scope::Global, Scope::System],
        current_lines(seq![], users, p) == seq![
            (Some("Current user:"@), " "@ + render_of(users[0], p)),
            (None, Seq::<char>::empty()),
            (Some(" Local"@), ": "@ + render_of(users[1], p)),
            (Some("Global"@), ": "@ + render_of(users[2], p)),
            (Some("System"@), ": "@ + render_of(users[3], p)),
        ],
{
    reveal_strlit("Local");
    reveal_strlit(" Local");
    reveal_strlit("Global");
    reveal_strlit("System");
    assert(spaces(0) == Seq::<char>::empty());
    assert(spaces(1) == seq![' ']);
    assert(pad_left("Local"@, label_width()) == " Local"@);
    assert(pad_left("Global"@, label_width()) == "Global"@);
    assert(pad_left("System"@, label_width()) == "System"@);
}

/// With scopes given and a user in each, line `k` is labelled with the name of
/// `scopes[k]` and shows `users[k]`; scopes with nobody give no line.
pub proof fn law_scope_lines_follow_scopes(
    scopes: Seq<Scope>,
    users: Seq<UserView>,
    p: Option<(Seq<char>, Seq<char>, Seq<char>)>,
)
    requires
        users.len() == scopes.len(),
    ensures
        (forall|k: int| 0 <= k < users.len() ==> !is_nobody(#[trigger] users[k])) ==> {
            &&& scope_lines(scopes, users, p).len() == scopes.len()
            &&& forall|k: int|
                0 <= k < scopes.len() ==> (#[trigger] scope_lines(scopes, users, p)[k]).1 == ": "@
                    + render_of(users[k], p) && scope_lines(scopes, users, p)[k].0 == Some(
                    pad_right(
                        display_name_of(scopes[k]),
                        if display_name_of(scopes[k]).len() > 6 {
                            display_name_of(scopes[k]).len() as int
                        } else {
                            6
                        },
                    ),
                )
        },
        (forall|k: int| 0 <= k < users.len() ==> is_nobody(#[trigger] users[k])) ==> scope_lines(
            scopes,
            users,
            p,
        ).len() == 0,
    decreases scopes.len(),
{
    if scopes.len() > 0 {
        let n = scopes.len() - 1;
        let us = users.take(n);
        law_scope_lines_follow_scopes(scopes.drop_last(), us, p);
        lemma_scope_lines_prefix(scopes.drop_last(), users, us, p);
        let rest = scope_lines(scopes.drop_last(), users, p);
        if forall|k: int| 0 <= k < users.len() ==> !is_nobody(#[trigger] users[k]) {
            assert forall|k: int| 0 <= k < us.len() implies !is_nobody(#[trigger] us[k]) by {
                assert(us[k] == users[k]);
            }
            assert(!is_nobody(users[n]));
            assert forall|k: int| 0 <= k < scopes.len() implies (#[trigger] scope_lines(
                scopes,
                users,
                p,
            )[k]).1 == ": "@ + render_of(users[k], p) && scope_lines(scopes, users, p)[k].0
                == Some(
                pad_right(
                    display_name_of(scopes[k]),
                    if display_name_of(scopes[k]).len() > 6 {
                        display_name_of(scopes[k]).len() as int
                    } else {
                        6
                    },
                ),
            ) by {
                if k < n {
                    assert(scope_lines(scopes, users, p)[k] == rest[k]);
                    assert(us[k] == users[k]);
                    assert(scopes.drop_last()[k] == scopes[k]);
                }
            }
        }
        if forall|k: int| 0 <= k < users.len() ==> is_nobody(#[trigger] users[k]) {
            assert forall|k: int| 0 <= k < us.len() implies is_nobody(#[trigger] us[k]) by {
                assert(us[k] == users[k]);
            }
            assert(is_nobody(users[n]));
        }
    }
}

/// `scope_lines` reads only the users of its scopes.
proof fn lemma_scope_lines_prefix(
    scopes: Seq<Scope>,
    users: Seq<UserView>,
    other: Seq<UserView>,
    p: Option<(Seq<char>, Seq<char>, Seq<char>)>,
)
    requires
        scopes.len() <= users.len(),
        scopes.len() <= other.len(),
        forall|k: int| 0 <= k < scopes.len() ==> users[k] == other[k],
    ensures
        scope_lines(scopes, users, p) == scope_lines(scopes, other, p),
    decreases scopes.len(),
{
    if scopes.len() > 0 {
        lemma_scope_lines_prefix(scopes.drop_last(), users, other, p);
        assert(users[scopes.len() - 1] == other[scopes.len() - 1]);
    }
}

/// A switch saves no user twice: the users it saves are not the same as one another,
/// nor as any user saved before.
pub proof fn law_switch_adds_no_repeats(listed: Seq<UserView>, us: Seq<UserView>)
    ensures
        forall|i: int, j: int|
            0 <= i < j < newly_added(listed, us).len() ==> !same_user(
                #[trigger] newly_added(listed, us)[i],
                #[trigger] newly_added(listed, us)[j],
            ),
        forall|l: int, k: int|
            0 <= l < listed.len() && 0 <= k < newly_added(listed, us).len() ==> !same_user(
                #[trigger] listed[l],
                #[trigger] newly_added(listed, us)[k],
            ),
    decreases us.len(),
{
    if us.len() > 0 {
        law_switch_adds_no_repeats(listed, us.drop_last());
        let a = newly_added(listed, us.drop_last());
        let before = listed + a.map_values(|x: UserView| stored(x));
        let u = us.last();
        if !is_nobody(u) && !in_users(before, u) {
            let b = newly_added(listed, us);
            assert(b == a.push(u));
            assert forall|k: int| 0 <= k < a.len() implies !same_user(#[trigger] a[k], u) by {
                if same_user(a[k], u) {
                    crate::user::lemma_stored_same(a[k]);
                    assert(before[listed.len() + k] == stored(a[k]));
                    assert(same_user(before[listed.len() + k], u));
                }
            }
            assert forall|l: int| 0 <= l < listed.len() implies !same_user(#[trigger] listed[l], u) by {
                if same_user(listed[l], u) {
                    assert(before[l] == listed[l]);
                }
            }
            assert forall|i: int, j: int| 0 <= i < j < b.len() implies !same_user(
                #[trigger] b[i],
                #[trigger] b[j],
            ) by {
                assert(b[i] == a[i]);
                if j < a.len() {
                    assert(b[j] == a[j]);
                } else {
                    assert(b[j] == u);
                }
            }
            assert forall|l: int, k: int| 0 <= l < listed.len() && 0 <= k < b.len() implies !same_user(
                #[trigger] listed[l],
                #[trigger] b[k],
            ) by {
                if k < a.len() {
                    assert(b[k] == a[k]);
                } else {
                    assert(b[k] == u);
                }
            }
        }
    }
}

/// A switch that was decided on.
pub struct SwitchPlan {
    /// The scope switched in.
    pub scope: Scope,
    /// The user switched to.
    pub user: User,
    /// The commands to run in turn while they succeed.
    pub commands: Vec<String>,
    /// What to print when all of them succeeded.
    pub message: Message,
    /// The users newly saved, to store after the others.
    pub added: Vec<User>,
}

/// What adding a user gave.
pub struct AddOutcome {
    pub message: Message,
    /// The user newly saved, to store after the others.
    pub added: Option<User>,
}

/// Clearing the users of scopes.
pub struct ClearPlan {
    pub message: Message,
    /// The scopes to clear, in turn.
    pub scopes: Vec<Scope>,
}

/// What a choice in the menu of saved users asks for.
pub enum MenuChoice {
    /// Switch to the user that this string names.
    Switch(String),
    /// Ask for a new user's name and email and add it.
    AddUser,
    /// Nothing.
    Cancel,
}

/// The commands of this tool over a list of saved users.
pub struct Switcher {
    user_list: UserList,
}

impl View for Switcher {
    type V = Seq<(Seq<char>, Seq<char>)>;

    closed spec fn view(&self) -> Seq<(Seq<char>, Seq<char>)> {
        self.user_list@
    }
}

/// The text of a switch's message.
pub open spec fn switched_text(scope: Scope, u: UserView, p: Option<(Seq<char>, Seq<char>, Seq<char>)>) -> Seq<char> {
    "Switched "@ + display_name_of(scope) + " user to "@ + render_of(u, p)
}

/// The text shown when clearing `scopes`.
pub open spec fn clearing_text(scopes: Seq<Scope>) -> Seq<char> {
    "Clearing Git user in "@ + join(scopes.map_values(|s: Scope| flag_of(s)), ", "@)
        + " scope(s)"@
}

/// The scopes cleared when none are given: local, global and system.
pub open spec fn scopes_or_all(scopes: Seq<Scope>) -> Seq<Scope> {
    if scopes.len() == 0 {
        seq![Scope::Local, Scope::Global, Scope::System]
    } else {
        scopes
    }
}

/// The scopes whose user is shown: when none are given, the derived user first, then
/// local, global and system.
pub open spec fn shown_scopes(scopes: Seq<Scope>) -> Seq<Scope> {
    if scopes.len() == 0 {
        seq![Scope::Derived, Scope::Local, Scope::Global, Scope::System]
    } else {
        scopes
    }
}

/// `n` spaces.
pub open spec fn spaces(n: int) -> Seq<char>
    decreases n,
{
    if n <= 0 {
        seq![]
    } else {
        spaces(n - 1).push(' ')
    }
}

/// `s` right-aligned in `width` characters.
pub open spec fn pad_left(s: Seq<char>, width: int) -> Seq<char> {
    spaces(width - s.len()) + s
}

/// `s` left-aligned in `width` characters.
pub open spec fn pad_right(s: Seq<char>, width: int) -> Seq<char> {
    s + spaces(width - s.len())
}

/// The width of scope labels.
pub open spec fn label_width() -> int {
    6
}

/// The lines that show the user of each of `scopes`, skipping scopes with nobody.
pub open spec fn scope_lines(
    scopes: Seq<Scope>,
    users: Seq<UserView>,
    p: Option<(Seq<char>, Seq<char>, Seq<char>)>,
) -> Seq<(Option<Seq<char>>, Seq<char>)>
    decreases scopes.len(),
{
    if scopes.len() == 0 {
        seq![]
    } else {
        let rest = scope_lines(scopes.drop_last(), users, p);
        let k = scopes.len() - 1;
        let name = display_name_of(scopes[k]);
        if is_nobody(users[k]) {
            rest
        } else {
            rest.push(
                (
                    Some(pad_right(name, if name.len() > label_width() { name.len() as int } else { label_width() })),
                    ": "@ + render_of(users[k], p),
                ),
            )
        }
    }
}

/// The lines that show the current users: with no scopes given, the derived user and
/// then each of local, global and system; else each given scope that has a user.
pub open spec fn current_lines(
    scopes: Seq<Scope>,
    users: Seq<UserView>,
    p: Option<(Seq<char>, Seq<char>, Seq<char>)>,
) -> Seq<(Option<Seq<char>>, Seq<char>)> {
    if scopes.len() == 0 {
        seq![
            (Some("Current user:"@), " "@ + render_of(users[0], p)),
            (None, seq![]),
            (Some(pad_left("Local"@, label_width())), ": "@ + render_of(users[1], p)),
            (Some(pad_left("Global"@, label_width())), ": "@ + render_of(users[2], p)),
            (Some(pad_left("System"@, label_width())), ": "@ + render_of(users[3], p)),
        ]
    } else {
        scope_lines(scopes, users, p)
    }
}

/// The views of lines.
pub open spec fn lines_view(ls: Seq<Line>) -> Seq<(Option<Seq<char>>, Seq<char>)> {
    ls.map_values(
        |l: Line|
            (
                match l.label {
                    Some(s) => Some(s@),
                    None => None,
                },
                l.text@,
            ),
    )
}

/// `n` spaces.
fn spaces_exec(n: usize) -> (r: String)
    ensures
        r@ == spaces(n as int),
{
    let mut r = String::new();
    let mut i: usize = 0;
    while i < n
        invariant
            i <= n,
            r@ == spaces(i as int),
        decreases n - i,
    {
        crate::text::push_char(&mut r, ' ');
        i = i + 1;
    }
    r
}

/// `s` left-aligned in `width` characters.
fn pad_right_exec(s: &str, width: usize) -> (r: String)
    ensures
        r@ == pad_right(s@, width as int),
{
    let n = s.unicode_len();
    let mut r = owned(s);
    if n < width {
        r.append(spaces_exec(width - n).as_str());
    } else {
        assert(spaces(width - s@.len()) == Seq::<char>::empty());
    }
    r
}

/// `s` right-aligned in `width` characters.
fn pad_left_exec(s: &str, width: usize) -> (r: String)
    ensures
        r@ == pad_left(s@, width as int),
{
    let n = s.unicode_len();
    let mut r = String::new();
    if n < width {
        r.append(spaces_exec(width - n).as_str());
    } else {
        assert(spaces(width - s@.len()) == Seq::<char>::empty());
    }
    r.append(s);
    r
}

/// `prefix` followed by `user` rendered.
fn rendered_after(prefix: &str, user: &User, palette: &Option<Palette>) -> (r: String)
    ensures
        r@ == prefix@ + render_of(user@, palette_view(*palette)),
{
    let mut r = owned(prefix);
    r.append(Git::render(user, palette).as_str());
    r
}

impl Switcher {
    /// The commands of this tool over `user_list`.
    pub fn new(user_list: UserList) -> (s: Switcher)
        ensures
            s@ == user_list@,
    {
        Switcher { user_list }
    }

    /// The saved users.
    pub fn user_list(&self) -> (r: &UserList)
        ensures
            r@ == self@,
    {
        &self.user_list
    }

    /// Switches `scope` to the users that `user_strings` name: a string that reads as
    /// `Name <email>` is that user, the others are search terms over the saved users.
    /// On success the users pair up with the configured group address, the switch goes
    /// to `scope` (or the configured default scope), and the users given as
    /// `Name <email>` that were not saved yet get saved.
    pub fn request(
        &mut self,
        scope: Scope,
        user_strings: &[String],
        group_email_config: &str,
        default_scope_config: &str,
        palette: &Option<Palette>,
    ) -> (r: Result<SwitchPlan, Message>)
        ensures
            match r {
                Err(m) => m.tone == Tone::Error && find_result(
                    entry_users(old(self)@),
                    unparsed(views(user_strings@)),
                ) == Err::<Seq<UserView>, Seq<char>>(m.text@) && final(self)@ == old(self)@,
                Ok(plan) => find_result(entry_users(old(self)@), unparsed(views(user_strings@)))
                    matches Ok(found) && {
                    let g = group_email_of(group_email_config@);
                    &&& plan.user@ == combine_all(parsed_users(views(user_strings@)) + found, g)
                    &&& plan.scope == resolved_scope(scope, default_scope_config@)
                    &&& (scope != Scope::Default && scope != Scope::Derived ==> plan.scope == scope)
                    &&& views(plan.commands@) == seq![
                        set_command(plan.scope, "user.name"@, name_of(plan.user@)),
                        set_command(plan.scope, "user.email"@, email_of(plan.user@)),
                    ]
                    &&& plan.message.tone == Tone::Success
                    &&& plan.message.text@ == switched_text(
                        plan.scope,
                        plan.user@,
                        palette_view(*palette),
                    )
                    &&& users_view(plan.added@) == newly_added(
                        entry_users(old(self)@),
                        parsed_users(views(user_strings@)),
                    )
                    &&& final(self)@ == old(self)@ + users_view(plan.added@).map_values(
                        |u: UserView| entry_of(u),
                    )
                },
            },
    {
        let ghost strs = views(user_strings@);
        let ghost listed = entry_users(self@);
        let mut parsed: Vec<User> = Vec::new();
        let mut not_parsed: Vec<String> = Vec::new();
        let mut i: usize = 0;
        while i < user_strings.len()
            invariant
                i <= user_strings@.len(),
                strs == views(user_strings@),
                users_view(parsed@) == parsed_users(strs.take(i as int)),
                views(not_parsed@) == unparsed(strs.take(i as int)),
            decreases user_strings@.len() - i,
        {
            assert(strs.take(i + 1).drop_last() == strs.take(i as int));
            assert(strs.take(i + 1).last() == user_strings@[i as int]@);
            match User::parse(user_strings[i].as_str()) {
                Ok(u) => {
                    let ghost old_p = users_view(parsed@);
                    parsed.push(u);
                    assert(users_view(parsed@) == old_p.push(u@));
                },
                Err(_) => {
                    let ghost old_n = views(not_parsed@);
                    not_parsed.push(user_strings[i].clone());
                    assert(views(not_parsed@) == old_n.push(user_strings@[i as int]@));
                },
            }
            i = i + 1;
        }
        assert(strs.take(user_strings@.len() as int) == strs);
        let found = match self.user_list.find(not_parsed.as_slice()) {
            Ok(users) => users,
            Err(e) => {
                return Err(Message { tone: Tone::Error, text: e });
            },
        };
        let ghost pv = users_view(parsed@);
        let ghost fv = users_view(found@);
        let group = ConfigRepository::group_email_address(group_email_config);
        let mut combined = User::none();
        let mut k: usize = 0;
        assert(pv.take(0) == Seq::<UserView>::empty());
        while k < parsed.len()
            invariant
                k <= parsed@.len(),
                pv == users_view(parsed@),
                combined@ == combine_all(pv.take(k as int), group@),
            decreases parsed@.len() - k,
        {
            assert(pv.take(k + 1).drop_last() == pv.take(k as int));
            assert(pv.take(k + 1).last() == parsed@[k as int]@);
            combined = combined.combine(&parsed[k], group.as_str());
            k = k + 1;
        }
        assert(pv.take(parsed@.len() as int) == pv);
        let mut k: usize = 0;
        assert(pv + fv.take(0) == pv);
        while k < found.len()
            invariant
                k <= found@.len(),
                fv == users_view(found@),
                combined@ == combine_all(pv + fv.take(k as int), group@),
            decreases found@.len() - k,
        {
            assert((pv + fv.take(k + 1)).drop_last() == pv + fv.take(k as int));
            assert((pv + fv.take(k + 1)).last() == found@[k as int]@);
            combined = combined.combine(&found[k], group.as_str());
            k = k + 1;
        }
        assert(fv.take(found@.len() as int) == fv);
        let actual = if scope == Scope::Default || scope == Scope::Derived {
            ConfigRepository::default_select_scope(default_scope_config)
        } else {
            scope
        };
        let commands = Git::select_user(&combined, actual);
        let mut text = owned("Switched ");
        text.append(actual.display_name());
        text.append(" user to ");
        text.append(Git::render(&combined, palette).as_str());
        let message = Message { tone: Tone::Success, text };
        let mut added: Vec<User> = Vec::new();
        let ghost old_entries = self@;
        let mut k: usize = 0;
        assert(pv.take(0) == Seq::<UserView>::empty());
        assert(users_view(added@).map_values(|u: UserView| entry_of(u)) == Seq::<
            (Seq<char>, Seq<char>),
        >::empty());
        assert(old_entries + Seq::<(Seq<char>, Seq<char>)>::empty() == old_entries);
        while k < parsed.len()
            invariant
                k <= parsed@.len(),
                pv == users_view(parsed@),
                listed == entry_users(old_entries),
                users_view(added@) == newly_added(listed, pv.take(k as int)),
                self@ == old_entries + users_view(added@).map_values(|u: UserView| entry_of(u)),
            decreases parsed@.len() - k,
        {
            assert(pv.take(k + 1).drop_last() == pv.take(k as int));
            assert(pv.take(k + 1).last() == parsed@[k as int]@);
            let u = &parsed[k];
            let ghost a = users_view(added@);
            assert(entry_users(self@) == listed + a.map_values(|x: UserView| stored(x)));
            if !u.is_none() && !contains_user(&self.user_list.list(), u) {
                self.user_list.add(u);
                added.push(u.duplicate());
                assert(users_view(added@) == a.push(u@));
                assert(a.push(u@).map_values(|x: UserView| entry_of(x)) == a.map_values(
                    |x: UserView| entry_of(x),
                ).push(entry_of(u@)));
            }
            k = k + 1;
        }
        assert(pv.take(parsed@.len() as int) == pv);
        Ok(SwitchPlan { scope: actual, user: combined, commands, message, added })
    }

    /// The scopes that a switch goes to, in turn: the default scope when none are given.
    pub fn switch_scopes(scopes: &[Scope]) -> (r: Vec<Scope>)
        ensures
            r@ == (if scopes@.len() == 0 {
                seq![Scope::Default]
            } else {
                scopes@
            }),
    {
        if scopes.len() == 0 {
            let mut r: Vec<Scope> = Vec::new();
            r.push(Scope::Default);
            return r;
        }
        vstd::slice::slice_to_vec(scopes)
    }

    /// The scopes whose users `print_current` shows, in order: to be read with
    /// `Git::selected_user` and handed to it.
    pub fn current_scopes(scopes: &[Scope]) -> (r: Vec<Scope>)
        ensures
            r@ == shown_scopes(scopes@),
    {
        if scopes.len() == 0 {
            let mut r: Vec<Scope> = Vec::new();
            r.push(Scope::Derived);
            r.push(Scope::Local);
            r.push(Scope::Global);
            r.push(Scope::System);
            return r;
        }
        vstd::slice::slice_to_vec(scopes)
    }

    /// The lines that show the current users; `users[i]` is the user of
    /// `current_scopes(scopes)[i]`.
    pub fn print_current(&self, scopes: &[Scope], users: &[User], palette: &Option<Palette>) -> (r:
        Vec<Line>)
        requires
            users@.len() == shown_scopes(scopes@).len(),
        ensures
            lines_view(r@) == current_lines(scopes@, users_view(users@), palette_view(*palette)),
    {
        let ghost uv = users_view(users@);
        let ghost pal = palette_view(*palette);
        let mut r: Vec<Line> = Vec::new();
        if scopes.len() == 0 {
            r.push(
                Line {
                    label: Some(owned("Current user:")),
                    text: rendered_after(" ", &users[0], palette),
                },
            );
            r.push(Line { label: None, text: String::new() });
            r.push(
                Line {
                    label: Some(pad_left_exec("Local", 6)),
                    text: rendered_after(": ", &users[1], palette),
                },
            );
            r.push(
                Line {
                    label: Some(pad_left_exec("Global", 6)),
                    text: rendered_after(": ", &users[2], palette),
                },
            );
            r.push(
                Line {
                    label: Some(pad_left_exec("System", 6)),
                    text: rendered_after(": ", &users[3], palette),
                },
            );
            assert(lines_view(r@) == current_lines(scopes@, uv, pal));
            return r;
        }
        let mut i: usize = 0;
        while i < scopes.len()
            invariant
                i <= scopes@.len(),
                users@.len() == scopes@.len(),
                uv == users_view(users@),
                pal == palette_view(*palette),
                lines_view(r@) == scope_lines(scopes@.take(i as int), uv, pal),
            decreases scopes@.len() - i,
        {
            let ghost t = scopes@.take(i + 1);
            assert(t.drop_last() == scopes@.take(i as int));
            assert(t[i as int] == scopes@[i as int]);
            assert(uv[i as int] == users@[i as int]@);
            let name = scopes[i].display_name();
            let n = name.unicode_len();
            let width: usize = if n > 6 {
                n
            } else {
                6
            };
            let u = &users[i];
            if !u.is_none() {
                let ghost old_r = lines_view(r@);
                r.push(
                    Line {
                        label: Some(pad_right_exec(name, width)),
                        text: rendered_after(": ", u, palette),
                    },
                );
                assert(lines_view(r@) == old_r.push(
                    (Some(pad_right(name@, width as int)), ": "@ + render_of(uv[i as int], pal)),
                ));
            }
            i = i + 1;
        }
        assert(scopes@.take(scopes@.len() as int) == scopes@);
        r
    }

    /// What clearing `scopes` shows, and the scopes to clear: all three when none are given.
    pub fn clear(&self, scopes: &[Scope]) -> (r: ClearPlan)
        ensures
            r.scopes@ == scopes_or_all(scopes@),
            r.message.tone == Tone::Dim,
            r.message.text@ == clearing_text(scopes_or_all(scopes@)),
    {
        let mut chosen: Vec<Scope> = Vec::new();
        if scopes.len() == 0 {
            chosen.push(Scope::Local);
            chosen.push(Scope::Global);
            chosen.push(Scope::System);
        } else {
            chosen = vstd::slice::slice_to_vec(scopes);
        }
        assert(chosen@ == scopes_or_all(scopes@));
        let mut names: Vec<String> = Vec::new();
        let mut i: usize = 0;
        while i < chosen.len()
            invariant
                i <= chosen@.len(),
                views(names@) == chosen@.map_values(|s: Scope| flag_of(s)).take(i as int),
            decreases chosen@.len() - i,
        {
            let ghost old_n = views(names@);
            names.push(owned(chosen[i].as_flag()));
            assert(views(names@) == old_n.push(flag_of(chosen@[i as int])));
            assert(chosen@.map_values(|s: Scope| flag_of(s)).take(i + 1) == chosen@.map_values(
                |s: Scope| flag_of(s),
            ).take(i as int).push(flag_of(chosen@[i as int])));
            i = i + 1;
        }
        assert(chosen@.map_values(|s: Scope| flag_of(s)).take(chosen@.len() as int)
            == chosen@.map_values(|s: Scope| flag_of(s)));
        let mut text = owned("Clearing Git user in ");
        text.append(join_strings(&names, ", ").as_str());
        text.append(" scope(s)");
        assert(text@ == clearing_text(chosen@));
        ClearPlan { message: Message { tone: Tone::Dim, text }, scopes: chosen }
    }

    /// The saved users, rendered, one per line.
    pub fn list(&self, palette: &Option<Palette>) -> (r: Vec<String>)
        ensures
            views(r@) == entry_users(self@).map_values(
                |u: UserView| render_of(u, palette_view(*palette)),
            ),
    {
        let users = self.user_list.list();
        let ghost target = entry_users(self@).map_values(
            |u: UserView| render_of(u, palette_view(*palette)),
        );
        let mut r: Vec<String> = Vec::new();
        let mut i: usize = 0;
        while i < users.len()
            invariant
                i <= users@.len(),
                users_view(users@) == entry_users(self@),
                target == entry_users(self@).map_values(
                    |u: UserView| render_of(u, palette_view(*palette)),
                ),
                views(r@) == target.take(i as int),
            decreases users@.len() - i,
        {
            let ghost old_r = views(r@);
            r.push(Git::render(&users[i], palette));
            assert(users_view(users@)[i as int] == users@[i as int]@);
            assert(views(r@) == old_r.push(target[i as int]));
            assert(target.take(i + 1) == target.take(i as int).push(target[i as int]));
            i = i + 1;
        }
        assert(target.take(users@.len() as int) == target);
        r
    }

    /// Adds the user that `user_string` names as `Name <email>`, unless it does not read
    /// so or the same user is saved already.
    pub fn add(&mut self, user_string: &str) -> (r: AddOutcome)
        ensures
            match parse_fields(user_string@) {
                None => r.message.tone == Tone::Error && r.message.text@ == "Couldn't parse '"@
                    + crate::text::trim(user_string@)
                    + "' as user (expected user in format: 'Jane Doe <jane@example.com>')"@
                    && r.added is None && final(self)@ == old(self)@,
                Some((n, e)) => if in_users(entry_users(old(self)@), single(n, e)) {
                    r.message.tone == Tone::Dim && r.message.text@ == "User '"@ + display_of(
                        single(n, e),
                    ) + "' already in user list (try switching to them with 'git su "@
                        + initials_of(single(n, e)) + "')"@ && r.added is None && final(self)@
                        == old(self)@
                } else {
                    r.message.tone == Tone::Success && r.message.text@ == "User '"@
                        + display_of(single(n, e)) + "' added to users"@ && (r.added matches Some(
                        u,
                    ) && u@ == single(n, e)) && final(self)@ == old(self)@.push(
                        entry_of(single(n, e)),
                    )
                },
            },
    {
        let user = match User::parse(user_string) {
            Ok(u) => u,
            Err(e) => {
                return AddOutcome {
                    message: Message { tone: Tone::Error, text: e.to_string() },
                    added: None,
                };
            },
        };
        if contains_user(&self.user_list.list(), &user) {
            let mut text = owned("User '");
            text.append(user.to_string().as_str());
            text.append("' already in user list (try switching to them with 'git su ");
            text.append(user.initials().as_str());
            text.append("')");
            AddOutcome { message: Message { tone: Tone::Dim, text }, added: None }
        } else {
            self.user_list.add(&user);
            let mut text = owned("User '");
            text.append(user.to_string().as_str());
            text.append("' added to users");
            AddOutcome { message: Message { tone: Tone::Success, text }, added: Some(user) }
        }
    }

    /// The entries of the menu: each saved user as `Name <email>`, then `(Add user)`.
    pub fn menu_items(&self) -> (r: Vec<String>)
        ensures
            views(r@) == entry_users(self@).map_values(|u: UserView| display_of(u)).push(
                "(Add user)"@,
            ),
    {
        let users = self.user_list.list();
        let ghost target = entry_users(self@).map_values(|u: UserView| display_of(u));
        let mut r: Vec<String> = Vec::new();
        let mut i: usize = 0;
        while i < users.len()
            invariant
                i <= users@.len(),
                users_view(users@) == entry_users(self@),
                target == entry_users(self@).map_values(|u: UserView| display_of(u)),
                views(r@) == target.take(i as int),
            decreases users@.len() - i,
        {
            let ghost old_r = views(r@);
            r.push(users[i].to_string());
            assert(users_view(users@)[i as int] == users@[i as int]@);
            assert(views(r@) == old_r.push(target[i as int]));
            assert(target.take(i + 1) == target.take(i as int).push(target[i as int]));
            i = i + 1;
        }
        assert(target.take(users@.len() as int) == target);
        let ghost before = views(r@);
        r.push(owned("(Add user)"));
        assert(views(r@) == before.push("(Add user)"@));
        r
    }

    /// What choosing entry `selection` of `menu_items` asks for: the last entry adds a
    /// user, any other switches to its user, and no choice does nothing.
    pub fn menu_choice(&self, selection: Option<usize>) -> (r: MenuChoice)
        ensures
            match selection {
                None => r is Cancel,
                Some(i) => if i < entry_users(self@).len() {
                    r matches MenuChoice::Switch(s) && s@ == display_of(entry_users(self@)[i as int])
                } else if i == entry_users(self@).len() {
                    r is AddUser
                } else {
                    r is Cancel
                },
            },
    {
        match selection {
            None => MenuChoice::Cancel,
            Some(i) => {
                let users = self.user_list.list();
                if i < users.len() {
                    assert(users_view(users@)[i as int] == users@[i as int]@);
                    MenuChoice::Switch(users[i].to_string())
                } else if i == users.len() {
                    MenuChoice::AddUser
                } else {
                    MenuChoice::Cancel
                }
            },
        }
    }

    /// The user string for a name and an email typed in: `Name <email>`, each trimmed.
    pub fn compose_user(name: &str, email: &str) -> (r: String)
        ensures
            r@ == crate::text::trim(name@) + " <"@ + crate::text::trim(email@) + ">"@,
    {
        let mut r = crate::text::trim_str(name);
        r.append(" <");
        r.append(crate::text::trim_str(email).as_str());
        r.append(">");
        r
    }

    /// The command that opens the file of saved users at `path` in an editor.
    pub fn edit_config(&self, path: &str) -> (r: String)
        ensures
            r@ == "git config --edit --file "@ + path@,
    {
        Git::edit_gitsu_config(path)
    }
}

} // verus!
