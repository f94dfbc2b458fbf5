//! The `git config` commands that select, read and clear a user in a scope, and the
//! decisions taken on what those commands print.

use vstd::prelude::*;
use crate::text::{
    char_vec, find_char_from, index_from, owned, push_char, starts_with, starts_with_chars, views,
};
use crate::user::{User, UserView, display_of, email_of, name_of, nobody, single};

verus! {

broadcast use vstd::string::group_string_axioms;

/// Where Git reads or writes its configuration. `Derived` is what Git sees from
/// the current directory; `Default` stands for the configured default scope.
#[derive(Clone, Copy, Debug, PartialEq, Eq, Structural)]
pub enum Scope {
    Local,
    Global,
    System,
    Derived,
    Default,
}

/// The `git config` option that names a scope, without its dashes.
pub open spec fn flag_of(scope: Scope) -> Seq<char> {
    match scope {
        Scope::Local => "local"@,
        Scope::Global => "global"@,
        Scope::System => "system"@,
        Scope::Derived => ""@,
        Scope::Default => ""@,
    }
}

/// The name under which a scope is shown.
pub open spec fn display_name_of(scope: Scope) -> Seq<char> {
    match scope {
        Scope::Local => "local"@,
        Scope::Global => "global"@,
        Scope::System => "system"@,
        Scope::Derived => "derived"@,
        Scope::Default => "local"@,
    }
}

impl Scope {
    /// The `git config` option that names this scope, without its dashes.
    pub fn as_flag(self) -> (r: &'static str)
        ensures
            r@ == flag_of(self),
    {
        match self {
            Scope::Local => "local",
            Scope::Global => "global",
            Scope::System => "system",
            Scope::Derived => "",
            Scope::Default => "",
        }
    }

    /// The name under which this scope is shown.
    pub fn display_name(self) -> (r: &'static str)
        ensures
            r@ == display_name_of(self),
    {
        match self {
            Scope::Local => "local",
            Scope::Global => "global",
            Scope::System => "system",
            Scope::Derived => "derived",
            Scope::Default => "local",
        }
    }
}

/// `git config` with the scope's option, then `suffix`.
pub open spec fn config_command(scope: Scope, suffix: Seq<char>) -> Seq<char> {
    if scope == Scope::Derived {
        "git config "@ + suffix
    } else {
        "git config --"@ + flag_of(scope) + " "@ + suffix
    }
}

/// `v` with every `'` written as `'\''`, so that it can stand between single quotes
/// in a shell command.
pub open spec fn escape_quotes(v: Seq<char>) -> Seq<char>
    decreases v.len(),
{
    if v.len() == 0 {
        seq![]
    } else if v.last() == '\'' {
        escape_quotes(v.drop_last()) + "'\\''"@
    } else {
        escape_quotes(v.drop_last()).push(v.last())
    }
}

/// The command that reads `key`.
pub open spec fn get_command(scope: Scope, key: Seq<char>) -> Seq<char> {
    config_command(scope, "--get "@ + key)
}

/// The command that sets `key` to `value`.
pub open spec fn set_command(scope: Scope, key: Seq<char>, value: Seq<char>) -> Seq<char> {
    config_command(scope, key + " '"@ + escape_quotes(value) + "'"@)
}

/// The command that removes `key`.
pub open spec fn unset_command(scope: Scope, key: Seq<char>) -> Seq<char> {
    config_command(scope, "--unset "@ + key)
}

/// The command that lists the configuration.
pub open spec fn list_command(scope: Scope) -> Seq<char> {
    config_command(scope, "--list"@)
}

/// The command that removes a section, quietly.
pub open spec fn remove_section_command(scope: Scope, section: Seq<char>) -> Seq<char> {
    config_command(scope, "--remove-section "@ + section + " 2>/dev/null"@)
}

/// The colors that a user is rendered with: the sequences that `git config
/// --get-color` printed for blue, green and reset.
pub struct Palette {
    pub user_color: String,
    pub email_color: String,
    pub reset: String,
}

/// The views of a palette's colors.
pub open spec fn palette_view(p: Option<Palette>) -> Option<(Seq<char>, Seq<char>, Seq<char>)> {
    match p {
        Some(p) => Some((p.user_color@, p.email_color@, p.reset@)),
        None => None,
    }
}

/// How a user is rendered: `Name <email>`, or in colors when Git's output is colored.
pub open spec fn render_of(u: UserView, p: Option<(Seq<char>, Seq<char>, Seq<char>)>) -> Seq<
    char,
> {
    match p {
        Some((uc, ec, reset)) => uc + name_of(u) + " "@ + ec + "<"@ + email_of(u) + ">"@ + reset,
        None => display_of(u),
    }
}

/// The lines of `s` as `str::lines` yields them: split after each '\n', which is
/// dropped together with a '\r' just before it; no line follows a final '\n'.
pub open spec fn lines_from(s: Seq<char>, i: int) -> Seq<Seq<char>>
    decreases s.len() - i,
{
    if i < 0 || i >= s.len() {
        seq![]
    } else {
        let e = index_from(s, '\n', i);
        if e >= s.len() {
            seq![s.subrange(i, s.len() as int)]
        } else {
            let line = s.subrange(i, e);
            let line = if line.len() > 0 && line.last() == '\r' {
                line.drop_last()
            } else {
                line
            };
            proof {
                crate::text::lemma_index_from(s, '\n', i);
            }
            seq![line] + lines_from(s, e + 1)
        }
    }
}

/// Some line is a `user.` entry.
pub open spec fn has_user_entry(lines: Seq<Seq<char>>) -> bool {
    exists|k: int| 0 <= k < lines.len() && starts_with(#[trigger] lines[k], "user."@)
}

/// The user that `git config --get user.name` and `--get user.email` describe:
/// nobody when the name is empty.
pub open spec fn selected_user_of(name: Seq<char>, email: Seq<char>) -> UserView {
    if name.len() == 0 {
        nobody()
    } else {
        single(name, email)
    }
}

/// Commands to run in turn, and what to do with their output.
pub enum GitAction {
    /// Run the command and hand back what it printed, trimmed.
    Capture(String),
    /// Run the command and hand back whether it succeeded.
    Execute(String),
    /// Nothing more to run.
    Done,
}

/// What the last action gave.
pub enum GitEvent {
    /// Nothing ran yet.
    Start,
    /// A captured command printed this, trimmed.
    Captured(String),
    /// An executed command succeeded or not.
    Executed(bool),
}

/// What a captured command printed; empty for other events.
pub open spec fn captured(e: GitEvent) -> Seq<char> {
    match e {
        GitEvent::Captured(s) => s@,
        _ => seq![],
    }
}

/// The step that clearing a user waits for.
#[derive(Clone, Copy, Debug, PartialEq, Eq, Structural)]
pub enum ClearStage {
    Begin,
    AwaitName,
    AwaitEmail,
    AwaitUnsetName,
    AwaitUnsetEmail,
    AwaitList,
    AwaitRemoveSection,
    Finished,
}

/// Clearing the user of a scope: read the user; if there is one, remove its name and
/// email, and remove the `user` section when no `user.` entry is left.
pub struct ClearUser {
    pub scope: Scope,
    pub stage: ClearStage,
}

/// What an action asks for: whether its output is captured, and its command; `None`
/// when nothing more is to run.
pub open spec fn action_view(a: GitAction) -> Option<(bool, Seq<char>)> {
    match a {
        GitAction::Capture(c) => Some((true, c@)),
        GitAction::Execute(c) => Some((false, c@)),
        GitAction::Done => None,
    }
}

/// The stage that clearing a user reaches from `stage` after `event`: it stops when no
/// name was read, and it removes the section only when no `user.` entry is left.
pub open spec fn next_clear_stage(stage: ClearStage, event: GitEvent) -> ClearStage {
    match stage {
        ClearStage::Begin => ClearStage::AwaitName,
        ClearStage::AwaitName => if captured(event).len() == 0 {
            ClearStage::Finished
        } else {
            ClearStage::AwaitEmail
        },
        ClearStage::AwaitEmail => ClearStage::AwaitUnsetName,
        ClearStage::AwaitUnsetName => ClearStage::AwaitUnsetEmail,
        ClearStage::AwaitUnsetEmail => ClearStage::AwaitList,
        ClearStage::AwaitList => if has_user_entry(lines_from(captured(event), 0)) {
            ClearStage::Finished
        } else {
            ClearStage::AwaitRemoveSection
        },
        ClearStage::AwaitRemoveSection => ClearStage::Finished,
        ClearStage::Finished => ClearStage::Finished,
    }
}

/// What clearing the user of `scope` asks for on reaching `stage`.
pub open spec fn clear_request(scope: Scope, stage: ClearStage) -> Option<(bool, Seq<char>)> {
    match stage {
        ClearStage::AwaitName => Some((true, get_command(scope, "user.name"@))),
        ClearStage::AwaitEmail => Some((true, get_command(scope, "user.email"@))),
        ClearStage::AwaitUnsetName => Some((false, unset_command(scope, "user.name"@))),
        ClearStage::AwaitUnsetEmail => Some((false, unset_command(scope, "user.email"@))),
        ClearStage::AwaitList => Some((true, list_command(scope))),
        ClearStage::AwaitRemoveSection => Some((false, remove_section_command(scope, "user"@))),
        _ => None,
    }
}

/// How many steps at most are left from `stage`.
pub open spec fn clear_steps_left(stage: ClearStage) -> nat {
    match stage {
        ClearStage::Begin => 7,
        ClearStage::AwaitName => 6,
        ClearStage::AwaitEmail => 5,
        ClearStage::AwaitUnsetName => 4,
        ClearStage::AwaitUnsetEmail => 3,
        ClearStage::AwaitList => 2,
        ClearStage::AwaitRemoveSection => 1,
        ClearStage::Finished => 0,
    }
}

/// Clearing a user always comes to an end: every step before the end moves closer to it.
pub proof fn law_clearing_ends(stage: ClearStage, event: GitEvent)
    ensures
        stage != ClearStage::Finished ==> clear_steps_left(next_clear_stage(stage, event))
            < clear_steps_left(stage),
        stage == ClearStage::Finished ==> next_clear_stage(stage, event) == ClearStage::Finished,
{
}

/// The empty string.
fn empty() -> (r: String)
    ensures
        r@ == Seq::<char>::empty(),
{
    String::new()
}

impl ClearUser {
    /// Takes the next step after `event`, and says what to run next.
    pub fn step(&mut self, event: GitEvent) -> (action: GitAction)
        ensures
            final(self).scope == old(self).scope,
            final(self).stage == next_clear_stage(old(self).stage, event),
            action_view(action) == clear_request(old(self).scope, final(self).stage),
    {
        let scope = self.scope;
        let text = match event {
            GitEvent::Captured(s) => s,
            _ => empty(),
        };
        match self.stage {
            ClearStage::Begin => {
                self.stage = ClearStage::AwaitName;
                GitAction::Capture(Git::get_config(scope, "user.name"))
            },
            ClearStage::AwaitName => {
                let current = Git::selected_user(text.as_str(), "");
                if current.is_none() {
                    self.stage = ClearStage::Finished;
                    GitAction::Done
                } else {
                    self.stage = ClearStage::AwaitEmail;
                    GitAction::Capture(Git::get_config(scope, "user.email"))
                }
            },
            ClearStage::AwaitEmail => {
                self.stage = ClearStage::AwaitUnsetName;
                GitAction::Execute(Git::unset_config(scope, "user.name"))
            },
            ClearStage::AwaitUnsetName => {
                self.stage = ClearStage::AwaitUnsetEmail;
                GitAction::Execute(Git::unset_config(scope, "user.email"))
            },
            ClearStage::AwaitUnsetEmail => {
                self.stage = ClearStage::AwaitList;
                GitAction::Capture(Git::list_config(scope))
            },
            ClearStage::AwaitList => {
                let lines = Git::config_lines(text.as_str());
                if Git::has_user_entries(&lines) {
                    self.stage = ClearStage::Finished;
                    GitAction::Done
                } else {
                    self.stage = ClearStage::AwaitRemoveSection;
                    GitAction::Execute(Git::remove_section(scope, "user"))
                }
            },
            ClearStage::AwaitRemoveSection => {
                self.stage = ClearStage::Finished;
                GitAction::Done
            },
            ClearStage::Finished => GitAction::Done,
        }
    }
}

/// The `git config` commands of this tool, and what is read from their output.
pub struct Git;

impl Git {
    /// `git config` with the scope's option, then `suffix`.
    fn command(scope: Scope, suffix: &str) -> (r: String)
        ensures
            r@ == config_command(scope, suffix@),
    {
        let mut r = String::new();
        if scope == Scope::Derived {
            r.append("git config ");
        } else {
            r.append("git config --");
            r.append(scope.as_flag());
            r.append(" ");
        }
        r.append(suffix);
        r
    }

    /// The command that reads `key` in `scope`.
    pub fn get_config(scope: Scope, key: &str) -> (r: String)
        ensures
            r@ == get_command(scope, key@),
    {
        let mut suffix = String::new();
        suffix.append("--get ");
        suffix.append(key);
        Git::command(scope, suffix.as_str())
    }

    /// `value` with every `'` written as `'\''`.
    pub fn escape_quotes(value: &str) -> (r: String)
        ensures
            r@ == escape_quotes(value@),
    {
        let v = char_vec(value);
        let mut r = String::new();
        let mut i: usize = 0;
        while i < v.len()
            invariant
                i <= v@.len(),
                r@ == escape_quotes(v@.take(i as int)),
            decreases v@.len() - i,
        {
            assert(v@.take(i + 1).drop_last() == v@.take(i as int));
            if v[i] == '\'' {
                r.append("'\\''");
            } else {
                push_char(&mut r, v[i]);
            }
            i = i + 1;
        }
        assert(v@.take(v@.len() as int) == v@);
        r
    }

    /// The command that sets `key` to `value` in `scope`, with `value` quoted for the shell.
    pub fn set_config(scope: Scope, key: &str, value: &str) -> (r: String)
        ensures
            r@ == set_command(scope, key@, value@),
    {
        let escaped = Git::escape_quotes(value);
        let mut suffix = String::new();
        suffix.append(key);
        suffix.append(" '");
        suffix.append(escaped.as_str());
        suffix.append("'");
        Git::command(scope, suffix.as_str())
    }

    /// The command that removes `key` from `scope`.
    pub fn unset_config(scope: Scope, key: &str) -> (r: String)
        ensures
            r@ == unset_command(scope, key@),
    {
        let mut suffix = String::new();
        suffix.append("--unset ");
        suffix.append(key);
        Git::command(scope, suffix.as_str())
    }

    /// The command that lists the configuration of `scope`.
    pub fn list_config(scope: Scope) -> (r: String)
        ensures
            r@ == list_command(scope),
    {
        Git::command(scope, "--list")
    }

    /// The lines that listing the configuration printed; none when it printed nothing.
    pub fn config_lines(output: &str) -> (r: Vec<String>)
        ensures
            views(r@) == lines_from(output@, 0),
    {
        let v = char_vec(output);
        let mut r: Vec<String> = Vec::new();
        if v.len() == 0 {
            return r;
        }
        let mut i: usize = 0;
        while i < v.len()
            invariant
                v@ == output@,
                i <= v@.len(),
                lines_from(v@, 0) == views(r@) + lines_from(v@, i as int),
            decreases v@.len() - i,
        {
            let e = find_char_from(&v, '\n', i);
            proof {
                crate::text::lemma_index_from(v@, '\n', i as int);
            }
            let ghost old_r = views(r@);
            if e >= v.len() {
                r.push(output.substring_char(i, v.len()).to_string());
                assert(views(r@) == old_r.push(v@.subrange(i as int, v@.len() as int)));
                i = v.len();
            } else {
                let end = if e > i && v[e - 1] == '\r' {
                    e - 1
                } else {
                    e
                };
                r.push(output.substring_char(i, end).to_string());
                proof {
                    if e > i {
                        assert(v@.subrange(i as int, e as int).drop_last() == v@.subrange(
                            i as int,
                            e - 1,
                        ));
                    }
                }
                assert(views(r@) == old_r.push(v@.subrange(i as int, end as int)));
                i = e + 1;
            }
        }
        assert(views(r@) + lines_from(v@, v@.len() as int) == views(r@));
        r
    }

    /// Whether some line is a `user.` entry.
    pub fn has_user_entries(lines: &Vec<String>) -> (r: bool)
        ensures
            r == has_user_entry(views(lines@)),
    {
        let prefix = char_vec("user.");
        let mut i: usize = 0;
        while i < lines.len()
            invariant
                i <= lines@.len(),
                prefix@ == "user."@,
                forall|k: int| 0 <= k < i ==> !starts_with(#[trigger] views(lines@)[k], "user."@),
            decreases lines@.len() - i,
        {
            assert(views(lines@)[i as int] == lines@[i as int]@);
            if starts_with_chars(&char_vec(lines[i].as_str()), &prefix) {
                return true;
            }
            i = i + 1;
        }
        false
    }

    /// The command that quietly removes `section` from `scope`.
    pub fn remove_section(scope: Scope, section: &str) -> (r: String)
        ensures
            r@ == remove_section_command(scope, section@),
    {
        let mut suffix = String::new();
        suffix.append("--remove-section ");
        suffix.append(section);
        suffix.append(" 2>/dev/null");
        Git::command(scope, suffix.as_str())
    }

    /// The commands, to run in turn while they succeed, that make `user` the user of `scope`.
    pub fn select_user(user: &User, scope: Scope) -> (r: Vec<String>)
        ensures
            views(r@) == seq![
                set_command(scope, "user.name"@, name_of(user@)),
                set_command(scope, "user.email"@, email_of(user@)),
            ],
    {
        let mut r: Vec<String> = Vec::new();
        r.push(Git::set_config(scope, "user.name", user.name().as_str()));
        r.push(Git::set_config(scope, "user.email", user.email().as_str()));
        r
    }

    /// The user that reading `user.name` and `user.email` gave: nobody when the name is empty.
    pub fn selected_user(name: &str, email: &str) -> (r: User)
        ensures
            r@ == selected_user_of(name@, email@),
    {
        if name.is_empty() {
            return User::none();
        }
        User::new(name, email)
    }

    /// The steps that clear the user of `scope`.
    pub fn clear_user(scope: Scope) -> (r: ClearUser)
        ensures
            r.scope == scope,
            r.stage == ClearStage::Begin,
    {
        ClearUser { scope, stage: ClearStage::Begin }
    }

    /// The command that opens the file of saved users in an editor.
    pub fn edit_gitsu_config(path: &str) -> (r: String)
        ensures
            r@ == "git config --edit --file "@ + path@,
    {
        let mut r = String::new();
        r.append("git config --edit --file ");
        r.append(path);
        r
    }

    /// The command that prints the color sequence named `name`.
    pub fn get_color(name: &str) -> (r: String)
        ensures
            r@ == "git config --get-color '' '"@ + name@ + "'"@,
    {
        let mut r = String::new();
        r.append("git config --get-color '' '");
        r.append(name);
        r.append("'");
        r
    }

    /// The command that asks whether Git colors its output.
    pub fn color_output_command() -> (r: String)
        ensures
            r@ == "git config --get-colorbool color.ui"@,
    {
        owned("git config --get-colorbool color.ui")
    }

    /// Whether the answer of `color_output_command` says that output is colored.
    pub fn color_output(answer: &str) -> (r: bool)
        ensures
            r == (answer@ == "true"@ || answer@ == "always"@),
    {
        crate::text::str_eq(answer, "true") || crate::text::str_eq(answer, "always")
    }

    /// How `user` is shown: in the colors of `palette` when there is one.
    pub fn render(user: &User, palette: &Option<Palette>) -> (r: String)
        ensures
            r@ == render_of(user@, palette_view(*palette)),
    {
        match palette {
            Some(p) => {
                let mut r = String::new();
                r.append(p.user_color.as_str());
                r.append(user.name().as_str());
                r.append(" ");
                r.append(p.email_color.as_str());
                r.append("<");
                r.append(user.email().as_str());
                r.append(">");
                r.append(p.reset.as_str());
                r
            },
            None => user.to_string(),
        }
    }
}

/// After the listing, clearing removes the `user` section exactly when no line of the
/// listing begins with `user.`, wherever such a line stands; otherwise it ends and keeps
/// the section.
pub proof fn law_section_removed_only_without_user_lines(event: GitEvent)
    ensures
        ({
            let lines = lines_from(captured(event), 0);
            next_clear_stage(ClearStage::AwaitList, event) == if forall|k: int|
                0 <= k < lines.len() ==> !(5 <= (#[trigger] lines[k]).len() && lines[k].subrange(0, 5)
                    == "user."@) {
                ClearStage::AwaitRemoveSection
            } else {
                ClearStage::Finished
            }
        }),
        clear_request(Scope::Local, ClearStage::AwaitRemoveSection) == Some(
            (false, "git config --local --remove-section user 2>/dev/null"@),
        ),
{
    reveal_strlit("user.");
    let lines = lines_from(captured(event), 0);
    if has_user_entry(lines) {
        let k = choose|k: int| 0 <= k < lines.len() && starts_with(#[trigger] lines[k], "user."@);
        assert(5 <= lines[k].len() && lines[k].subrange(0, 5) == "user."@);
    } else {
        assert forall|k: int| 0 <= k < lines.len() implies !(5 <= (#[trigger] lines[k]).len()
            && lines[k].subrange(0, 5) == "user."@) by {
            if 5 <= lines[k].len() && lines[k].subrange(0, 5) == "user."@ {
                assert(starts_with(lines[k], "user."@));
            }
        }
    }
    reveal_strlit("local");
    reveal_strlit("git config --local --remove-section user 2>/dev/null");
    reveal_strlit("git config --");
    reveal_strlit(" ");
    reveal_strlit("--remove-section ");
    reveal_strlit("user");
    reveal_strlit(" 2>/dev/null");
    assert(remove_section_command(Scope::Local, "user"@)
        == "git config --local --remove-section user 2>/dev/null"@);
}

/// Quoting changes nothing in a value without `'`.
pub proof fn law_escape_without_quotes(v: Seq<char>)
    requires
        !v.contains('\''),
    ensures
        escape_quotes(v) == v,
    decreases v.len(),
{
    if v.len() > 0 {
        assert(!v.drop_last().contains('\'')) by {
            if v.drop_last().contains('\'') {
                let k = choose|k: int| 0 <= k < v.drop_last().len() && v.drop_last()[k] == '\'';
                assert(v[k] == '\'');
            }
        }
        law_escape_without_quotes(v.drop_last());
        assert(v[v.len() - 1] != '\'');
        assert(v.drop_last().push(v.last()) == v);
    }
}

} // verus!
