use git_su::color::{self, Line, Message, Tone};
use git_su::git::{ClearStage, GitAction, GitEvent, Palette};
use git_su::{ConfigRepository, Git, Scope, User};

#[test]
fn scope_names() {
    assert_eq!(Scope::Local.as_flag(), "local");
    assert_eq!(Scope::Global.as_flag(), "global");
    assert_eq!(Scope::System.as_flag(), "system");
    assert_eq!(Scope::Derived.as_flag(), "");
    assert_eq!(Scope::Default.as_flag(), "");
    assert_eq!(Scope::Derived.display_name(), "derived");
    assert_eq!(Scope::Default.display_name(), "local");
}

#[test]
fn config_commands() {
    assert_eq!(Git::get_config(Scope::Derived, "user.name"), "git config --get user.name");
    assert_eq!(Git::get_config(Scope::Global, "user.name"), "git config --global --get user.name");
    assert_eq!(Git::unset_config(Scope::Local, "user.email"), "git config --local --unset user.email");
    assert_eq!(Git::list_config(Scope::System), "git config --system --list");
    assert_eq!(
        Git::remove_section(Scope::Local, "user"),
        "git config --local --remove-section user 2>/dev/null"
    );
    assert_eq!(Git::edit_gitsu_config("/home/a/.git-su"), "git config --edit --file /home/a/.git-su");
    assert_eq!(Git::get_color("blue"), "git config --get-color '' 'blue'");
    assert_eq!(Git::color_output_command(), "git config --get-colorbool color.ui");
}

#[test]
fn set_config_quotes_the_value() {
    assert_eq!(
        Git::set_config(Scope::Global, "user.name", "Jane O'Doe"),
        "git config --global user.name 'Jane O'\\''Doe'"
    );
    assert_eq!(Git::escape_quotes("plain"), "plain");
}

#[test]
fn select_user_sets_name_then_email() {
    let u = User::new("Jane Doe", "jane@example.com");
    let cmds = Git::select_user(&u, Scope::Local);
    assert_eq!(
        cmds,
        vec![
            "git config --local user.name 'Jane Doe'".to_string(),
            "git config --local user.email 'jane@example.com'".to_string(),
        ]
    );
}

#[test]
fn selected_user_from_config() {
    assert!(Git::selected_user("", "x@y").is_none());
    let u = Git::selected_user("Jane Doe", "jane@example.com");
    assert_eq!(u.to_string(), "Jane Doe <jane@example.com>");
}

#[test]
fn color_output_answers() {
    assert!(Git::color_output("true"));
    assert!(Git::color_output("always"));
    assert!(!Git::color_output("false"));
    assert!(!Git::color_output(""));
}

#[test]
fn config_lines_split_output() {
    assert!(Git::config_lines("").is_empty());
    assert_eq!(Git::config_lines("a=1\r\nuser.name=x\nb"), vec!["a=1", "user.name=x", "b"]);
    assert_eq!(Git::config_lines("a\n"), vec!["a"]);
    assert!(Git::has_user_entries(&Git::config_lines("core.x=1\nuser.email=a")));
    assert!(!Git::has_user_entries(&Git::config_lines("core.x=1\nusers=a")));
}

#[test]
fn render_plain_and_in_colors() {
    let u = User::new("Jane Doe", "jane@example.com");
    assert_eq!(Git::render(&u, &None), "Jane Doe <jane@example.com>");
    let p = Palette { user_color: "[B]".to_string(), email_color: "[G]".to_string(), reset: "[R]".to_string() };
    assert_eq!(Git::render(&u, &Some(p)), "[B]Jane Doe [G]<jane@example.com>[R]");
}

fn run_clear(scope: Scope, outputs: &mut dyn FnMut(&str) -> String) -> Vec<String> {
    let mut machine = Git::clear_user(scope);
    let mut event = GitEvent::Start;
    let mut ran = Vec::new();
    loop {
        match machine.step(event) {
            GitAction::Capture(c) => {
                let out = outputs(&c);
                ran.push(c);
                event = GitEvent::Captured(out);
            }
            GitAction::Execute(c) => {
                ran.push(c);
                event = GitEvent::Executed(true);
            }
            GitAction::Done => break,
        }
    }
    assert_eq!(machine.stage, ClearStage::Finished);
    ran
}

#[test]
fn clear_user_without_user_only_reads_the_name() {
    let ran = run_clear(Scope::Local, &mut |_| String::new());
    assert_eq!(ran, vec!["git config --local --get user.name"]);
}

#[test]
fn clear_user_removes_the_empty_section() {
    let ran = run_clear(Scope::Global, &mut |c| {
        if c.ends_with("user.name") { "Jane".to_string() } else if c.ends_with("--list") { "core.a=1".to_string() } else { "j@x".to_string() }
    });
    assert_eq!(
        ran,
        vec![
            "git config --global --get user.name",
            "git config --global --get user.email",
            "git config --global --unset user.name",
            "git config --global --unset user.email",
            "git config --global --list",
            "git config --global --remove-section user 2>/dev/null",
        ]
    );
}

#[test]
fn clear_user_keeps_a_section_with_entries_left() {
    let ran = run_clear(Scope::System, &mut |c| {
        if c.ends_with("--list") { "user.signingkey=K".to_string() } else { "x".to_string() }
    });
    assert_eq!(ran.len(), 5);
    assert_eq!(ran[4], "git config --system --list");
}

#[test]
fn config_repository_defaults() {
    assert_eq!(ConfigRepository::default_select_scope(""), Scope::Local);
    assert_eq!(ConfigRepository::default_select_scope(" global \n"), Scope::Global);
    assert_eq!(ConfigRepository::default_select_scope("system"), Scope::System);
    assert_eq!(ConfigRepository::default_select_scope("local"), Scope::Local);
    assert_eq!(ConfigRepository::default_select_scope("weird"), Scope::Local);
    assert_eq!(ConfigRepository::group_email_address(""), "dev@example.com");
    assert_eq!(ConfigRepository::group_email_address("  team@x.org "), "team@x.org");
    assert_eq!(
        ConfigRepository::default_select_scope_command(),
        "git config --get gitsu.defaultSelectScope"
    );
    assert_eq!(
        ConfigRepository::group_email_address_command(),
        "git config --get gitsu.groupEmailAddress"
    );
}

#[test]
fn colors_only_when_enabled() {
    assert_eq!(color::label("Current user:", false), "Current user:");
    assert_eq!(color::success("ok", false), "ok");
    assert_eq!(color::error("bad", false), "bad");
    assert_eq!(color::dim("note", false), "note");
    colored::control::set_override(true);
    assert_eq!(color::label("L", true), "\x1B[1;36mL\x1B[0m");
    assert_eq!(color::success("ok", true), "\x1B[32mok\x1B[0m");
    assert_eq!(color::error("bad", true), "\x1B[31mbad\x1B[0m");
    assert_eq!(color::dim("note", true), "\x1B[2mnote\x1B[0m");
    let m = Message { tone: Tone::Error, text: "e".to_string() };
    assert_eq!(color::paint(&m, true), "\x1B[31me\x1B[0m");
    assert_eq!(color::paint(&m, false), "e");
    let line = Line { label: Some("Local".to_string()), text: ": x".to_string() };
    assert_eq!(color::paint_line(&line, false), "Local: x");
    assert_eq!(color::paint_line(&line, true), "\x1B[1;36mLocal\x1B[0m: x");
}
