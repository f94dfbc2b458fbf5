use git_su::color::Tone;
use git_su::git::Palette;
use git_su::{Scope, Switcher, User, UserFile, UserList};

fn switcher_with(users: &[(&str, &str)]) -> Switcher {
    let mut uf = UserFile::new(Vec::new());
    for (name, email) in users {
        uf.write(&User::new(name, email));
    }
    Switcher::new(UserList::new(uf))
}

fn strs(ts: &[&str]) -> Vec<String> {
    ts.iter().map(|t| t.to_string()).collect()
}

#[test]
fn list_empty() {
    let s = switcher_with(&[]);
    assert!(s.list(&None).is_empty());
}

#[test]
fn add_and_list() {
    let mut s = switcher_with(&[]);
    let out = s.add("Jane Doe <jane@example.com>");
    assert_eq!(out.message.tone, Tone::Success);
    assert_eq!(out.message.text, "User 'Jane Doe <jane@example.com>' added to users");
    assert!(out.added.is_some());
    let listed = s.list(&None);
    assert!(listed[0].contains("Jane Doe") && listed[0].contains("jane@example.com"));
}

#[test]
fn add_twice_says_already_there() {
    let mut s = switcher_with(&[("Jane Doe", "jane@example.com")]);
    let out = s.add("Jane Doe <jane@example.com>");
    assert_eq!(out.message.tone, Tone::Dim);
    assert_eq!(
        out.message.text,
        "User 'Jane Doe <jane@example.com>' already in user list (try switching to them with 'git su jd')"
    );
    assert!(out.added.is_none());
    assert_eq!(s.list(&None).len(), 1);
}

#[test]
fn add_refuses_bad_string() {
    let mut s = switcher_with(&[]);
    let out = s.add("Jane");
    assert_eq!(out.message.tone, Tone::Error);
    assert!(out.message.text.starts_with("Couldn't parse 'Jane' as user"));
    assert!(s.list(&None).is_empty());
}

#[test]
fn global_writes_gitconfig() {
    let mut s = switcher_with(&[("Jane Doe", "jane@example.com")]);
    let plan = s.request(Scope::Global, &strs(&["jd"]), "", "", &None).ok().unwrap();
    assert_eq!(plan.scope, Scope::Global);
    assert_eq!(
        plan.commands,
        strs(&[
            "git config --global user.name 'Jane Doe'",
            "git config --global user.email 'jane@example.com'"
        ])
    );
    assert_eq!(plan.message.text, "Switched global user to Jane Doe <jane@example.com>");
    assert!(plan.added.is_empty());
}

#[test]
fn request_pairs_found_and_given_users() {
    let mut s = switcher_with(&[("Jane Doe", "jane@example.com")]);
    let plan = s
        .request(Scope::Default, &strs(&["Bob Smith <bob@corp.org>", "jd"]), "team@x.org", "system", &None)
        .ok()
        .unwrap();
    assert_eq!(plan.scope, Scope::System);
    assert_eq!(plan.user.name(), "Bob Smith and Jane Doe");
    assert_eq!(plan.user.email(), "team+bob+jane@x.org");
    assert_eq!(plan.added.len(), 1);
    assert_eq!(plan.added[0].name(), "Bob Smith");
    assert_eq!(s.list(&None).len(), 2);
}

#[test]
fn request_saves_a_given_user_once() {
    let mut s = switcher_with(&[]);
    let plan = s
        .request(Scope::Local, &strs(&["Al <al@x>", "Al <al@x>"]), "", "", &None)
        .ok()
        .unwrap();
    assert_eq!(plan.added.len(), 1);
    assert_eq!(s.list(&None).len(), 1);
}

#[test]
fn request_unknown_term_is_an_error() {
    let mut s = switcher_with(&[("Jane Doe", "jane@example.com")]);
    let err = s.request(Scope::Local, &strs(&["Al <al@x>", "zz"]), "", "", &None).err().unwrap();
    assert_eq!(err.tone, Tone::Error);
    assert_eq!(err.text, "No user found matching 'zz'");
    assert_eq!(s.list(&None).len(), 1);
}

#[test]
fn request_with_derived_scope_uses_default_scope() {
    let mut s = switcher_with(&[("Jane Doe", "jane@example.com")]);
    let plan = s.request(Scope::Derived, &strs(&["jane"]), "", " global ", &None).ok().unwrap();
    assert_eq!(plan.scope, Scope::Global);
}

#[test]
fn tui_no_menu_when_stdin_not_tty() {
    let s = switcher_with(&[]);
    let users = vec![User::new("Jane Doe", "jane@example.com"), User::none(), User::none(), User::none()];
    assert_eq!(Switcher::current_scopes(&[]).len(), 4);
    let lines = s.print_current(&[], &users, &None);
    assert_eq!(lines.len(), 5);
    assert_eq!(lines[0].label.as_deref(), Some("Current user:"));
    assert_eq!(lines[0].text, " Jane Doe <jane@example.com>");
    assert!(lines[1].label.is_none());
    assert_eq!(lines[2].label.as_deref(), Some(" Local"));
    assert_eq!(lines[2].text, ": (none) <>");
    assert_eq!(lines[3].label.as_deref(), Some("Global"));
}

#[test]
fn print_current_of_given_scopes_skips_nobody() {
    let s = switcher_with(&[]);
    let scopes = [Scope::Local, Scope::Global, Scope::Derived];
    let users = vec![User::new("A", "a@x"), User::none(), User::new("B", "b@x")];
    let p = Palette { user_color: "<u>".to_string(), email_color: "<e>".to_string(), reset: "<r>".to_string() };
    let lines = s.print_current(&scopes, &users, &Some(p));
    assert_eq!(lines.len(), 2);
    assert_eq!(lines[0].label.as_deref(), Some("local "));
    assert_eq!(lines[0].text, ": <u>A <e><a@x><r>");
    assert_eq!(lines[1].label.as_deref(), Some("derived"));
}

#[test]
fn clear_all_scopes_by_default() {
    let s = switcher_with(&[]);
    let plan = s.clear(&[]);
    assert_eq!(plan.scopes, vec![Scope::Local, Scope::Global, Scope::System]);
    assert_eq!(plan.message.tone, Tone::Dim);
    assert_eq!(plan.message.text, "Clearing Git user in local, global, system scope(s)");
    let plan = s.clear(&[Scope::Global]);
    assert_eq!(plan.message.text, "Clearing Git user in global scope(s)");
}

#[test]
fn edit_config_command() {
    let s = switcher_with(&[]);
    assert_eq!(s.edit_config("/h/.git-su"), "git config --edit --file /h/.git-su");
}

#[test]
fn tui_shows_current_user_and_select_prompt() {
    let s = switcher_with(&[]);
    let users = vec![User::none(), User::none(), User::none(), User::none()];
    let lines = s.print_current(&[], &users, &None);
    assert_eq!(lines[0].label.as_deref(), Some("Current user:"));
    assert_eq!(lines[4].label.as_deref(), Some("System"));
    assert_eq!(s.menu_items(), strs(&["(Add user)"]));
    assert!(matches!(s.menu_choice(None), git_su::switcher::MenuChoice::Cancel));
}

#[test]
fn tui_select_first_user_switches() {
    let mut s = switcher_with(&[("Jane Doe", "jane@example.com")]);
    assert_eq!(s.menu_items(), strs(&["Jane Doe <jane@example.com>", "(Add user)"]));
    let chosen = match s.menu_choice(Some(0)) {
        git_su::switcher::MenuChoice::Switch(u) => u,
        _ => panic!("expected a switch"),
    };
    let plan = s.request(Scope::Default, &[chosen], "", "", &None).ok().unwrap();
    assert_eq!(plan.message.text, "Switched local user to Jane Doe <jane@example.com>");
    assert!(plan.added.is_empty());
}

#[test]
fn tui_add_user_flow() {
    let mut s = switcher_with(&[]);
    assert!(matches!(s.menu_choice(Some(0)), git_su::switcher::MenuChoice::AddUser));
    assert!(matches!(s.menu_choice(Some(5)), git_su::switcher::MenuChoice::Cancel));
    let typed = Switcher::compose_user(" Bob Smith ", "bob@example.com ");
    assert_eq!(typed, "Bob Smith <bob@example.com>");
    let out = s.add(&typed);
    assert!(out.message.text.ends_with("added to users"));
    assert_eq!(s.list(&None), strs(&["Bob Smith <bob@example.com>"]));
}

#[test]
fn switch_scopes_default_when_none_given() {
    assert_eq!(Switcher::switch_scopes(&[]), vec![Scope::Default]);
    assert_eq!(Switcher::switch_scopes(&[Scope::Local, Scope::System]), vec![Scope::Local, Scope::System]);
}
