use git_su::user_file::UserEntry;
use git_su::{User, UserFile, UserList};

fn list_with_users(users: &[(&str, &str)]) -> UserList {
    let mut uf = UserFile::new(Vec::new());
    for (name, email) in users {
        uf.write(&User::new(name, email));
    }
    UserList::new(uf)
}

fn terms(ts: &[&str]) -> Vec<String> {
    ts.iter().map(|t| t.to_string()).collect()
}

#[test]
fn find_by_initials() {
    let list = list_with_users(&[
        ("Jane Doe", "jane@example.com"),
        ("Bob Smith", "bob@example.com"),
    ]);
    let found = list.find(&["jd".to_string()]).unwrap();
    assert_eq!(found.len(), 1);
    assert_eq!(found[0].name(), "Jane Doe");
}

#[test]
fn find_by_name_part() {
    let list = list_with_users(&[("Alice Cooper", "alice@example.com")]);
    let found = list.find(&["alice".to_string()]).unwrap();
    assert_eq!(found.len(), 1);
    assert_eq!(found[0].name(), "Alice Cooper");
}

#[test]
fn find_no_match() {
    let list = list_with_users(&[("Jane Doe", "jane@example.com")]);
    let r = list.find(&["xyz".to_string()]);
    assert!(r.is_err());
}

#[test]
fn find_pair_two_terms() {
    let list = list_with_users(&[
        ("Jane Doe", "jane@example.com"),
        ("Bob Smith", "bob@example.com"),
    ]);
    let found = list.find(&["jd".to_string(), "bob".to_string()]).unwrap();
    assert_eq!(found.len(), 2);
    assert_eq!(found[0].name(), "Jane Doe");
    assert_eq!(found[1].name(), "Bob Smith");
}

#[test]
fn list_returns_added_users() {
    let list = list_with_users(&[("Jane Doe", "jane@example.com")]);
    let all = list.list();
    assert_eq!(all.len(), 1);
    assert_eq!(all[0].email(), "jane@example.com");
}

#[test]
fn find_no_match_message_names_the_term() {
    let list = list_with_users(&[("Jane Doe", "jane@example.com")]);
    let r = list.find(&terms(&["jd", "xyz", "qq"]));
    assert_eq!(r.err().unwrap(), "No user found matching 'xyz'");
}

#[test]
fn find_without_terms_finds_nobody() {
    let list = list_with_users(&[("Jane Doe", "jane@example.com")]);
    let found = list.find(&[]).unwrap();
    assert!(found.is_empty());
}

#[test]
fn find_same_user_twice_has_no_combination() {
    let list = list_with_users(&[("Jane Doe", "jane@example.com")]);
    let r = list.find(&terms(&["jane", "doe"]));
    assert_eq!(
        r.err().unwrap(),
        "Couldn't find a combination of users matching 'jane', 'doe'"
    );
}

#[test]
fn find_picks_distinct_users_for_shared_terms() {
    let list = list_with_users(&[
        ("Jane Doe", "jane@example.com"),
        ("John Doe", "john@example.com"),
    ]);
    let found = list.find(&terms(&["doe", "doe"])).unwrap();
    assert_eq!(found.len(), 2);
    assert_eq!(found[0].name(), "Jane Doe");
    assert_eq!(found[1].name(), "John Doe");
}

#[test]
fn find_by_word_prefix_and_by_longer_term() {
    let list = list_with_users(&[("Jane Doe", "jane@example.com")]);
    assert_eq!(list.find(&terms(&["ja"])).unwrap()[0].name(), "Jane Doe");
    assert_eq!(list.find(&terms(&["janet"])).unwrap()[0].name(), "Jane Doe");
}

#[test]
fn find_by_email_and_in_any_case() {
    let list = list_with_users(&[
        ("Jane Doe", "jane@corp.org"),
        ("Bob Smith", "bob@example.com"),
    ]);
    assert_eq!(list.find(&terms(&["CORP"])).unwrap()[0].name(), "Jane Doe");
    assert_eq!(list.find(&terms(&["SMITH"])).unwrap()[0].name(), "Bob Smith");
}

#[test]
fn find_keeps_a_user_saved_twice_once_among_matches() {
    let list = list_with_users(&[
        ("Jane Doe", "jane@example.com"),
        ("Jane Doe", "jane@example.com"),
        ("Bob Smith", "bob@example.com"),
    ]);
    let r = list.find(&terms(&["jane", "jd"]));
    assert!(r.is_err());
}

#[test]
fn read_empty_file() {
    let uf = UserFile::new(Vec::new());
    assert!(uf.read().is_empty());
}

#[test]
fn write_and_read_toml() {
    let mut uf = UserFile::new(Vec::new());
    let u = User::new("Jane Doe", "jane@example.com");
    uf.write(&u);
    let list = uf.read();
    assert_eq!(list.len(), 1);
    assert_eq!(list[0].name(), "Jane Doe");
    assert_eq!(list[0].email(), "jane@example.com");
}

#[test]
fn read_valid_toml() {
    let uf = UserFile::new(vec![UserEntry {
        name: "Bob".to_string(),
        email: "bob@example.com".to_string(),
    }]);
    let list = uf.read();
    assert_eq!(list.len(), 1);
    assert_eq!(list[0].name(), "Bob");
    assert_eq!(list[0].email(), "bob@example.com");
}

#[test]
fn write_saves_a_pair_by_its_name_and_group_email() {
    let mut uf = UserFile::new(Vec::new());
    let pair = User::new("Jane Doe", "jane@example.com")
        .combine(&User::new("Bob Smith", "bob@example.com"), "team@corp.org");
    uf.write(&pair);
    let entries = uf.entries();
    assert_eq!(entries[0].name, "Jane Doe and Bob Smith");
    assert_eq!(entries[0].email, "team+jane+bob@corp.org");
}
