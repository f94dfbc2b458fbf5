use git_su::User;

#[test]
fn parse_name_and_email() {
    let u = User::parse("  Jane Doe <jane@example.com>  ").unwrap();
    assert_eq!(u.name(), "Jane Doe");
    assert_eq!(u.email(), "jane@example.com");
    assert_eq!(u.names, vec!["Jane Doe".to_string()]);
}

#[test]
fn parse_trims_inside_the_brackets() {
    let u = User::parse("Jane Doe  < jane@example.com >").unwrap();
    assert_eq!(u.name(), "Jane Doe");
    assert_eq!(u.email(), "jane@example.com");
}

#[test]
fn parse_refuses_bad_strings() {
    for s in [
        "jd",
        "Jane Doe jane@example.com",
        "<jane@example.com>",
        "Jane <>",
        "Jane <jane@example.com> x",
        "Jane >jane@example.com<",
        "",
    ] {
        assert!(User::parse(s).is_err(), "{}", s);
    }
}

#[test]
fn parse_error_message() {
    let e = User::parse("  nobody here ").err().unwrap();
    assert_eq!(e.input, "nobody here");
    assert_eq!(
        e.to_string(),
        "Couldn't parse 'nobody here' as user (expected user in format: 'Jane Doe <jane@example.com>')"
    );
}

#[test]
fn parse_reads_back_to_string() {
    let u = User::new("Jane Doe", "jane@example.com");
    let back = User::parse(&u.to_string()).unwrap();
    assert!(back == u);
    assert_eq!(back.to_string(), "Jane Doe <jane@example.com>");
}

#[test]
fn none_is_shown_as_none() {
    let n = User::none();
    assert!(n.is_none());
    assert_eq!(n.name(), "(none)");
    assert_eq!(n.email(), "");
    assert_eq!(n.to_string(), "(none) <>");
    assert!(!User::new("A", "a@b").is_none());
}

#[test]
fn initials_are_lower_case_first_letters() {
    assert_eq!(User::new("Jane Doe", "jane@example.com").initials(), "jd");
    assert_eq!(User::new("  Mary  Ann Smith ", "m@x").initials(), "mas");
    let pair = User::new("Jane Doe", "j@x").combine(&User::new("Bob Smith", "b@x"), "g@x");
    assert_eq!(pair.initials(), "jdbs");
}

#[test]
fn combine_with_none_is_neutral() {
    let u = User::new("Jane Doe", "jane@example.com");
    let left = User::none().combine(&u, "dev@example.com");
    assert_eq!(left.to_string(), "Jane Doe <jane@example.com>");
    let right = User::new("Jane Doe", "jane@example.com").combine(&User::none(), "x@y");
    assert_eq!(right.to_string(), "Jane Doe <jane@example.com>");
}

#[test]
fn pair_has_joined_name_and_group_email() {
    let pair = User::new("Jane Doe", "jane@example.com")
        .combine(&User::new("Bob Smith", "bob@corp.org"), "dev@example.com");
    assert_eq!(pair.name(), "Jane Doe and Bob Smith");
    assert_eq!(pair.email(), "dev+jane+bob@example.com");
    let trio = pair.combine(&User::new("Al", "al"), "team@x.org");
    assert_eq!(trio.name(), "Jane Doe and Bob Smith and Al");
    assert_eq!(trio.email(), "team+jane+bob+al@x.org");
}

#[test]
fn pair_group_without_at_uses_example_com() {
    let pair = User::new("A", "a@x").combine(&User::new("B", "b@y"), "crew");
    assert_eq!(pair.email(), "crew+a+b@example.com");
    let pair = User::new("A", "a@x").combine(&User::new("B", "b@y"), "crew@one@two");
    assert_eq!(pair.email(), "crew+a+b@one");
}

#[test]
fn users_are_equal_by_name_and_email() {
    let a = User::new("Jane Doe", "jane@example.com");
    let b = User::parse("Jane Doe <jane@example.com>").unwrap();
    let c = User::new("Jane Doe", "jane@corp.org");
    assert!(a == b);
    assert!(a.same_as(&b));
    assert!(a != c);
}
