use minecraft_sourcecode_tracker::arguments::Arguments;

#[test]
fn arguments_hold_the_account() {
    let a = Arguments {
        git_username: "steve".to_string(),
        git_email: None,
        git_auth_token: "SECRET-REDACTED".to_string(),
        git_url: "https://example.org/mc.git".to_string(),
    };
    let b = a.clone();
    assert_eq!(a, b);
    assert_eq!(b.git_email, None);
}
