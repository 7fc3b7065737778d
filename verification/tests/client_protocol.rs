use my_teams::client::protocol::{parse_info_message, InfoMessage};

#[test]
fn parses_user_login_info_message() {
    let parsed = parse_info_message("I100 USER_LOGGED_IN \"uuid-alice\" \"alice\"")
        .ok()
        .expect("login info should parse");

    assert!(matches!(
        parsed,
        Some(InfoMessage::UserLoggedIn {
            user_uuid,
            user_name,
        }) if user_uuid == "uuid-alice" && user_name == "alice"
    ));
}

#[test]
fn parses_user_logout_info_message() {
    let parsed = parse_info_message("I100 USER_LOGGED_OUT \"uuid-alice\" \"alice\"")
        .ok()
        .expect("logout info should parse");

    assert!(matches!(
        parsed,
        Some(InfoMessage::UserLoggedOut {
            user_uuid,
            user_name,
        }) if user_uuid == "uuid-alice" && user_name == "alice"
    ));
}

#[test]
fn parses_team_creation_info_message() {
    let parsed = parse_info_message("I100 NEW_TEAM \"uuid-team\" \"team name\" \"team description\"")
        .ok()
        .expect("team creation info should parse");

    assert!(matches!(
        parsed,
        Some(InfoMessage::NewTeam {
            team_uuid,
            team_name,
            team_description,
        }) if team_uuid == "uuid-team" && team_name == "team name" && team_description == "team description"
    ));
}

#[test]
fn info_message_with_other_header_is_ignored() {
    let parsed = parse_info_message("R200 \"USERS\"").ok().expect("not an error");
    assert!(parsed.is_none());
}

#[test]
fn info_message_with_wrong_arity_is_an_error() {
    assert!(parse_info_message("I100 NEW_MESSAGE \"a\" \"b\" \"c\"").is_err());
}

#[test]
fn info_message_new_thread_reads_its_timestamp() {
    let parsed = parse_info_message(
        "I100 NEW_THREAD \"t\" \"c\" \"th\" \"u\" \"42\" \"title\" \"body\"",
    )
    .ok()
    .expect("thread info should parse");
    assert!(matches!(
        parsed,
        Some(InfoMessage::NewThread { thread_timestamp, thread_title, .. })
            if thread_timestamp == 42 && thread_title == "title"
    ));
}
