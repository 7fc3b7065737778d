use my_teams::client::protocol::{
    parse_info_message, parse_response_code, parse_response_tokens, InfoMessage,
};
use my_teams::server::network::build_private_message_info_payload;
use my_teams::server::protocol::response;
use my_teams::server::handlers::{handle_login, handle_logout, handle_send, handle_messages, handle_use};
use my_teams::server::resources::{create_at, handle_create, handle_info, handle_list};
use my_teams::server::session::{Persist, SessionState};
use my_teams::server::storage::{ServerStorage, TeamTree};
use my_teams::server::users::UserStore;

use my_teams::server::shared::MAX_NAME_LENGTH as NAME_LIMIT;

fn new_storage() -> ServerStorage {
    ServerStorage::from_parts(
        "users.json",
        "teams.json",
        "messages.json",
        Vec::new(),
        TeamTree { teams: Vec::new() },
        Vec::new(),
    )
}

#[test]
fn login_answers_with_the_uuid_and_logout_clears_the_session() {
    let mut state = SessionState::default();
    let mut users = UserStore::default();
    let mut storage = new_storage();

    let outcome = handle_login(&mut state, &mut users, &mut storage, &["alice".to_string()]);
    let uuid = state.user_uuid.clone().expect("logged in");
    assert_eq!(outcome.response, format!("R200 \"{uuid}\"\r\n"));
    assert!(matches!(outcome.persist, Persist::Users));
    assert_eq!(storage.user_pairs(), vec![("alice".to_string(), uuid.clone())]);

    let again = handle_login(&mut state, &mut users, &mut storage, &["alice".to_string()]);
    assert_eq!(again.response, format!("R200 \"{uuid}\"\r\n"));
    assert!(matches!(again.persist, Persist::Nothing));

    let out = handle_logout(&mut state, &mut users, &mut storage, &[]);
    assert_eq!(out.response, "R200\r\n");
    assert!(state.user_uuid.is_none());
    assert_eq!(users.user_details(&uuid), Some(("alice".to_string(), true)));
}

#[test]
fn login_rejects_empty_name() {
    let mut state = SessionState::default();
    let mut users = UserStore::default();
    let mut storage = new_storage();
    let outcome = handle_login(&mut state, &mut users, &mut storage, &[String::new()]);
    assert_eq!(outcome.response, "R501 \"bad request\"\r\n");
    assert!(state.user_uuid.is_none());
}

#[test]
fn send_then_messages_shows_the_message() {
    let mut state = SessionState::default();
    state.user_uuid = Some("uuid-a".to_string());
    let mut users = UserStore::from_pairs(vec![
        ("alice".to_string(), "uuid-a".to_string()),
        ("bob".to_string(), "uuid-b".to_string()),
    ]);
    let mut storage = new_storage();
    let sent = handle_send(
        &mut state,
        &mut users,
        &mut storage,
        &["uuid-b".to_string(), "hello".to_string()],
    );
    assert_eq!(sent.response, "R200\r\n");
    let ts = storage.messages_list()[0].timestamp;
    let listed = handle_messages(&mut state, &mut users, &mut storage, &["uuid-b".to_string()]);
    assert_eq!(
        listed.response,
        format!("R200 \"MESSAGES\" \"uuid-a\" \"{ts}\" \"hello\"\r\n")
    );
}

#[test]
fn send_to_unknown_user_is_refused() {
    let mut state = SessionState::default();
    state.user_uuid = Some("uuid-a".to_string());
    let mut users = UserStore::from_pairs(vec![("alice".to_string(), "uuid-a".to_string())]);
    let mut storage = new_storage();
    let sent = handle_send(
        &mut state,
        &mut users,
        &mut storage,
        &["uuid-z".to_string(), "hello".to_string()],
    );
    assert_eq!(sent.response, "R404 \"uuid-z\"\r\n");
    assert!(storage.messages_list().is_empty());
}

#[test]
fn create_team_then_list_shows_it() {
    let mut state = SessionState::default();
    state.user_uuid = Some("uuid-a".to_string());
    let mut users = UserStore::default();
    let mut storage = new_storage();
    let created = create_at(
        &mut state,
        &mut users,
        &mut storage,
        &["Core".to_string(), "Desc".to_string()],
        "team-uuid",
        5,
    );
    assert_eq!(created.response, "R200 \"TEAM\" \"team-uuid\" \"Core\" \"Desc\"\r\n");
    assert!(matches!(created.persist, Persist::Teams));
    let listed = handle_list(&mut state, &mut users, &mut storage, &[]);
    assert_eq!(listed.response, "R200 \"TEAMS\" \"team-uuid\" \"Core\" \"Desc\"\r\n");
}

#[test]
fn overlong_team_name_is_a_bad_request() {
    let mut state = SessionState::default();
    state.user_uuid = Some("uuid-a".to_string());
    let mut users = UserStore::default();
    let mut storage = new_storage();
    let name = "n".repeat(NAME_LIMIT + 1);
    let refused = handle_create(&mut state, &mut users, &mut storage, &[name, "D".to_string()]);
    assert_eq!(refused.response, "R501 \"bad request\"\r\n");
    assert!(storage.team_tree().teams.is_empty());
    let name = "n".repeat(NAME_LIMIT);
    let accepted = handle_create(&mut state, &mut users, &mut storage, &[name, "D".to_string()]);
    assert!(accepted.response.starts_with("R200 \"TEAM\" "));
}

#[test]
fn use_team_then_info_describes_it() {
    let mut state = SessionState::default();
    state.user_uuid = Some("uuid-a".to_string());
    let mut users = UserStore::default();
    let mut storage = new_storage();
    let _ = create_at(
        &mut state,
        &mut users,
        &mut storage,
        &["Core".to_string(), "Desc".to_string()],
        "team-uuid",
        5,
    );
    let used = handle_use(&mut state, &mut users, &mut storage, &["team-uuid".to_string()]);
    assert_eq!(used.response, "R200\r\n");
    let info = handle_info(&mut state, &mut users, &mut storage, &[]);
    assert_eq!(info.response, "R200 \"TEAM\" \"team-uuid\" \"Core\" \"Desc\"\r\n");
}

#[test]
fn info_in_root_describes_the_user() {
    let mut state = SessionState::default();
    let mut users = UserStore::default();
    let mut storage = new_storage();
    let _ = handle_login(&mut state, &mut users, &mut storage, &["alice".to_string()]);
    let uuid = state.user_uuid.clone().unwrap();
    let info = handle_info(&mut state, &mut users, &mut storage, &[]);
    assert_eq!(info.response, format!("R200 \"USER\" \"{uuid}\" \"alice\" \"1\"\r\n"));
}

#[test]
fn list_before_login_is_unauthorized() {
    let mut state = SessionState::default();
    let mut users = UserStore::default();
    let mut storage = new_storage();
    let listed = handle_list(&mut state, &mut users, &mut storage, &[]);
    assert_eq!(listed.response, "R401 \"unauthorized\"\r\n");
}

#[test]
fn private_message_notice_reads_back() {
    let line = build_private_message_info_payload("uuid-a", "say \"hi\" \\ now");
    match parse_info_message(&line) {
        Ok(Some(InfoMessage::NewMessage { sender_uuid, message_body })) => {
            assert_eq!(sender_uuid, "uuid-a");
            assert_eq!(message_body, "say \"hi\" \\ now");
        }
        _ => panic!("expected a private message"),
    }
    let line = build_private_message_info_payload("", "body");
    match parse_info_message(&line) {
        Ok(Some(InfoMessage::NewMessage { sender_uuid, message_body })) => {
            assert_eq!(sender_uuid, "");
            assert_eq!(message_body, "body");
        }
        _ => panic!("expected a private message"),
    }
}

#[test]
fn response_code_and_words_read_back() {
    assert_eq!(parse_response_code(&response(404, None)).ok().unwrap(), 404);
    assert_eq!(parse_response_code(&response(7, Some("\"x\""))).ok().unwrap(), 7);
    assert!(parse_response_tokens(&response(200, None)).ok().unwrap().is_empty());
    assert!(parse_response_tokens(&response(200, Some(""))).ok().unwrap().is_empty());
    assert_eq!(
        parse_response_tokens(&response(200, Some("\"a b\" \"c\""))).ok().unwrap(),
        vec!["a b".to_string(), "c".to_string()]
    );
}

#[test]
fn subscriptions_agree_and_users_stay() {
    let mut users = UserStore::default();
    let (alice, created) = users.login("alice");
    assert!(created);
    users.subscribe_to_team(&alice, "team-1");
    assert_eq!(users.subscribed_team_ids(&alice), vec!["team-1".to_string()]);
    assert_eq!(users.subscribed_user_ids("team-1"), vec![alice.clone()]);
    users.unsubscribe_from_team(&alice, "team-1");
    assert!(users.subscribed_team_ids(&alice).is_empty());
    assert!(users.subscribed_user_ids("team-1").is_empty());
    users.logout(&alice);
    assert!(users.exists_uuid(&alice));
    let (again, created) = users.login("alice");
    assert_eq!(again, alice);
    assert!(!created);
}

#[test]
fn loaded_users_are_known_and_offline() {
    let users = UserStore::from_pairs(vec![
        ("alice".to_string(), "uuid-alice".to_string()),
        ("bob".to_string(), "uuid-bob".to_string()),
    ]);
    assert_eq!(users.user_details("uuid-alice"), Some(("alice".to_string(), false)));
    assert_eq!(users.user_details("uuid-bob"), Some(("bob".to_string(), false)));
    assert_eq!(users.list_users().len(), 2);
    assert!(users.subscribed_team_ids("uuid-alice").is_empty());
    assert!(users.subscribed_user_ids("team").is_empty());
}

#[test]
fn listing_rows_are_user_details() {
    let mut users = UserStore::from_pairs(vec![
        ("alice".to_string(), "uuid-alice".to_string()),
        ("bob".to_string(), "uuid-bob".to_string()),
    ]);
    users.login("alice");
    let rows = users.list_users();
    assert_eq!(
        rows,
        vec![
            ("uuid-alice".to_string(), "alice".to_string(), true),
            ("uuid-bob".to_string(), "bob".to_string(), false),
        ]
    );
    for (u, n, o) in rows {
        assert_eq!(users.user_details(&u), Some((n, o)));
    }
}

#[test]
fn subscribers_follow_the_last_operation() {
    let mut users = UserStore::default();
    users.subscribe_to_team("uuid-bob", "team-a");
    users.subscribe_to_team("uuid-alice", "team-a");
    assert_eq!(
        users.subscribed_user_ids("team-a"),
        vec!["uuid-alice".to_string(), "uuid-bob".to_string()]
    );
    users.unsubscribe_from_team("uuid-bob", "team-a");
    users.unsubscribe_from_team("uuid-carol", "team-a");
    assert_eq!(users.subscribed_user_ids("team-a"), vec!["uuid-alice".to_string()]);
    assert!(users.subscribed_team_ids("uuid-bob").is_empty());
}

#[test]
fn upsert_keeps_one_user_per_name() {
    let mut storage = new_storage();
    storage.upsert_user("alice", "u1");
    storage.upsert_user("bob", "u2");
    storage.upsert_user("alice", "u3");
    assert_eq!(
        storage.user_pairs(),
        vec![("alice".to_string(), "u3".to_string()), ("bob".to_string(), "u2".to_string())]
    );
}
