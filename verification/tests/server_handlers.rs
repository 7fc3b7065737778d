use my_teams::server::handlers::{
    handle_login, handle_logout, handle_messages, handle_send, handle_subscribe, handle_subscribed, handle_unsubscribe,
    handle_use, handle_user, handle_users,
};
use my_teams::server::resources::handle_create;
use my_teams::server::session::{CommandContext, SessionState};
use my_teams::server::storage::{ChannelEntry, ServerStorage, TeamEntry, TeamTree, ThreadEntry};
use my_teams::server::users::UserStore;

fn new_storage() -> ServerStorage {
    ServerStorage::from_parts(
        "users.json",
        "teams.json",
        "messages.json",
        Vec::new(),
        TeamTree { teams: Vec::new() },
        Vec::new(),
    )
}

fn logged_in(user_uuid: &str) -> SessionState {
    SessionState {
        user_uuid: Some(user_uuid.to_string()),
        context: CommandContext::default(),
    }
}

fn team(uuid: &str, name: &str, description: &str, channels: Vec<ChannelEntry>) -> TeamEntry {
    TeamEntry {
        uuid: uuid.to_string(),
        name: name.to_string(),
        description: description.to_string(),
        channels,
    }
}

#[test]
fn users_command_lists_all_users_with_online_flags() {
    let mut state = SessionState::default();
    let mut users = UserStore::from_pairs(vec![
        ("alice".to_string(), "uuid-alice".to_string()),
        ("bob".to_string(), "uuid-bob".to_string()),
    ]);
    let mut storage = new_storage();

    let _ = users.login("alice");

    let outcome = handle_users(&mut state, &mut users, &mut storage, &[]);

    assert_eq!(
        outcome.response,
        "R200 \"USERS\" \"uuid-alice\" \"alice\" \"1\" \"uuid-bob\" \"bob\" \"0\"\r\n"
    );
    assert!(outcome.info_events.is_empty());
}

#[test]
fn users_command_rejects_unexpected_arguments() {
    let mut state = SessionState::default();
    let mut users = UserStore::default();
    let mut storage = new_storage();

    let outcome = handle_users(&mut state, &mut users, &mut storage, &["extra".to_string()]);

    assert_eq!(outcome.response, "R501 \"bad request\"\r\n");
}

#[test]
fn user_command_returns_user_details() {
    let mut state = SessionState::default();
    let mut users = UserStore::from_pairs(vec![("alice".to_string(), "uuid-alice".to_string())]);
    let mut storage = new_storage();

    let _ = users.login("alice");

    let outcome = handle_user(&mut state, &mut users, &mut storage, &["uuid-alice".to_string()]);

    assert_eq!(outcome.response, "R200 \"USER\" \"uuid-alice\" \"alice\" \"1\"\r\n");
    assert!(outcome.info_events.is_empty());
}

#[test]
fn user_command_returns_not_found_for_unknown_uuid() {
    let mut state = SessionState::default();
    let mut users = UserStore::default();
    let mut storage = new_storage();

    let outcome = handle_user(&mut state, &mut users, &mut storage, &["missing-uuid".to_string()]);

    assert_eq!(outcome.response, "R404 \"missing-uuid\"\r\n");
}

#[test]
fn user_command_rejects_wrong_argument_count() {
    let mut state = SessionState::default();
    let mut users = UserStore::default();
    let mut storage = new_storage();

    let outcome = handle_user(&mut state, &mut users, &mut storage, &[]);

    assert_eq!(outcome.response, "R501 \"bad request\"\r\n");
}

#[test]
fn send_command_persists_message_and_emits_info_event() {
    let mut state = logged_in("uuid-alice");
    let mut users = UserStore::from_pairs(vec![
        ("alice".to_string(), "uuid-alice".to_string()),
        ("bob".to_string(), "uuid-bob".to_string()),
    ]);
    let mut storage = new_storage();

    let outcome = handle_send(
        &mut state,
        &mut users,
        &mut storage,
        &["uuid-bob".to_string(), "hello bob".to_string()],
    );

    assert_eq!(outcome.response, "R200\r\n");
    assert_eq!(outcome.info_events.len(), 1);
    assert_eq!(outcome.info_events[0].recipient_user_uuid, "uuid-bob");
    assert_eq!(
        outcome.info_events[0].payload,
        "I100 NEW_MESSAGE \"uuid-alice\" \"hello bob\"\r\n"
    );

    let conversation = storage.conversation_messages("uuid-alice", "uuid-bob");
    assert_eq!(conversation.len(), 1);
    assert_eq!(conversation[0].sender_uuid, "uuid-alice");
    assert_eq!(conversation[0].recipient_uuid, "uuid-bob");
    assert_eq!(conversation[0].body, "hello bob");
}

#[test]
fn send_command_rejects_unauthorized_user() {
    let mut state = SessionState::default();
    let mut users = UserStore::from_pairs(vec![("bob".to_string(), "uuid-bob".to_string())]);
    let mut storage = new_storage();

    let outcome = handle_send(
        &mut state,
        &mut users,
        &mut storage,
        &["uuid-bob".to_string(), "hello".to_string()],
    );

    assert_eq!(outcome.response, "R401 \"unauthorized\"\r\n");
    assert!(outcome.info_events.is_empty());
    assert!(storage.conversation_messages("uuid-alice", "uuid-bob").is_empty());
}

#[test]
fn messages_command_returns_bidirectional_history() {
    let mut state = logged_in("uuid-alice");
    let mut users = UserStore::from_pairs(vec![
        ("alice".to_string(), "uuid-alice".to_string()),
        ("bob".to_string(), "uuid-bob".to_string()),
        ("carol".to_string(), "uuid-carol".to_string()),
    ]);
    let mut storage = new_storage();

    storage.append_private_message("uuid-alice", "uuid-bob", 10, "a->b");
    storage.append_private_message("uuid-bob", "uuid-alice", 20, "b->a");
    storage.append_private_message("uuid-carol", "uuid-bob", 30, "ignored");

    let outcome = handle_messages(&mut state, &mut users, &mut storage, &["uuid-bob".to_string()]);

    assert_eq!(
        outcome.response,
        "R200 \"MESSAGES\" \"uuid-alice\" \"10\" \"a->b\" \"uuid-bob\" \"20\" \"b->a\"\r\n"
    );
    assert!(outcome.info_events.is_empty());
}

#[test]
fn messages_command_rejects_unauthorized_user() {
    let mut state = SessionState::default();
    let mut users = UserStore::from_pairs(vec![("bob".to_string(), "uuid-bob".to_string())]);
    let mut storage = new_storage();

    let outcome = handle_messages(&mut state, &mut users, &mut storage, &["uuid-bob".to_string()]);

    assert_eq!(outcome.response, "R401 \"unauthorized\"\r\n");
    assert!(outcome.info_events.is_empty());
}

#[test]
fn use_command_updates_context_fields() {
    let mut state = logged_in("uuid-alice");
    let mut users = UserStore::default();
    let mut storage = new_storage();
    storage.replace_team_tree(TeamTree {
        teams: vec![team(
            "team-1",
            "Team 1",
            "Desc 1",
            vec![ChannelEntry {
                uuid: "chan-1".to_string(),
                name: "Channel 1".to_string(),
                description: "Desc 2".to_string(),
                threads: vec![ThreadEntry {
                    uuid: "thread-1".to_string(),
                    user_uuid: "uuid-alice".to_string(),
                    timestamp: 1,
                    title: "Thread 1".to_string(),
                    body: "Body 1".to_string(),
                    replies: Vec::new(),
                }],
            }],
        )],
    });

    let outcome = handle_use(
        &mut state,
        &mut users,
        &mut storage,
        &["team-1".to_string(), "chan-1".to_string(), "thread-1".to_string()],
    );

    assert_eq!(outcome.response, "R200\r\n");
    assert_eq!(state.context.team_uuid.as_deref(), Some("team-1"));
    assert_eq!(state.context.channel_uuid.as_deref(), Some("chan-1"));
    assert_eq!(state.context.thread_uuid.as_deref(), Some("thread-1"));
}

#[test]
fn use_command_rejects_unknown_channel_without_mutating_context() {
    let mut state = SessionState {
        user_uuid: Some("uuid-alice".to_string()),
        context: CommandContext {
            team_uuid: Some("team-1".to_string()),
            channel_uuid: None,
            thread_uuid: None,
        },
    };
    let mut users = UserStore::default();
    let mut storage = new_storage();
    storage.replace_team_tree(TeamTree { teams: vec![team("team-1", "Team 1", "Desc 1", Vec::new())] });

    let outcome = handle_use(
        &mut state,
        &mut users,
        &mut storage,
        &["team-1".to_string(), "chan-1".to_string()],
    );

    assert_eq!(outcome.response, "R404 \"chan-1\"\r\n");
    assert_eq!(state.context.team_uuid.as_deref(), Some("team-1"));
    assert_eq!(state.context.channel_uuid.as_deref(), None);
    assert_eq!(state.context.thread_uuid.as_deref(), None);
}

#[test]
fn subscribe_and_subscribed_commands_track_team_membership() {
    let mut state = logged_in("uuid-alice");
    let mut users = UserStore::from_pairs(vec![("alice".to_string(), "uuid-alice".to_string())]);
    let mut storage = new_storage();
    storage.replace_team_tree(TeamTree { teams: vec![team("team-1", "Team 1", "Desc 1", Vec::new())] });

    let subscribe_outcome =
        handle_subscribe(&mut state, &mut users, &mut storage, &["team-1".to_string()]);
    assert_eq!(
        subscribe_outcome.response,
        "R200 \"SUBSCRIBED\" \"uuid-alice\" \"team-1\"\r\n"
    );

    let subscribed_teams_outcome = handle_subscribed(&mut state, &mut users, &mut storage, &[]);
    assert_eq!(
        subscribed_teams_outcome.response,
        "R200 \"TEAMS\" \"team-1\" \"Team 1\" \"Desc 1\"\r\n"
    );

    let subscribed_users_outcome =
        handle_subscribed(&mut state, &mut users, &mut storage, &["team-1".to_string()]);
    assert_eq!(
        subscribed_users_outcome.response,
        "R200 \"USERS\" \"uuid-alice\" \"alice\" \"0\"\r\n"
    );
}

#[test]
fn unsubscribe_removes_membership_from_listings() {
    let mut state = logged_in("uuid-alice");
    let mut users = UserStore::from_pairs(vec![("alice".to_string(), "uuid-alice".to_string())]);
    let mut storage = new_storage();
    storage.replace_team_tree(TeamTree { teams: vec![team("team-1", "Team 1", "Desc 1", Vec::new())] });

    let _ = handle_subscribe(&mut state, &mut users, &mut storage, &["team-1".to_string()]);

    let unsubscribe_outcome =
        handle_unsubscribe(&mut state, &mut users, &mut storage, &["team-1".to_string()]);
    assert_eq!(
        unsubscribe_outcome.response,
        "R200 \"UNSUBSCRIBED\" \"uuid-alice\" \"team-1\"\r\n"
    );

    let subscribed_teams_outcome = handle_subscribed(&mut state, &mut users, &mut storage, &[]);
    assert_eq!(subscribed_teams_outcome.response, "R200 \"TEAMS\"\r\n");
}

#[test]
fn subscribe_returns_not_found_for_unknown_team() {
    let mut state = logged_in("uuid-alice");
    let mut users = UserStore::from_pairs(vec![("alice".to_string(), "uuid-alice".to_string())]);
    let mut storage = new_storage();

    let outcome =
        handle_subscribe(&mut state, &mut users, &mut storage, &["unknown-team".to_string()]);

    assert_eq!(outcome.response, "R404 \"unknown-team\"\r\n");
}

#[test]
fn create_team_in_root_context_persists_team() {
    let mut state = logged_in("uuid-alice");
    let mut users = UserStore::default();
    let mut storage = new_storage();

    let outcome = handle_create(
        &mut state,
        &mut users,
        &mut storage,
        &["Core Team".to_string(), "Core Description".to_string()],
    );

    assert!(outcome.response.starts_with("R200 \"TEAM\" "));
    let tree = storage.team_tree();
    assert_eq!(tree.teams.len(), 1);
    assert_eq!(tree.teams[0].name, "Core Team");
    assert_eq!(tree.teams[0].description, "Core Description");
}

#[test]
fn create_channel_in_team_context_persists_channel() {
    let mut state = logged_in("uuid-alice");
    let mut users = UserStore::default();
    let mut storage = new_storage();
    storage.replace_team_tree(TeamTree { teams: vec![team("team-a", "Team A", "Desc A", Vec::new())] });

    let use_outcome = handle_use(&mut state, &mut users, &mut storage, &["team-a".to_string()]);
    assert_eq!(use_outcome.response, "R200\r\n");

    let outcome = handle_create(
        &mut state,
        &mut users,
        &mut storage,
        &["general".to_string(), "General channel".to_string()],
    );

    assert!(outcome.response.starts_with("R200 \"CHANNEL\" "));
    let team = storage.team("team-a").expect("team should exist after create channel");
    assert_eq!(team.channels.len(), 1);
    assert_eq!(team.channels[0].name, "general");
    assert_eq!(team.channels[0].description, "General channel");

    assert_eq!(outcome.info_events.len(), 0);
}

#[test]
fn create_channel_notifies_all_team_subscribers() {
    let mut state = logged_in("uuid-alice");
    let mut users = UserStore::from_pairs(vec![
        ("alice".to_string(), "uuid-alice".to_string()),
        ("bob".to_string(), "uuid-bob".to_string()),
    ]);
    let mut storage = new_storage();
    storage.replace_team_tree(TeamTree { teams: vec![team("team-a", "Team A", "Desc A", Vec::new())] });

    users.subscribe_to_team("uuid-alice", "team-a");
    users.subscribe_to_team("uuid-bob", "team-a");

    let use_outcome = handle_use(&mut state, &mut users, &mut storage, &["team-a".to_string()]);
    assert_eq!(use_outcome.response, "R200\r\n");

    let outcome = handle_create(
        &mut state,
        &mut users,
        &mut storage,
        &["general".to_string(), "General channel".to_string()],
    );

    assert_eq!(outcome.info_events.len(), 2);
    assert_eq!(outcome.info_events[0].recipient_user_uuid, "uuid-alice");
    assert_eq!(outcome.info_events[1].recipient_user_uuid, "uuid-bob");
    assert!(outcome.info_events[0].payload.starts_with("I100 NEW_CHANNEL \"team-a\" "));
    assert_eq!(outcome.info_events[0].payload, outcome.info_events[1].payload);
}

#[test]
fn create_reply_in_thread_context_persists_reply() {
    let mut state = logged_in("uuid-alice");
    let mut users = UserStore::default();
    let mut storage = new_storage();
    storage.replace_team_tree(TeamTree {
        teams: vec![team(
            "team-a",
            "Team A",
            "Desc A",
            vec![ChannelEntry {
                uuid: "chan-a".to_string(),
                name: "general".to_string(),
                description: "General".to_string(),
                threads: vec![ThreadEntry {
                    uuid: "thread-a".to_string(),
                    user_uuid: "uuid-bob".to_string(),
                    timestamp: 42,
                    title: "Topic".to_string(),
                    body: "Body".to_string(),
                    replies: Vec::new(),
                }],
            }],
        )],
    });

    let use_outcome = handle_use(
        &mut state,
        &mut users,
        &mut storage,
        &["team-a".to_string(), "chan-a".to_string(), "thread-a".to_string()],
    );
    assert_eq!(use_outcome.response, "R200\r\n");

    let outcome = handle_create(&mut state, &mut users, &mut storage, &["reply body".to_string()]);

    assert!(outcome.response.starts_with("R200 \"REPLY\" "));
    let thread = storage.thread("team-a", "chan-a", "thread-a").expect("thread should exist");
    assert_eq!(thread.replies.len(), 1);
    assert_eq!(thread.replies[0].user_uuid, "uuid-alice");
    assert_eq!(thread.replies[0].body, "reply body");

    assert_eq!(outcome.info_events.len(), 0);
}

#[test]
fn create_thread_and_reply_notify_all_team_subscribers() {
    let mut state = logged_in("uuid-alice");
    let mut users = UserStore::from_pairs(vec![
        ("alice".to_string(), "uuid-alice".to_string()),
        ("bob".to_string(), "uuid-bob".to_string()),
    ]);
    let mut storage = new_storage();
    storage.replace_team_tree(TeamTree {
        teams: vec![team(
            "team-a",
            "Team A",
            "Desc A",
            vec![ChannelEntry {
                uuid: "chan-a".to_string(),
                name: "general".to_string(),
                description: "General".to_string(),
                threads: Vec::new(),
            }],
        )],
    });

    users.subscribe_to_team("uuid-alice", "team-a");
    users.subscribe_to_team("uuid-bob", "team-a");

    let use_channel_outcome = handle_use(
        &mut state,
        &mut users,
        &mut storage,
        &["team-a".to_string(), "chan-a".to_string()],
    );
    assert_eq!(use_channel_outcome.response, "R200\r\n");

    let thread_outcome = handle_create(
        &mut state,
        &mut users,
        &mut storage,
        &["Topic".to_string(), "Body".to_string()],
    );
    assert_eq!(thread_outcome.info_events.len(), 2);
    assert!(thread_outcome.info_events[0]
        .payload
        .starts_with("I100 NEW_THREAD \"team-a\" \"chan-a\" "));

    let created_thread_uuid = storage
        .channel("team-a", "chan-a")
        .expect("channel should exist")
        .threads
        .first()
        .expect("thread should have been created")
        .uuid
        .clone();

    let use_thread_outcome = handle_use(
        &mut state,
        &mut users,
        &mut storage,
        &["team-a".to_string(), "chan-a".to_string(), created_thread_uuid],
    );
    assert_eq!(use_thread_outcome.response, "R200\r\n");

    let reply_outcome =
        handle_create(&mut state, &mut users, &mut storage, &["reply body".to_string()]);
    assert_eq!(reply_outcome.info_events.len(), 2);
    assert!(reply_outcome.info_events[0].payload.starts_with("I100 NEW_REPLY \"team-a\" "));
}

#[test]
fn create_rejects_malformed_context() {
    let mut state = SessionState {
        user_uuid: Some("uuid-alice".to_string()),
        context: CommandContext {
            team_uuid: None,
            channel_uuid: Some("chan-a".to_string()),
            thread_uuid: None,
        },
    };
    let mut users = UserStore::default();
    let mut storage = new_storage();

    let outcome = handle_create(
        &mut state,
        &mut users,
        &mut storage,
        &["ignored".to_string(), "ignored".to_string()],
    );

    assert_eq!(outcome.response, "R501 \"bad request\"\r\n");
}

#[test]
fn create_team_with_a_taken_name_is_a_conflict() {
    let mut state = logged_in("uuid-alice");
    let mut users = UserStore::default();
    let mut storage = new_storage();
    storage.replace_team_tree(TeamTree { teams: vec![team("team-a", "Team A", "Desc A", Vec::new())] });

    let outcome = handle_create(
        &mut state,
        &mut users,
        &mut storage,
        &["Team A".to_string(), "Other".to_string()],
    );

    assert_eq!(outcome.response, "R409 \"already exist\"\r\n");
    assert!(outcome.info_events.is_empty());
    let tree = storage.team_tree();
    assert_eq!(tree.teams.len(), 1);
    assert_eq!(tree.teams[0].description, "Desc A");
}

#[test]
fn create_channel_with_a_taken_name_is_a_conflict() {
    let mut state = logged_in("uuid-alice");
    let mut users = UserStore::default();
    let mut storage = new_storage();
    let chan = ChannelEntry {
        uuid: "chan-a".to_string(),
        name: "general".to_string(),
        description: "General".to_string(),
        threads: Vec::new(),
    };
    storage.replace_team_tree(TeamTree { teams: vec![team("team-a", "Team A", "Desc A", vec![chan])] });
    let use_outcome = handle_use(&mut state, &mut users, &mut storage, &["team-a".to_string()]);
    assert_eq!(use_outcome.response, "R200\r\n");

    let outcome = handle_create(
        &mut state,
        &mut users,
        &mut storage,
        &["general".to_string(), "again".to_string()],
    );

    assert_eq!(outcome.response, "R409 \"already exist\"\r\n");
    let team = storage.team("team-a").expect("team should still exist");
    assert_eq!(team.channels.len(), 1);
}

#[test]
fn login_tells_every_online_user() {
    let mut users = UserStore::default();
    let mut storage = new_storage();
    let mut bob = SessionState::default();
    let first = handle_login(&mut bob, &mut users, &mut storage, &["bob".to_string()]);
    let bob_uuid = bob.user_uuid.clone().expect("bob should be logged in");
    assert_eq!(first.info_events.len(), 1);
    assert_eq!(first.info_events[0].recipient_user_uuid, bob_uuid);

    let mut alice = SessionState::default();
    let outcome = handle_login(&mut alice, &mut users, &mut storage, &["alice".to_string()]);
    let alice_uuid = alice.user_uuid.clone().expect("alice should be logged in");
    let payload = format!("I100 USER_LOGGED_IN \"{}\" \"alice\"\r\n", alice_uuid);
    assert_eq!(outcome.info_events.len(), 2);
    let mut recipients: Vec<String> =
        outcome.info_events.iter().map(|e| e.recipient_user_uuid.clone()).collect();
    recipients.sort();
    let mut expected = vec![alice_uuid.clone(), bob_uuid.clone()];
    expected.sort();
    assert_eq!(recipients, expected);
    assert!(outcome.info_events.iter().all(|e| e.payload == payload));
}

#[test]
fn logout_tells_the_users_still_online() {
    let mut users = UserStore::default();
    let mut storage = new_storage();
    let mut bob = SessionState::default();
    handle_login(&mut bob, &mut users, &mut storage, &["bob".to_string()]);
    let bob_uuid = bob.user_uuid.clone().expect("bob should be logged in");
    let mut alice = SessionState::default();
    handle_login(&mut alice, &mut users, &mut storage, &["alice".to_string()]);
    let alice_uuid = alice.user_uuid.clone().expect("alice should be logged in");

    let outcome = handle_logout(&mut alice, &mut users, &mut storage, &[]);
    assert_eq!(outcome.response, "R200\r\n");
    assert!(alice.user_uuid.is_none());
    assert_eq!(outcome.info_events.len(), 1);
    assert_eq!(outcome.info_events[0].recipient_user_uuid, bob_uuid);
    assert_eq!(
        outcome.info_events[0].payload,
        format!("I100 USER_LOGGED_OUT \"{}\" \"alice\"\r\n", alice_uuid)
    );
}

#[test]
fn created_team_uuid_has_the_version_four_layout() {
    let mut state = logged_in("uuid-alice");
    let mut users = UserStore::default();
    let mut storage = new_storage();
    handle_create(&mut state, &mut users, &mut storage, &["Core".to_string(), "Desc".to_string()]);
    let tree = storage.team_tree();
    let id: Vec<char> = tree.teams[0].uuid.chars().collect();
    assert_eq!(id.len(), 36);
    for (i, c) in id.iter().enumerate() {
        if i == 8 || i == 13 || i == 18 || i == 23 {
            assert_eq!(*c, '-');
        } else {
            assert!(c.is_ascii_hexdigit() && !c.is_ascii_uppercase());
        }
    }
    assert_eq!(id[14], '4');
    assert!(matches!(id[19], '8' | '9' | 'a' | 'b'));
}
