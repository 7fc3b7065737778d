use my_teams::server::ids::{format_uuid_v4, make_uuid_v4_like};
use my_teams::server::network::{
    build_private_message_info_payload, collect_private_message_dispatch,
};
use my_teams::server::users::UserStore;

fn is_uuid_shaped(s: &str) -> bool {
    let parts: Vec<&str> = s.split('-').collect();
    parts.len() == 5
        && parts.iter().map(|p| p.len()).collect::<Vec<_>>() == vec![8, 4, 4, 4, 12]
        && s.chars().all(|c| c == '-' || c.is_ascii_digit() || ('a'..='f').contains(&c))
        && parts[2].starts_with('4')
}

#[test]
fn uuid_layout_sets_version_and_variant() {
    assert_eq!(
        format_uuid_v4(0x0011_2233_4455_6677, 0x8899_aabb_ccdd_eeff),
        "00112233-4455-4677-8899-aabbccddeeff"
    );
    assert_eq!(format_uuid_v4(0, 0), "00000000-0000-4000-8000-000000000000");
    assert_eq!(
        format_uuid_v4(u64::MAX, u64::MAX),
        "ffffffff-ffff-4fff-bfff-ffffffffffff"
    );
}

#[test]
fn generated_uuid_is_uuid_shaped() {
    let id = make_uuid_v4_like("alice", 1);
    assert!(is_uuid_shaped(&id), "{id}");
}

#[test]
fn login_twice_keeps_the_uuid() {
    let mut users = UserStore::default();
    let (first, created) = users.login("alice");
    assert!(created);
    assert!(is_uuid_shaped(&first));
    let (second, created_again) = users.login("alice");
    assert!(!created_again);
    assert_eq!(first, second);
    assert!(users.exists_uuid(&first));
    assert_eq!(users.user_details(&first), Some(("alice".to_string(), true)));
}

#[test]
fn logout_undoes_one_login() {
    let mut users = UserStore::from_pairs(vec![("alice".to_string(), "uuid-a".to_string())]);
    let _ = users.login("alice");
    let _ = users.login("alice");
    users.logout("uuid-a");
    assert_eq!(users.user_details("uuid-a"), Some(("alice".to_string(), true)));
    users.logout("uuid-a");
    assert_eq!(users.user_details("uuid-a"), Some(("alice".to_string(), false)));
    users.logout("uuid-a");
    assert_eq!(users.user_details("uuid-a"), Some(("alice".to_string(), false)));
}

#[test]
fn listing_is_sorted_by_name() {
    let users = UserStore::from_pairs(vec![
        ("carol".to_string(), "uuid-c".to_string()),
        ("alice".to_string(), "uuid-a".to_string()),
        ("bob".to_string(), "uuid-b".to_string()),
    ]);
    let names: Vec<String> = users.list_users().into_iter().map(|(_, n, _)| n).collect();
    assert_eq!(names, vec!["alice".to_string(), "bob".to_string(), "carol".to_string()]);
    assert_eq!(users.user_details("nobody"), None);
}

#[test]
fn subscriptions_list_and_undo() {
    let mut users = UserStore::from_pairs(vec![
        ("alice".to_string(), "uuid-a".to_string()),
        ("bob".to_string(), "uuid-b".to_string()),
    ]);
    users.subscribe_to_team("uuid-b", "team-2");
    users.subscribe_to_team("uuid-b", "team-1");
    users.subscribe_to_team("uuid-a", "team-1");
    users.subscribe_to_team("uuid-a", "team-1");
    assert_eq!(users.subscribed_team_ids("uuid-b"), vec!["team-1".to_string(), "team-2".to_string()]);
    assert_eq!(users.subscribed_user_ids("team-1"), vec!["uuid-a".to_string(), "uuid-b".to_string()]);
    users.unsubscribe_from_team("uuid-b", "team-1");
    assert_eq!(users.subscribed_team_ids("uuid-b"), vec!["team-2".to_string()]);
    assert_eq!(users.subscribed_user_ids("team-1"), vec!["uuid-a".to_string()]);
    users.unsubscribe_from_team("uuid-a", "team-1");
    assert!(users.subscribed_user_ids("team-1").is_empty());
}

#[test]
fn private_message_is_forwarded_only_after_successful_send() {
    let args = vec!["uuid-b".to_string(), "hi".to_string()];
    let d = collect_private_message_dispatch("SEND", "R200\r\n", Some("uuid-a"), &args)
        .expect("a successful send is forwarded");
    assert_eq!(d.sender_uuid, "uuid-a");
    assert_eq!(d.receiver_uuid, "uuid-b");
    assert_eq!(d.message_body, "hi");
    assert!(collect_private_message_dispatch("SEND", "R401 \"x\"\r\n", Some("uuid-a"), &args).is_none());
    assert!(collect_private_message_dispatch("USERS", "R200\r\n", Some("uuid-a"), &args).is_none());
    assert!(collect_private_message_dispatch("SEND", "R200\r\n", None, &args).is_none());
    assert!(collect_private_message_dispatch("SEND", "R200\r\n", Some("u"), &args[..1]).is_none());
}

#[test]
fn private_message_payload_is_quoted() {
    assert_eq!(
        build_private_message_info_payload("uuid-a", "say \"hi\""),
        "I100 NEW_MESSAGE \"uuid-a\" \"say \\\"hi\\\"\"\r\n"
    );
}
