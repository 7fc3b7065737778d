use my_teams::json::{JsonIoError, JsonNumber, JsonValue};
use my_teams::server::documents::{
    expect_i64_field, expect_i64_field_or_default, expect_string_field,
    expect_string_field_or_default, messages_from_json_value, messages_to_json_value,
    teams_from_json_value, teams_to_json_value, users_from_json_value, users_to_json_value,
    StorageError,
};
use my_teams::server::storage::{
    default_messages_path, default_teams_path, default_users_path, dump_team_tree, ChannelEntry,
    MessageEntry,
    ReplyEntry, ServerStorage, TeamEntry, TeamTree, ThreadEntry, UserEntry,
};

fn text(s: &str) -> JsonValue {
    JsonValue::String(s.to_string())
}

fn object(members: Vec<(&str, JsonValue)>) -> JsonValue {
    let mut entries: Vec<(String, JsonValue)> =
        members.into_iter().map(|(k, v)| (k.to_string(), v)).collect();
    entries.sort_by(|a, b| a.0.cmp(&b.0));
    JsonValue::Object(entries)
}

fn members(members: Vec<(&str, JsonValue)>) -> Vec<(String, JsonValue)> {
    match object(members) {
        JsonValue::Object(m) => m,
        _ => unreachable!(),
    }
}

fn schema_message(e: StorageError) -> String {
    match e {
        StorageError::Schema(m) => m,
        other => panic!("expected a schema error, got: {}", other.message()),
    }
}

fn empty_storage() -> ServerStorage {
    ServerStorage::load_or_default("u.json", "t.json", "m.json", None, None, None)
        .ok()
        .expect("absent files give an empty storage")
}

#[test]
fn conversation_messages_only_returns_matching_pair() {
    let mut storage = empty_storage();

    storage.append_private_message("uuid-a", "uuid-b", 1, "a->b");
    storage.append_private_message("uuid-b", "uuid-a", 2, "b->a");
    storage.append_private_message("uuid-a", "uuid-c", 3, "a->c");

    let conversation = storage.conversation_messages("uuid-a", "uuid-b");
    assert_eq!(conversation.len(), 2);
    assert_eq!(conversation[0].body, "a->b");
    assert_eq!(conversation[1].body, "b->a");
}

#[test]
fn conversation_is_the_same_from_both_sides() {
    let mut storage = empty_storage();
    storage.append_private_message("uuid-a", "uuid-b", 1, "one");
    storage.append_private_message("uuid-b", "uuid-a", 2, "two");
    let ab = storage.conversation_messages("uuid-a", "uuid-b");
    let ba = storage.conversation_messages("uuid-b", "uuid-a");
    assert_eq!(ab.len(), ba.len());
    for i in 0..ab.len() {
        assert_eq!(ab[i].body, ba[i].body);
        assert_eq!(ab[i].timestamp, ba[i].timestamp);
    }
}

#[test]
fn absent_files_load_as_empty_storage() {
    let storage = empty_storage();
    assert!(storage.users_list().is_empty());
    assert!(storage.messages_list().is_empty());
    assert!(storage.team_tree().teams.is_empty());
    assert_eq!(storage.users_file(), "u.json");
    assert_eq!(storage.teams_file(), "t.json");
    assert_eq!(storage.messages_file(), "m.json");
}

#[test]
fn default_paths_live_under_data() {
    assert_eq!(default_users_path(), "data/users.json");
    assert_eq!(default_teams_path(), "data/teams.json");
    assert_eq!(default_messages_path(), "data/messages.json");
}

#[test]
fn load_reads_users_document() {
    let doc = object(vec![(
        "users",
        JsonValue::Array(vec![object(vec![("name", text("alice")), ("uuid", text("uuid-a"))])]),
    )]);
    let storage =
        ServerStorage::load_or_default("u.json", "t.json", "m.json", Some(Ok(doc)), None, None)
            .ok()
            .expect("valid users document");
    assert_eq!(storage.users_list().len(), 1);
    assert_eq!(storage.users_list()[0].name, "alice");
    assert_eq!(storage.user_pairs(), vec![("alice".to_string(), "uuid-a".to_string())]);
}

#[test]
fn load_reports_unreadable_file() {
    let err = ServerStorage::load_or_default(
        "u.json",
        "t.json",
        "m.json",
        None,
        Some(Err(JsonIoError::Io("denied".to_string()))),
        None,
    )
    .err()
    .expect("a read failure is an error");
    assert_eq!(err.message(), "storage JSON error: I/O error: denied");
}

#[test]
fn load_reports_schema_error_of_first_bad_document() {
    let err = ServerStorage::load_or_default(
        "u.json",
        "t.json",
        "m.json",
        Some(Ok(object(vec![]))),
        Some(Ok(object(vec![]))),
        None,
    )
    .err()
    .expect("missing field is an error");
    assert_eq!(schema_message(err), "missing 'users' field");
}

#[test]
fn users_document_missing_field_is_schema_error() {
    let doc = object(vec![("users", JsonValue::Array(vec![object(vec![("name", text("a"))])]))]);
    let err = users_from_json_value(&doc).err().expect("uuid is required");
    assert_eq!(schema_message(err), "missing 'uuid' field");
}

#[test]
fn users_root_must_be_an_object() {
    let err = users_from_json_value(&JsonValue::Array(vec![])).err().expect("not an object");
    assert_eq!(schema_message(err), "users file root is not an object");
}

#[test]
fn users_field_must_be_an_array() {
    let err = users_from_json_value(&object(vec![("users", JsonValue::Null)]))
        .err()
        .expect("not an array");
    assert_eq!(schema_message(err), "users is not an array");
}

#[test]
fn users_document_round_trips() {
    let users = vec![
        UserEntry { name: "alice".to_string(), uuid: "uuid-a".to_string() },
        UserEntry { name: "bob".to_string(), uuid: "uuid-b".to_string() },
    ];
    let doc = users_to_json_value(&users);
    let back = users_from_json_value(&doc).ok().expect("encoded document decodes");
    assert_eq!(back.len(), 2);
    assert_eq!(back[0].name, "alice");
    assert_eq!(back[1].uuid, "uuid-b");
}

#[test]
fn messages_document_round_trips() {
    let messages = vec![MessageEntry {
        sender_uuid: "a".to_string(),
        recipient_uuid: "b".to_string(),
        timestamp: -5,
        body: "hi".to_string(),
    }];
    let doc = messages_to_json_value(&messages);
    let back = messages_from_json_value(&doc).ok().expect("encoded document decodes");
    assert_eq!(back.len(), 1);
    assert_eq!(back[0].timestamp, -5);
    assert_eq!(back[0].body, "hi");
}

#[test]
fn teams_document_round_trips() {
    let tree = TeamTree {
        teams: vec![TeamEntry {
            uuid: "t".to_string(),
            name: "T".to_string(),
            description: "d".to_string(),
            channels: vec![ChannelEntry {
                uuid: "c".to_string(),
                name: "C".to_string(),
                description: "".to_string(),
                threads: vec![ThreadEntry {
                    uuid: "th".to_string(),
                    user_uuid: "u".to_string(),
                    timestamp: 7,
                    title: "title".to_string(),
                    body: "body".to_string(),
                    replies: vec![ReplyEntry {
                        user_uuid: "u2".to_string(),
                        timestamp: 8,
                        body: "reply".to_string(),
                    }],
                }],
            }],
        }],
    };
    let doc = teams_to_json_value(&tree);
    let back = teams_from_json_value(&doc).ok().expect("encoded document decodes");
    assert_eq!(back.teams.len(), 1);
    let thread = &back.teams[0].channels[0].threads[0];
    assert_eq!(thread.title, "title");
    assert_eq!(thread.replies.len(), 1);
    assert_eq!(thread.replies[0].timestamp, 8);
    assert_eq!(thread.replies[0].body, "reply");
}

#[test]
fn teams_document_requires_channels() {
    let doc = object(vec![(
        "teams",
        JsonValue::Array(vec![object(vec![("uuid", text("t")), ("name", text("T"))])]),
    )]);
    let err = teams_from_json_value(&doc).err().expect("channels are required");
    assert_eq!(schema_message(err), "missing 'channels' field");
}

#[test]
fn string_field_kinds() {
    let obj = members(vec![("a", text("x")), ("b", JsonValue::Bool(true))]);
    assert_eq!(expect_string_field(&obj, "a").ok(), Some("x".to_string()));
    assert_eq!(
        schema_message(expect_string_field(&obj, "b").err().unwrap()),
        "field 'b' is not a string"
    );
    assert_eq!(
        schema_message(expect_string_field(&obj, "c").err().unwrap()),
        "missing 'c' field"
    );
    assert_eq!(expect_string_field_or_default(&obj, "c").ok(), Some(String::new()));
}

#[test]
fn integer_field_kinds() {
    let obj = members(vec![
        ("n", JsonValue::Number(JsonNumber::Integer(42))),
        ("big", JsonValue::Number(JsonNumber::OutOfRange)),
        ("frac", JsonValue::Number(JsonNumber::NotInteger)),
    ]);
    assert_eq!(expect_i64_field(&obj, "n").ok(), Some(42));
    assert_eq!(
        schema_message(expect_i64_field(&obj, "big").err().unwrap()),
        "field 'big' is out of i64 range"
    );
    assert_eq!(
        schema_message(expect_i64_field(&obj, "frac").err().unwrap()),
        "field 'frac' is not an integer number"
    );
    assert_eq!(expect_i64_field_or_default(&obj, "missing").ok(), Some(0));
    assert_eq!(
        schema_message(expect_i64_field(&obj, "missing").err().unwrap()),
        "missing 'missing' field"
    );
}

#[test]
fn storage_error_messages() {
    assert_eq!(StorageError::Io("x".to_string()).message(), "storage I/O error: x");
    assert_eq!(StorageError::Schema("y".to_string()).message(), "storage schema error: y");
    let parse = JsonIoError::Parse { message: "bad".to_string(), position: 12 };
    assert_eq!(parse.message(), "JSON parse error at byte 12: bad");
    assert_eq!(
        JsonIoError::InvalidRootType("array".to_string()).message(),
        "Invalid JSON root type: array"
    );
}

#[test]
fn duplicate_member_takes_the_last() {
    let obj = vec![
        ("name".to_string(), JsonValue::String("first".to_string())),
        ("name".to_string(), JsonValue::String("last".to_string())),
    ];
    assert_eq!(expect_string_field(&obj, "name").ok().unwrap(), "last");
}

#[test]
fn dump_of_a_team_tree() {
    let empty = TeamTree { teams: Vec::new() };
    assert_eq!(dump_team_tree(&empty), "{\"teams\":[]}");
    let tree = TeamTree {
        teams: vec![TeamEntry {
            uuid: "t".to_string(),
            name: "n".to_string(),
            description: "d".to_string(),
            channels: vec![ChannelEntry {
                uuid: "c".to_string(),
                name: "cn".to_string(),
                description: "cd".to_string(),
                threads: vec![ThreadEntry {
                    uuid: "h".to_string(),
                    user_uuid: "u".to_string(),
                    timestamp: -42,
                    title: "ti".to_string(),
                    body: "b".to_string(),
                    replies: vec![ReplyEntry {
                        user_uuid: "u".to_string(),
                        timestamp: 7,
                        body: "r".to_string(),
                    }],
                }],
            }],
        }],
    };
    assert_eq!(
        dump_team_tree(&tree),
        "{\"teams\":[{\"channels\":[{\"description\":\"cd\",\"name\":\"cn\",\"threads\":[{\"body\":\"b\",\"replies\":[{\"body\":\"r\",\"timestamp\":7,\"user_uuid\":\"u\"}],\"timestamp\":-42,\"title\":\"ti\",\"user_uuid\":\"u\",\"uuid\":\"h\"}],\"uuid\":\"c\"}],\"description\":\"d\",\"name\":\"n\",\"uuid\":\"t\"}]}"
    );
}
