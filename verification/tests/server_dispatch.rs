use my_teams::server::dispatch::{
    command_kind, command_registry, dispatch_line, CommandDefinition, CommandKind,
};
use my_teams::server::protocol::parse_request_line;
use my_teams::server::session::{Persist, SessionState};
use my_teams::server::storage::{ServerStorage, TeamTree};
use my_teams::server::users::UserStore;

fn empty_storage() -> ServerStorage {
    ServerStorage::from_parts(
        "users.json",
        "teams.json",
        "messages.json",
        Vec::new(),
        TeamTree { teams: Vec::new() },
        Vec::new(),
    )
}

#[test]
fn dispatch_line_with_invalid_request_format() {
    let result = parse_request_line("INVALID header");
    assert!(result.is_err());
}

#[test]
fn dispatch_line_requires_authentication() {
    let state = SessionState::default();
    assert!(state.user_uuid.is_none());
}

#[test]
fn dispatch_rejects_commands_before_login() {
    let mut state = SessionState::default();
    let mut users = UserStore::default();
    let mut storage = empty_storage();
    let outcome = dispatch_line(&mut state, &mut users, &mut storage, "C100 USERS");
    assert_eq!(outcome.response, "R401 \"unauthorized\"\r\n");
}

#[test]
fn dispatch_answers_malformed_lines_with_bad_request() {
    let mut state = SessionState::default();
    let mut users = UserStore::default();
    let mut storage = empty_storage();
    let outcome = dispatch_line(&mut state, &mut users, &mut storage, "HELLO");
    assert_eq!(outcome.response, "R501 \"bad request\"\r\n");
}

#[test]
fn dispatch_answers_unknown_commands_with_not_found() {
    let mut state = SessionState::default();
    let mut users = UserStore::default();
    let mut storage = empty_storage();
    let login = dispatch_line(&mut state, &mut users, &mut storage, "C100 LOGIN \"alice\"");
    assert!(login.response.starts_with("R200 \""));
    assert!(login.persist == Persist::Users);
    let outcome = dispatch_line(&mut state, &mut users, &mut storage, "C100 DANCE");
    assert_eq!(outcome.response, "R404 \"not found\"\r\n");
}

#[test]
fn dispatch_login_then_users_lists_the_user_online() {
    let mut state = SessionState::default();
    let mut users = UserStore::default();
    let mut storage = empty_storage();
    let login = dispatch_line(&mut state, &mut users, &mut storage, "C100 LOGIN \"alice\"");
    let uuid = state.user_uuid.clone().expect("logged in");
    assert_eq!(login.response, format!("R200 \"{}\"\r\n", uuid));
    assert_eq!(uuid.len(), 36);
    assert_eq!(&uuid[14..15], "4");
    let listing = dispatch_line(&mut state, &mut users, &mut storage, "C100 USERS");
    assert_eq!(listing.response, format!("R200 \"USERS\" \"{}\" \"alice\" \"1\"\r\n", uuid));
    assert_eq!(storage.user_pairs(), vec![("alice".to_string(), uuid)]);
}

#[test]
fn registry_is_sorted_and_finds_commands() {
    let defs = command_registry();
    assert_eq!(defs.len(), 26);
    for i in 1..defs.len() {
        assert!(defs[i - 1].name < defs[i].name);
    }
    assert!(command_kind("CREATE_TEAM") == Some(CommandKind::Create));
    assert!(command_kind("NONEXISTENT").is_none());
}

#[test]
fn help_lists_every_command() {
    let mut state = SessionState::default();
    let mut users = UserStore::default();
    let mut storage = empty_storage();
    let outcome = dispatch_line(&mut state, &mut users, &mut storage, "C100 HELP");
    assert!(outcome.response.starts_with("R401"));
    state.user_uuid = Some("u".to_string());
    let outcome = dispatch_line(&mut state, &mut users, &mut storage, "C100 HELP");
    assert!(outcome
        .response
        .starts_with("R200 \"CREATE CREATE : based on context, create a sub resource\\\\nCREATE_CHAN"));
    assert!(outcome.response.ends_with("USERS USERS : list all users that exist on the domain\"\r\n"));
}

fn test_command_table() -> Vec<CommandDefinition> {
    vec![CommandDefinition {
        name: "TEST".to_string(),
        usage: "TEST".to_string(),
        description: "test command".to_string(),
        kind: CommandKind::Help,
    }]
}

#[test]
fn dispatch_line_command_lookup_works() {
    let commands = test_command_table();
    assert!(commands.iter().any(|d| d.name == "TEST"));
    assert!(!commands.iter().any(|d| d.name == "NONEXISTENT"));
    assert!(command_kind("USERS").is_some());
    assert!(command_kind("NONEXISTENT").is_none());
}

#[test]
fn command_definition_stores_metadata() {
    let def = CommandDefinition {
        name: "TEST".to_string(),
        usage: "TEST [arg]".to_string(),
        description: "test command".to_string(),
        kind: CommandKind::Help,
    };
    assert_eq!(def.usage, "TEST [arg]");
    assert_eq!(def.description, "test command");
}
