use my_teams::client::commands::{
    check_arg_count, check_quotes, client_command_kind, command_registry, dispatch_line,
    help_lines, tokenize_command, ClientCommand, LinePlan,
};
use my_teams::client::info::handle_info_message;
use my_teams::client::protocol::{
    build_create_team_request, build_login_request, build_send_request, build_subscribed_request,
    build_use_request, extract_uuid_from_body, parse_response_code, parse_response_tokens,
};
use my_teams::client::responses::{handle_response_line, ClientCall};
use my_teams::client::shell::{classify_server_line, typed_action, ServerLine, TypedAction};
use my_teams::client::types::{ClientError, CommandContext, PendingRequest, SessionState};

fn input_error(e: ClientError) -> String {
    match e {
        ClientError::InvalidInput(m) => m,
        ClientError::InvalidData(m) => panic!("expected an input error, got data error {m}"),
    }
}

fn data_error(e: ClientError) -> String {
    match e {
        ClientError::InvalidData(m) => m,
        ClientError::InvalidInput(m) => panic!("expected a data error, got input error {m}"),
    }
}

fn with_pending(pending: PendingRequest) -> SessionState {
    let mut state = SessionState::default();
    state.pending_request = Some(pending);
    state
}

#[test]
fn plain_text_is_not_a_command() {
    let state = SessionState::default();
    assert!(matches!(dispatch_line(&state, "hello"), LinePlan::NotCommand));
    assert!(matches!(dispatch_line(&state, ""), LinePlan::NotCommand));
}

#[test]
fn unknown_command_is_reported_by_name() {
    let state = SessionState::default();
    match dispatch_line(&state, "/nope x") {
        LinePlan::Unknown(name) => assert_eq!(name, "/nope"),
        _ => panic!("expected an unknown command"),
    }
}

#[test]
fn login_builds_request_and_pending() {
    let state = SessionState::default();
    match dispatch_line(&state, "/login \"alice smith\"") {
        LinePlan::Request { line, pending } => {
            assert_eq!(line, "C100 LOGIN \"alice smith\"\r\n");
            assert!(matches!(pending, PendingRequest::Login { user_name } if user_name == "alice smith"));
        }
        _ => panic!("expected a request"),
    }
}

#[test]
fn login_without_name_is_refused() {
    let state = SessionState::default();
    match dispatch_line(&state, "/login") {
        LinePlan::Failed(e) => assert_eq!(input_error(e), "invalid argument count for /login"),
        _ => panic!("expected a refusal"),
    }
}

#[test]
fn help_prints_every_command_padded() {
    let state = SessionState::default();
    let lines = match dispatch_line(&state, "/help") {
        LinePlan::Help(lines) => lines,
        _ => panic!("expected help"),
    };
    assert_eq!(lines.len(), 14);
    assert_eq!(lines, help_lines());
    assert_eq!(lines[0], format!("{:<62} : {}", "/create", "based on context, create a sub resource"));
    assert_eq!(
        lines[4],
        format!("{:<62} : {}", "/login [\"user_name\"]", "set the user_name used by client")
    );
    assert!(matches!(dispatch_line(&state, "/help extra"), LinePlan::Failed(_)));
}

#[test]
fn registry_is_sorted_by_name() {
    let defs = command_registry();
    assert_eq!(defs.len(), 14);
    for i in 1..defs.len() {
        assert!(defs[i - 1].name < defs[i].name);
    }
    assert!(matches!(client_command_kind("/use"), Some(ClientCommand::Use)));
    assert!(client_command_kind("use").is_none());
}

#[test]
fn command_tokens_group_quotes() {
    assert_eq!(
        tokenize_command("/send  \"uuid b\" \"hi there\""),
        vec!["/send".to_string(), "uuid b".to_string(), "hi there".to_string()]
    );
    assert_eq!(tokenize_command("/a \"open"), vec!["/a".to_string(), "open".to_string()]);
    assert!(tokenize_command("   ").is_empty());
}

#[test]
fn arg_count_bounds() {
    let args = vec!["a".to_string()];
    assert!(check_arg_count("/x", &args, 1, 1).is_ok());
    assert_eq!(
        input_error(check_arg_count("/x", &args, 2, 2).err().unwrap()),
        "invalid argument count for /x"
    );
}

#[test]
fn create_follows_the_context() {
    let mut state = SessionState::default();
    match dispatch_line(&state, "/create \"Core\" \"Desc\"") {
        LinePlan::Request { line, pending } => {
            assert_eq!(line, "C100 CREATE_TEAM \"Core\" \"Desc\"\r\n");
            assert!(matches!(pending, PendingRequest::CreateTeam));
        }
        _ => panic!("expected a request"),
    }
    state.context = CommandContext {
        team_uuid: Some("t".to_string()),
        channel_uuid: Some("c".to_string()),
        thread_uuid: Some("th".to_string()),
    };
    match dispatch_line(&state, "/create \"a reply\"") {
        LinePlan::Request { line, pending } => {
            assert_eq!(line, "C100 CREATE_REP \"a reply\"\r\n");
            assert!(matches!(pending, PendingRequest::CreateReply { .. }));
        }
        _ => panic!("expected a request"),
    }
    state.context = CommandContext {
        team_uuid: None,
        channel_uuid: Some("c".to_string()),
        thread_uuid: None,
    };
    match dispatch_line(&state, "/create \"a\" \"b\"") {
        LinePlan::Failed(e) => assert_eq!(input_error(e), "invalid command context"),
        _ => panic!("expected a refusal"),
    }
}

#[test]
fn use_request_quotes_each_argument() {
    let args = vec!["t".to_string(), "c\"x".to_string()];
    assert_eq!(build_use_request(&args), "C100 USE \"t\" \"c\\\"x\"\r\n");
    assert_eq!(build_use_request(&[]), "C100 USE\r\n");
}

#[test]
fn request_builders() {
    assert_eq!(build_login_request("a\\b"), "C100 LOGIN \"a\\\\b\"\r\n");
    assert_eq!(build_send_request("u", "m"), "C100 SEND \"u\" \"m\"\r\n");
    assert_eq!(build_subscribed_request(None), "C100 SUBSCRIBED\r\n");
    assert_eq!(build_subscribed_request(Some("t")), "C100 SUBSCRIBED \"t\"\r\n");
    assert_eq!(build_create_team_request("n", "d"), "C100 CREATE_TEAM \"n\" \"d\"\r\n");
}

#[test]
fn response_codes() {
    assert_eq!(parse_response_code("R200 \"x\"").ok(), Some(200));
    assert_eq!(parse_response_code("R404").ok(), Some(404));
    assert_eq!(data_error(parse_response_code("").err().unwrap()), "empty server response");
    assert_eq!(
        data_error(parse_response_code("X200").err().unwrap()),
        "invalid response header: X200"
    );
    assert_eq!(
        data_error(parse_response_code("Rabc").err().unwrap()),
        "invalid response code: Rabc"
    );
}

#[test]
fn response_tokens_and_uuid() {
    assert_eq!(
        parse_response_tokens("R200 \"a b\" \"c\"").ok(),
        Some(vec!["a b".to_string(), "c".to_string()])
    );
    assert_eq!(extract_uuid_from_body("R200 \"uuid-1\" \"alice\"").ok(), Some("uuid-1".to_string()));
    assert_eq!(
        data_error(extract_uuid_from_body("R200").err().unwrap()),
        "missing UUID in login response"
    );
}

#[test]
fn login_answer_records_the_user() {
    let mut state = with_pending(PendingRequest::Login { user_name: "alice".to_string() });
    let (events, result) = handle_response_line(&mut state, "R200 \"uuid-a\" \"alice\"");
    assert!(result.is_ok());
    assert!(events.is_empty());
    assert_eq!(state.user_uuid.as_deref(), Some("uuid-a"));
    assert_eq!(state.user_name.as_deref(), Some("alice"));
    assert!(state.pending_request.is_none());
}

#[test]
fn unauthorized_answer_reports_the_error() {
    let mut state = with_pending(PendingRequest::Users);
    let (events, result) = handle_response_line(&mut state, "R401 \"unauthorized\"");
    assert!(result.is_ok());
    assert_eq!(events.len(), 1);
    assert!(events[0].call == ClientCall::ErrorUnauthorized);
}

#[test]
fn users_answer_prints_each_user() {
    let mut state = with_pending(PendingRequest::Users);
    let (events, result) = handle_response_line(
        &mut state,
        "R200 \"USERS\" \"uuid-a\" \"alice\" \"1\" \"uuid-b\" \"bob\" \"0\"",
    );
    assert!(result.is_ok());
    assert_eq!(events.len(), 2);
    assert!(events[0].call == ClientCall::PrintUsers);
    assert_eq!(events[0].texts, vec!["uuid-a".to_string(), "alice".to_string()]);
    assert_eq!(events[0].number, 1);
    assert_eq!(events[1].number, 0);
}

#[test]
fn users_answer_with_bad_status_fails() {
    let mut state = with_pending(PendingRequest::Users);
    let (_, result) = handle_response_line(&mut state, "R200 \"USERS\" \"uuid-a\" \"alice\" \"7\"");
    assert_eq!(data_error(result.err().unwrap()), "invalid user status: 7");
}

#[test]
fn unknown_user_answer_names_the_user() {
    let mut state = with_pending(PendingRequest::User { user_uuid: "missing".to_string() });
    let (events, result) = handle_response_line(&mut state, "R404 \"missing\"");
    assert!(result.is_ok());
    assert_eq!(events.len(), 1);
    assert!(events[0].call == ClientCall::ErrorUnknownUser);
    assert_eq!(events[0].texts, vec!["missing".to_string()]);
}

#[test]
fn use_answer_sets_the_context() {
    let mut state = with_pending(PendingRequest::Use {
        team_uuid: Some("t".to_string()),
        channel_uuid: Some("c".to_string()),
        thread_uuid: None,
    });
    let (_, result) = handle_response_line(&mut state, "R200");
    assert!(result.is_ok());
    assert_eq!(state.context.team_uuid.as_deref(), Some("t"));
    assert_eq!(state.context.channel_uuid.as_deref(), Some("c"));
    assert!(state.context.thread_uuid.is_none());
}

#[test]
fn answer_without_pending_request_must_be_ok() {
    let mut state = SessionState::default();
    let (events, result) = handle_response_line(&mut state, "R200");
    assert!(result.is_ok() && events.is_empty());
    let (_, result) = handle_response_line(&mut state, "R500 \"boom\"");
    assert_eq!(data_error(result.err().unwrap()), "R500 \"boom\"");
}

#[test]
fn malformed_answer_keeps_the_pending_request() {
    let mut state = with_pending(PendingRequest::Logout);
    let (_, result) = handle_response_line(&mut state, "garbage");
    assert!(result.is_err());
    assert!(matches!(state.pending_request, Some(PendingRequest::Logout)));
}

#[test]
fn info_line_becomes_a_log_call() {
    let event = handle_info_message("I100 NEW_MESSAGE \"uuid-a\" \"hello\"").expect("valid info");
    assert!(event.call == ClientCall::EventPrivateMessageReceived);
    assert_eq!(event.texts, vec!["uuid-a".to_string(), "hello".to_string()]);
    let thread =
        handle_info_message("I100 NEW_THREAD \"t\" \"c\" \"th\" \"u\" \"42\" \"title\" \"body\"")
            .expect("valid info");
    assert!(thread.call == ClientCall::EventThreadCreated);
    assert_eq!(thread.number, 42);
    assert!(handle_info_message("R200").is_none());
    assert!(handle_info_message("I100 NEW_TEAM \"only\"").is_none());
}

#[test]
fn unquoted_argument_is_a_missing_quote() {
    let state = SessionState::default();
    match dispatch_line(&state, "/login alice") {
        LinePlan::Failed(e) => assert_eq!(input_error(e), "missing quote"),
        _ => panic!("expected a refusal"),
    }
}

#[test]
fn open_quote_is_a_missing_quote() {
    let state = SessionState::default();
    match dispatch_line(&state, "/login \"alice") {
        LinePlan::Failed(e) => assert_eq!(input_error(e), "missing quote"),
        _ => panic!("expected a refusal"),
    }
}

#[test]
fn command_names_ignore_case() {
    let state = SessionState::default();
    match dispatch_line(&state, "/LOGIN \"alice\"") {
        LinePlan::Request { line, pending } => {
            assert_eq!(line, "C100 LOGIN \"alice\"\r\n");
            assert!(matches!(pending, PendingRequest::Login { user_name } if user_name == "alice"));
        }
        _ => panic!("expected a request"),
    }
    assert!(matches!(client_command_kind("/Users"), Some(ClientCommand::Users)));
    assert!(client_command_kind("/nope").is_none());
}

#[test]
fn quote_check_cases() {
    assert!(check_quotes("/use"));
    assert!(check_quotes("/use \"t\" \"c\""));
    assert!(check_quotes("/send \"u\"   \"hello world\"  "));
    assert!(!check_quotes("/use t"));
    assert!(!check_quotes("/use \"t\"c"));
    assert!(!check_quotes("/use \"t"));
    assert!(!check_quotes("/use\"t\""));
}

#[test]
fn server_lines_are_told_apart() {
    assert!(classify_server_line("I100 NEW_TEAM") == ServerLine::Info);
    assert!(classify_server_line("R200\r\n") == ServerLine::Response);
    assert!(classify_server_line("") == ServerLine::Other);
    assert!(classify_server_line("hello") == ServerLine::Other);
}

#[test]
fn typed_lines_lead_to_actions() {
    assert!(typed_action("exit", false) == TypedAction::Quit);
    assert!(typed_action("quit", true) == TypedAction::Quit);
    assert!(typed_action("", false) == TypedAction::Ignore);
    assert!(typed_action("/users", true) == TypedAction::Queue);
    assert!(typed_action("/users", false) == TypedAction::Run);
    assert!(typed_action("exits", false) == TypedAction::Run);
}
