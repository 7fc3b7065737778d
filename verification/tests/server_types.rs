use my_teams::server::dispatch::outcome_after_failed_save;
use my_teams::server::session::{CommandContext, CommandOutcome, InfoEvent, Persist, SessionState};

#[test]
fn command_outcome_response_only_has_no_events() {
    let outcome = CommandOutcome::response_only("R200 OK".to_string());
    assert_eq!(outcome.response, "R200 OK");
    assert_eq!(outcome.info_events.len(), 0);
}

#[test]
fn command_outcome_with_info_events() {
    let info_event = InfoEvent {
        recipient_user_uuid: "user-123".to_string(),
        payload: "test event".to_string(),
    };
    let mut outcome = CommandOutcome::response_only("R200".to_string());
    outcome.info_events.push(info_event);

    assert_eq!(outcome.response, "R200");
    assert_eq!(outcome.info_events.len(), 1);
    assert_eq!(outcome.info_events[0].recipient_user_uuid, "user-123");
}

#[test]
fn command_context_default_is_empty() {
    let ctx = CommandContext::default();
    assert!(ctx.team_uuid.is_none());
    assert!(ctx.channel_uuid.is_none());
    assert!(ctx.thread_uuid.is_none());
}

#[test]
fn session_state_default_is_empty() {
    let state = SessionState::default();
    assert!(state.user_uuid.is_none());
    assert!(state.context.team_uuid.is_none());
}

#[test]
fn session_state_can_set_user_uuid() {
    let mut state = SessionState::default();
    state.user_uuid = Some("user-alice".to_string());
    assert_eq!(state.user_uuid.as_ref().unwrap(), "user-alice");
}

#[test]
fn session_state_can_set_team_context() {
    let mut state = SessionState::default();
    state.context.team_uuid = Some("team-123".to_string());
    state.context.channel_uuid = Some("channel-456".to_string());
    assert_eq!(state.context.team_uuid.as_ref().unwrap(), "team-123");
    assert_eq!(state.context.channel_uuid.as_ref().unwrap(), "channel-456");
}

#[test]
fn failed_save_of_teams_turns_into_internal_error() {
    let mut outcome = CommandOutcome::response_only("R200 \"TEAM\"\r\n".to_string());
    outcome.persist = Persist::Teams;
    outcome.info_events.push(InfoEvent {
        recipient_user_uuid: "u".to_string(),
        payload: "p".to_string(),
    });
    let after = outcome_after_failed_save(outcome);
    assert_eq!(after.response, "R500 \"internal server error\"\r\n");
    assert!(after.info_events.is_empty());
    assert!(after.events.is_empty());
}

#[test]
fn failed_save_of_users_keeps_the_answer() {
    let mut outcome = CommandOutcome::response_only("R200 \"x\"\r\n".to_string());
    outcome.persist = Persist::Users;
    let after = outcome_after_failed_save(outcome);
    assert_eq!(after.response, "R200 \"x\"\r\n");
}
