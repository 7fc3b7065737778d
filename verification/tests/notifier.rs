use my_teams::server::notifier::dispatch_info_events;
use my_teams::server::session::InfoEvent;

struct TestSession {
    user_uuid: Option<String>,
    received_payloads: Vec<String>,
}

#[test]
fn dispatch_info_events_sends_to_matching_user() {
    let mut sessions = vec![
        TestSession {
            user_uuid: Some("user-alice".to_string()),
            received_payloads: Vec::new(),
        },
        TestSession {
            user_uuid: Some("user-bob".to_string()),
            received_payloads: Vec::new(),
        },
    ];

    let events = vec![InfoEvent {
        recipient_user_uuid: "user-alice".to_string(),
        payload: "message for alice".to_string(),
    }];

    dispatch_info_events(
        &mut sessions,
        &events,
        |session| session.user_uuid.as_deref(),
        |session, payload| {
            session.received_payloads.push(payload.to_string());
            true
        },
    );

    assert_eq!(sessions.len(), 2);
    assert_eq!(sessions[0].received_payloads.len(), 1);
    assert_eq!(sessions[0].received_payloads[0], "message for alice");
    assert_eq!(sessions[1].received_payloads.len(), 0);
}

#[test]
fn dispatch_info_events_removes_sessions_when_send_fails() {
    let mut sessions = vec![
        TestSession {
            user_uuid: Some("user-alice".to_string()),
            received_payloads: Vec::new(),
        },
        TestSession {
            user_uuid: Some("user-bob".to_string()),
            received_payloads: Vec::new(),
        },
    ];

    let events = vec![InfoEvent {
        recipient_user_uuid: "user-alice".to_string(),
        payload: "message".to_string(),
    }];

    dispatch_info_events(
        &mut sessions,
        &events,
        |session| session.user_uuid.as_deref(),
        |_, _| false,
    );

    assert_eq!(sessions.len(), 1);
    assert_eq!(sessions[0].user_uuid.as_ref().unwrap(), "user-bob");
}

#[test]
fn dispatch_info_events_with_empty_events() {
    let mut sessions = vec![TestSession {
        user_uuid: Some("user-alice".to_string()),
        received_payloads: Vec::new(),
    }];

    dispatch_info_events(
        &mut sessions,
        &[],
        |session| session.user_uuid.as_deref(),
        |session, payload| {
            session.received_payloads.push(payload.to_string());
            true
        },
    );

    assert_eq!(sessions.len(), 1);
    assert_eq!(sessions[0].received_payloads.len(), 0);
}

#[test]
fn dispatch_info_events_ignores_no_matching_sessions() {
    let mut sessions = vec![TestSession {
        user_uuid: Some("user-bob".to_string()),
        received_payloads: Vec::new(),
    }];

    let events = vec![InfoEvent {
        recipient_user_uuid: "user-alice".to_string(),
        payload: "message".to_string(),
    }];

    let mut send_called = false;
    dispatch_info_events(
        &mut sessions,
        &events,
        |session| session.user_uuid.as_deref(),
        |_, _| {
            send_called = true;
            true
        },
    );

    assert!(!send_called);
    assert_eq!(sessions.len(), 1);
}

#[test]
fn dispatch_info_events_keeps_session_order() {
    let mut sessions = vec![
        TestSession { user_uuid: None, received_payloads: Vec::new() },
        TestSession { user_uuid: Some("a".to_string()), received_payloads: Vec::new() },
        TestSession { user_uuid: Some("b".to_string()), received_payloads: Vec::new() },
    ];
    let events = vec![
        InfoEvent { recipient_user_uuid: "b".to_string(), payload: "1".to_string() },
        InfoEvent { recipient_user_uuid: "b".to_string(), payload: "2".to_string() },
    ];
    dispatch_info_events(
        &mut sessions,
        &events,
        |session| session.user_uuid.as_deref(),
        |session, payload| {
            session.received_payloads.push(payload.to_string());
            true
        },
    );
    assert_eq!(sessions.len(), 3);
    assert!(sessions[0].user_uuid.is_none());
    assert_eq!(sessions[2].received_payloads, vec!["1", "2"]);
}

#[test]
fn dispatch_info_events_mixed_outcomes() {
    let session = |user: &str| TestSession {
        user_uuid: Some(user.to_string()),
        received_payloads: Vec::new(),
    };
    let mut sessions = vec![session("user-alice"), session("user-bob"), session("user-carol")];
    let events = vec![
        InfoEvent {
            recipient_user_uuid: "user-bob".to_string(),
            payload: "first".to_string(),
        },
        InfoEvent {
            recipient_user_uuid: "user-carol".to_string(),
            payload: "second".to_string(),
        },
        InfoEvent {
            recipient_user_uuid: "user-bob".to_string(),
            payload: "third".to_string(),
        },
    ];

    dispatch_info_events(
        &mut sessions,
        &events,
        |s| s.user_uuid.as_deref(),
        |s, payload| {
            s.received_payloads.push(payload.to_string());
            s.user_uuid.as_deref() != Some("user-carol")
        },
    );

    assert_eq!(sessions.len(), 2);
    assert_eq!(sessions[0].user_uuid.as_deref(), Some("user-alice"));
    assert!(sessions[0].received_payloads.is_empty());
    assert_eq!(sessions[1].user_uuid.as_deref(), Some("user-bob"));
    assert_eq!(sessions[1].received_payloads, vec!["first".to_string(), "third".to_string()]);
}
