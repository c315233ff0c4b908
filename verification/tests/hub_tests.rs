use chathub::auth::authenticate;
use chathub::auth::complete_login;
use chathub::auth::AuthOutcome;
use chathub::dm::dm_channel;
use chathub::messages::AuthMessage;
use chathub::messages::CommandMessage;
use chathub::messages::Message;
use chathub::messages::TextMessage;
use chathub::pipeline::broadcast_targets;
use chathub::routing::handle_message;
use chathub::routing::ServerAction;
use chathub::state::ServerState;

fn fresh_state() -> ServerState {
    ServerState::new(vec!["general".to_string()])
}

/// Logs `username` in with `password` and registers its connection,
/// returning the issued session token.
fn login(state: &mut ServerState, username: &str, password: &str) -> String {
    let request = AuthMessage {
        username: username.to_string(),
        auth_token: None,
        password: Some(password.to_string()),
    };
    let token = match authenticate(state, &request) {
        AuthOutcome::Granted(response) => response.auth_token.unwrap(),
        AuthOutcome::Rejected => panic!("login of {} must pass", username),
    };
    complete_login(state, username.to_string());
    token
}

fn text(username: &str, token: &str, body: &str, channel: &str) -> Message {
    Message::Text(TextMessage {
        username: username.to_string(),
        auth_token: token.to_string(),
        body: body.to_string(),
        channel: channel.to_string(),
        embed_pointer: None,
        embed_type: None,
        message_id: None,
        timestamp: 0,
    })
}

fn command(username: &str, token: &str, kind: &str, args: Vec<&str>) -> Message {
    Message::Command(CommandMessage {
        username: username.to_string(),
        auth_token: token.to_string(),
        command_type: kind.to_string(),
        args: args.into_iter().map(|a| a.to_string()).collect(),
    })
}

#[test]
fn alice_sends_hi_to_general() {
    let mut state = fresh_state();
    let token = login(&mut state, "alice", "hunter2");
    let action = handle_message(&mut state, text("alice", &token, "hi", "general"), 777);
    match action {
        ServerAction::Broadcast { message, targets } => {
            assert_eq!(message.message_id, Some(1));
            assert_eq!(message.timestamp, 777);
            assert_eq!(message.username, "alice");
            assert_eq!(message.body, "hi");
            assert_eq!(message.channel, "general");
            assert_eq!(targets, vec!["alice".to_string()]);
        },
        _ => panic!("an accepted text message is broadcast"),
    }
    // The message is durable: a history request replays it.
    let replay = handle_message(
        &mut state,
        command("alice", &token, "history", vec!["general", "3"]),
        778,
    );
    match replay {
        ServerAction::Reply(lines) => {
            assert_eq!(lines.len(), 1);
            assert_eq!(lines[0].body, "hi");
            assert_eq!(lines[0].username, "alice");
            assert_eq!(lines[0].message_id, Some(1));
            assert_eq!(lines[0].timestamp, 777);
            assert_eq!(lines[0].auth_token, "");
        },
        _ => panic!("a history request is answered"),
    }
}

#[test]
fn a_wrong_token_disconnects_and_stores_nothing() {
    let mut state = fresh_state();
    let token = login(&mut state, "alice", "hunter2");
    let bogus = handle_message(&mut state, text("alice", "not-the-token", "pwned", "general"), 1);
    assert!(matches!(bogus, ServerAction::Disconnect));
    let bogus_cmd = handle_message(
        &mut state,
        command("alice", "not-the-token", "history", vec!["general", "3"]),
        2,
    );
    assert!(matches!(bogus_cmd, ServerAction::Disconnect));
    // A message from a user that never authenticated is not authentic either.
    let ghost = handle_message(&mut state, text("ghost", "anything", "hello", "general"), 3);
    assert!(matches!(ghost, ServerAction::Disconnect));
    // Nothing was persisted.
    let replay = handle_message(
        &mut state,
        command("alice", &token, "history", vec!["general", "10"]),
        4,
    );
    match replay {
        ServerAction::Reply(lines) => assert_eq!(lines.len(), 0),
        _ => panic!("a history request is answered"),
    }
}

#[test]
fn a_stale_token_stops_working_after_relogin() {
    let mut state = fresh_state();
    let first = login(&mut state, "alice", "hunter2");
    let second = login(&mut state, "alice", "hunter2");
    let stale = handle_message(&mut state, text("alice", &first, "old session", "general"), 5);
    assert!(matches!(stale, ServerAction::Disconnect));
    let live = handle_message(&mut state, text("alice", &second, "new session", "general"), 6);
    assert!(matches!(live, ServerAction::Broadcast { .. }));
}

#[test]
fn dm_reaches_only_its_participants() {
    let mut state = fresh_state();
    let alice_token = login(&mut state, "alice", "pw-a");
    let _bob_token = login(&mut state, "bob", "pw-b");
    let _carol_token = login(&mut state, "carol", "pw-c");
    let dm = dm_channel("alice", "bob");
    let action = handle_message(&mut state, text("alice", &alice_token, "psst", &dm), 100);
    match action {
        ServerAction::Broadcast { message, targets } => {
            assert_eq!(message.message_id, Some(1));
            assert!(targets.contains(&"alice".to_string()));
            assert!(targets.contains(&"bob".to_string()));
            assert!(!targets.contains(&"carol".to_string()));
            assert_eq!(targets.len(), 2);
        },
        _ => panic!("a text into a valid DM channel is broadcast"),
    }
}

#[test]
fn a_public_message_reaches_everyone() {
    let mut state = fresh_state();
    let alice_token = login(&mut state, "alice", "pw-a");
    let _bob_token = login(&mut state, "bob", "pw-b");
    let _carol_token = login(&mut state, "carol", "pw-c");
    let action = handle_message(&mut state, text("alice", &alice_token, "hi all", "general"), 100);
    match action {
        ServerAction::Broadcast { targets, .. } => {
            assert_eq!(
                targets,
                vec!["alice".to_string(), "bob".to_string(), "carol".to_string()]
            );
        },
        _ => panic!("a text into a configured channel is broadcast"),
    }
}

#[test]
fn an_invalid_dm_channel_is_silently_dropped() {
    let mut state = fresh_state();
    let token = login(&mut state, "alice", "pw-a");
    // Hashes that belong to no registered user.
    let action = handle_message(&mut state, text("alice", &token, "hm", "DM_1_2"), 10);
    assert!(matches!(action, ServerAction::NoAction));
    // Not a readable pair at all.
    let action = handle_message(&mut state, text("alice", &token, "hm", "DM_x_y"), 11);
    assert!(matches!(action, ServerAction::NoAction));
    // An unknown plain channel is a storage miss, also dropped.
    let action = handle_message(&mut state, text("alice", &token, "hm", "nowhere"), 12);
    assert!(matches!(action, ServerAction::NoAction));
}

#[test]
fn dm_history_is_denied_to_outsiders() {
    let mut state = fresh_state();
    let alice_token = login(&mut state, "alice", "pw-a");
    let _bob_token = login(&mut state, "bob", "pw-b");
    let carol_token = login(&mut state, "carol", "pw-c");
    let dm = dm_channel("alice", "bob");
    handle_message(&mut state, text("alice", &alice_token, "psst", &dm), 20);
    let denied = handle_message(
        &mut state,
        command("carol", &carol_token, "history", vec![&dm, "5"]),
        21,
    );
    match denied {
        ServerAction::Reply(lines) => assert_eq!(lines.len(), 0),
        _ => panic!("a denied history request is silently empty"),
    }
    let granted = handle_message(
        &mut state,
        command("alice", &alice_token, "history", vec![&dm, "5"]),
        22,
    );
    match granted {
        ServerAction::Reply(lines) => {
            assert_eq!(lines.len(), 1);
            assert_eq!(lines[0].body, "psst");
        },
        _ => panic!("a participant's history request is answered"),
    }
}

#[test]
fn history_replays_in_insertion_order() {
    let mut state = fresh_state();
    let token = login(&mut state, "alice", "hunter2");
    handle_message(&mut state, text("alice", &token, "m1", "general"), 1);
    handle_message(&mut state, text("alice", &token, "m2", "general"), 2);
    handle_message(&mut state, text("alice", &token, "m3", "general"), 3);
    let replay = handle_message(
        &mut state,
        command("alice", &token, "history", vec!["general", "3"]),
        4,
    );
    match replay {
        ServerAction::Reply(lines) => {
            assert_eq!(lines.len(), 3);
            assert_eq!(lines[0].body, "m1");
            assert_eq!(lines[1].body, "m2");
            assert_eq!(lines[2].body, "m3");
            assert_eq!(lines[0].message_id, Some(1));
            assert_eq!(lines[1].message_id, Some(2));
            assert_eq!(lines[2].message_id, Some(3));
        },
        _ => panic!("a history request is answered"),
    }
    // A shorter request keeps only the most recent entries, still oldest
    // first.
    let replay = handle_message(
        &mut state,
        command("alice", &token, "history", vec!["general", "2"]),
        5,
    );
    match replay {
        ServerAction::Reply(lines) => {
            assert_eq!(lines.len(), 2);
            assert_eq!(lines[0].body, "m2");
            assert_eq!(lines[1].body, "m3");
        },
        _ => panic!("a history request is answered"),
    }
}

#[test]
fn malformed_commands_are_ignored() {
    let mut state = fresh_state();
    let token = login(&mut state, "alice", "hunter2");
    let missing_args = handle_message(&mut state, command("alice", &token, "history", vec![]), 1);
    assert!(matches!(missing_args, ServerAction::NoAction));
    let bad_count = handle_message(
        &mut state,
        command("alice", &token, "history", vec!["general", "many"]),
        2,
    );
    assert!(matches!(bad_count, ServerAction::NoAction));
    let unknown = handle_message(&mut state, command("alice", &token, "users", vec![]), 3);
    assert!(matches!(unknown, ServerAction::NoAction));
    let zero = handle_message(
        &mut state,
        command("alice", &token, "history", vec!["general", "0"]),
        4,
    );
    match zero {
        ServerAction::Reply(lines) => assert_eq!(lines.len(), 0),
        _ => panic!("a zero count is a valid, empty request"),
    }
}

#[test]
fn channels_command_lists_the_configuration() {
    let mut state = ServerState::new(vec!["general".to_string(), "random".to_string()]);
    let token = login(&mut state, "alice", "hunter2");
    let action = handle_message(&mut state, command("alice", &token, "channels", vec![]), 1);
    match action {
        ServerAction::ChannelList(names) => {
            assert_eq!(names, vec!["general".to_string(), "random".to_string()]);
        },
        _ => panic!("a channels request is answered"),
    }
}

#[test]
fn a_dead_peer_is_pruned_and_others_still_receive() {
    let mut state = fresh_state();
    let alice_token = login(&mut state, "alice", "pw-a");
    let _bob_token = login(&mut state, "bob", "pw-b");
    let _carol_token = login(&mut state, "carol", "pw-c");
    // Writing to bob failed: the transport layer reports it.
    state.registry.prune(&vec!["bob".to_string()]);
    assert_eq!(
        state.registry.connections,
        vec!["alice".to_string(), "carol".to_string()]
    );
    // The next broadcast no longer includes bob, and still includes the
    // others.
    let action = handle_message(&mut state, text("alice", &alice_token, "hi", "general"), 9);
    match action {
        ServerAction::Broadcast { targets, .. } => {
            assert_eq!(targets, vec!["alice".to_string(), "carol".to_string()]);
        },
        _ => panic!("an accepted text message is broadcast"),
    }
    let listed = broadcast_targets(&state.registry, &"general".to_string());
    assert_eq!(listed, vec!["alice".to_string(), "carol".to_string()]);
}

#[test]
fn ignored_message_kinds_take_no_action() {
    let mut state = fresh_state();
    let token = login(&mut state, "alice", "hunter2");
    let file = Message::File(chathub::messages::FileMessage {
        username: "alice".to_string(),
        auth_token: token.clone(),
        filename: "notes.txt".to_string(),
        data: "aGk=".to_string(),
    });
    assert!(matches!(handle_message(&mut state, file, 1), ServerAction::NoAction));
}

#[test]
fn message_accessors_read_identity_and_token() {
    let m = text("alice", "tok", "hi", "general");
    assert_eq!(m.username(), "alice");
    assert_eq!(m.auth_token(), Some("tok".to_string()));
    let info = Message::Info(chathub::messages::InfoMessage {
        header: "channels".to_string(),
        data: "[]".to_string(),
    });
    assert_eq!(info.username(), "Server");
    assert_eq!(info.auth_token(), None);
    let auth = Message::Auth(AuthMessage {
        username: "alice".to_string(),
        auth_token: None,
        password: Some("pw".to_string()),
    });
    assert_eq!(auth.username(), "alice");
    assert_eq!(auth.auth_token(), None);
}
