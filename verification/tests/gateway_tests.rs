use voice_core::gateway::{
    sanitize_endpoint, VcConnectionState, VoiceGateway, VoiceServerData, VoiceStateAction,
    VoiceStateData,
};

#[test]
fn state_is_connected() {
    let connected = VcConnectionState::Connected {
        guild_id: 123,
        channel_id: 456,
        connected_at: 0,
    };
    assert!(connected.is_connected());

    let disconnected = VcConnectionState::Disconnected;
    assert!(!disconnected.is_connected());
}

#[test]
fn state_is_active() {
    let connected = VcConnectionState::Connected {
        guild_id: 123,
        channel_id: 456,
        connected_at: 0,
    };
    assert!(connected.is_active());

    let reconnecting = VcConnectionState::Reconnecting {
        guild_id: 123,
        channel_id: 456,
        attempt: 1,
        max_attempts: 5,
        last_attempt_at: 0,
    };
    assert!(reconnecting.is_active());

    let disconnected = VcConnectionState::Disconnected;
    assert!(!disconnected.is_active());
}

#[test]
fn state_guild_id() {
    let connected = VcConnectionState::Connected {
        guild_id: 123,
        channel_id: 456,
        connected_at: 0,
    };
    assert_eq!(connected.guild_id(), Some(123));

    let disconnected = VcConnectionState::Disconnected;
    assert_eq!(disconnected.guild_id(), None);
}

#[test]
fn valid_state_transitions() {
    let mut gw = VoiceGateway::new(123);

    let result = gw.transition(
        1,
        VcConnectionState::Connecting { started_at: 0, guild_id: 1, channel_id: 2 },
    );
    assert!(result.is_ok());

    let result = gw.transition(
        1,
        VcConnectionState::Connected { guild_id: 1, channel_id: 2, connected_at: 1 },
    );
    assert!(result.is_ok());

    let result = gw.transition(1, VcConnectionState::Disconnected);
    assert!(result.is_ok());
}

#[test]
fn invalid_state_transition() {
    let mut gw = VoiceGateway::new(123);

    // Disconnected to Connected skips Connecting and must be rejected.
    let result = gw.transition(
        1,
        VcConnectionState::Connected { guild_id: 1, channel_id: 2, connected_at: 0 },
    );
    assert!(result.is_err());
}

#[test]
fn reconnecting_state_transitions() {
    let mut gw = VoiceGateway::new(123);

    let _ = gw.transition(
        1,
        VcConnectionState::Connecting { started_at: 0, guild_id: 1, channel_id: 2 },
    );
    let _ = gw.transition(
        1,
        VcConnectionState::Connected { guild_id: 1, channel_id: 2, connected_at: 0 },
    );

    let result = gw.transition(
        1,
        VcConnectionState::Reconnecting {
            guild_id: 1,
            channel_id: 2,
            attempt: 1,
            max_attempts: 5,
            last_attempt_at: 0,
        },
    );
    assert!(result.is_ok());

    let result = gw.transition(
        1,
        VcConnectionState::Connected { guild_id: 1, channel_id: 2, connected_at: 1 },
    );
    assert!(result.is_ok());
}

#[test]
fn reconnecting_give_up() {
    let mut gw = VoiceGateway::new(123);

    let _ = gw.transition(
        1,
        VcConnectionState::Connecting { started_at: 0, guild_id: 1, channel_id: 2 },
    );
    let _ = gw.transition(
        1,
        VcConnectionState::Connected { guild_id: 1, channel_id: 2, connected_at: 0 },
    );
    let _ = gw.transition(
        1,
        VcConnectionState::Reconnecting {
            guild_id: 1,
            channel_id: 2,
            attempt: 5,
            max_attempts: 5,
            last_attempt_at: 0,
        },
    );

    // Giving up after the last attempt goes back to disconnected.
    let result = gw.transition(1, VcConnectionState::Disconnected);
    assert!(result.is_ok());
}

#[test]
fn get_state_default_disconnected() {
    let gw = VoiceGateway::new(123);
    let state = gw.get_state(999);
    assert_eq!(state, VcConnectionState::Disconnected);
}

#[test]
fn handle_voice_state_update_ignores_other_users() {
    let mut gw = VoiceGateway::new(100);
    let data = VoiceStateData {
        guild_id: 1,
        channel_id: Some(2),
        user_id: 999,
        session_id: "sess".to_string(),
    };
    assert_eq!(gw.handle_voice_state_update(data), VoiceStateAction::Ignored);
    assert!(gw.try_take_connection(1).is_none());
}

#[test]
fn handle_voice_state_update_stores_for_bot() {
    let mut gw = VoiceGateway::new(100);
    let data = VoiceStateData {
        guild_id: 1,
        channel_id: Some(2),
        user_id: 100,
        session_id: "sess".to_string(),
    };
    assert_eq!(gw.handle_voice_state_update(data), VoiceStateAction::Stored);
}

#[test]
fn handle_voice_state_update_disconnect() {
    let mut gw = VoiceGateway::new(100);
    let _ = gw.transition(
        1,
        VcConnectionState::Connecting { started_at: 0, guild_id: 1, channel_id: 2 },
    );

    let data = VoiceStateData {
        guild_id: 1,
        channel_id: None,
        user_id: 100,
        session_id: "sess".to_string(),
    };
    assert_eq!(
        gw.handle_voice_state_update(data),
        VoiceStateAction::Removed { had_call: false }
    );
    assert_eq!(gw.get_state(1), VcConnectionState::Disconnected);
}

#[test]
fn handle_voice_server_update_without_state() {
    let mut gw = VoiceGateway::new(100);
    let data = VoiceServerData {
        guild_id: 1,
        token: "tok".to_string(),
        endpoint: "wss://example.com".to_string(),
    };
    // Stored, but the session half has not arrived: no connect yet.
    assert!(!gw.handle_voice_server_update(data));
    assert_eq!(gw.get_state(1), VcConnectionState::Disconnected);
}

#[test]
fn handle_voice_server_update_first_then_state() {
    let mut gw = VoiceGateway::new(100);

    let server = VoiceServerData {
        guild_id: 1,
        token: "tok".to_string(),
        endpoint: "wss://example.com".to_string(),
    };
    assert!(!gw.handle_voice_server_update(server));
    assert_eq!(gw.get_state(1), VcConnectionState::Disconnected);

    let _ = gw.transition(
        1,
        VcConnectionState::Connecting { started_at: 0, guild_id: 1, channel_id: 2 },
    );

    let state = VoiceStateData {
        guild_id: 1,
        channel_id: Some(2),
        user_id: 100,
        session_id: "sess".to_string(),
    };
    assert_eq!(gw.handle_voice_state_update(state), VoiceStateAction::ReadyToConnect);

    // Both halves are consumed by taking the connection parameters.
    let params = gw.try_take_connection(1).unwrap();
    assert_eq!(params.guild_id, 1);
    assert_eq!(params.channel_id, 2);
    assert_eq!(params.user_id, 100);
    assert_eq!(params.session_id, "sess");
    assert_eq!(params.token, "tok");
    assert_eq!(params.endpoint, "example.com");
    assert!(gw.try_take_connection(1).is_none());
}

#[test]
fn join_emits_channel_join_command() {
    let mut gw = VoiceGateway::new(100);
    let cmd = gw.join(12, 34, 0).unwrap();
    assert_eq!(
        cmd,
        "{\"op\":4,\"d\":{\"guild_id\":\"12\",\"channel_id\":\"34\",\"self_mute\":false,\"self_deaf\":false}}"
    );
    // A second join while connecting is rejected.
    assert!(gw.join(12, 34, 1).is_err());
}

#[test]
fn leave_then_join_behaves_like_fresh_join() {
    let mut gw = VoiceGateway::new(100);
    let _ = gw.join(1, 2, 0).unwrap();
    let server = VoiceServerData {
        guild_id: 1,
        token: "tok".to_string(),
        endpoint: "host:443".to_string(),
    };
    gw.handle_voice_server_update(server);
    let state = VoiceStateData {
        guild_id: 1,
        channel_id: Some(2),
        user_id: 100,
        session_id: "sess".to_string(),
    };
    gw.handle_voice_state_update(state);
    let _ = gw.try_take_connection(1).unwrap();
    let _ = gw.connect_succeeded(1, 2, 5);

    // Leave clears the call and both pending halves.
    let had_call = gw.leave(1).unwrap();
    assert!(had_call);
    assert_eq!(gw.get_state(1), VcConnectionState::Disconnected);

    // A fresh join then runs exactly as on a new gateway: nothing lingers.
    let mut fresh = VoiceGateway::new(100);
    assert_eq!(gw.join(1, 2, 9).is_ok(), fresh.join(1, 2, 9).is_ok());
    assert!(gw.try_take_connection(1).is_none());
}

#[test]
fn reconnect_path_follows_transitions() {
    let mut gw = VoiceGateway::new(100);
    let _ = gw.transition(
        7,
        VcConnectionState::Connecting { started_at: 0, guild_id: 7, channel_id: 8 },
    );
    let _ = gw.transition(
        7,
        VcConnectionState::Connected { guild_id: 7, channel_id: 8, connected_at: 0 },
    );

    // Transport loss: connected to reconnecting with the first attempt.
    assert!(gw
        .transition(
            7,
            VcConnectionState::Reconnecting {
                guild_id: 7,
                channel_id: 8,
                attempt: 1,
                max_attempts: 3,
                last_attempt_at: 1,
            },
        )
        .is_ok());

    // Recovery succeeds.
    assert!(gw
        .transition(
            7,
            VcConnectionState::Connected { guild_id: 7, channel_id: 8, connected_at: 2 },
        )
        .is_ok());
}

#[test]
fn sanitize_endpoint_strips_scheme_and_slash() {
    assert_eq!(sanitize_endpoint("wss://host:443/"), "host:443");
    assert_eq!(sanitize_endpoint("  wss://host:443  "), "host:443");
    assert_eq!(sanitize_endpoint("host:443"), "host:443");
    assert_eq!(sanitize_endpoint("host:443///"), "host:443");
}
