use gg2_custom::queue::VecDequeIter;
use gg2_custom::session::{
    debug_menu_step, in_game_action, join_url, message_step, network_event_step, server_address,
    tick_step, ClientAction, ClientCliArguments, ClientCliSubcommand, ClientNetworkEvent,
    CommonCliJoinServer, InGameAction, NetworkingState, ProtocolError, ServerMessageKind, Step,
};

#[test]
fn vec_deque_iter() {
    let mut x = VecDequeIter::from_slice(&[0, 1, 2, 3, 4]);

    assert_eq!(x.next(), Some(0));
    assert_eq!(x.next(), Some(1));

    x.extend(&[100, 200]);

    assert_eq!(x.next(), Some(2));
    assert_eq!(x.next(), Some(3));
    assert_eq!(x.next(), Some(4));
    assert_eq!(x.next(), Some(100));
    assert_eq!(x.next(), Some(200));
    assert_eq!(x.next(), None);
}

#[test]
fn queue_drains_in_order() {
    let mut q: VecDequeIter<u8> = VecDequeIter::new();
    assert!(q.is_empty());
    q.extend(b"abc");
    assert_eq!(q.len(), 3);
    assert_eq!(q.next(), Some(b'a'));
    assert_eq!(q.drain_all(), vec![b'b', b'c']);
    assert!(q.is_empty());
    assert_eq!(q.next(), None);
}

fn step(action: ClientAction, next: NetworkingState) -> Step {
    Step { action, next }
}

#[test]
fn handshake_reaches_game() {
    let mut state = NetworkingState::Disconnected;
    let s = tick_step(state, true);
    assert_eq!(s, step(ClientAction::Connect, NetworkingState::AttemptingConnection));
    state = s.next;
    assert_eq!(tick_step(state, true), step(ClientAction::Nothing, state));
    let s = network_event_step(state, ClientNetworkEvent::Connected, true);
    assert_eq!(s, step(ClientAction::SendHello, NetworkingState::AwaitingHello));
    state = s.next;
    assert_eq!(tick_step(state, true), step(ClientAction::ReadMessage, state));
    let s = message_step(state, ServerMessageKind::PasswordRequest, true).unwrap();
    assert_eq!(s, step(ClientAction::SendPassword, NetworkingState::AwaitingHello));
    let s = message_step(state, ServerMessageKind::Hello, true).unwrap();
    assert_eq!(s, step(ClientAction::SendReserveSlot, NetworkingState::ReserveSlot));
    state = s.next;
    let s = message_step(state, ServerMessageKind::ReserveSlot, true).unwrap();
    assert_eq!(s, step(ClientAction::SendPlayerJoin, NetworkingState::PlayerJoining));
    state = s.next;
    let s = message_step(state, ServerMessageKind::JoinUpdate, true).unwrap();
    assert_eq!(s, step(ClientAction::SetClientPlayer, NetworkingState::InGame));
    state = s.next;
    let s = message_step(state, ServerMessageKind::PlayerJoin, true).unwrap();
    assert_eq!(s, step(ClientAction::Game(InGameAction::AddPlayer), NetworkingState::InGame));
}

#[test]
fn idle_without_join_request() {
    assert_eq!(
        tick_step(NetworkingState::Disconnected, false),
        step(ClientAction::Nothing, NetworkingState::Disconnected)
    );
}

#[test]
fn refusals_drop_the_connection() {
    assert_eq!(
        message_step(NetworkingState::AwaitingHello, ServerMessageKind::IncompatibleProtocol, true),
        Ok(step(ClientAction::Disconnect, NetworkingState::Disconnected))
    );
    assert_eq!(
        message_step(NetworkingState::AwaitingHello, ServerMessageKind::PasswordWrong, true),
        Ok(step(ClientAction::Disconnect, NetworkingState::Disconnected))
    );
    assert_eq!(
        message_step(NetworkingState::ReserveSlot, ServerMessageKind::ServerFull, true),
        Ok(step(ClientAction::Disconnect, NetworkingState::Disconnected))
    );
    assert_eq!(
        message_step(NetworkingState::ReserveSlot, ServerMessageKind::ServerFull, false),
        Ok(step(ClientAction::Disconnect, NetworkingState::ReserveSlot))
    );
}

#[test]
fn unexpected_messages_are_errors() {
    assert_eq!(
        message_step(NetworkingState::AwaitingHello, ServerMessageKind::JoinUpdate, true),
        Err(ProtocolError::IncorrectMessage(ServerMessageKind::JoinUpdate))
    );
    assert_eq!(
        message_step(NetworkingState::ReserveSlot, ServerMessageKind::Hello, true),
        Err(ProtocolError::IncorrectMessage(ServerMessageKind::Hello))
    );
    assert_eq!(
        message_step(NetworkingState::PlayerJoining, ServerMessageKind::ReserveSlot, true),
        Err(ProtocolError::IncorrectMessage(ServerMessageKind::ReserveSlot))
    );
    assert_eq!(
        message_step(NetworkingState::InGame, ServerMessageKind::ChangeMap, true),
        Err(ProtocolError::IncorrectMessage(ServerMessageKind::ChangeMap))
    );
}

#[test]
fn connection_events() {
    assert_eq!(
        network_event_step(NetworkingState::InGame, ClientNetworkEvent::Disconnected, true),
        step(ClientAction::Disconnect, NetworkingState::Disconnected)
    );
    assert_eq!(
        network_event_step(NetworkingState::InGame, ClientNetworkEvent::Disconnected, false),
        step(ClientAction::Disconnect, NetworkingState::InGame)
    );
    assert_eq!(
        network_event_step(NetworkingState::ReserveSlot, ClientNetworkEvent::Error, true),
        step(ClientAction::Fail, NetworkingState::ReserveSlot)
    );
}

#[test]
fn in_game_messages() {
    assert_eq!(in_game_action(ServerMessageKind::WeaponFire), Ok(InGameAction::Log));
    assert_eq!(in_game_action(ServerMessageKind::InputState), Ok(InGameAction::ApplyInputs));
    assert_eq!(in_game_action(ServerMessageKind::MessageString), Ok(InGameAction::ShowServerMessage));
    assert_eq!(in_game_action(ServerMessageKind::PlayerChangeTeam), Ok(InGameAction::ChangeTeam));
    assert_eq!(in_game_action(ServerMessageKind::PlayerLeave), Ok(InGameAction::RemovePlayer));
    assert_eq!(in_game_action(ServerMessageKind::QuickUpdate), Ok(InGameAction::ApplyQuickUpdate));
    assert_eq!(
        in_game_action(ServerMessageKind::Hello),
        Err(ProtocolError::IncorrectMessage(ServerMessageKind::Hello))
    );
}

#[test]
fn server_addresses() {
    assert_eq!(server_address("example.org", 8190), "example.org:8190");
    assert_eq!(server_address("example.org:1234", 8190), "example.org:1234");
    assert_eq!(server_address("host", 0), "host:0");
    assert_eq!(server_address("host", 65535), "host:65535");
    assert_eq!(join_url(Some("a:1"), "b:2"), "a:1");
    assert_eq!(join_url(None, "b:2"), "b:2");
}

#[test]
fn debug_menu_toggles_on_fresh_press() {
    assert_eq!(debug_menu_step(true, false), (true, true));
    assert_eq!(debug_menu_step(true, true), (false, true));
    assert_eq!(debug_menu_step(false, true), (false, false));
    assert_eq!(debug_menu_step(false, false), (false, false));
}

#[test]
fn join_request_from_command_line() {
    let none = ClientCliArguments { command: None };
    assert_eq!(none.join_request(), None);
    let default = ClientCliArguments {
        command: Some(ClientCliSubcommand::JoinServer(CommonCliJoinServer { server_url: None })),
    };
    assert_eq!(default.join_request(), Some(None));
    let given = ClientCliArguments {
        command: Some(ClientCliSubcommand::JoinServer(CommonCliJoinServer {
            server_url: Some("example.org:8190".to_string()),
        })),
    };
    assert_eq!(given.join_request(), Some(Some("example.org:8190")));
}
