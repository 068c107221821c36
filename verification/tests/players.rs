use gg2_custom::input::{key_state, AxisSign, InputButtonBind, KeyState, WinitInputState};
use gg2_custom::players::{ClientPlayers, PlayerError, PlayerEvent};

#[test]
fn players_get_ids_in_order() {
    let mut players: ClientPlayers<&str> = ClientPlayers::new();
    assert!(players.is_empty());
    assert_eq!(players.push("alice"), Ok(0));
    assert_eq!(players.push("bob"), Ok(1));
    assert_eq!(players.len(), 2);
    assert_eq!(players.get(1), Ok(&"bob"));
    assert_eq!(players.get(2), Err(PlayerError::PlayerLookup(2)));
    assert_eq!(players.next_id(), Ok(2));
}

#[test]
fn remove_moves_later_players_up() {
    let mut players = ClientPlayers::new();
    players.push(1u32).unwrap();
    players.push(2).unwrap();
    players.push(3).unwrap();
    assert_eq!(players.remove(0), Ok(1));
    assert_eq!(players.get(0), Ok(&2));
    assert_eq!(players.remove(5), Err(PlayerError::PlayerLookup(5)));
    assert_eq!(players.len(), 2);
}

#[test]
fn replace_hands_back_old_player() {
    let mut players = ClientPlayers::new();
    players.push("old").unwrap();
    assert_eq!(players.replace(0, "new"), Ok("old"));
    assert_eq!(players.get(0), Ok(&"new"));
    assert_eq!(players.replace(3, "x"), Err(PlayerError::PlayerLookup(3)));
}

#[test]
fn too_many_players() {
    let mut players = ClientPlayers::new();
    for i in 0..256u32 {
        assert_eq!(players.push(i), Ok(i as u8));
    }
    assert_eq!(players.len(), 0);
    assert_eq!(players.push(256), Err(PlayerError::TooManyPlayers));
    assert_eq!(players.remove(0), Err(PlayerError::PlayerLookup(0)));
}

#[test]
fn client_player_lookup() {
    let mut players = ClientPlayers::new();
    assert_eq!(players.get_client(), Err(PlayerError::ClientPlayerLookup));
    players.set_client_player(1);
    assert_eq!(players.get_client(), Err(PlayerError::PlayerLookup(1)));
    players.push('a').unwrap();
    players.push('b').unwrap();
    assert_eq!(players.get_client(), Ok(&'b'));
}

#[test]
fn items_go_to_players_with_some() {
    let mut players = ClientPlayers::new();
    players.push(()).unwrap();
    players.push(()).unwrap();
    players.push(()).unwrap();
    let items = vec![Some(1), None, Some(3), Some(4)];
    assert_eq!(players.flat_zip_positions(&items), vec![0, 2]);
}

#[test]
fn bindings_press_with_any_button() {
    let mut state = WinitInputState::new();
    let bind = InputButtonBind(vec![7, 9]);
    assert!(!state.poll_button_bind(&bind));
    state.set_button(9, true);
    assert!(state.poll_button_bind(&bind));
    assert_eq!(state.get_button(9), Some(true));
    assert_eq!(state.get_button(7), None);
    state.set_button(9, false);
    assert!(!state.poll_button_bind(&bind));
    assert_eq!(state.get_button(9), Some(false));
}

#[test]
fn key_state_prefers_axes() {
    let keys = key_state(Some((AxisSign::Negative, AxisSign::Positive)), false, true, false, true, true, false);
    assert_eq!(
        keys,
        KeyState { up: true, down: false, left: true, right: false, primary: true, secondary: false }
    );
    let keys = key_state(Some((AxisSign::Zero, AxisSign::Undefined)), true, true, true, true, false, true);
    assert_eq!(
        keys,
        KeyState { up: false, down: false, left: false, right: false, primary: false, secondary: true }
    );
    let keys = key_state(None, true, false, false, true, false, false);
    assert_eq!(
        keys,
        KeyState { up: true, down: false, left: false, right: true, primary: false, secondary: false }
    );
}

#[test]
fn player_events_join_leave_change() {
    let mut players = ClientPlayers::new();
    assert_eq!(players.apply(PlayerEvent::Join("a")), Ok(None));
    assert_eq!(players.apply(PlayerEvent::Join("b")), Ok(None));
    assert_eq!(players.apply(PlayerEvent::Change(1, "B")), Ok(Some("b")));
    assert_eq!(players.get(1), Ok(&"B"));
    assert_eq!(players.apply(PlayerEvent::Change(4, "x")), Err(PlayerError::PlayerLookup(4)));
    assert_eq!(players.apply(PlayerEvent::Leave(0)), Ok(Some("a")));
    assert_eq!(players.get(0), Ok(&"B"));
    assert_eq!(players.apply(PlayerEvent::Leave(3)), Err(PlayerError::PlayerLookup(3)));
}
