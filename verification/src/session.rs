//! The client's side of joining and playing on a server, as decisions from
//! the current state and what just happened to the next state and what to
//! do; and the other per-tick decisions of the game loop.
//!
//! The loop that performs the actions (connecting, sending, reading
//! messages) lives outside the library. A step's next state takes effect
//! once its action has been carried out without error.
use vstd::prelude::*;
use vstd::string::*;

use crate::number::{append_decimal, decimal_text};
use crate::resource::char_index;
use crate::resource::find_char;

verus! {

/// Where the client stands in joining a server.
#[derive(Clone, Copy, Debug, PartialEq, Eq, Structural)]
pub enum NetworkingState {
    Disconnected,
    AttemptingConnection,
    AwaitingHello,
    ReserveSlot,
    PlayerJoining,
    InGame,
}

/// What the connection reported.
#[derive(Clone, Copy, Debug, PartialEq, Eq, Structural)]
pub enum ClientNetworkEvent {
    /// A connection to the server was made.
    Connected,
    /// The connection was lost or closed.
    Disconnected,
    /// Sending or receiving failed.
    Error,
}

/// The kind of a message from the server.
#[derive(Clone, Copy, Debug, PartialEq, Eq, Structural)]
pub enum ServerMessageKind {
    Hello,
    IncompatibleProtocol,
    PasswordRequest,
    PasswordWrong,
    ServerFull,
    ReserveSlot,
    JoinUpdate,
    ChangeMap,
    CaptureUpdate,
    ChatBubble,
    DropIntel,
    GrabIntel,
    FullUpdate,
    InputState,
    MessageString,
    Omnom,
    PlayerChangeClass,
    PlayerChangeName,
    PlayerChangeTeam,
    PlayerDeath,
    PlayerJoin,
    PlayerLeave,
    PlayerSpawn,
    QuickUpdate,
    ReturnIntel,
    ScoreIntel,
    WeaponFire,
    /// Any other message.
    Other,
}

/// What a message received in game asks of the game.
#[derive(Clone, Copy, Debug, PartialEq, Eq, Structural)]
pub enum InGameAction {
    /// Only worth a line in the log.
    Log,
    /// Show the server's text message.
    ShowServerMessage,
    /// Apply the inputs of the players.
    ApplyInputs,
    ChangeClass,
    ChangeName,
    ChangeTeam,
    /// Add the joining player.
    AddPlayer,
    /// Remove the leaving player.
    RemovePlayer,
    /// Apply the players' positions, velocities and inputs.
    ApplyQuickUpdate,
}

/// What the client does next.
#[derive(Clone, Copy, Debug, PartialEq, Eq, Structural)]
pub enum ClientAction {
    Nothing,
    /// Send the client's hello.
    SendHello,
    /// Drop the connection to the server.
    Disconnect,
    /// Give up this tick with the error that the connection reported.
    Fail,
    /// Connect to the requested server.
    Connect,
    /// Read the next message from the server, if one has arrived.
    ReadMessage,
    /// Ask the server for a player slot under the configured name.
    SendReserveSlot,
    /// Answer the server's password request.
    SendPassword,
    /// Ask to join the game in the reserved slot.
    SendPlayerJoin,
    /// Record the client's own player, as the join update names it.
    SetClientPlayer,
    /// Hand the message to the game.
    Game(InGameAction),
}

/// The action to take, and the state once it is done.
#[derive(Clone, Copy, Debug, PartialEq, Eq, Structural)]
pub struct Step {
    pub action: ClientAction,
    pub next: NetworkingState,
}

/// A message came that the client does not expect in its state.
#[derive(Clone, Copy, Debug, PartialEq, Eq, Structural)]
pub enum ProtocolError {
    IncorrectMessage(ServerMessageKind),
}

/// The state after dropping the connection: a client that had one is back
/// to `Disconnected`; dropping no connection changes nothing.
pub open spec fn spec_after_disconnect(state: NetworkingState, connected: bool) -> NetworkingState {
    if connected {
        NetworkingState::Disconnected
    } else {
        state
    }
}

/// The step on an event of the connection.
pub open spec fn spec_network_event_step(
    state: NetworkingState,
    event: ClientNetworkEvent,
    connected: bool,
) -> Step {
    match event {
        ClientNetworkEvent::Connected => Step {
            action: ClientAction::SendHello,
            next: NetworkingState::AwaitingHello,
        },
        ClientNetworkEvent::Disconnected => Step {
            action: ClientAction::Disconnect,
            next: spec_after_disconnect(state, connected),
        },
        ClientNetworkEvent::Error => Step { action: ClientAction::Fail, next: state },
    }
}

/// The step of a tick, before any message is read.
pub open spec fn spec_tick_step(state: NetworkingState, join_requested: bool) -> Step {
    match state {
        NetworkingState::Disconnected => if join_requested {
            Step { action: ClientAction::Connect, next: NetworkingState::AttemptingConnection }
        } else {
            Step { action: ClientAction::Nothing, next: state }
        },
        NetworkingState::AttemptingConnection => Step { action: ClientAction::Nothing, next: state },
        _ => Step { action: ClientAction::ReadMessage, next: state },
    }
}

/// The states in which the client reads messages from the server.
pub open spec fn reads_messages(state: NetworkingState) -> bool {
    !(state is Disconnected) && !(state is AttemptingConnection)
}

/// What a message received in game asks of the game; `None` for a message
/// that has no place in game.
pub open spec fn spec_in_game_action(message: ServerMessageKind) -> Option<InGameAction> {
    match message {
        ServerMessageKind::CaptureUpdate | ServerMessageKind::ChatBubble
        | ServerMessageKind::DropIntel | ServerMessageKind::GrabIntel
        | ServerMessageKind::FullUpdate | ServerMessageKind::Omnom
        | ServerMessageKind::PlayerDeath | ServerMessageKind::PlayerSpawn
        | ServerMessageKind::ReturnIntel | ServerMessageKind::ScoreIntel
        | ServerMessageKind::WeaponFire => Some(InGameAction::Log),
        ServerMessageKind::InputState => Some(InGameAction::ApplyInputs),
        ServerMessageKind::MessageString => Some(InGameAction::ShowServerMessage),
        ServerMessageKind::PlayerChangeClass => Some(InGameAction::ChangeClass),
        ServerMessageKind::PlayerChangeName => Some(InGameAction::ChangeName),
        ServerMessageKind::PlayerChangeTeam => Some(InGameAction::ChangeTeam),
        ServerMessageKind::PlayerJoin => Some(InGameAction::AddPlayer),
        ServerMessageKind::PlayerLeave => Some(InGameAction::RemovePlayer),
        ServerMessageKind::QuickUpdate => Some(InGameAction::ApplyQuickUpdate),
        _ => None,
    }
}

/// The step on a message from the server; `None` for a message the client
/// does not expect in its state.
pub open spec fn spec_message_step(
    state: NetworkingState,
    message: ServerMessageKind,
    connected: bool,
) -> Option<Step> {
    let disconnect = Step {
        action: ClientAction::Disconnect,
        next: spec_after_disconnect(state, connected),
    };
    match state {
        NetworkingState::AwaitingHello => match message {
            ServerMessageKind::Hello => Some(
                Step { action: ClientAction::SendReserveSlot, next: NetworkingState::ReserveSlot },
            ),
            ServerMessageKind::IncompatibleProtocol => Some(disconnect),
            ServerMessageKind::PasswordRequest => Some(
                Step { action: ClientAction::SendPassword, next: state },
            ),
            ServerMessageKind::PasswordWrong => Some(disconnect),
            _ => None,
        },
        NetworkingState::ReserveSlot => match message {
            ServerMessageKind::ServerFull => Some(disconnect),
            ServerMessageKind::ReserveSlot => Some(
                Step { action: ClientAction::SendPlayerJoin, next: NetworkingState::PlayerJoining },
            ),
            _ => None,
        },
        NetworkingState::PlayerJoining => match message {
            ServerMessageKind::JoinUpdate => Some(
                Step { action: ClientAction::SetClientPlayer, next: NetworkingState::InGame },
            ),
            _ => None,
        },
        _ => match spec_in_game_action(message) {
            Some(a) => Some(Step { action: ClientAction::Game(a), next: state }),
            None => None,
        },
    }
}

/// The step on an event of the connection: a new connection is greeted
/// with the client's hello, a lost one dropped, an error reported.
/// `connected` tells whether the client holds a connection.
pub fn network_event_step(state: NetworkingState, event: ClientNetworkEvent, connected: bool) -> (r: Step)
    ensures
        r == spec_network_event_step(state, event, connected),
{
    match event {
        ClientNetworkEvent::Connected => Step {
            action: ClientAction::SendHello,
            next: NetworkingState::AwaitingHello,
        },
        ClientNetworkEvent::Disconnected => Step {
            action: ClientAction::Disconnect,
            next: if connected {
                NetworkingState::Disconnected
            } else {
                state
            },
        },
        ClientNetworkEvent::Error => Step { action: ClientAction::Fail, next: state },
    }
}

/// The step of a tick: a disconnected client asked to join a server
/// connects; one waiting for its connection waits; any other reads the
/// next message.
pub fn tick_step(state: NetworkingState, join_requested: bool) -> (r: Step)
    ensures
        r == spec_tick_step(state, join_requested),
{
    match state {
        NetworkingState::Disconnected => {
            if join_requested {
                Step { action: ClientAction::Connect, next: NetworkingState::AttemptingConnection }
            } else {
                Step { action: ClientAction::Nothing, next: state }
            }
        },
        NetworkingState::AttemptingConnection => Step { action: ClientAction::Nothing, next: state },
        _ => Step { action: ClientAction::ReadMessage, next: state },
    }
}

/// What a message received in game asks of the game.
pub fn in_game_action(message: ServerMessageKind) -> (r: Result<InGameAction, ProtocolError>)
    ensures
        match r {
            Ok(a) => spec_in_game_action(message) == Some(a),
            Err(e) => spec_in_game_action(message) is None && e == ProtocolError::IncorrectMessage(
                message,
            ),
        },
{
    match message {
        ServerMessageKind::CaptureUpdate | ServerMessageKind::ChatBubble
        | ServerMessageKind::DropIntel | ServerMessageKind::GrabIntel
        | ServerMessageKind::FullUpdate | ServerMessageKind::Omnom
        | ServerMessageKind::PlayerDeath | ServerMessageKind::PlayerSpawn
        | ServerMessageKind::ReturnIntel | ServerMessageKind::ScoreIntel
        | ServerMessageKind::WeaponFire => Ok(InGameAction::Log),
        ServerMessageKind::InputState => Ok(InGameAction::ApplyInputs),
        ServerMessageKind::MessageString => Ok(InGameAction::ShowServerMessage),
        ServerMessageKind::PlayerChangeClass => Ok(InGameAction::ChangeClass),
        ServerMessageKind::PlayerChangeName => Ok(InGameAction::ChangeName),
        ServerMessageKind::PlayerChangeTeam => Ok(InGameAction::ChangeTeam),
        ServerMessageKind::PlayerJoin => Ok(InGameAction::AddPlayer),
        ServerMessageKind::PlayerLeave => Ok(InGameAction::RemovePlayer),
        ServerMessageKind::QuickUpdate => Ok(InGameAction::ApplyQuickUpdate),
        _ => Err(ProtocolError::IncorrectMessage(message)),
    }
}

/// The step on a message from the server: the handshake moves on by one
/// stage at each expected answer; a refusal drops the connection; in game
/// the message goes to the game. A message the client does not expect in
/// its state is an error, and changes nothing.
pub fn message_step(state: NetworkingState, message: ServerMessageKind, connected: bool) -> (r:
    Result<Step, ProtocolError>)
    requires
        reads_messages(state),
    ensures
        match r {
            Ok(s) => spec_message_step(state, message, connected) == Some(s),
            Err(e) => spec_message_step(state, message, connected) is None && e
                == ProtocolError::IncorrectMessage(message),
        },
{
    let disconnect = Step {
        action: ClientAction::Disconnect,
        next: if connected {
            NetworkingState::Disconnected
        } else {
            state
        },
    };
    match state {
        NetworkingState::AwaitingHello => match message {
            ServerMessageKind::Hello => Ok(
                Step { action: ClientAction::SendReserveSlot, next: NetworkingState::ReserveSlot },
            ),
            ServerMessageKind::IncompatibleProtocol => Ok(disconnect),
            ServerMessageKind::PasswordRequest => Ok(
                Step { action: ClientAction::SendPassword, next: state },
            ),
            ServerMessageKind::PasswordWrong => Ok(disconnect),
            _ => Err(ProtocolError::IncorrectMessage(message)),
        },
        NetworkingState::ReserveSlot => match message {
            ServerMessageKind::ServerFull => Ok(disconnect),
            ServerMessageKind::ReserveSlot => Ok(
                Step { action: ClientAction::SendPlayerJoin, next: NetworkingState::PlayerJoining },
            ),
            _ => Err(ProtocolError::IncorrectMessage(message)),
        },
        NetworkingState::PlayerJoining => match message {
            ServerMessageKind::JoinUpdate => Ok(
                Step { action: ClientAction::SetClientPlayer, next: NetworkingState::InGame },
            ),
            _ => Err(ProtocolError::IncorrectMessage(message)),
        },
        _ => match in_game_action(message) {
            Ok(a) => Ok(Step { action: ClientAction::Game(a), next: state }),
            Err(e) => Err(e),
        },
    }
}

/// The debug menu's button, pressed now and on the previous tick: whether
/// to toggle the debug menu (on a fresh press only), and what to remember
/// as the previous press.
pub fn debug_menu_step(pressed: bool, pressed_last_frame: bool) -> (r: (bool, bool))
    ensures
        r.0 == (pressed && !pressed_last_frame),
        r.1 == pressed,
{
    if pressed {
        (!pressed_last_frame, true)
    } else {
        (false, false)
    }
}

/// The address to connect to for `url`: `url` itself when it names a port
/// (holds a `:`), else `url` with `default_port`.
pub fn server_address(url: &str, default_port: u16) -> (r: String)
    ensures
        char_index(url@, ':') < url@.len() ==> r@ == url@,
        char_index(url@, ':') == url@.len() ==> r@ == url@ + seq![':'] + decimal_text(
            default_port as nat,
        ),
{
    match find_char(url, ':') {
        Some(_) => String::from_str(url),
        None => {
            let mut s = String::from_str(url);
            s.append(":");
            proof {
                reveal_strlit(":");
            }
            append_decimal(&mut s, default_port as u64);
            s
        },
    }
}

/// The server to join: the one asked for, else the configured default.
pub fn join_url<'a>(requested: Option<&'a str>, default: &'a str) -> (r: &'a str)
    ensures
        r@ == match requested {
            Some(u) => u@,
            None => default@,
        },
{
    match requested {
        Some(u) => u,
        None => default,
    }
}

/// The options of joining a server from the command line.
pub struct CommonCliJoinServer {
    /// The server to connect to; the configured default when absent.
    pub server_url: Option<String>,
}

/// What the client was asked to do on the command line.
pub enum ClientCliSubcommand {
    JoinServer(CommonCliJoinServer),
}

/// The client's command line.
pub struct ClientCliArguments {
    pub command: Option<ClientCliSubcommand>,
}

impl ClientCliArguments {
    /// The server the user asked to join: `None` without a join command,
    /// else the address given with it, if any.
    pub fn join_request(&self) -> (r: Option<Option<&str>>)
        ensures
            match self.command {
                None => r is None,
                Some(ClientCliSubcommand::JoinServer(join)) => match (r, join.server_url) {
                    (Some(Some(u)), Some(s)) => u@ == s@,
                    (Some(None), None) => true,
                    _ => false,
                },
            },
    {
        match &self.command {
            Some(ClientCliSubcommand::JoinServer(join)) => match &join.server_url {
                Some(url) => Some(Some(url.as_str())),
                None => Some(None),
            },
            None => None,
        }
    }
}

/// The stage of the handshake that a state stands for.
pub open spec fn stage(state: NetworkingState) -> int {
    match state {
        NetworkingState::Disconnected => 0,
        NetworkingState::AttemptingConnection => 1,
        NetworkingState::AwaitingHello => 2,
        NetworkingState::ReserveSlot => 3,
        NetworkingState::PlayerJoining => 4,
        NetworkingState::InGame => 5,
    }
}

/// A message moves the handshake on by at most one stage, and only ever
/// back to `Disconnected`, by dropping the connection.
pub proof fn law_message_step_advances_by_one(
    state: NetworkingState,
    message: ServerMessageKind,
    connected: bool,
)
    requires
        reads_messages(state),
        spec_message_step(state, message, connected) is Some,
    ensures
        ({
            let s = spec_message_step(state, message, connected).unwrap();
            ||| s.next == state
            ||| stage(s.next) == stage(state) + 1
            ||| (s.action == ClientAction::Disconnect && s.next == NetworkingState::Disconnected)
        }),
{
}

/// A client in game leaves the game only by dropping its connection, or
/// when a new connection starts the handshake anew.
pub proof fn law_in_game_left_only_by_disconnect(
    message: ServerMessageKind,
    event: ClientNetworkEvent,
    join_requested: bool,
    connected: bool,
)
    ensures
        spec_message_step(NetworkingState::InGame, message, connected) matches Some(s) ==> s.next
            == NetworkingState::InGame,
        spec_tick_step(NetworkingState::InGame, join_requested).next == NetworkingState::InGame,
        spec_network_event_step(NetworkingState::InGame, event, connected).next
            != NetworkingState::InGame ==> spec_network_event_step(
            NetworkingState::InGame,
            event,
            connected,
        ).action == ClientAction::Disconnect || event == ClientNetworkEvent::Connected,
{
}

/// The state after one tick of the connection, chaining the steps as the
/// client's loop does: the connection's pending event, if any; then the
/// tick's step; then, when that step reads a message, the message that
/// arrived, if any. `None` when the tick fails: on an error event or an
/// unexpected message. `connected` tells whether the client holds a
/// connection.
pub open spec fn spec_tick(
    state: NetworkingState,
    event: Option<ClientNetworkEvent>,
    connected: bool,
    join_requested: bool,
    message: Option<ServerMessageKind>,
) -> Option<NetworkingState> {
    let first = match event {
        None => Some(state),
        Some(ClientNetworkEvent::Error) => None,
        Some(e) => Some(spec_network_event_step(state, e, connected).next),
    };
    match first {
        None => None,
        Some(s) => {
            let t = spec_tick_step(s, join_requested);
            if t.action == ClientAction::ReadMessage {
                match message {
                    None => Some(s),
                    Some(m) => match spec_message_step(s, m, connected) {
                        Some(step) => Some(step.next),
                        None => None,
                    },
                }
            } else {
                Some(t.next)
            }
        },
    }
}

/// A whole tick moves the handshake back only by dropping the connection
/// (to `Disconnected`, or straight on to a new attempt when a join is
/// requested), moves it on only on a trigger (a join request while
/// disconnected, a new connection, or a message), and a client in game
/// stays in game unless its connection drops. A new connection is only
/// reported while the client waits for one.
pub proof fn law_tick_moves_forward(
    state: NetworkingState,
    event: Option<ClientNetworkEvent>,
    connected: bool,
    join_requested: bool,
    message: Option<ServerMessageKind>,
)
    requires
        event == Some(ClientNetworkEvent::Connected) ==> state
            == NetworkingState::AttemptingConnection,
    ensures
        spec_tick(state, event, connected, join_requested, message) matches Some(next) ==> {
            &&& stage(next) >= stage(state) || next == NetworkingState::Disconnected || (next
                == NetworkingState::AttemptingConnection && join_requested && event == Some(
                ClientNetworkEvent::Disconnected,
            ))
            &&& stage(next) > stage(state) ==> (join_requested && state
                == NetworkingState::Disconnected) || event == Some(ClientNetworkEvent::Connected)
                || message is Some
            &&& state == NetworkingState::InGame ==> next == NetworkingState::InGame || event
                == Some(ClientNetworkEvent::Disconnected)
        },
{
}

/// Each message a client in game may receive asks the game for the action
/// of the same name: a class change changes the class, a name change the
/// name, a team change the team; a join adds a player, a leave removes one;
/// the players' inputs are applied, a quick update applied, a server text
/// shown; the other game events are only logged. The handshake's messages
/// have no place in game.
pub proof fn law_in_game_action_per_kind()
    ensures
        spec_in_game_action(ServerMessageKind::PlayerChangeClass) == Some(InGameAction::ChangeClass),
        spec_in_game_action(ServerMessageKind::PlayerChangeName) == Some(InGameAction::ChangeName),
        spec_in_game_action(ServerMessageKind::PlayerChangeTeam) == Some(InGameAction::ChangeTeam),
        spec_in_game_action(ServerMessageKind::PlayerJoin) == Some(InGameAction::AddPlayer),
        spec_in_game_action(ServerMessageKind::PlayerLeave) == Some(InGameAction::RemovePlayer),
        spec_in_game_action(ServerMessageKind::InputState) == Some(InGameAction::ApplyInputs),
        spec_in_game_action(ServerMessageKind::QuickUpdate) == Some(
            InGameAction::ApplyQuickUpdate,
        ),
        spec_in_game_action(ServerMessageKind::MessageString) == Some(
            InGameAction::ShowServerMessage,
        ),
        spec_in_game_action(ServerMessageKind::CaptureUpdate) == Some(InGameAction::Log),
        spec_in_game_action(ServerMessageKind::ChatBubble) == Some(InGameAction::Log),
        spec_in_game_action(ServerMessageKind::DropIntel) == Some(InGameAction::Log),
        spec_in_game_action(ServerMessageKind::GrabIntel) == Some(InGameAction::Log),
        spec_in_game_action(ServerMessageKind::FullUpdate) == Some(InGameAction::Log),
        spec_in_game_action(ServerMessageKind::Omnom) == Some(InGameAction::Log),
        spec_in_game_action(ServerMessageKind::PlayerDeath) == Some(InGameAction::Log),
        spec_in_game_action(ServerMessageKind::PlayerSpawn) == Some(InGameAction::Log),
        spec_in_game_action(ServerMessageKind::ReturnIntel) == Some(InGameAction::Log),
        spec_in_game_action(ServerMessageKind::ScoreIntel) == Some(InGameAction::Log),
        spec_in_game_action(ServerMessageKind::WeaponFire) == Some(InGameAction::Log),
        spec_in_game_action(ServerMessageKind::Hello) is None,
        spec_in_game_action(ServerMessageKind::IncompatibleProtocol) is None,
        spec_in_game_action(ServerMessageKind::PasswordRequest) is None,
        spec_in_game_action(ServerMessageKind::PasswordWrong) is None,
        spec_in_game_action(ServerMessageKind::ServerFull) is None,
        spec_in_game_action(ServerMessageKind::ReserveSlot) is None,
        spec_in_game_action(ServerMessageKind::JoinUpdate) is None,
        spec_in_game_action(ServerMessageKind::ChangeMap) is None,
        spec_in_game_action(ServerMessageKind::Other) is None,
        forall|m: ServerMessageKind, a: InGameAction|
            spec_in_game_action(m) == Some(a) && a != InGameAction::Log ==> forall|n: ServerMessageKind|
                spec_in_game_action(n) == Some(a) ==> n == m,
{
}

/// In game, a message goes to the game unchanged in kind: a client in game
/// stays in game, and the step's action is the game action that the
/// message asks for; a name change is applied as a name change, a class
/// change as a class change.
pub proof fn law_in_game_message_goes_to_game(message: ServerMessageKind, connected: bool)
    ensures
        match spec_message_step(NetworkingState::InGame, message, connected) {
            Some(s) => s.next == NetworkingState::InGame && spec_in_game_action(message) == Some(
                s.action->Game_0,
            ) && s.action is Game,
            None => spec_in_game_action(message) is None,
        },
        spec_message_step(NetworkingState::InGame, ServerMessageKind::PlayerChangeName, connected)
            == Some(
            Step {
                action: ClientAction::Game(InGameAction::ChangeName),
                next: NetworkingState::InGame,
            },
        ),
        spec_message_step(NetworkingState::InGame, ServerMessageKind::PlayerChangeClass, connected)
            == Some(
            Step {
                action: ClientAction::Game(InGameAction::ChangeClass),
                next: NetworkingState::InGame,
            },
        ),
{
}

/// Every tick, a client that holds or awaits a session with a server (any
/// state but `Disconnected` and `AttemptingConnection`) reads the next
/// message, staying where it is until the message is handled; a client
/// waiting for its connection does nothing; a disconnected one connects
/// exactly when a join is requested.
pub proof fn law_tick_reads_messages(state: NetworkingState, join_requested: bool)
    ensures
        reads_messages(state) ==> spec_tick_step(state, join_requested).action
            == ClientAction::ReadMessage,
        reads_messages(state) ==> spec_tick_step(state, join_requested).next == state,
        (spec_tick_step(state, join_requested).action == ClientAction::ReadMessage)
            == reads_messages(state),
        state == NetworkingState::AttemptingConnection ==> spec_tick_step(
            state,
            join_requested,
        ).action == ClientAction::Nothing,
        state == NetworkingState::AttemptingConnection ==> spec_tick_step(
            state,
            join_requested,
        ).next == state,
        state == NetworkingState::Disconnected && join_requested ==> spec_tick_step(
            state,
            join_requested,
        ).action == ClientAction::Connect,
        state == NetworkingState::Disconnected && join_requested ==> spec_tick_step(
            state,
            join_requested,
        ).next == NetworkingState::AttemptingConnection,
        state == NetworkingState::Disconnected && !join_requested ==> spec_tick_step(
            state,
            join_requested,
        ).action == ClientAction::Nothing,
        state == NetworkingState::Disconnected && !join_requested ==> spec_tick_step(
            state,
            join_requested,
        ).next == state,
        reads_messages(NetworkingState::InGame),
        reads_messages(NetworkingState::AwaitingHello),
        reads_messages(NetworkingState::ReserveSlot),
        reads_messages(NetworkingState::PlayerJoining),
{
}

/// The handshake, answer by answer: a hello is answered by asking for a
/// player slot, a password request by the password (staying put), a
/// reserved slot by joining, and the join update brings the client into the
/// game as the player it names; an incompatible protocol, a wrong password
/// or a full server drop the connection, which leaves a connected client
/// disconnected. Any other message in a handshake
/// state is unexpected.
pub proof fn law_handshake_steps(
    state: NetworkingState,
    message: ServerMessageKind,
    connected: bool,
)
    ensures
        spec_message_step(NetworkingState::AwaitingHello, ServerMessageKind::Hello, connected)
            == Some(
            Step { action: ClientAction::SendReserveSlot, next: NetworkingState::ReserveSlot },
        ),
        spec_message_step(
            NetworkingState::AwaitingHello,
            ServerMessageKind::PasswordRequest,
            connected,
        ) == Some(
            Step { action: ClientAction::SendPassword, next: NetworkingState::AwaitingHello },
        ),
        spec_message_step(NetworkingState::ReserveSlot, ServerMessageKind::ReserveSlot, connected)
            == Some(
            Step { action: ClientAction::SendPlayerJoin, next: NetworkingState::PlayerJoining },
        ),
        spec_message_step(NetworkingState::PlayerJoining, ServerMessageKind::JoinUpdate, connected)
            == Some(Step { action: ClientAction::SetClientPlayer, next: NetworkingState::InGame }),
        ({
            let refusal = message == ServerMessageKind::IncompatibleProtocol || message
                == ServerMessageKind::PasswordWrong;
            refusal ==> spec_message_step(NetworkingState::AwaitingHello, message, connected)
                == Some(
                Step {
                    action: ClientAction::Disconnect,
                    next: spec_after_disconnect(NetworkingState::AwaitingHello, connected),
                },
            )
        }),
        spec_message_step(NetworkingState::ReserveSlot, ServerMessageKind::ServerFull, connected)
            == Some(
            Step {
                action: ClientAction::Disconnect,
                next: spec_after_disconnect(NetworkingState::ReserveSlot, connected),
            },
        ),
        spec_after_disconnect(state, connected) == (if connected {
            NetworkingState::Disconnected
        } else {
            state
        }),
        !(message == ServerMessageKind::Hello || message == ServerMessageKind::PasswordRequest
            || message == ServerMessageKind::IncompatibleProtocol || message
            == ServerMessageKind::PasswordWrong) ==> spec_message_step(
            NetworkingState::AwaitingHello,
            message,
            connected,
        ) is None,
        !(message == ServerMessageKind::ReserveSlot || message == ServerMessageKind::ServerFull)
            ==> spec_message_step(NetworkingState::ReserveSlot, message, connected) is None,
        message != ServerMessageKind::JoinUpdate ==> spec_message_step(
            NetworkingState::PlayerJoining,
            message,
            connected,
        ) is None,
{
}

/// On a new connection the client sends its hello and awaits the server's;
/// on a lost connection it drops it, ending up disconnected when it held
/// one; on an error it fails the tick and stays where it is.
pub proof fn law_network_event_steps(state: NetworkingState, connected: bool)
    ensures
        spec_network_event_step(state, ClientNetworkEvent::Connected, connected) == (Step {
            action: ClientAction::SendHello,
            next: NetworkingState::AwaitingHello,
        }),
        spec_network_event_step(state, ClientNetworkEvent::Error, connected) == (Step {
            action: ClientAction::Fail,
            next: state,
        }),
        spec_network_event_step(state, ClientNetworkEvent::Disconnected, connected).action
            == ClientAction::Disconnect,
        connected ==> spec_network_event_step(
            state,
            ClientNetworkEvent::Disconnected,
            connected,
        ).next == NetworkingState::Disconnected,
        !connected ==> spec_network_event_step(
            state,
            ClientNetworkEvent::Disconnected,
            connected,
        ).next == state,
{
}

} // verus!
