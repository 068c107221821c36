//! The players of a game, each known by its position in the list, and the
//! client's own player among them.
use vstd::prelude::*;

verus! {

/// Why a request about players failed.
#[derive(Clone, Copy, Debug, PartialEq, Eq, Structural)]
pub enum PlayerError {
    /// No player has this id.
    PlayerLookup(u8),
    /// The next player would have an id past the largest one.
    TooManyPlayers,
    /// The client's own player is not known yet.
    ClientPlayerLookup,
}

/// The players of a game; a player's id is its position.
#[derive(Debug)]
pub struct ClientPlayers<P> {
    players: Vec<P>,
    client_player: Option<u8>,
}

impl<P> View for ClientPlayers<P> {
    type V = Seq<P>;

    closed spec fn view(&self) -> Seq<P> {
        self.players@
    }
}

impl<P> ClientPlayers<P> {
    /// The id of the client's own player, once known.
    pub closed spec fn client_id(&self) -> Option<u8> {
        self.client_player
    }

    /// No players, and the client's own player not known yet.
    pub fn new() -> (r: ClientPlayers<P>)
        ensures
            r@ == Seq::<P>::empty(),
            r.client_id() is None,
    {
        ClientPlayers { players: Vec::new(), client_player: None }
    }

    /// The players, in order of their ids.
    pub fn into_vec(self) -> (r: Vec<P>)
        ensures
            r@ == self@,
    {
        self.players
    }

    /// Records `id` as the client's own player.
    pub fn set_client_player(&mut self, id: u8)
        ensures
            final(self)@ == old(self)@,
            final(self).client_id() == Some(id),
    {
        self.client_player = Some(id);
    }

    /// The number of players, kept in a byte: it wraps past 255.
    pub fn len(&self) -> (r: u8)
        ensures
            r == self@.len() % 256,
    {
        let n = self.players.len();
        let r = n as u8;
        assert(r == n % 256) by (bit_vector)
            requires
                r == n as u8,
        ;
        r
    }

    /// Whether there are no players.
    pub fn is_empty(&self) -> (r: bool)
        ensures
            r == (self@.len() == 0),
    {
        self.players.len() == 0
    }

    /// The player with id `id`.
    pub fn get(&self, id: u8) -> (r: Result<&P, PlayerError>)
        ensures
            match r {
                Ok(p) => id < self@.len() && *p == self@[id as int],
                Err(e) => id >= self@.len() && e == PlayerError::PlayerLookup(id),
            },
    {
        let i = id as usize;
        if i < self.players.len() {
            Ok(&self.players[i])
        } else {
            Err(PlayerError::PlayerLookup(id))
        }
    }

    /// Puts `player` in the place of the player with id `id`, and hands
    /// back the one it replaces.
    pub fn replace(&mut self, id: u8, player: P) -> (r: Result<P, PlayerError>)
        ensures
            final(self).client_id() == old(self).client_id(),
            match r {
                Ok(p) => id < old(self)@.len() && p == old(self)@[id as int] && final(self)@ == old(self)@.update(id as int, player),
                Err(e) => id >= old(self)@.len() && e == PlayerError::PlayerLookup(id) && final(self)@ == old(self)@,
            },
    {
        let i = id as usize;
        if i < self.players.len() {
            let old_player = self.players.remove(i);
            self.players.insert(i, player);
            assert(self.players@ =~= old(self).players@.update(i as int, player));
            Ok(old_player)
        } else {
            Err(PlayerError::PlayerLookup(id))
        }
    }

    /// The id the next player to join will get.
    pub fn next_id(&self) -> (r: Result<u8, PlayerError>)
        ensures
            match r {
                Ok(id) => id == self@.len(),
                Err(e) => self@.len() > u8::MAX && e == PlayerError::TooManyPlayers,
            },
    {
        let n = self.players.len();
        if n <= 255 {
            Ok(n as u8)
        } else {
            Err(PlayerError::TooManyPlayers)
        }
    }

    /// Adds `player` at the end; its id is the number of players before.
    pub fn push(&mut self, player: P) -> (r: Result<u8, PlayerError>)
        ensures
            final(self).client_id() == old(self).client_id(),
            match r {
                Ok(id) => id == old(self)@.len() && final(self)@ == old(self)@.push(player),
                Err(e) => old(self)@.len() > u8::MAX && e == PlayerError::TooManyPlayers && final(self)@ == old(self)@,
            },
    {
        let id = self.next_id()?;
        self.players.push(player);
        Ok(id)
    }

    /// Removes the player with id `id`; the players after it move up by
    /// one. Ids are checked against the byte-sized count of players.
    pub fn remove(&mut self, id: u8) -> (r: Result<P, PlayerError>)
        ensures
            final(self).client_id() == old(self).client_id(),
            match r {
                Ok(p) => id < old(self)@.len() % 256 && p == old(self)@[id as int] && final(self)@
                    == old(self)@.remove(id as int),
                Err(e) => id >= old(self)@.len() % 256 && e == PlayerError::PlayerLookup(id)
                    && final(self)@ == old(self)@,
            },
    {
        if id < self.len() {
            Ok(self.players.remove(id as usize))
        } else {
            Err(PlayerError::PlayerLookup(id))
        }
    }

    /// The client's own player.
    pub fn get_client(&self) -> (r: Result<&P, PlayerError>)
        ensures
            match r {
                Ok(p) => self.client_id() matches Some(id) && id < self@.len() && *p
                    == self@[id as int],
                Err(e) => match self.client_id() {
                    None => e == PlayerError::ClientPlayerLookup,
                    Some(id) => id >= self@.len() && e == PlayerError::PlayerLookup(id),
                },
            },
    {
        match self.client_player {
            Some(id) => self.get(id),
            None => Err(PlayerError::ClientPlayerLookup),
        }
    }

    /// The players that the items of a list go to: the player at each
    /// position that has an item, as far as both the players and the list
    /// reach.
    pub fn flat_zip_positions<T>(&self, items: &Vec<Option<T>>) -> (r: Vec<usize>)
        ensures
            forall|a: int, b: int| 0 <= a < b < r@.len() ==> r@[a] < r@[b],
            forall|k: int|
                0 <= k < r@.len() ==> #[trigger] r@[k] < self@.len() && r@[k] < items@.len()
                    && items@[r@[k] as int] is Some,
            forall|p: int|
                0 <= p < self@.len() && 0 <= p < items@.len() && #[trigger] items@[p] is Some
                    ==> r@.contains(p as usize),
    {
        let n = if self.players.len() < items.len() {
            self.players.len()
        } else {
            items.len()
        };
        let mut r: Vec<usize> = Vec::new();
        let mut i: usize = 0;
        while i < n
            invariant
                n <= self@.len(),
                n <= items@.len(),
                n == self@.len() || n == items@.len(),
                i <= n,
                forall|a: int, b: int| 0 <= a < b < r@.len() ==> r@[a] < r@[b],
                forall|k: int|
                    0 <= k < r@.len() ==> #[trigger] r@[k] < i && items@[r@[k] as int] is Some,
                forall|p: int|
                    0 <= p < i && #[trigger] items@[p] is Some ==> r@.contains(p as usize),
            decreases n - i,
        {
            if items[i].is_some() {
                let ghost before = r@;
                r.push(i);
                proof {
                    assert forall|p: int| 0 <= p < i + 1 && #[trigger] items@[p] is Some implies r@.contains(
                        p as usize,
                    ) by {
                        if p < i {
                            let w = choose|w: int| 0 <= w < before.len() && before[w] == p as usize;
                            assert(r@[w] == p as usize);
                        } else {
                            assert(r@[before.len() as int] == i);
                        }
                    }
                }
            }
            i = i + 1;
        }
        r
    }
}

/// What an in-game message does to the players.
pub enum PlayerEvent<P> {
    /// A player joins, at the end of the list.
    Join(P),
    /// The player with this id leaves.
    Leave(u8),
    /// The player with this id becomes the given one (a new class, name
    /// or team).
    Change(u8, P),
}

impl<P> ClientPlayers<P> {
    /// Applies `event` to the players: a join adds the player (giving its
    /// id), a leave removes the player, a change replaces it; each fails as
    /// `push`, `remove` and `replace` do.
    pub fn apply(&mut self, event: PlayerEvent<P>) -> (r: Result<Option<P>, PlayerError>)
        ensures
            final(self).client_id() == old(self).client_id(),
            match event {
                PlayerEvent::Join(p) => match r {
                    Ok(None) => old(self)@.len() <= u8::MAX && final(self)@ == old(self)@.push(p),
                    Ok(Some(_)) => false,
                    Err(e) => old(self)@.len() > u8::MAX && e == PlayerError::TooManyPlayers
                        && final(self)@ == old(self)@,
                },
                PlayerEvent::Leave(id) => match r {
                    Ok(Some(p)) => id < old(self)@.len() % 256 && p == old(self)@[id as int]
                        && final(self)@ == old(self)@.remove(id as int),
                    Ok(None) => false,
                    Err(e) => id >= old(self)@.len() % 256 && e == PlayerError::PlayerLookup(id)
                        && final(self)@ == old(self)@,
                },
                PlayerEvent::Change(id, p) => match r {
                    Ok(Some(q)) => id < old(self)@.len() && q == old(self)@[id as int]
                        && final(self)@ == old(self)@.update(id as int, p),
                    Ok(None) => false,
                    Err(e) => id >= old(self)@.len() && e == PlayerError::PlayerLookup(id)
                        && final(self)@ == old(self)@,
                },
            },
    {
        match event {
            PlayerEvent::Join(p) => match self.push(p) {
                Ok(_) => Ok(None),
                Err(e) => Err(e),
            },
            PlayerEvent::Leave(id) => match self.remove(id) {
                Ok(p) => Ok(Some(p)),
                Err(e) => Err(e),
            },
            PlayerEvent::Change(id, p) => match self.replace(id, p) {
                Ok(q) => Ok(Some(q)),
                Err(e) => Err(e),
            },
        }
    }
}

} // verus!
