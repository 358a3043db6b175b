//! The smallest form of the event-sourced state: a roster of names that grows
//! by `PlayerJoined` events, with the events kept in order.
use vstd::prelude::*;

verus! {

/// Identifies a participant.
pub type PlayerId = u64;

/// The one kind of event of this state: someone joined.
#[derive(Clone, Debug)]
pub enum GameEvent {
    PlayerJoined { player_id: PlayerId, name: String },
}

/// Whether some entry of the roster has id `id`.
pub open spec fn listed(players: Seq<(PlayerId, String)>, id: PlayerId) -> bool {
    exists|i: int| 0 <= i < players.len() && (#[trigger] players[i]).0 == id
}

/// The roster after recording `name` for `id`: the entry of `id` is replaced
/// where it exists, and a new entry is appended otherwise.
pub open spec fn joined(players: Seq<(PlayerId, String)>, id: PlayerId, name: String) -> Seq<
    (PlayerId, String),
> {
    if listed(players, id) {
        players.update(
            choose|i: int| 0 <= i < players.len() && (#[trigger] players[i]).0 == id,
            (id, name),
        )
    } else {
        players.push((id, name))
    }
}

/// Names by id, and every event taken in so far.
pub struct GameState {
    /// The roster in order of joining; ids are unique.
    pub players: Vec<(PlayerId, String)>,
    pub history: Vec<GameEvent>,
}

impl GameState {
    /// No two roster entries share an id.
    pub open spec fn wf(&self) -> bool {
        forall|i: int, j: int|
            0 <= i < self.players@.len() && 0 <= j < self.players@.len() && (#[trigger] self.players@[i]).0
                == (#[trigger] self.players@[j]).0 ==> i == j
    }

    /// Records the event's effect on the roster and appends it to the history.
    pub fn reduce(&mut self, valid_event: &GameEvent)
        requires
            old(self).wf(),
        ensures
            final(self).wf(),
            match *valid_event {
                GameEvent::PlayerJoined { player_id, name } => final(self).players@ == joined(
                    old(self).players@,
                    player_id,
                    name,
                ),
            },
            final(self).history@ == old(self).history@.push(*valid_event),
    {
        let ghost pre = self.players@;
        match valid_event {
            GameEvent::PlayerJoined { player_id, name } => {
                match position_of(&self.players, *player_id) {
                    Some(i) => {
                        self.players.set(i, (*player_id, name.clone()));
                        proof {
                            let ps = self.players@;
                            assert forall|a: int, b: int|
                                0 <= a < ps.len() && 0 <= b < ps.len() && (#[trigger] ps[a]).0 == (
                                #[trigger] ps[b]).0 implies a == b by {
                                assert(ps[a].0 == pre[a].0);
                                assert(ps[b].0 == pre[b].0);
                            }
                        }
                    },
                    None => {
                        self.players.push((*player_id, name.clone()));
                        proof {
                            let ps = self.players@;
                            assert forall|a: int, b: int|
                                0 <= a < ps.len() && 0 <= b < ps.len() && (#[trigger] ps[a]).0 == (
                                #[trigger] ps[b]).0 implies a == b by {
                                if a < pre.len() {
                                    assert(ps[a] == pre[a]);
                                }
                                if b < pre.len() {
                                    assert(ps[b] == pre[b]);
                                }
                            }
                        }
                    },
                }
            },
        }
        let copy = match valid_event {
            GameEvent::PlayerJoined { player_id, name } => GameEvent::PlayerJoined {
                player_id: *player_id,
                name: name.clone(),
            },
        };
        self.history.push(copy);
    }

    /// An event is accepted unless its player id is already in the roster.
    pub fn validate(&self, event: &GameEvent) -> (r: bool)
        requires
            self.wf(),
        ensures
            r == match *event {
                GameEvent::PlayerJoined { player_id, .. } => !listed(self.players@, player_id),
            },
    {
        match event {
            GameEvent::PlayerJoined { player_id, .. } => {
                if position_of(&self.players, *player_id).is_some() {
                    return false;
                }
            },
        }
        true
    }

    /// Validates `event` and reduces it when it is accepted; a rejected event
    /// leaves the state unchanged.
    pub fn dispatch(&mut self, event: &GameEvent) -> (r: Result<(), ()>)
        requires
            old(self).wf(),
        ensures
            final(self).wf(),
            r is Ok <==> match *event {
                GameEvent::PlayerJoined { player_id, .. } => !listed(old(self).players@, player_id),
            },
            r is Ok ==> match *event {
                GameEvent::PlayerJoined { player_id, name } => final(self).players@
                    == old(self).players@.push((player_id, name)),
            },
            r is Ok ==> final(self).history@ == old(self).history@.push(*event),
            r is Err ==> *final(self) == *old(self),
    {
        if !self.validate(event) {
            return Err(());
        }
        self.reduce(event);
        Ok(())
    }
}

impl Default for GameState {
    /// An empty roster with no history.
    fn default() -> (r: GameState)
        ensures
            r.wf(),
            r.players@ == Seq::<(PlayerId, String)>::empty(),
            r.history@ == Seq::<GameEvent>::empty(),
    {
        GameState { players: Vec::new(), history: Vec::new() }
    }
}

/// The position of `id` in a roster with unique ids, if it is there.
fn position_of(players: &Vec<(PlayerId, String)>, id: PlayerId) -> (r: Option<usize>)
    ensures
        r is Some <==> listed(players@, id),
        r is Some ==> r.unwrap() < players@.len() && players@[r.unwrap() as int].0 == id,
{
    let mut i: usize = 0;
    while i < players.len()
        invariant
            i <= players@.len(),
            forall|k: int| 0 <= k < i ==> (#[trigger] players@[k]).0 != id,
        decreases players.len() - i,
    {
        if players[i].0 == id {
            return Some(i);
        }
        i = i + 1;
    }
    None
}

} // verus!
