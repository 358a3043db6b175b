//! The decisions of the process that holds the canonical game: what to apply
//! and what to send when a participant connects, disconnects or proposes an
//! event. The transport runs around these functions and carries out the
//! returned messages in order.
use vstd::prelude::*;
use crate::game::{
    applicable, has_player, step, valid, winner, EndGameReason, GameEvent, GameModel, GameState,
    PlayerId, Stage,
};

verus! {

/// A message for the transport to deliver.
#[derive(Clone, Debug)]
pub enum Outgoing {
    /// To one participant only.
    SendTo { client_id: PlayerId, event: GameEvent },
    /// To every connected participant.
    Broadcast { event: GameEvent },
}

/// The join event that tells a newcomer about roster entry `i`.
pub open spec fn roster_message(m: GameModel, client_id: PlayerId, i: int) -> Outgoing {
    Outgoing::SendTo {
        client_id,
        event: GameEvent::PlayerJoined { player_id: m.players[i].0, name: m.players[i].1.name },
    }
}

/// One message per roster entry, in roster order, addressed to `client_id`.
pub open spec fn roster_messages(m: GameModel, client_id: PlayerId) -> Seq<Outgoing> {
    Seq::new(m.players.len(), |i: int| roster_message(m, client_id, i))
}

/// Handles a new connection: the newcomer learns the current roster, its own
/// join is applied and broadcast, and when it makes two players the game
/// begins with the newcomer to move.
pub fn on_client_connected(state: &mut GameState, client_id: PlayerId, name: String) -> (out: Vec<
    Outgoing,
>)
    requires
        old(state).wf(),
    ensures
        final(state).wf(),
        ({
            let m0 = old(state).model();
            let join = GameEvent::PlayerJoined { player_id: client_id, name };
            let m1 = step(m0, join);
            let begin = GameEvent::BeginGame { goes_first: client_id };
            let intro = roster_messages(m0, client_id);
            if has_player(m0.players, client_id) {
                &&& out@ == intro
                &&& *final(state) == *old(state)
            } else if m1.players.len() == 2 && m1.stage == Stage::PreGame {
                &&& out@ == intro.push(Outgoing::Broadcast { event: join }).push(
                    Outgoing::Broadcast { event: begin },
                )
                &&& final(state).model() == step(m1, begin)
                &&& final(state).history@ == old(state).history@.push(join).push(begin)
            } else {
                &&& out@ == intro.push(Outgoing::Broadcast { event: join })
                &&& final(state).model() == m1
                &&& final(state).history@ == old(state).history@.push(join)
            }
        }),
{
    let ghost m0 = state.model();
    let mut out: Vec<Outgoing> = Vec::new();
    let mut i: usize = 0;
    while i < state.players.len()
        invariant
            i <= state.players@.len(),
            state.model() == m0,
            out@.len() == i,
            forall|k: int| 0 <= k < i ==> (#[trigger] out@[k]) == roster_message(m0, client_id, k),
        decreases state.players.len() - i,
    {
        let entry = &state.players[i];
        out.push(
            Outgoing::SendTo {
                client_id,
                event: GameEvent::PlayerJoined { player_id: entry.0, name: entry.1.name.clone() },
            },
        );
        i = i + 1;
    }
    assert(out@ =~= roster_messages(m0, client_id));
    let join = GameEvent::PlayerJoined { player_id: client_id, name };
    if state.dispatch(&join).is_err() {
        return out;
    }
    out.push(Outgoing::Broadcast { event: join });
    if state.players.len() == 2 {
        let begin = GameEvent::BeginGame { goes_first: client_id };
        proof {
            reveal(step);
            let m1 = state.model();
            assert(m1.players.last().0 == client_id);
            assert(has_player(m1.players, client_id));
        }
        if state.dispatch(&begin).is_ok() {
            out.push(Outgoing::Broadcast { event: begin });
        }
    }
    out
}

/// Handles a lost connection: the departure is applied and broadcast when the
/// participant was in the roster, and the game then ends, in every case, with
/// that participant named as the one who left.
pub fn on_client_disconnected(state: &mut GameState, client_id: PlayerId) -> (out: Vec<Outgoing>)
    requires
        old(state).wf(),
    ensures
        final(state).wf(),
        ({
            let m0 = old(state).model();
            let leave = GameEvent::PlayerDisconnected { player_id: client_id };
            let end = GameEvent::EndGame { reason: EndGameReason::PlayerLeft { player_id: client_id } };
            if has_player(m0.players, client_id) {
                &&& out@ == seq![Outgoing::Broadcast { event: leave }, Outgoing::Broadcast { event: end }]
                &&& final(state).model() == step(step(m0, leave), end)
                &&& final(state).history@ == old(state).history@.push(leave).push(end)
            } else {
                &&& out@ == seq![Outgoing::Broadcast { event: end }]
                &&& final(state).model() == step(m0, end)
                &&& final(state).history@ == old(state).history@.push(end)
            }
        }),
{
    let mut out: Vec<Outgoing> = Vec::new();
    let leave = GameEvent::PlayerDisconnected { player_id: client_id };
    if state.dispatch(&leave).is_ok() {
        out.push(Outgoing::Broadcast { event: leave });
    }
    let end = GameEvent::EndGame { reason: EndGameReason::PlayerLeft { player_id: client_id } };
    let _ = state.dispatch(&end);
    out.push(Outgoing::Broadcast { event: end });
    proof {
        assert(out@ =~= seq![Outgoing::Broadcast { event: leave }, Outgoing::Broadcast { event: end }]
            || out@ =~= seq![Outgoing::Broadcast { event: end }]);
    }
    out
}

/// Handles an event proposed by a participant. An event that the rules reject,
/// or that could not be applied, is dropped and nothing is sent. An accepted
/// one is applied and broadcast; after a placement that completes a line of a
/// player's mark, the game is ended with that player as the winner.
pub fn on_proposed_event(state: &mut GameState, event: GameEvent) -> (out: Vec<Outgoing>)
    requires
        old(state).wf(),
    ensures
        final(state).wf(),
        ({
            let m0 = old(state).model();
            let m1 = step(m0, event);
            if !(valid(m0, event) && applicable(m0, event)) {
                &&& out@ == Seq::<Outgoing>::empty()
                &&& *final(state) == *old(state)
            } else if event is PlaceTile && winner(m1) is Some && m1.stage == Stage::InGame {
                let end = GameEvent::EndGame {
                    reason: EndGameReason::PlayerWon { winner: winner(m1).unwrap() },
                };
                &&& out@ == seq![Outgoing::Broadcast { event }, Outgoing::Broadcast { event: end }]
                &&& final(state).model() == step(m1, end)
                &&& final(state).history@ == old(state).history@.push(event).push(end)
            } else {
                &&& out@ == seq![Outgoing::Broadcast { event }]
                &&& final(state).model() == m1
                &&& final(state).history@ == old(state).history@.push(event)
            }
        }),
{
    let mut out: Vec<Outgoing> = Vec::new();
    if !state.validate(&event) || !state.can_apply(&event) {
        return out;
    }
    state.consume(&event);
    let placed = match &event {
        GameEvent::PlaceTile { .. } => true,
        _ => false,
    };
    out.push(Outgoing::Broadcast { event });
    if placed {
        if let Some(w) = state.determine_winner() {
            let end = GameEvent::EndGame { reason: EndGameReason::PlayerWon { winner: w } };
            if state.dispatch(&end).is_ok() {
                out.push(Outgoing::Broadcast { event: end });
            }
        }
    }
    proof {
        assert(out@ =~= seq![out@[0]] || out@ =~= seq![out@[0], out@[1]]);
    }
    out
}

} // verus!
