use vstd::prelude::*;

verus! {

/// Identifies a participant.
pub type PlayerId = u64;

/// What a cell of the board holds.
#[derive(Clone, Copy, Debug, PartialEq, Eq, Structural)]
pub enum Tile {
    Empty,
    Tic,
    Tac,
}

/// A participant: the name shown to others and the mark it places.
#[derive(Clone, Debug)]
pub struct Player {
    pub name: String,
    pub piece: Tile,
}

/// Where the game is in its lifecycle.
#[derive(Clone, Copy, Debug, PartialEq, Eq, Structural)]
pub enum Stage {
    PreGame,
    InGame,
    Ended,
}

/// Why a game ended.
#[derive(Clone, Copy, Debug, PartialEq, Eq, Structural)]
pub enum EndGameReason {
    PlayerLeft { player_id: PlayerId },
    PlayerWon { winner: PlayerId },
}

/// An event that moves the game forward.
#[derive(Clone, Debug)]
pub enum GameEvent {
    BeginGame { goes_first: PlayerId },
    EndGame { reason: EndGameReason },
    PlayerJoined { player_id: PlayerId, name: String },
    PlayerDisconnected { player_id: PlayerId },
    PlaceTile { player_id: PlayerId, at: usize },
}

/// The mathematical content of a `GameState`, without its history.
#[verifier::ext_equal]
pub struct GameModel {
    pub stage: Stage,
    pub board: Seq<Tile>,
    pub active_player_id: PlayerId,
    pub players: Seq<(PlayerId, Player)>,
}

/// Whether some roster entry has id `id`.
pub open spec fn has_player(players: Seq<(PlayerId, Player)>, id: PlayerId) -> bool {
    exists|i: int| 0 <= i < players.len() && (#[trigger] players[i]).0 == id
}

/// No two roster entries share an id.
pub open spec fn unique_ids(players: Seq<(PlayerId, Player)>) -> bool {
    forall|i: int, j: int|
        0 <= i < players.len() && 0 <= j < players.len() && (#[trigger] players[i]).0 == (
        #[trigger] players[j]).0 ==> i == j
}

/// The position of `id` in the roster (meaningful when it is present).
pub open spec fn index_of(players: Seq<(PlayerId, Player)>, id: PlayerId) -> int {
    choose|i: int| 0 <= i < players.len() && (#[trigger] players[i]).0 == id
}

/// The first position in the roster whose id is not `id`, or -1.
pub open spec fn first_other(players: Seq<(PlayerId, Player)>, id: PlayerId) -> int {
    if exists|i: int|
        0 <= i < players.len() && (#[trigger] players[i]).0 != id && forall|k: int|
            0 <= k < i ==> (#[trigger] players[k]).0 == id {
        choose|i: int|
            0 <= i < players.len() && (#[trigger] players[i]).0 != id && forall|k: int|
                0 <= k < i ==> (#[trigger] players[k]).0 == id
    } else {
        -1
    }
}

/// The mark handed to a player who joins a roster of this size.
pub open spec fn piece_for_newcomer(n: nat) -> Tile {
    if n > 0 {
        Tile::Tac
    } else {
        Tile::Tic
    }
}

/// Nine empty cells.
pub open spec fn empty_board() -> Seq<Tile> {
    Seq::new(9, |i: int| Tile::Empty)
}

/// The state every game starts in.
pub open spec fn initial_model() -> GameModel {
    GameModel {
        stage: Stage::PreGame,
        board: empty_board(),
        active_player_id: 0,
        players: Seq::empty(),
    }
}

/// The effect of one event on the state.
#[verifier::opaque]
pub open spec fn step(m: GameModel, e: GameEvent) -> GameModel {
    match e {
        GameEvent::BeginGame { goes_first } => GameModel {
            active_player_id: goes_first,
            stage: Stage::InGame,
            ..m
        },
        GameEvent::EndGame { .. } => GameModel { stage: Stage::Ended, ..m },
        GameEvent::PlayerJoined { player_id, name } => GameModel {
            players: m.players.push(
                (player_id, Player { name, piece: piece_for_newcomer(m.players.len()) }),
            ),
            ..m
        },
        GameEvent::PlayerDisconnected { player_id } => if has_player(m.players, player_id) {
            GameModel { players: m.players.remove(index_of(m.players, player_id)), ..m }
        } else {
            m
        },
        GameEvent::PlaceTile { player_id, at } => {
            let other = first_other(m.players, player_id);
            GameModel {
                board: m.board.update(
                    at as int,
                    m.players[index_of(m.players, player_id)].1.piece,
                ),
                active_player_id: if other >= 0 {
                    m.players[other].0
                } else {
                    m.active_player_id
                },
                ..m
            }
        },
    }
}

/// The state reached by applying `events` in order to the initial state.
pub open spec fn replay(events: Seq<GameEvent>) -> GameModel
    decreases events.len(),
{
    if events.len() == 0 {
        initial_model()
    } else {
        step(replay(events.drop_last()), events.last())
    }
}

/// The three cells of winning line `k`: rows, then columns, then diagonals.
pub open spec fn line_cells(k: int) -> (int, int, int) {
    if k == 0 {
        (0, 1, 2)
    } else if k == 1 {
        (3, 4, 5)
    } else if k == 2 {
        (6, 7, 8)
    } else if k == 3 {
        (0, 3, 6)
    } else if k == 4 {
        (1, 4, 7)
    } else if k == 5 {
        (2, 5, 8)
    } else if k == 6 {
        (0, 4, 8)
    } else {
        (2, 4, 6)
    }
}

/// The mark that fills line `k` on its own, or `Empty` when the line is mixed.
pub open spec fn line_mark(board: Seq<Tile>, k: int) -> Tile {
    let (a, b, c) = line_cells(k);
    if board[a] == board[b] && board[b] == board[c] {
        board[a]
    } else {
        Tile::Empty
    }
}

/// The id of the first player from position `j` on whose mark is `t`.
pub open spec fn holder_from(players: Seq<(PlayerId, Player)>, t: Tile, j: int) -> Option<PlayerId>
    decreases players.len() - j,
{
    if j < 0 || j >= players.len() {
        None
    } else if players[j].1.piece == t {
        Some(players[j].0)
    } else {
        holder_from(players, t, j + 1)
    }
}

/// The id of the first player in the roster whose mark is `t`.
pub open spec fn holder(players: Seq<(PlayerId, Player)>, t: Tile) -> Option<PlayerId> {
    holder_from(players, t, 0)
}

/// The winner found by looking at lines `k`, `k + 1`, ... in order: the holder
/// of the first line filled with one mark that some player holds.
pub open spec fn winner_from(m: GameModel, k: int) -> Option<PlayerId>
    decreases 8 - k,
{
    if k < 0 || k >= 8 {
        None
    } else if line_mark(m.board, k) != Tile::Empty && holder(
        m.players,
        line_mark(m.board, k),
    ) is Some {
        holder(m.players, line_mark(m.board, k))
    } else {
        winner_from(m, k + 1)
    }
}

/// The player who has won on board and roster `m`, if any.
pub open spec fn winner(m: GameModel) -> Option<PlayerId> {
    winner_from(m, 0)
}

/// Whether each event of `events` can be applied, in order, from the initial state.
pub open spec fn replayable(events: Seq<GameEvent>) -> bool
    decreases events.len(),
{
    if events.len() == 0 {
        true
    } else {
        replayable(events.drop_last()) && applicable(replay(events.drop_last()), events.last())
    }
}

/// Whether the rules of the game accept `e` in state `m`.
pub open spec fn valid(m: GameModel, e: GameEvent) -> bool {
    match e {
        GameEvent::BeginGame { goes_first } => has_player(m.players, goes_first) && m.stage
            == Stage::PreGame,
        GameEvent::EndGame { reason } => match reason {
            EndGameReason::PlayerWon { .. } => m.stage == Stage::InGame,
            EndGameReason::PlayerLeft { .. } => true,
        },
        GameEvent::PlayerJoined { player_id, .. } => !has_player(m.players, player_id),
        GameEvent::PlayerDisconnected { player_id } => has_player(m.players, player_id),
        GameEvent::PlaceTile { player_id, at } => {
            &&& has_player(m.players, player_id)
            &&& m.active_player_id == player_id
            &&& at <= 8
            &&& m.board[at as int] == Tile::Empty
        },
    }
}

/// Whether `e` can be applied to `m` at all: a joining id is new, and a placed
/// mark has a cell, a present owner and another player to hand the turn to.
pub open spec fn applicable(m: GameModel, e: GameEvent) -> bool {
    match e {
        GameEvent::PlayerJoined { player_id, .. } => !has_player(m.players, player_id),
        GameEvent::PlaceTile { player_id, at } => {
            &&& at < 9
            &&& has_player(m.players, player_id)
            &&& first_other(m.players, player_id) >= 0
        },
        _ => true,
    }
}

/// An authoritative (or replicated) game.
pub struct GameState {
    pub stage: Stage,
    pub board: [Tile; 9],
    pub active_player_id: PlayerId,
    /// The roster in order of joining; ids are unique.
    pub players: Vec<(PlayerId, Player)>,
    pub history: Vec<GameEvent>,
}

impl GameState {
    /// The state's content, leaving out the history.
    pub open spec fn model(&self) -> GameModel {
        GameModel {
            stage: self.stage,
            board: self.board@,
            active_player_id: self.active_player_id,
            players: self.players@,
        }
    }

    /// The roster's ids are unique and the state is exactly what its history
    /// produces from the initial state.
    pub open spec fn wf(&self) -> bool {
        &&& unique_ids(self.players@)
        &&& replayable(self.history@)
        &&& self.model() == replay(self.history@)
    }

    /// Whether the rules accept `event` now. Reads the state only.
    pub fn validate(&self, event: &GameEvent) -> (r: bool)
        requires
            self.wf(),
        ensures
            r == valid(self.model(), *event),
    {
        match event {
            GameEvent::BeginGame { goes_first } => {
                if position_of(&self.players, *goes_first).is_none() {
                    return false;
                }
                if self.stage != Stage::PreGame {
                    return false;
                }
            },
            GameEvent::EndGame { reason } => match reason {
                EndGameReason::PlayerWon { .. } => {
                    if self.stage != Stage::InGame {
                        return false;
                    }
                },
                EndGameReason::PlayerLeft { .. } => {},
            },
            GameEvent::PlayerJoined { player_id, .. } => {
                if position_of(&self.players, *player_id).is_some() {
                    return false;
                }
            },
            GameEvent::PlayerDisconnected { player_id } => {
                if position_of(&self.players, *player_id).is_none() {
                    return false;
                }
            },
            GameEvent::PlaceTile { player_id, at } => {
                if position_of(&self.players, *player_id).is_none() {
                    return false;
                }
                if self.active_player_id != *player_id {
                    return false;
                }
                if *at > 8 {
                    return false;
                }
                if self.board[*at] != Tile::Empty {
                    return false;
                }
            },
        }
        true
    }

    /// Whether `consume` can apply `event` now (see `applicable`).
    pub fn can_apply(&self, event: &GameEvent) -> (r: bool)
        requires
            self.wf(),
        ensures
            r == applicable(self.model(), *event),
    {
        match event {
            GameEvent::PlayerJoined { player_id, .. } => position_of(&self.players, *player_id).is_none(),
            GameEvent::PlaceTile { player_id, at } => {
                *at < 9 && position_of(&self.players, *player_id).is_some()
                    && first_other_index(&self.players, *player_id).is_some()
            },
            _ => true,
        }
    }

    /// Applies an event that the caller has already validated, and appends it to
    /// the history.
    pub fn consume(&mut self, valid_event: &GameEvent)
        requires
            old(self).wf(),
            applicable(old(self).model(), *valid_event),
        ensures
            final(self).wf(),
            final(self).model() == step(old(self).model(), *valid_event),
            final(self).history@ == old(self).history@.push(*valid_event),
    {
        let ghost pre = self.model();
        reveal(step);
        match valid_event {
            GameEvent::BeginGame { goes_first } => {
                self.active_player_id = *goes_first;
                self.stage = Stage::InGame;
                assert(self.model() =~= step(pre, *valid_event));
            },
            GameEvent::EndGame { .. } => {
                self.stage = Stage::Ended;
                assert(self.model() =~= step(pre, *valid_event));
            },
            GameEvent::PlayerJoined { player_id, name } => {
                let piece = if self.players.len() > 0 {
                    Tile::Tac
                } else {
                    Tile::Tic
                };
                self.players.push((*player_id, Player { name: name.clone(), piece }));
                proof {
                    lemma_push_keeps_unique(pre.players, self.players@);
                    assert(self.model() =~= step(pre, *valid_event));
                }
            },
            GameEvent::PlayerDisconnected { player_id } => {
                if let Some(i) = position_of(&self.players, *player_id) {
                    self.players.remove(i);
                    proof {
                        lemma_remove_keeps_unique(pre.players, i as int);
                    }
                }
                assert(self.model() =~= step(pre, *valid_event));
            },
            GameEvent::PlaceTile { player_id, at } => {
                if let Some(i) = position_of(&self.players, *player_id) {
                    let piece = self.players[i].1.piece;
                    self.board[*at] = piece;
                }
                if let Some(o) = first_other_index(&self.players, *player_id) {
                    self.active_player_id = self.players[o].0;
                }
                assert(self.model() =~= step(pre, *valid_event));
            },
        }
        self.history.push(valid_event.duplicate());
        assert(self.history@.drop_last() =~= old(self).history@);
    }

    /// Rebuilds a game from the initial state by consuming `events` in order.
    /// Gives `None` when some event cannot be applied where it stands.
    pub fn from_history(events: &Vec<GameEvent>) -> (r: Option<GameState>)
        ensures
            r is Some <==> replayable(events@),
            r is Some ==> r.unwrap().wf() && r.unwrap().history@ == events@ && r.unwrap().model()
                == replay(events@),
    {
        let mut state = GameState::default();
        let mut i: usize = 0;
        while i < events.len()
            invariant
                i <= events@.len(),
                state.wf(),
                state.history@ == events@.subrange(0, i as int),
            decreases events.len() - i,
        {
            assert(events@.subrange(0, i as int + 1).drop_last() =~= events@.subrange(0, i as int));
            if !state.can_apply(&events[i]) {
                proof {
                    if replayable(events@) {
                        lemma_replayable_prefix(events@, i as int + 1);
                        assert(events@.subrange(0, i as int + 1).last() == events@[i as int]);
                    }
                }
                return None;
            }
            state.consume(&events[i]);
            i = i + 1;
        }
        assert(events@.subrange(0, events@.len() as int) =~= events@);
        Some(state)
    }

    /// The player whose mark fills a winning line, looking at rows, then
    /// columns, then diagonals, and taking the first line that has a holder.
    pub fn determine_winner(&self) -> (r: Option<PlayerId>)
        ensures
            r == winner(self.model()),
    {
        let mut k: usize = 0;
        while k < 8
            invariant
                k <= 8,
                winner(self.model()) == winner_from(self.model(), k as int),
            decreases 8 - k,
        {
            let (a, b, c) = line_at(k);
            let t = self.board[a];
            if t != Tile::Empty && t == self.board[b] && t == self.board[c] {
                let h = holder_of(&self.players, t);
                if h.is_some() {
                    return h;
                }
            }
            k = k + 1;
        }
        None
    }

    /// Validates `event` and, if the rules accept it, consumes it; otherwise
    /// leaves the state as it was and reports the rejection.
    pub fn dispatch(&mut self, event: &GameEvent) -> (r: Result<(), ()>)
        requires
            old(self).wf(),
            valid(old(self).model(), *event) ==> applicable(old(self).model(), *event),
        ensures
            final(self).wf(),
            r is Ok <==> valid(old(self).model(), *event),
            r is Ok ==> final(self).model() == step(old(self).model(), *event)
                && final(self).history@ == old(self).history@.push(*event),
            r is Err ==> *final(self) == *old(self),
    {
        if !self.validate(event) {
            return Err(());
        }
        self.consume(event);
        Ok(())
    }
}

impl GameEvent {
    /// A field-by-field copy of the event.
    pub fn duplicate(&self) -> (r: GameEvent)
        ensures
            r == *self,
    {
        match self {
            GameEvent::BeginGame { goes_first } => GameEvent::BeginGame { goes_first: *goes_first },
            GameEvent::EndGame { reason } => GameEvent::EndGame { reason: *reason },
            GameEvent::PlayerJoined { player_id, name } => GameEvent::PlayerJoined {
                player_id: *player_id,
                name: name.clone(),
            },
            GameEvent::PlayerDisconnected { player_id } => GameEvent::PlayerDisconnected {
                player_id: *player_id,
            },
            GameEvent::PlaceTile { player_id, at } => GameEvent::PlaceTile {
                player_id: *player_id,
                at: *at,
            },
        }
    }
}

impl Default for GameState {
    /// A fresh game: before the start, an empty board, nobody present, no history.
    fn default() -> (r: GameState)
        ensures
            r.wf(),
            r.model() == initial_model(),
            r.history@ == Seq::<GameEvent>::empty(),
    {
        let r = GameState {
            stage: Stage::PreGame,
            board: [Tile::Empty; 9],
            active_player_id: 0,
            players: Vec::new(),
            history: Vec::new(),
        };
        assert(r.model() =~= initial_model());
        r
    }
}

/// The cells of winning line `k`.
fn line_at(k: usize) -> (r: (usize, usize, usize))
    requires
        k < 8,
    ensures
        (r.0 as int, r.1 as int, r.2 as int) == line_cells(k as int),
        r.0 < 9 && r.1 < 9 && r.2 < 9,
{
    if k == 0 {
        (0, 1, 2)
    } else if k == 1 {
        (3, 4, 5)
    } else if k == 2 {
        (6, 7, 8)
    } else if k == 3 {
        (0, 3, 6)
    } else if k == 4 {
        (1, 4, 7)
    } else if k == 5 {
        (2, 5, 8)
    } else if k == 6 {
        (0, 4, 8)
    } else {
        (2, 4, 6)
    }
}

/// The id of the first player in the roster whose mark is `t`.
fn holder_of(players: &Vec<(PlayerId, Player)>, t: Tile) -> (r: Option<PlayerId>)
    ensures
        r == holder(players@, t),
{
    let mut j: usize = 0;
    while j < players.len()
        invariant
            j <= players@.len(),
            holder(players@, t) == holder_from(players@, t, j as int),
        decreases players.len() - j,
    {
        if players[j].1.piece == t {
            return Some(players[j].0);
        }
        j = j + 1;
    }
    None
}

proof fn lemma_replayable_prefix(events: Seq<GameEvent>, n: int)
    requires
        replayable(events),
        0 <= n <= events.len(),
    ensures
        replayable(events.subrange(0, n)),
    decreases events.len() - n,
{
    if n < events.len() {
        lemma_replayable_prefix(events, n + 1);
        assert(events.subrange(0, n + 1).drop_last() =~= events.subrange(0, n));
    } else {
        assert(events.subrange(0, n) =~= events);
    }
}

proof fn lemma_push_keeps_unique(ps: Seq<(PlayerId, Player)>, qs: Seq<(PlayerId, Player)>)
    requires
        unique_ids(ps),
        qs.len() == ps.len() + 1,
        forall|i: int| 0 <= i < ps.len() ==> qs[i] == ps[i],
        !has_player(ps, qs[ps.len() as int].0),
    ensures
        unique_ids(qs),
{
    assert forall|i: int, j: int|
        0 <= i < qs.len() && 0 <= j < qs.len() && (#[trigger] qs[i]).0 == (#[trigger] qs[j]).0 implies i
        == j by {
        if i < ps.len() {
            assert(ps[i] == qs[i]);
        }
        if j < ps.len() {
            assert(ps[j] == qs[j]);
        }
    }
}

proof fn lemma_remove_keeps_unique(ps: Seq<(PlayerId, Player)>, i: int)
    requires
        unique_ids(ps),
        0 <= i < ps.len(),
    ensures
        unique_ids(ps.remove(i)),
{
    let qs = ps.remove(i);
    assert forall|a: int, b: int|
        0 <= a < qs.len() && 0 <= b < qs.len() && (#[trigger] qs[a]).0 == (#[trigger] qs[b]).0 implies a
        == b by {
        let oa = if a < i {
            a
        } else {
            a + 1
        };
        let ob = if b < i {
            b
        } else {
            b + 1
        };
        assert(qs[a] == ps[oa]);
        assert(qs[b] == ps[ob]);
    }
}

/// The position of `id` in a roster with unique ids, if it is there.
fn position_of(players: &Vec<(PlayerId, Player)>, id: PlayerId) -> (r: Option<usize>)
    requires
        unique_ids(players@),
    ensures
        r is Some <==> has_player(players@, id),
        r is Some ==> r.unwrap() < players@.len() && players@[r.unwrap() as int].0 == id
            && index_of(players@, id) == r.unwrap(),
{
    let mut i: usize = 0;
    while i < players.len()
        invariant
            i <= players@.len(),
            unique_ids(players@),
            forall|k: int| 0 <= k < i ==> (#[trigger] players@[k]).0 != id,
        decreases players.len() - i,
    {
        if players[i].0 == id {
            proof {
                let j = index_of(players@, id);
                assert(players@[i as int].0 == id);
                assert(0 <= j < players@.len() && players@[j].0 == id);
                assert(players@[j].0 == players@[i as int].0);
            }
            return Some(i);
        }
        i = i + 1;
    }
    None
}

/// The first position in the roster whose id is not `id`, if any.
fn first_other_index(players: &Vec<(PlayerId, Player)>, id: PlayerId) -> (r: Option<usize>)
    ensures
        r is Some ==> r.unwrap() < players@.len() && first_other(players@, id) == r.unwrap(),
        r is None ==> first_other(players@, id) == -1,
{
    let mut i: usize = 0;
    while i < players.len()
        invariant
            i <= players@.len(),
            forall|k: int| 0 <= k < i ==> (#[trigger] players@[k]).0 == id,
        decreases players.len() - i,
    {
        if players[i].0 != id {
            assert(players@[i as int].0 != id);
            proof {
                let j = first_other(players@, id);
                assert(0 <= j < players@.len() && players@[j].0 != id);
                if j < i {
                    assert(players@[j].0 == id);
                } else if j > i {
                    assert(players@[i as int].0 == id);
                }
            }
            return Some(i);
        }
        i = i + 1;
    }
    None
}

/// Event sourcing: a well-formed game's history can be replayed event by event
/// from the initial state, and the replay reproduces the game's current state.
pub proof fn lemma_history_reproduces_state(s: &GameState)
    requires
        s.wf(),
    ensures
        replayable(s.history@),
        replay(s.history@) == s.model(),
{
}

/// Turns alternate: in a started game with two players, an accepted placement
/// hands the turn from the player who moved to the other one, and leaves the
/// roster as it was.
pub proof fn lemma_place_tile_alternates(m: GameModel, e: GameEvent)
    requires
        unique_ids(m.players),
        m.players.len() == 2,
        m.stage == Stage::InGame,
        e is PlaceTile,
        valid(m, e),
    ensures
        step(m, e).players == m.players,
        m.active_player_id == m.players[0].0 ==> step(m, e).active_player_id == m.players[1].0,
        m.active_player_id == m.players[1].0 ==> step(m, e).active_player_id == m.players[0].0,
        step(m, e).active_player_id != m.active_player_id,
{
    reveal(step);
    let p = m.active_player_id;
    let ps = m.players;
    assert(ps[0].0 != ps[1].0);
    if p == ps[0].0 {
        assert(ps[1].0 != p && forall|k: int| 0 <= k < 1 ==> (#[trigger] ps[k]).0 == p);
        let j = first_other(ps, p);
        assert(0 <= j < 2 && ps[j].0 != p);
        assert(j == 1);
    } else {
        let i = choose|i: int| 0 <= i < ps.len() && (#[trigger] ps[i]).0 == p;
        assert(i == 1);
        assert(ps[0].0 != p && forall|k: int| 0 <= k < 0 ==> (#[trigger] ps[k]).0 == p);
        let j = first_other(ps, p);
        assert(0 <= j < 2 && ps[j].0 != p);
        if j == 1 {
            assert(ps[0].0 == p);
        }
    }
}

/// An empty board has no winner.
pub proof fn lemma_empty_board_has_no_winner(m: GameModel)
    requires
        m.board == empty_board(),
    ensures
        winner(m) is None,
{
    lemma_no_winner_after(m, 0);
}

/// When line `k` is filled with mark `t` and no other line is filled with one
/// mark, the winner is the first player in the roster whose mark is `t`.
pub proof fn lemma_single_line_winner(m: GameModel, k: int, t: Tile)
    requires
        m.board.len() == 9,
        0 <= k < 8,
        t != Tile::Empty,
        m.board[line_cells(k).0] == t,
        m.board[line_cells(k).1] == t,
        m.board[line_cells(k).2] == t,
        forall|l: int| 0 <= l < 8 && l != k ==> line_mark(m.board, l) == Tile::Empty,
    ensures
        winner(m) == holder(m.players, t),
{
    lemma_skip_mixed_lines(m, 0, k);
    lemma_no_winner_after(m, k + 1);
}

proof fn lemma_no_winner_after(m: GameModel, j: int)
    requires
        0 <= j,
        forall|l: int| j <= l < 8 ==> line_mark(m.board, l) == Tile::Empty,
    ensures
        winner_from(m, j) is None,
    decreases 8 - j,
{
    if j < 8 {
        lemma_no_winner_after(m, j + 1);
    }
}

proof fn lemma_skip_mixed_lines(m: GameModel, j: int, k: int)
    requires
        0 <= j <= k <= 8,
        forall|l: int| j <= l < k ==> line_mark(m.board, l) == Tile::Empty,
    ensures
        winner_from(m, j) == winner_from(m, k),
    decreases k - j,
{
    if j < k {
        lemma_skip_mixed_lines(m, j + 1, k);
    }
}

} // verus!
