use tictactussle::game::{EndGameReason, GameEvent, GameState, Stage, Tile};

fn join(id: u64, name: &str) -> GameEvent {
    GameEvent::PlayerJoined { player_id: id, name: name.to_string() }
}

fn place(id: u64, at: usize) -> GameEvent {
    GameEvent::PlaceTile { player_id: id, at }
}

fn started_game() -> GameState {
    let mut s = GameState::default();
    s.dispatch(&join(1, "A")).unwrap();
    s.dispatch(&join(2, "B")).unwrap();
    s.dispatch(&GameEvent::BeginGame { goes_first: 1 }).unwrap();
    s
}

#[test]
fn default_state_is_empty() {
    let s = GameState::default();
    assert_eq!(s.stage, Stage::PreGame);
    assert_eq!(s.board, [Tile::Empty; 9]);
    assert!(s.players.is_empty());
    assert!(s.history.is_empty());
    assert_eq!(s.determine_winner(), None);
}

#[test]
fn two_players_and_a_row_win() {
    let mut s = GameState::default();
    s.dispatch(&join(1, "A")).unwrap();
    assert_eq!(s.players.len(), 1);
    assert_eq!(s.players[0].0, 1);
    assert_eq!(s.players[0].1.name, "A");
    assert_eq!(s.players[0].1.piece, Tile::Tic);
    assert_eq!(s.stage, Stage::PreGame);
    s.dispatch(&join(2, "B")).unwrap();
    assert_eq!(s.players.len(), 2);
    assert_eq!(s.players[1].1.piece, Tile::Tac);
    assert_eq!(s.stage, Stage::PreGame);
    s.dispatch(&GameEvent::BeginGame { goes_first: 1 }).unwrap();
    assert_eq!(s.stage, Stage::InGame);
    assert_eq!(s.active_player_id, 1);
    for (id, at) in [(1, 0), (2, 3), (1, 1), (2, 4), (1, 2)] {
        s.dispatch(&place(id, at)).unwrap();
    }
    assert_eq!(s.board[0], Tile::Tic);
    assert_eq!(s.board[1], Tile::Tic);
    assert_eq!(s.board[2], Tile::Tic);
    assert_eq!(s.board[3], Tile::Tac);
    assert_eq!(s.board[4], Tile::Tac);
    assert_eq!(s.determine_winner(), Some(1));
    assert_eq!(s.history.len(), 8);
}

#[test]
fn placement_by_waiting_player_is_rejected() {
    let mut s = started_game();
    let before = s.board;
    assert!(!s.validate(&place(2, 4)));
    assert_eq!(s.dispatch(&place(2, 4)), Err(()));
    assert_eq!(s.board, before);
    assert_eq!(s.history.len(), 3);
}

#[test]
fn duplicate_join_is_rejected() {
    let mut s = started_game();
    assert!(!s.validate(&join(1, "C")));
    assert!(!s.validate(&join(2, "C")));
    assert_eq!(s.dispatch(&join(2, "C")), Err(()));
    assert_eq!(s.players.len(), 2);
}

#[test]
fn validate_repeats_and_changes_nothing() {
    let s = started_game();
    for e in [place(1, 4), place(2, 4), join(3, "C"), GameEvent::BeginGame { goes_first: 1 }] {
        let first = s.validate(&e);
        for _ in 0..5 {
            assert_eq!(s.validate(&e), first);
        }
    }
    assert_eq!(s.history.len(), 3);
    assert_eq!(s.stage, Stage::InGame);
    assert_eq!(s.active_player_id, 1);
}

#[test]
fn turns_alternate() {
    let mut s = started_game();
    let mut expected = 1;
    for at in [4, 0, 8, 2, 6] {
        assert_eq!(s.active_player_id, expected);
        s.dispatch(&place(expected, at)).unwrap();
        expected = if expected == 1 { 2 } else { 1 };
        assert_eq!(s.active_player_id, expected);
    }
}

#[test]
fn rules_of_each_event() {
    let mut s = GameState::default();
    assert!(!s.validate(&GameEvent::BeginGame { goes_first: 1 }));
    assert!(!s.validate(&GameEvent::PlayerDisconnected { player_id: 1 }));
    assert!(!s.validate(&place(1, 0)));
    let won = GameEvent::EndGame { reason: EndGameReason::PlayerWon { winner: 1 } };
    assert!(!s.validate(&won));
    let left = GameEvent::EndGame { reason: EndGameReason::PlayerLeft { player_id: 1 } };
    assert!(s.validate(&left));
    s = started_game();
    assert!(s.validate(&won));
    assert!(!s.validate(&GameEvent::BeginGame { goes_first: 1 }));
    assert!(!s.validate(&place(1, 9)));
    s.dispatch(&place(1, 4)).unwrap();
    assert!(!s.validate(&place(2, 4)));
    assert!(s.validate(&place(2, 5)));
    assert!(s.validate(&GameEvent::PlayerDisconnected { player_id: 2 }));
}

#[test]
fn disconnect_and_end() {
    let mut s = started_game();
    s.dispatch(&GameEvent::PlayerDisconnected { player_id: 2 }).unwrap();
    assert_eq!(s.players.len(), 1);
    assert_eq!(s.players[0].0, 1);
    s.dispatch(&GameEvent::EndGame { reason: EndGameReason::PlayerLeft { player_id: 2 } }).unwrap();
    assert_eq!(s.stage, Stage::Ended);
    assert!(!s.can_apply(&place(1, 0)));
}

#[test]
fn newcomer_after_departure_gets_second_mark() {
    let mut s = GameState::default();
    s.dispatch(&join(1, "A")).unwrap();
    s.dispatch(&GameEvent::PlayerDisconnected { player_id: 1 }).unwrap();
    s.dispatch(&join(2, "B")).unwrap();
    assert_eq!(s.players[0].1.piece, Tile::Tic);
    s.dispatch(&join(3, "C")).unwrap();
    assert_eq!(s.players[1].1.piece, Tile::Tac);
}

fn board_with(cells: [usize; 3], t: Tile) -> GameState {
    let mut s = GameState::default();
    s.consume(&join(1, "A"));
    s.consume(&join(2, "B"));
    for c in cells {
        s.board[c] = t;
    }
    s
}

#[test]
fn each_line_wins_alone() {
    let lines = [[0, 1, 2], [3, 4, 5], [6, 7, 8], [0, 3, 6], [1, 4, 7], [2, 5, 8], [0, 4, 8], [2, 4, 6]];
    for line in lines {
        assert_eq!(board_with(line, Tile::Tic).determine_winner(), Some(1));
        assert_eq!(board_with(line, Tile::Tac).determine_winner(), Some(2));
    }
}

#[test]
fn mixed_or_unheld_lines_do_not_win() {
    let mut s = board_with([0, 1, 2], Tile::Tic);
    s.board[1] = Tile::Tac;
    assert_eq!(s.determine_winner(), None);
    let mut alone = GameState::default();
    alone.consume(&join(1, "A"));
    for c in [0, 4, 8] {
        alone.board[c] = Tile::Tac;
    }
    assert_eq!(alone.determine_winner(), None);
}

#[test]
fn history_replays_to_the_same_state() {
    let mut s = started_game();
    for (id, at) in [(1, 0), (2, 3), (1, 1)] {
        s.dispatch(&place(id, at)).unwrap();
    }
    s.dispatch(&GameEvent::PlayerDisconnected { player_id: 2 }).unwrap();
    let r = GameState::from_history(&s.history).unwrap();
    assert_eq!(r.stage, s.stage);
    assert_eq!(r.board, s.board);
    assert_eq!(r.active_player_id, s.active_player_id);
    assert_eq!(r.players.len(), s.players.len());
    assert_eq!(r.players[0].0, s.players[0].0);
    assert_eq!(r.players[0].1.name, s.players[0].1.name);
    assert_eq!(r.history.len(), s.history.len());
}

#[test]
fn history_with_unappliable_event_is_refused() {
    let events = vec![join(1, "A"), join(1, "B")];
    assert!(GameState::from_history(&events).is_none());
    let lone = vec![join(1, "A"), place(1, 0)];
    assert!(GameState::from_history(&lone).is_none());
}

#[test]
fn duplicate_copies_every_field() {
    let e = join(7, "Zed");
    match e.duplicate() {
        GameEvent::PlayerJoined { player_id, name } => {
            assert_eq!(player_id, 7);
            assert_eq!(name, "Zed");
        }
        _ => panic!("wrong variant"),
    }
}
