use tafl::{
    Board, DrawReason, Game, GameOutcome, InvalidMove, KingStrength, Piece, PieceType, Play,
    Ruleset, Side, Tile, WinReason,
};

fn snapshot(b: &Board) -> Vec<Option<Piece>> {
    let n = b.dimension();
    let mut v = Vec::new();
    for r in 0..n {
        for c in 0..n {
            v.push(b.piece_at(Tile::new(r, c)));
        }
    }
    v
}

fn board_with(pieces: &[(u8, u8, Piece)]) -> Board {
    let mut b = Board::new(7);
    for &(r, c, p) in pieces {
        b.place(Tile::new(r, c), p);
    }
    b
}

#[test]
fn opening_play_moves_the_piece_and_illegal_play_changes_nothing() {
    let mut game = Game::new(Ruleset::federation_brandubh(), None).unwrap();
    assert_eq!(game.side_to_move(), Side::Attacker);
    assert_eq!(game.rules().dimension, 7);
    assert_eq!(game.repetitions(Side::Defender), 0);
    assert_eq!(game.board().piece_at(Tile::new(3, 3)), Some(Piece::king()));
    let out = game.apply(Play::from_str("d2-b2").unwrap()).unwrap();
    assert!(out.captures.is_empty());
    assert_eq!(out.game_outcome, None);
    assert_eq!(game.board().piece_at(Tile::new(1, 3)), None);
    assert_eq!(game.board().piece_at(Tile::new(1, 1)), Some(Piece::attacker(PieceType::Soldier)));
    assert_eq!(game.side_to_move(), Side::Defender);
    assert_eq!(game.history().len(), 1);

    let before = snapshot(game.board());
    let res = game.apply(Play::from_str("d3-d1").unwrap());
    assert_eq!(res, Err(InvalidMove::Occupied));
    assert_eq!(snapshot(game.board()), before);
    assert_eq!(game.side_to_move(), Side::Defender);
    assert_eq!(game.history().len(), 1);
    assert_eq!(game.outcome(), None);
}

#[test]
fn illegal_plays_name_the_broken_rule() {
    let mut game = Game::new(Ruleset::federation_brandubh(), None).unwrap();
    assert_eq!(game.apply(Play::from_str("b2-b3").unwrap()), Err(InvalidMove::NoPiece));
    assert_eq!(game.apply(Play::from_str("d3-b3").unwrap()), Err(InvalidMove::WrongSide));
    assert_eq!(game.apply(Play::from_str("d1-d3").unwrap()), Err(InvalidMove::Blocked));
    assert_eq!(game.apply(Play::from_str("d1-a1").unwrap()), Err(InvalidMove::CornerForbidden));
    assert_eq!(game.apply(Play::from_str("a4-a9").unwrap()), Err(InvalidMove::OutOfBounds));
    let still = Play { from: Tile::new(0, 3), axis: tafl::Axis::Vertical, displacement: 0 };
    assert_eq!(game.apply(still), Err(InvalidMove::Stationary));
    let b = board_with(&[
        (0, 3, Piece::attacker(PieceType::Soldier)),
        (5, 5, Piece::king()),
    ]);
    let mut game = Game::new(Ruleset::federation_brandubh(), Some(b)).unwrap();
    assert_eq!(game.apply(Play::from_str("d1-d4").unwrap()), Err(InvalidMove::ThroneForbidden));
    assert!(game.apply(Play::from_str("d1-d5").unwrap()).is_ok());
}

#[test]
fn flanked_defender_is_captured() {
    let b = board_with(&[
        (2, 2, Piece::attacker(PieceType::Soldier)),
        (2, 3, Piece::defender(PieceType::Soldier)),
        (0, 4, Piece::attacker(PieceType::Soldier)),
        (5, 5, Piece::king()),
    ]);
    let mut game = Game::new(Ruleset::federation_brandubh(), Some(b)).unwrap();
    let out = game.apply(Play::from_str("e1-e3").unwrap()).unwrap();
    assert_eq!(out.captures, vec![Tile::new(2, 3)]);
    assert_eq!(game.board().piece_at(Tile::new(2, 3)), None);
    assert_eq!(game.board().piece_at(Tile::new(2, 4)), Some(Piece::attacker(PieceType::Soldier)));
    assert_eq!(game.board().piece_at(Tile::new(2, 2)), Some(Piece::attacker(PieceType::Soldier)));
    assert_eq!(game.outcome(), None);
}

#[test]
fn empty_corner_is_hostile_and_captures_are_simultaneous() {
    let b = board_with(&[
        (0, 1, Piece::defender(PieceType::Soldier)),
        (1, 2, Piece::defender(PieceType::Soldier)),
        (2, 2, Piece::attacker(PieceType::Soldier)),
        (0, 5, Piece::attacker(PieceType::Soldier)),
        (4, 4, Piece::king()),
    ]);
    let mut game = Game::new(Ruleset::federation_brandubh(), Some(b)).unwrap();
    let out = game.apply(Play::from_str("f1-c1").unwrap()).unwrap();
    assert_eq!(out.captures, vec![Tile::new(1, 2), Tile::new(0, 1)]);
    assert_eq!(game.board().piece_at(Tile::new(0, 1)), None);
    assert_eq!(game.board().piece_at(Tile::new(1, 2)), None);
    assert_eq!(game.history()[0].outcome.captures.len(), 2);
}

#[test]
fn king_reaching_a_corner_wins_and_ends_the_game() {
    let b = board_with(&[
        (0, 3, Piece::king()),
        (4, 4, Piece::attacker(PieceType::Soldier)),
    ]);
    let mut game = Game::new(Ruleset::federation_brandubh(), Some(b)).unwrap();
    game.apply(Play::from_str("e5-f5").unwrap()).unwrap();
    let out = game.apply(Play::from_str("d1-a1").unwrap()).unwrap();
    assert_eq!(out.game_outcome, Some(GameOutcome::Win(Side::Defender, WinReason::KingEscaped)));
    assert_eq!(game.outcome(), Some(GameOutcome::Win(Side::Defender, WinReason::KingEscaped)));
    assert_eq!(game.apply(Play::from_str("f5-f4").unwrap()), Err(InvalidMove::GameOver));
    assert!(game.legal_plays(Tile::new(4, 5)).is_empty());
}

#[test]
fn king_away_from_throne_is_captured_between_two() {
    let b = board_with(&[
        (4, 1, Piece::attacker(PieceType::Soldier)),
        (4, 2, Piece::king()),
        (6, 3, Piece::attacker(PieceType::Soldier)),
    ]);
    let mut game = Game::new(Ruleset::federation_brandubh(), Some(b)).unwrap();
    let out = game.apply(Play::from_str("d7-d5").unwrap()).unwrap();
    assert_eq!(out.captures, vec![Tile::new(4, 2)]);
    assert_eq!(game.outcome(), Some(GameOutcome::Win(Side::Attacker, WinReason::KingCaptured)));
}

#[test]
fn king_next_to_throne_needs_four_hostile_sides() {
    let pieces = [
        (2, 2, Piece::attacker(PieceType::Soldier)),
        (3, 2, Piece::king()),
        (0, 1, Piece::attacker(PieceType::Soldier)),
    ];
    let mut game = Game::new(Ruleset::federation_brandubh(), Some(board_with(&pieces))).unwrap();
    let out = game.apply(Play::from_str("b1-b4").unwrap()).unwrap();
    assert!(out.captures.is_empty());
    assert_eq!(game.outcome(), None);

    let mut with_fourth = pieces.to_vec();
    with_fourth.push((4, 2, Piece::attacker(PieceType::Soldier)));
    let mut game = Game::new(Ruleset::federation_brandubh(), Some(board_with(&with_fourth))).unwrap();
    let out = game.apply(Play::from_str("b1-b4").unwrap()).unwrap();
    assert_eq!(out.captures, vec![Tile::new(3, 2)]);
    assert_eq!(game.outcome(), Some(GameOutcome::Win(Side::Attacker, WinReason::KingCaptured)));

    let weak = Ruleset { king_strength: KingStrength::Weak, ..Ruleset::federation_brandubh() };
    let mut game = Game::new(weak, Some(board_with(&pieces))).unwrap();
    let out = game.apply(Play::from_str("b1-b4").unwrap()).unwrap();
    // A weak king falls between the attacker and the empty, hostile throne.
    assert_eq!(out.captures, vec![Tile::new(3, 2)]);
    let strong = Ruleset { king_strength: KingStrength::Strong, ..Ruleset::federation_brandubh() };
    assert_eq!(strong.king_strength(3, true, false), false);
    assert_eq!(weak.king_strength(1, true, true), true);
}

#[test]
fn legal_plays_from_the_start() {
    let game = Game::new(Ruleset::federation_brandubh(), None).unwrap();
    let plays = game.legal_plays(Tile::new(0, 3));
    assert_eq!(plays.len(), 4);
    for s in ["d1-b1", "d1-c1", "d1-e1", "d1-f1"] {
        assert!(plays.contains(&Play::from_str(s).unwrap()));
    }
    assert!(game.legal_plays(Tile::new(3, 3)).is_empty());
    let all = game.legal_plays_for_side(Side::Attacker);
    assert!(all.contains(&Play::from_str("d2-b2").unwrap()));
    assert!(all.iter().all(|p| game.board().piece_at(p.from).unwrap().side == Side::Attacker));
    let king = game.legal_plays_for_side(Side::Defender);
    assert!(!king.iter().any(|p| p.from == Tile::new(3, 3)));
}

#[test]
fn side_without_plays_loses_or_draws() {
    let pieces = [
        (1, 0, Piece::attacker(PieceType::Soldier)),
        (3, 0, Piece::attacker(PieceType::Soldier)),
        (2, 1, Piece::attacker(PieceType::Soldier)),
        (2, 0, Piece::king()),
        (5, 5, Piece::attacker(PieceType::Soldier)),
    ];
    let rules = Ruleset::federation_brandubh();
    let mut game = Game::new(rules, Some(board_with(&pieces))).unwrap();
    let out = game.apply(Play::from_str("f6-f5").unwrap()).unwrap();
    assert_eq!(out.game_outcome, Some(GameOutcome::Win(Side::Attacker, WinReason::NoPlays)));
    let drawn = Ruleset { no_plays_loses: false, ..rules };
    let mut game = Game::new(drawn, Some(board_with(&pieces))).unwrap();
    game.apply(Play::from_str("f6-f5").unwrap()).unwrap();
    assert_eq!(game.outcome(), Some(GameOutcome::Draw(DrawReason::NoPlays)));
}

#[test]
fn repetition_limit_ends_the_game() {
    let b = board_with(&[
        (0, 3, Piece::attacker(PieceType::Soldier)),
        (4, 4, Piece::king()),
    ]);
    let rules = Ruleset { repetition_limit: 2, ..Ruleset::federation_brandubh() };
    let mut game = Game::new(rules, Some(b)).unwrap();
    let cycle = ["d1-c1", "e5-e6", "c1-d1", "e6-e5"];
    let mut last = None;
    for _ in 0..3 {
        for p in cycle {
            if game.outcome().is_some() {
                break;
            }
            last = game.apply(Play::from_str(p).unwrap()).unwrap().game_outcome;
        }
    }
    assert_eq!(last, Some(GameOutcome::Win(Side::Defender, WinReason::Repetition)));
    assert_eq!(game.repetitions(Side::Attacker), 2);
}

#[test]
fn game_refuses_unsound_rules_or_wrong_board() {
    let mut rules = Ruleset::federation_brandubh();
    assert!(rules.is_valid());
    assert!(Game::new(rules, Some(Board::new(9))).is_none());
    rules.pieces.unset_piece(Piece::king());
    assert!(!rules.is_valid());
    assert!(Game::new(rules, None).is_none());
}

#[test]
fn board_classifies_tiles() {
    let b = Board::new(7);
    assert!(b.is_throne(Tile::new(3, 3)));
    assert!(!b.is_throne(Tile::new(3, 2)));
    assert!(b.is_corner(Tile::new(6, 0)));
    assert!(!b.is_corner(Tile::new(6, 1)));
    assert!(b.is_edge(Tile::new(6, 1)));
    assert!(!b.is_edge(Tile::new(5, 1)));
    assert!(!b.is_edge(Tile::new(7, 1)));
    assert!(!Board::new(8).is_throne(Tile::new(4, 4)));
    let start = Board::brandubh_start();
    assert_eq!(start.pieces_of(Side::Attacker).len(), 8);
    assert_eq!(start.pieces_of(Side::Defender).len(), 5);
    let mut b = Board::new(5);
    b.place(Tile::new(1, 1), Piece::king());
    assert!(!b.is_empty(Tile::new(1, 1)));
    b.remove(Tile::new(1, 1));
    assert!(b.is_empty(Tile::new(1, 1)));
}

#[test]
fn board_paths_and_coordinates() {
    let b = Board::new(7);
    assert_eq!(
        b.tiles_between(Tile::new(1, 1), Tile::new(1, 5), tafl::Axis::Horizontal),
        vec![Tile::new(1, 2), Tile::new(1, 3), Tile::new(1, 4)]
    );
    assert_eq!(
        b.tiles_between(Tile::new(6, 2), Tile::new(3, 2), tafl::Axis::Vertical),
        vec![Tile::new(5, 2), Tile::new(4, 2)]
    );
    assert!(b.tiles_between(Tile::new(1, 1), Tile::new(1, 2), tafl::Axis::Horizontal).is_empty());
    assert!(b.tiles_between(Tile::new(1, 1), Tile::new(2, 5), tafl::Axis::Horizontal).is_empty());
    assert_eq!(b.tile_at(tafl::Coords::new(2, 6)), Ok(Tile::new(2, 6)));
    assert_eq!(b.tile_at(tafl::Coords::new(-1, 3)), Err(tafl::BoardError::OutOfBounds));
    assert_eq!(b.tile_at(tafl::Coords::new(3, 7)), Err(tafl::BoardError::OutOfBounds));
}

#[test]
fn history_records_feed_the_tracker() {
    let mut game = Game::new(Ruleset::federation_brandubh(), None).unwrap();
    game.apply(Play::from_str("d2-b2").unwrap()).unwrap();
    let short = tafl::ShortPlayRecord::from_record(&game.history()[0]);
    assert_eq!(short.side, Side::Attacker);
    assert_eq!(short.play, Play::from_str("d2-b2").unwrap());
    assert!(!short.captures);
}

#[test]
fn shield_wall_takes_the_whole_line_when_enabled() {
    let pieces = [
        (6, 2, Piece::defender(PieceType::Soldier)),
        (6, 3, Piece::defender(PieceType::Soldier)),
        (6, 4, Piece::defender(PieceType::Soldier)),
        (6, 5, Piece::attacker(PieceType::Soldier)),
        (2, 1, Piece::attacker(PieceType::Soldier)),
        (0, 3, Piece::king()),
    ];
    let rules = Ruleset { shield_wall: true, ..Ruleset::federation_brandubh() };
    let mut game = Game::new(rules, Some(board_with(&pieces))).unwrap();
    let out = game.apply(Play::from_str("b3-b7").unwrap()).unwrap();
    assert_eq!(out.captures, vec![Tile::new(6, 2), Tile::new(6, 3), Tile::new(6, 4)]);
    for c in 2..5 {
        assert_eq!(game.board().piece_at(Tile::new(6, c)), None);
    }

    let mut game = Game::new(Ruleset::federation_brandubh(), Some(board_with(&pieces))).unwrap();
    let out = game.apply(Play::from_str("b3-b7").unwrap()).unwrap();
    assert!(out.captures.is_empty());
}

#[test]
fn ruleset_hostility_queries() {
    let rules = Ruleset::federation_brandubh();
    let start = Board::brandubh_start();
    let soldier = Piece::attacker(PieceType::Soldier);
    assert!(rules.is_hostile_to(&start, soldier, Tile::new(2, 3)));
    assert!(!rules.is_hostile_to(&start, soldier, Tile::new(1, 3)));
    assert!(rules.is_hostile_to(&start, soldier, Tile::new(0, 0)));
    assert!(!rules.is_hostile_to(&start, soldier, Tile::new(0, 1)));
    assert!(!rules.is_hostile_to(&start, soldier, Tile::new(7, 0)));
    let empty = Board::new(7);
    assert!(rules.is_hostile_to(&empty, Piece::defender(PieceType::Soldier), Tile::new(3, 3)));
    assert!(rules.can_occupy_throne(Piece::king()));
    assert!(!rules.can_occupy_throne(soldier));
    assert!(rules.corner_restricted_to_king());
}
