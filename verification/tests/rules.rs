use chesspresso::address::Address;
use chesspresso::chess::{Color, Position, Role, San, Verdict};
use chesspresso::db::Db;
use chesspresso::digest::{same_bytes, GameHash};
use chesspresso::error::Error;
use chesspresso::game::{notation, parse_notation, Game, GameId, Outcome};
use chesspresso::text::{same_chars, string_of};

use shakmaty::{Chess, Position as Rules};

fn white() -> Address {
    Address::new([1; 20])
}

fn black() -> Address {
    Address::new([2; 20])
}

/// A game of legal moves that goes on until neither side can mate. The
/// moves are picked by a fixed rule, captures first.
fn game_down_to_bare_material() -> Vec<String> {
    for seed in 0..200u64 {
        let mut state = seed.wrapping_mul(6364136223846793005).wrapping_add(1442695040888963407);
        let mut position = Chess::default();
        let mut moves = Vec::new();
        for _ in 0..600 {
            if position.is_insufficient_material() {
                return moves;
            }
            let legal = position.legal_moves();
            if legal.is_empty() {
                break;
            }
            let captures: Vec<_> = legal.iter().filter(|m| m.is_capture()).cloned().collect();
            let pool = if captures.is_empty() { legal.to_vec() } else { captures };
            state = state.wrapping_mul(6364136223846793005).wrapping_add(1442695040888963407);
            let m = pool[(state >> 33) as usize % pool.len()].clone();
            moves.push(shakmaty::san::San::from_move(&position, &m).to_string());
            position = position.play(&m).unwrap();
        }
    }
    panic!("no game found that ends for want of material");
}

#[test]
fn a_game_without_mating_material_is_drawn_and_takes_no_move() {
    let moves = game_down_to_bare_material();
    let sans: Vec<San> = moves.iter().map(|m| San::parse(m).unwrap()).collect();
    let mut game = Game::from_moves(GameId::from(1), white(), black(), sans).unwrap();
    assert!(matches!(game.outcome(), Some(Outcome::InsufficientMaterial)));
    assert!(game.position().is_insufficient_material());
    assert!(!game.position().is_stalemate());
    assert!(!game.position().is_checkmate());
    assert_eq!(game.position().verdict(), Some(Verdict::Draw));
    assert_eq!(
        game.outcome().unwrap().message(),
        "the game ends in a draw due to insufficient material"
    );
    // A king can still move by the rules, but the game is over.
    let to_move = game.player(game.turn());
    let reference: Chess = game
        .position()
        .fen()
        .parse::<shakmaty::fen::Fen>()
        .unwrap()
        .into_position(shakmaty::CastlingMode::Standard)
        .unwrap();
    let legal = reference.legal_moves();
    assert!(!legal.is_empty());
    let san = shakmaty::san::San::from_move(&reference, &legal[0]).to_string();
    let hash = game.hash();
    assert_eq!(
        game.play(to_move, hash, San::parse(&san).unwrap()).unwrap_err(),
        Error::GameOver
    );
    // Replaying goes on where playing stops.
    assert!(game.play_next_move(San::parse(&san).unwrap()).is_ok());
}

#[test]
fn every_position_of_a_long_game_matches_the_rules_engine() {
    let moves = game_down_to_bare_material();
    let mut reference = Chess::default();
    let mut game = Game::new(GameId::from(1), white(), black());
    for text in &moves {
        let san: shakmaty::san::San = text.parse().unwrap();
        let m = san.to_move(&reference).unwrap();
        reference = reference.play(&m).unwrap();
        let made = game.play_next_move(San::parse(text).unwrap()).unwrap();
        let suffix = if reference.is_checkmate() {
            "#"
        } else if reference.is_check() {
            "+"
        } else {
            ""
        };
        assert_eq!(made.san(), format!("{san}{suffix}"));
        assert_eq!(game.turn() == Color::White, reference.turn().is_white());
        assert_eq!(game.position().is_check(), reference.is_check());
        assert_eq!(game.position().is_checkmate(), reference.is_checkmate());
        assert_eq!(game.position().is_stalemate(), reference.is_stalemate());
        assert_eq!(
            game.position().is_insufficient_material(),
            reference.is_insufficient_material()
        );
        assert_eq!(game.outcome().is_some(), reference.outcome().is_some());
    }
    assert_eq!(game.half_move() as usize, moves.len());
}

/// Plays the moves here and in the rules engine and holds the two against
/// each other after every move.
fn play_against_reference(moves: &[&str]) -> Game {
    let mut reference = Chess::default();
    let mut game = Game::new(GameId::from(1), white(), black());
    for text in moves {
        let san: shakmaty::san::San = text.parse().unwrap();
        let m = san.to_move(&reference).unwrap();
        reference = reference.play(&m).unwrap();
        game.play_next_move(San::parse(text).unwrap()).unwrap();
        let fen = shakmaty::fen::Fen::from_position(
            reference.clone(),
            shakmaty::EnPassantMode::Always,
        )
        .to_string();
        assert_eq!(game.position().fen(), fen);
        assert_eq!(game.position().is_check(), reference.is_check());
        assert_eq!(game.turn() == Color::White, reference.turn().is_white());
    }
    game
}

#[test]
fn en_passant_castling_and_promotion_are_played_by_the_rules() {
    // En passant is legal right after the double step and only then.
    let game = play_against_reference(&["e4", "a6", "e5", "d5", "exd6"]);
    assert_eq!(game.position().piece_at(3, 4), None);
    assert_eq!(game.position().piece_at(3, 5), Some((Color::White, Role::Pawn)));
    let mut late = play_against_reference(&["e4", "a6", "e5", "d5", "a3", "a5"]);
    assert_eq!(
        late.play_next_move(San::parse("exd6").unwrap()).unwrap_err(),
        Error::IllegalMove
    );

    // Castling on both wings, and not once the king has moved.
    let game = play_against_reference(&[
        "e4", "e5", "Nf3", "Nc6", "Bc4", "Bc5", "O-O", "d6", "d3", "Bg4", "Nc3", "Qd7", "Be3",
        "O-O-O",
    ]);
    assert_eq!(game.position().piece_at(6, 0), Some((Color::White, Role::King)));
    assert_eq!(game.position().piece_at(5, 0), Some((Color::White, Role::Rook)));
    assert_eq!(game.position().piece_at(2, 7), Some((Color::Black, Role::King)));
    assert_eq!(game.position().piece_at(3, 7), Some((Color::Black, Role::Rook)));
    let mut moved = play_against_reference(&[
        "e4", "e5", "Nf3", "Nc6", "Bc4", "Bc5", "Ke2", "d6", "Ke1", "Nf6",
    ]);
    assert_eq!(
        moved.play_next_move(San::parse("O-O").unwrap()).unwrap_err(),
        Error::IllegalMove
    );

    // A pawn is promoted as the move says.
    let game = play_against_reference(&[
        "h4", "g5", "hxg5", "h6", "gxh6", "Nf6", "h7", "Rg8", "hxg8=N", "Nc6", "Nxf6+",
    ]);
    assert_eq!(game.position().piece_at(5, 5), Some((Color::White, Role::Knight)));
    assert!(game.position().is_check());
    assert!(game.outcome().is_none());
}

#[test]
fn position_answers_for_the_side_to_move() {
    let start = Position::start();
    assert_eq!(start.turn(), Color::White);
    assert!(!start.is_check());
    assert!(!start.is_checkmate());
    assert!(!start.is_stalemate());
    assert!(!start.is_insufficient_material());
    assert_eq!(start.verdict(), None);
    let after = start.play(&San::parse("e4").unwrap()).unwrap();
    assert_eq!(after.turn(), Color::Black);
    assert_eq!(after.fen(), "rnbqkbnr/pppppppp/8/8/4P3/8/PPPP1PPP/RNBQKBNR b KQkq e3 0 1");
    assert!(start.play(&San::parse("e5").unwrap()).is_none());
    assert!(start.play(&San::parse("O-O").unwrap()).is_none());
    let copy = after.clone();
    assert_eq!(copy.fen(), after.fen());

    let mut mated = Position::start();
    for m in ["f3", "e5", "g4", "Qh4"] {
        mated = mated.play(&San::parse(m).unwrap()).unwrap();
    }
    assert!(mated.is_check());
    assert!(mated.is_checkmate());
    assert_eq!(mated.verdict(), Some(Verdict::Decisive { winner: Color::Black }));
}

#[test]
fn pieces_stand_where_the_game_put_them() {
    let start = Position::start();
    assert_eq!(start.piece_at(0, 0), Some((Color::White, Role::Rook)));
    assert_eq!(start.piece_at(1, 0), Some((Color::White, Role::Knight)));
    assert_eq!(start.piece_at(2, 0), Some((Color::White, Role::Bishop)));
    assert_eq!(start.piece_at(3, 0), Some((Color::White, Role::Queen)));
    assert_eq!(start.piece_at(4, 0), Some((Color::White, Role::King)));
    assert_eq!(start.piece_at(4, 1), Some((Color::White, Role::Pawn)));
    assert_eq!(start.piece_at(4, 3), None);
    assert_eq!(start.piece_at(3, 7), Some((Color::Black, Role::Queen)));
    assert_eq!(start.piece_at(7, 6), Some((Color::Black, Role::Pawn)));
    let after = start.play(&San::parse("e4").unwrap()).unwrap();
    assert_eq!(after.piece_at(4, 1), None);
    assert_eq!(after.piece_at(4, 3), Some((Color::White, Role::Pawn)));
    assert_eq!(Role::of(1), Role::Pawn);
    assert_eq!(Role::of(6), Role::King);
}

#[test]
fn the_record_of_a_game_reads_back_as_its_moves() {
    assert_eq!(parse_notation(""), Vec::<String>::new());
    assert_eq!(parse_notation("1.e4 "), vec!["e4"]);
    assert_eq!(parse_notation("1.e4 e5 2.Qh5 Nc6 3.Bc4 Nf6 4.Qxf7# "), vec![
        "e4", "e5", "Qh5", "Nc6", "Bc4", "Nf6", "Qxf7#"
    ]);
    assert_eq!(parse_notation("  12.O-O   O-O-O+ "), vec!["O-O", "O-O-O+"]);
    let moves: Vec<String> = game_down_to_bare_material();
    assert_eq!(parse_notation(&notation(&moves)), moves);
}

#[test]
fn a_game_made_from_its_record_is_the_game_in_the_store() {
    let mut db = Db::memory();
    let mut game = db.new_game(white(), black()).unwrap();
    for text in game_down_to_bare_material().iter().take(40) {
        let m = game.play_next_move(San::parse(text).unwrap()).unwrap();
        db.record_move(game.id(), m).unwrap();
    }
    let record = db.game_notation(game.id());
    let read: Vec<San> = parse_notation(&record).iter().map(|m| San::parse(m).unwrap()).collect();
    let from_record = Game::from_moves(game.id(), white(), black(), read).unwrap();
    let loaded = db.game(game.id()).unwrap();
    assert_eq!(from_record.hash(), loaded.hash());
    assert_eq!(from_record.half_move(), loaded.half_move());
    assert_eq!(from_record.position().fen(), loaded.position().fen());
    assert_eq!(loaded.hash(), game.hash());
}

#[test]
fn bytes_and_characters_compare_by_content() {
    assert!(same_bytes(&[], &[]));
    assert!(same_bytes(&[1, 2, 3], &[1, 2, 3]));
    assert!(!same_bytes(&[1, 2, 3], &[1, 2, 4]));
    assert!(!same_bytes(&[1, 2, 3], &[1, 2]));
    assert!(same_chars(&['a', 'b'], &['a', 'b']));
    assert!(!same_chars(&['a', 'b'], &['a', 'c']));
    assert!(!same_chars(&['a'], &[]));
    assert_eq!(string_of(&['c', 'h', 'e', 's', 's']), "chess");
    let a = GameHash::new([7; 32]);
    let mut other = [7; 32];
    other[31] = 8;
    assert_eq!(a, GameHash::new([7; 32]));
    assert_ne!(a, GameHash::new(other));
    assert_eq!(a.to_bytes(), [7; 32]);
}

#[test]
fn a_game_holds_no_more_plies_than_its_counter() {
    let cycle = ["Nf3", "Nf6", "Ng1", "Ng8"].map(|m| San::parse(m).unwrap());
    let mut game = Game::new(GameId::from(1), white(), black());
    for ply in 0..65535usize {
        let made = game.play_next_move(cycle[ply % 4].clone()).unwrap();
        assert_eq!(made.half_move() as usize, ply + 1);
    }
    assert_eq!(game.half_move(), u16::MAX);
    assert_eq!(game.full_move(), 32767);
    let hash = game.hash();
    assert_eq!(game.play_next_move(cycle[3].clone()).unwrap_err(), Error::TooLong);
    assert_eq!(game.play(black(), hash, cycle[3].clone()).unwrap_err(), Error::TooLong);
    assert_eq!(game.half_move(), u16::MAX);
    assert_eq!(game.hash(), hash);
    // A move that is not legal is refused as such, full game or not.
    assert_eq!(game.play_next_move(cycle[0].clone()).unwrap_err(), Error::IllegalMove);
}
