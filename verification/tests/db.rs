use chesspresso::address::Address;
use chesspresso::chess::San;
use chesspresso::db::{Counter, Db, Settlement, User};
use chesspresso::error::Error;
use chesspresso::game::{notation, Game, GameId, Outcome};
use chesspresso::rating::{unrated, Score};

use glicko2::{GameResult, Glicko2Rating};
use std::cell::RefCell;

fn ann() -> Address {
    Address::new([0x0a; 20])
}

fn ben() -> Address {
    Address::new([0x0b; 20])
}

fn cat() -> Address {
    Address::new([0x0c; 20])
}

fn rate_glicko(own: Glicko2Rating, opponent: Glicko2Rating, score: Score) -> Glicko2Rating {
    let result = match score {
        Score::Win => GameResult::win(opponent),
        Score::Loss => GameResult::loss(opponent),
        Score::Draw => GameResult::draw(opponent),
    };
    glicko2::new_rating(own, &[result], 0.8)
}

fn same_rating(a: Glicko2Rating, b: Glicko2Rating) -> bool {
    a.value == b.value && a.deviation == b.deviation && a.volatility == b.volatility
}

fn play_all(db: &mut Db, game: &mut Game, moves: &[&str]) {
    for text in moves {
        let m = game.play_next_move(San::parse(text).unwrap()).unwrap();
        db.record_move(game.id(), m).unwrap();
    }
}

fn counters(db: &Db, who: Address) -> [u16; 6] {
    let s = db.user_stats(who).unwrap();
    [
        s.white_wins,
        s.white_losses,
        s.white_draws,
        s.black_wins,
        s.black_losses,
        s.black_draws,
    ]
}

#[test]
fn empty_store_has_nothing() {
    let db = Db::memory();
    assert_eq!(db.max_game(), None);
    assert!(db.games(ann(), None).is_empty());
    assert!(db.moves(GameId::from(1), 0).is_empty());
    assert_eq!(db.game_notation(GameId::from(1)), "");
    assert_eq!(db.game(GameId::from(1)).err(), Some(Error::NotFound));
    assert_eq!(db.user_stats(ann()).err(), Some(Error::NotFound));
    assert_eq!(db.next_id(), Some(GameId::from(1)));
}

#[test]
fn new_games_get_ascending_numbers_from_one() {
    let mut db = Db::memory();
    let a = db.new_game(ann(), ben()).unwrap();
    let b = db.new_game(ben(), cat()).unwrap();
    let c = db.new_game(cat(), ann()).unwrap();
    assert_eq!(a.id(), GameId::from(1));
    assert_eq!(b.id(), GameId::from(2));
    assert_eq!(c.id(), GameId::from(3));
    assert_eq!(a.white(), ann());
    assert_eq!(a.black(), ben());
    assert_eq!(a.half_move(), 0);
    assert_eq!(db.max_game(), Some(GameId::from(3)));
}

#[test]
fn numbers_are_not_given_twice_after_a_game_ended() {
    let mut db = Db::memory();
    let a = db.new_game(ann(), ben()).unwrap();
    let b = db.new_game(ann(), ben()).unwrap();
    db.end_game(&b, None, rate_glicko).unwrap();
    assert_eq!(db.max_game(), Some(a.id()));
    let c = db.new_game(ann(), ben()).unwrap();
    assert_eq!(c.id(), GameId::from(3));
}

#[test]
fn new_players_are_unrated_with_zero_counters() {
    let mut db = Db::memory();
    db.new_game(ann(), ben()).unwrap();
    for who in [ann(), ben()] {
        let stats = db.user_stats(who).unwrap();
        assert!(same_rating(stats.rating, unrated()));
        assert_eq!(counters(&db, who), [0; 6]);
    }
    assert_eq!(db.user_stats(cat()).err(), Some(Error::NotFound));
}

#[test]
fn a_known_player_keeps_the_record_in_a_new_game() {
    let mut db = Db::memory();
    let g = db.new_game(ann(), ben()).unwrap();
    db.end_game(&g, Some(Outcome::Resignation { winner: ann(), loser: ben() }), rate_glicko)
        .unwrap();
    db.new_game(ann(), cat()).unwrap();
    assert_eq!(counters(&db, ann()), [1, 0, 0, 0, 0, 0]);
    assert_eq!(counters(&db, cat()), [0; 6]);
}

#[test]
fn games_lists_a_players_games_in_order() {
    let mut db = Db::memory();
    db.new_game(ann(), ben()).unwrap();
    db.new_game(ben(), cat()).unwrap();
    db.new_game(cat(), ann()).unwrap();
    db.new_game(ann(), ann()).unwrap();
    let ids = |games: Vec<chesspresso::message::Game>| -> Vec<i32> {
        games.iter().map(|g| g.id.value()).collect()
    };
    assert_eq!(ids(db.games(ann(), None)), vec![1, 3, 4]);
    assert_eq!(ids(db.games(ben(), None)), vec![1, 2]);
    assert_eq!(ids(db.games(ann(), Some(GameId::from(1)))), vec![3, 4]);
    assert_eq!(ids(db.games(ann(), Some(GameId::from(3)))), vec![4]);
    assert_eq!(ids(db.games(ann(), Some(GameId::from(4)))), Vec::<i32>::new());
    assert_eq!(ids(db.games(ann(), Some(GameId::from(i32::MAX)))), Vec::<i32>::new());
    assert_eq!(ids(db.games(ann(), Some(GameId::from(-5)))), vec![1, 3, 4]);
    let first = &db.games(ben(), None)[1];
    assert_eq!((first.white, first.black), (ben(), cat()));
}

#[test]
fn inserted_games_keep_their_numbers() {
    let mut db = Db::memory();
    db.insert_game(&Game::new(GameId::from(9), ann(), ben())).unwrap();
    db.insert_game(&Game::new(GameId::from(4), ben(), ann())).unwrap();
    db.insert_game(&Game::new(GameId::from(-2), ann(), cat())).unwrap();
    let ids: Vec<i32> = db.games(ann(), Some(GameId::from(-10))).iter().map(|g| g.id.value()).collect();
    assert_eq!(ids, vec![-2, 4, 9]);
    // Without `after`, negative numbers are not listed.
    let ids: Vec<i32> = db.games(ann(), None).iter().map(|g| g.id.value()).collect();
    assert_eq!(ids, vec![4, 9]);
    assert_eq!(db.max_game(), Some(GameId::from(9)));
    assert_eq!(
        db.insert_game(&Game::new(GameId::from(4), cat(), cat())).err(),
        Some(Error::Storage)
    );
    // A game made here gets a number above every number seen.
    assert_eq!(db.new_game(ann(), ben()).unwrap().id(), GameId::from(10));
    // Inserting gives no one a record.
    let mut mirror = Db::memory();
    mirror.insert_game(&Game::new(GameId::from(1), ann(), ben())).unwrap();
    assert_eq!(mirror.user_stats(ann()).err(), Some(Error::NotFound));
}

#[test]
fn recorded_moves_come_back_in_order_of_ply() {
    let mut db = Db::memory();
    let mut g1 = db.new_game(ann(), ben()).unwrap();
    let mut g2 = db.new_game(ben(), ann()).unwrap();
    play_all(&mut db, &mut g2, &["d4"]);
    play_all(&mut db, &mut g1, &["e4", "e5"]);
    play_all(&mut db, &mut g2, &["d5", "c4"]);
    play_all(&mut db, &mut g1, &["Nf3"]);
    assert_eq!(db.moves(g1.id(), 0), vec!["e4", "e5", "Nf3"]);
    assert_eq!(db.moves(g1.id(), 1), vec!["e4", "e5", "Nf3"]);
    assert_eq!(db.moves(g1.id(), 2), vec!["e5", "Nf3"]);
    assert_eq!(db.moves(g1.id(), 3), vec!["Nf3"]);
    assert_eq!(db.moves(g1.id(), 4), Vec::<String>::new());
    assert_eq!(db.moves(g2.id(), 0), vec!["d4", "d5", "c4"]);
    assert!(db.has_move(g1.id(), 3));
    assert!(!db.has_move(g1.id(), 4));
}

#[test]
fn moves_recorded_out_of_order_are_listed_in_order() {
    let mut db = Db::memory();
    let mut game = Game::new(GameId::from(1), ann(), ben());
    let m1 = game.play_next_move(San::parse("e4").unwrap()).unwrap();
    let m2 = game.play_next_move(San::parse("e5").unwrap()).unwrap();
    let m3 = game.play_next_move(San::parse("Nf3").unwrap()).unwrap();
    db.record_move(game.id(), m3).unwrap();
    db.record_move(game.id(), m1.clone()).unwrap();
    db.record_move(game.id(), m2).unwrap();
    assert_eq!(db.moves(game.id(), 0), vec!["e4", "e5", "Nf3"]);
    assert_eq!(db.record_move(game.id(), m1).err(), Some(Error::Storage));
    assert_eq!(db.moves(game.id(), 0), vec!["e4", "e5", "Nf3"]);
}

#[test]
fn a_loaded_game_is_the_game_that_was_played() {
    let mut db = Db::memory();
    let mut game = db.new_game(ann(), ben()).unwrap();
    play_all(&mut db, &mut game, &["e4", "d5", "Bb5", "c6"]);
    let loaded = db.game(game.id()).unwrap();
    assert_eq!(loaded.hash(), game.hash());
    assert_eq!(loaded.half_move(), 4);
    assert_eq!(loaded.white(), ann());
    assert_eq!(loaded.black(), ben());
    assert_eq!(loaded.id(), game.id());
    assert_eq!(loaded.position().fen(), game.position().fen());
    assert_eq!(db.moves(game.id(), 0), vec!["e4", "d5", "Bb5+", "c6"]);
}

#[test]
fn notation_pairs_moves_under_their_numbers() {
    let mut db = Db::memory();
    let mut game = db.new_game(ann(), ben()).unwrap();
    assert_eq!(db.game_notation(game.id()), "");
    play_all(&mut db, &mut game, &["e4"]);
    assert_eq!(db.game_notation(game.id()), "1.e4 ");
    play_all(&mut db, &mut game, &["e5"]);
    assert_eq!(db.game_notation(game.id()), "1.e4 e5 ");
    play_all(&mut db, &mut game, &["Qh5", "Nc6", "Bc4", "Nf6", "Qxf7"]);
    assert_eq!(db.game_notation(game.id()), "1.e4 e5 2.Qh5 Nc6 3.Bc4 Nf6 4.Qxf7# ");
}

#[test]
fn notation_of_a_long_game_counts_past_nine() {
    let moves: Vec<String> = (0..21).map(|i| format!("m{i}")).collect();
    let text = notation(&moves);
    assert!(text.starts_with("1.m0 m1 2.m2 m3 "));
    assert!(text.ends_with("10.m18 m19 11.m20 "));
}

#[test]
fn notation_stays_after_the_game_ended() {
    let mut db = Db::memory();
    let mut game = db.new_game(ann(), ben()).unwrap();
    play_all(&mut db, &mut game, &["f3", "e5", "g4", "Qh4"]);
    db.end_game(&game, game.outcome(), rate_glicko).unwrap();
    assert_eq!(db.game(game.id()).err(), Some(Error::NotFound));
    assert_eq!(db.game_notation(game.id()), "1.f3 e5 2.g4 Qh4# ");
    assert_eq!(db.moves(game.id(), 3), vec!["g4", "Qh4#"]);
}

#[test]
fn a_win_with_white_counts_for_both_players() {
    let mut db = Db::memory();
    let game = db.new_game(ann(), ben()).unwrap();
    db.end_game(&game, Some(Outcome::Checkmate { winner: ann(), loser: ben() }), rate_glicko)
        .unwrap();
    assert_eq!(counters(&db, ann()), [1, 0, 0, 0, 0, 0]);
    assert_eq!(counters(&db, ben()), [0, 0, 0, 0, 1, 0]);
    assert_eq!(db.max_game(), None);
}

#[test]
fn a_win_with_black_counts_for_both_players() {
    let mut db = Db::memory();
    let game = db.new_game(ann(), ben()).unwrap();
    db.end_game(&game, Some(Outcome::Resignation { winner: ben(), loser: ann() }), rate_glicko)
        .unwrap();
    assert_eq!(counters(&db, ben()), [0, 0, 0, 1, 0, 0]);
    assert_eq!(counters(&db, ann()), [0, 1, 0, 0, 0, 0]);
}

#[test]
fn a_draw_counts_for_both_players() {
    let mut db = Db::memory();
    let game = db.new_game(ann(), ben()).unwrap();
    for outcome in [Outcome::Stalemate, Outcome::InsufficientMaterial, Outcome::Draw] {
        db.end_game(&game, Some(outcome), rate_glicko).unwrap();
    }
    assert_eq!(counters(&db, ann()), [0, 0, 3, 0, 0, 0]);
    assert_eq!(counters(&db, ben()), [0, 0, 0, 0, 0, 3]);
}

#[test]
fn ratings_after_one_win_follow_glicko() {
    let mut db = Db::memory();
    let game = db.new_game(ann(), ben()).unwrap();
    db.end_game(&game, Some(Outcome::Checkmate { winner: ann(), loser: ben() }), rate_glicko)
        .unwrap();
    let start = unrated();
    let winner = glicko2::new_rating(start, &[GameResult::win(start)], 0.8);
    let loser = glicko2::new_rating(start, &[GameResult::loss(start)], 0.8);
    assert!(same_rating(db.user_stats(ann()).unwrap().rating, winner));
    assert!(same_rating(db.user_stats(ben()).unwrap().rating, loser));
    assert!(winner.value > start.value);
    assert!(loser.value < start.value);
}

#[test]
fn both_ratings_of_a_draw_are_made_from_the_old_ratings() {
    let mut db = Db::memory();
    // Give the two players different ratings first.
    let warmup = db.new_game(ann(), ben()).unwrap();
    db.end_game(&warmup, Some(Outcome::Checkmate { winner: ann(), loser: ben() }), rate_glicko)
        .unwrap();
    let ann_before = db.user_stats(ann()).unwrap().rating;
    let ben_before = db.user_stats(ben()).unwrap().rating;
    let game = db.new_game(ann(), ben()).unwrap();
    db.end_game(&game, Some(Outcome::Stalemate), rate_glicko).unwrap();
    let ann_after = glicko2::new_rating(ann_before, &[GameResult::draw(ben_before)], 0.8);
    let ben_after = glicko2::new_rating(ben_before, &[GameResult::draw(ann_before)], 0.8);
    assert!(same_rating(db.user_stats(ann()).unwrap().rating, ann_after));
    assert!(same_rating(db.user_stats(ben()).unwrap().rating, ben_after));
    // Rating black against white's new rating would give something else.
    let wrong = glicko2::new_rating(ben_before, &[GameResult::draw(ann_after)], 0.8);
    assert!(!same_rating(ben_after, wrong));
}

#[test]
fn rate_is_handed_old_ratings_and_scores() {
    let calls: RefCell<Vec<(f64, f64, Score)>> = RefCell::new(Vec::new());
    let mut db = Db::memory();
    let game = db.new_game(ann(), ben()).unwrap();
    db.end_game(&game, Some(Outcome::Checkmate { winner: ben(), loser: ann() }), |own, opp, score| {
        calls.borrow_mut().push((own.value, opp.value, score));
        Glicko2Rating { value: own.value + 1.0, ..own }
    })
    .unwrap();
    let start = unrated().value;
    assert_eq!(
        *calls.borrow(),
        vec![(start, start, Score::Win), (start, start, Score::Loss)]
    );
    assert_eq!(db.user_stats(ann()).unwrap().rating.value, start + 1.0);
    assert_eq!(db.user_stats(ben()).unwrap().rating.value, start + 1.0);
}

#[test]
fn ending_without_an_outcome_only_removes_the_game() {
    let mut db = Db::memory();
    let game = db.new_game(ann(), ben()).unwrap();
    db.end_game(&game, None, rate_glicko).unwrap();
    assert_eq!(db.max_game(), None);
    assert_eq!(counters(&db, ann()), [0; 6]);
    assert!(same_rating(db.user_stats(ann()).unwrap().rating, unrated()));
}

#[test]
fn ending_a_game_of_unknown_players_fails_and_changes_nothing() {
    let mut db = Db::memory();
    let game = db.new_game(ann(), ben()).unwrap();
    let result = db.end_game(
        &game,
        Some(Outcome::Checkmate { winner: cat(), loser: ben() }),
        rate_glicko,
    );
    assert_eq!(result.err(), Some(Error::NotFound));
    assert_eq!(db.max_game(), Some(game.id()));
    assert_eq!(counters(&db, ben()), [0; 6]);
    assert_eq!(
        db.settle_error(Settlement::of(ann(), ben(), Outcome::Checkmate { winner: cat(), loser: ben() })),
        Some(Error::NotFound)
    );
    assert_eq!(db.settle_error(Settlement::of(ann(), ben(), Outcome::Draw)), None);
}

#[test]
fn a_player_against_themselves_gets_both_counters() {
    let mut db = Db::memory();
    let game = db.new_game(ann(), ann()).unwrap();
    db.end_game(&game, Some(Outcome::Checkmate { winner: ann(), loser: ann() }), rate_glicko)
        .unwrap();
    assert_eq!(counters(&db, ann()), [1, 0, 0, 0, 1, 0]);
    let start = unrated();
    let last = glicko2::new_rating(start, &[GameResult::loss(start)], 0.8);
    assert!(same_rating(db.user_stats(ann()).unwrap().rating, last));
}

#[test]
fn settlement_of_each_outcome() {
    let s = Settlement::of(ann(), ben(), Outcome::Checkmate { winner: ann(), loser: ben() });
    assert_eq!((s.first, s.second), (ann(), ben()));
    assert_eq!((s.first_score, s.second_score), (Score::Win, Score::Loss));
    assert_eq!((s.first_counter, s.second_counter), (Counter::WhiteWins, Counter::BlackLosses));
    let s = Settlement::of(ann(), ben(), Outcome::Resignation { winner: ben(), loser: ann() });
    assert_eq!((s.first, s.second), (ben(), ann()));
    assert_eq!((s.first_counter, s.second_counter), (Counter::BlackWins, Counter::WhiteLosses));
    let s = Settlement::of(ann(), ben(), Outcome::Stalemate);
    assert_eq!((s.first, s.second), (ann(), ben()));
    assert_eq!((s.first_score, s.second_score), (Score::Draw, Score::Draw));
    assert_eq!((s.first_counter, s.second_counter), (Counter::WhiteDraws, Counter::BlackDraws));
}

#[test]
fn user_records_count_and_bump() {
    let user = User::fresh(ann(), unrated());
    assert_eq!(user.count(Counter::BlackDraws), 0);
    let user = user.bumped(Counter::BlackDraws).bumped(Counter::BlackDraws).bumped(Counter::WhiteWins);
    assert_eq!(user.count(Counter::BlackDraws), 2);
    assert_eq!(user.count(Counter::WhiteWins), 1);
    assert_eq!(user.count(Counter::WhiteLosses), 0);
    let rated = user.rated(Glicko2Rating { value: 1.5, deviation: 1.0, volatility: 0.06 });
    assert_eq!(rated.rating.value, 1.5);
    assert_eq!(rated.count(Counter::BlackDraws), 2);
    assert_eq!(rated.address, ann());
}

#[test]
fn every_counter_of_a_record_is_read_by_its_name() {
    let user = User {
        white_wins: 1,
        white_losses: 2,
        white_draws: 3,
        black_wins: 4,
        black_losses: 5,
        black_draws: i32::MAX,
        ..User::fresh(ann(), unrated())
    };
    assert_eq!(user.count(Counter::WhiteWins), 1);
    assert_eq!(user.count(Counter::WhiteLosses), 2);
    assert_eq!(user.count(Counter::WhiteDraws), 3);
    assert_eq!(user.count(Counter::BlackWins), 4);
    assert_eq!(user.count(Counter::BlackLosses), 5);
    assert_eq!(user.count(Counter::BlackDraws), i32::MAX);
}

#[test]
fn shown_counters_wrap_at_sixteen_bits() {
    let mut db = Db::memory();
    let game = db.new_game(ann(), ben()).unwrap();
    for _ in 0..65537 {
        db.end_game(&game, Some(Outcome::Draw), |own, _, _| own).unwrap();
    }
    assert_eq!(counters(&db, ann()), [0, 0, 1, 0, 0, 0]);
    assert_eq!(counters(&db, ben()), [0, 0, 0, 0, 0, 1]);
}
