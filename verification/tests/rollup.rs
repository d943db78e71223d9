use chesspresso::address::Address;
use chesspresso::chess::Color;
use chesspresso::digest::GameHash;
use chesspresso::error::Error;
use chesspresso::game::GameId;
use chesspresso::message::{Advance, Report, Status};
use chesspresso::notice::Victory;
use chesspresso::rating::Score;
use chesspresso::rollup::{status, App, Output, RequestKind};

use alloy::primitives::keccak256;
use alloy::sol_types::SolValue;
use glicko2::{GameResult, Glicko2Rating};

fn alice() -> Address {
    Address::new([0xa1; 20])
}

fn bob() -> Address {
    Address::new([0xb0; 20])
}

fn carol() -> Address {
    Address::new([0xca; 20])
}

fn rate(own: Glicko2Rating, opponent: Glicko2Rating, score: Score) -> Glicko2Rating {
    let result = match score {
        Score::Win => GameResult::win(opponent),
        Score::Loss => GameResult::loss(opponent),
        Score::Draw => GameResult::draw(opponent),
    };
    glicko2::new_rating(own, &[result], 0.8)
}

fn challenge(app: &mut App, from: Address, to: Address, first: Option<&str>) -> Result<(), Error> {
    app.handle_advance(
        from,
        Advance::Challenge { opponent: to, first_move: first.map(|s| s.to_string()) },
        rate,
    )
    .map(|out| assert!(out.is_none()))
}

fn hash_of(app: &App, id: i32) -> GameHash {
    app.db().game(GameId::from(id)).unwrap().hash()
}

fn play(app: &mut App, who: Address, id: i32, san: &str) -> Result<Option<Output>, Error> {
    let hash = hash_of(app, id);
    app.handle_advance(
        who,
        Advance::Move { id: GameId::from(id), hash, san: san.to_string() },
        rate,
    )
}

fn expected_notice(id: i32, winner: Address, loser: Address, message: &str, notation: &str) -> Vec<u8> {
    let mut bytes = keccak256("Victory(int32,address,address,string,string)").0.to_vec();
    bytes.extend(
        (
            id,
            alloy::primitives::Address::from(winner.to_bytes()),
            alloy::primitives::Address::from(loser.to_bytes()),
            message.to_string(),
            notation.to_string(),
        )
            .abi_encode_sequence(),
    );
    bytes
}

fn counters(app: &App, who: Address) -> [u16; 6] {
    let s = app.db().user_stats(who).unwrap();
    [
        s.white_wins,
        s.white_losses,
        s.white_draws,
        s.black_wins,
        s.black_losses,
        s.black_draws,
    ]
}

#[test]
fn scholars_mate_is_accepted_and_noticed() {
    let mut app = App::new();
    challenge(&mut app, alice(), bob(), Some("e4")).unwrap();
    for (who, san) in [(bob(), "e5"), (alice(), "Qh5"), (bob(), "Nc6"), (alice(), "Bc4"), (bob(), "Nf6")] {
        assert!(play(&mut app, who, 1, san).unwrap().is_none());
    }
    let out = play(&mut app, alice(), 1, "Qxf7").unwrap();
    let message = format!("{} defeats {} by checkmate", alice().to_text(), bob().to_text());
    let notation = "1.e4 e5 2.Qh5 Nc6 3.Bc4 Nf6 4.Qxf7# ";
    match out {
        Some(Output::Notice(payload)) => {
            assert_eq!(payload, expected_notice(1, alice(), bob(), &message, notation));
        }
        other => panic!("unexpected output {other:?}"),
    }
    // The game is over and gone; its moves stay.
    assert_eq!(app.db().game(GameId::from(1)).err(), Some(Error::NotFound));
    assert_eq!(app.db().game_notation(GameId::from(1)), notation);
    assert_eq!(counters(&app, alice()), [1, 0, 0, 0, 0, 0]);
    assert_eq!(counters(&app, bob()), [0, 0, 0, 0, 1, 0]);
}

#[test]
fn stalemate_is_reported_as_a_draw() {
    let mut app = App::new();
    challenge(&mut app, alice(), bob(), Some("e3")).unwrap();
    let rest = [
        "a5", "Qh5", "Ra6", "Qxa5", "h5", "h4", "Rah6", "Qxc7", "f6", "Qxd7+", "Kf7", "Qxb7",
        "Qd3", "Qxb8", "Qh7", "Qxc8", "Kg6",
    ];
    for (i, san) in rest.iter().enumerate() {
        let who = if i % 2 == 0 { bob() } else { alice() };
        assert!(play(&mut app, who, 1, san).unwrap().is_none());
    }
    match play(&mut app, alice(), 1, "Qe6").unwrap() {
        Some(Output::Report(Report::Draw { id, message, notation })) => {
            assert_eq!(id, GameId::from(1));
            assert_eq!(message, "the game ends in a draw due to stalemate");
            assert!(notation.starts_with("1.e3 a5 2.Qh5 Ra6 "));
            assert!(notation.ends_with("9.Qxc8 Kg6 10.Qe6 "));
        }
        other => panic!("unexpected output {other:?}"),
    }
    assert_eq!(counters(&app, alice()), [0, 0, 1, 0, 0, 0]);
    assert_eq!(counters(&app, bob()), [0, 0, 0, 0, 0, 1]);
    assert_eq!(app.db().game(GameId::from(1)).err(), Some(Error::NotFound));
}

#[test]
fn resignation_gives_the_opponent_the_victory() {
    let mut app = App::new();
    challenge(&mut app, alice(), bob(), Some("e4")).unwrap();
    play(&mut app, bob(), 1, "e5").unwrap();
    let hash = hash_of(&app, 1);
    let out = app
        .handle_advance(alice(), Advance::Resign { id: GameId::from(1), hash }, rate)
        .unwrap();
    let message = format!("{} wins by resignation", bob().to_text());
    match out {
        Some(Output::Notice(payload)) => {
            assert_eq!(payload, expected_notice(1, bob(), alice(), &message, "1.e4 e5 "));
        }
        other => panic!("unexpected output {other:?}"),
    }
    assert_eq!(counters(&app, bob()), [0, 0, 0, 1, 0, 0]);
    assert_eq!(counters(&app, alice()), [0, 1, 0, 0, 0, 0]);
    assert_eq!(app.db().max_game(), None);
}

#[test]
fn a_move_out_of_turn_is_rejected_and_changes_nothing() {
    let mut app = App::new();
    challenge(&mut app, alice(), bob(), Some("e4")).unwrap();
    let before = hash_of(&app, 1);
    assert_eq!(play(&mut app, alice(), 1, "d4").err(), Some(Error::NotYourTurn));
    assert_eq!(hash_of(&app, 1), before);
    assert_eq!(app.db().moves(GameId::from(1), 0), vec!["e4"]);
    assert_eq!(status(false), Status::Reject);
}

#[test]
fn of_two_moves_for_the_same_state_only_the_first_is_taken() {
    let mut app = App::new();
    challenge(&mut app, alice(), bob(), Some("e4")).unwrap();
    let hash = hash_of(&app, 1);
    let first = app.handle_advance(
        bob(),
        Advance::Move { id: GameId::from(1), hash, san: "e5".to_string() },
        rate,
    );
    assert!(first.is_ok());
    // Alice's reply was made for the state before Bob's move.
    let second = app.handle_advance(
        alice(),
        Advance::Move { id: GameId::from(1), hash, san: "Nf3".to_string() },
        rate,
    );
    assert_eq!(second.err(), Some(Error::StateMismatch));
    assert_eq!(app.db().moves(GameId::from(1), 0), vec!["e4", "e5"]);
}

#[test]
fn a_challenge_without_a_first_move_gives_the_opponent_white() {
    let mut app = App::new();
    challenge(&mut app, alice(), bob(), None).unwrap();
    let game = app.db().game(GameId::from(1)).unwrap();
    assert_eq!(game.white(), bob());
    assert_eq!(game.black(), alice());
    assert_eq!(game.half_move(), 0);
    assert_eq!(game.turn(), Color::White);
    assert_eq!(
        game.position().fen(),
        "rnbqkbnr/pppppppp/8/8/8/8/PPPPPPPP/RNBQKBNR w KQkq - 0 1"
    );
    // The challenger cannot move first.
    assert_eq!(play(&mut app, alice(), 1, "e4").err(), Some(Error::NotYourTurn));
    assert!(play(&mut app, bob(), 1, "e4").unwrap().is_none());
    assert!(play(&mut app, alice(), 1, "e5").unwrap().is_none());
}

#[test]
fn a_challenge_with_a_first_move_gives_the_challenger_white() {
    let mut app = App::new();
    challenge(&mut app, alice(), bob(), Some("Nf3")).unwrap();
    let game = app.db().game(GameId::from(1)).unwrap();
    assert_eq!(game.white(), alice());
    assert_eq!(game.black(), bob());
    assert_eq!(game.half_move(), 1);
    assert_eq!(game.turn(), Color::Black);
    assert_eq!(app.db().moves(GameId::from(1), 0), vec!["Nf3"]);
}

#[test]
fn a_challenge_with_a_bad_first_move_leaves_nothing_behind() {
    let mut app = App::new();
    assert_eq!(challenge(&mut app, alice(), bob(), Some("e5")).err(), Some(Error::IllegalMove));
    assert_eq!(challenge(&mut app, alice(), bob(), Some("xyz")).err(), Some(Error::IllegalMove));
    assert_eq!(app.db().max_game(), None);
    assert_eq!(app.db().user_stats(alice()).err(), Some(Error::NotFound));
    assert_eq!(app.db().user_stats(bob()).err(), Some(Error::NotFound));
    // The number was not used up.
    challenge(&mut app, alice(), bob(), Some("e4")).unwrap();
    assert_eq!(app.db().max_game(), Some(GameId::from(1)));
}

#[test]
fn a_move_in_an_unknown_game_is_not_found() {
    let mut app = App::new();
    let result = app.handle_advance(
        alice(),
        Advance::Move { id: GameId::from(3), hash: GameHash::new([0; 32]), san: "e4".to_string() },
        rate,
    );
    assert_eq!(result.err(), Some(Error::NotFound));
    let result = app.handle_advance(
        alice(),
        Advance::Resign { id: GameId::from(3), hash: GameHash::new([0; 32]) },
        rate,
    );
    assert_eq!(result.err(), Some(Error::NotFound));
}

#[test]
fn a_move_by_a_stranger_or_with_bad_text_is_refused() {
    let mut app = App::new();
    challenge(&mut app, alice(), bob(), Some("e4")).unwrap();
    assert_eq!(play(&mut app, carol(), 1, "e5").err(), Some(Error::InvalidPlayer));
    assert_eq!(play(&mut app, bob(), 1, "??").err(), Some(Error::IllegalMove));
    assert_eq!(play(&mut app, bob(), 1, "e4").err(), Some(Error::IllegalMove));
    assert_eq!(app.db().moves(GameId::from(1), 0), vec!["e4"]);
}

#[test]
fn resignation_needs_the_state_and_a_player() {
    let mut app = App::new();
    challenge(&mut app, alice(), bob(), Some("e4")).unwrap();
    let stale = app.handle_advance(
        bob(),
        Advance::Resign { id: GameId::from(1), hash: GameHash::new([7; 32]) },
        rate,
    );
    assert_eq!(stale.err(), Some(Error::StateMismatch));
    let hash = hash_of(&app, 1);
    let stranger =
        app.handle_advance(carol(), Advance::Resign { id: GameId::from(1), hash }, rate);
    assert_eq!(stranger.err(), Some(Error::InvalidPlayer));
    assert_eq!(app.db().max_game(), Some(GameId::from(1)));
    // Resigning is allowed out of turn.
    let out = app.handle_advance(alice(), Advance::Resign { id: GameId::from(1), hash }, rate);
    assert!(matches!(out, Ok(Some(Output::Notice(_)))));
}

#[test]
fn the_same_log_gives_the_same_outputs_and_state() {
    let run = || {
        let mut app = App::new();
        let mut outputs = Vec::new();
        challenge(&mut app, alice(), bob(), Some("f3")).unwrap();
        challenge(&mut app, carol(), alice(), None).unwrap();
        for (who, id, san) in [
            (bob(), 1, "e5"),
            (alice(), 2, "e4"),
            (alice(), 1, "g4"),
            (bob(), 1, "Qh4"),
            (carol(), 2, "c5"),
        ] {
            match play(&mut app, who, id, san) {
                Ok(Some(Output::Notice(bytes))) => outputs.push(bytes),
                Ok(Some(Output::Report(report))) => outputs.push(format!("{report:?}").into_bytes()),
                Ok(None) => outputs.push(vec![]),
                Err(e) => outputs.push(format!("{e:?}").into_bytes()),
            }
        }
        let state = (
            app.db().games(alice(), None).iter().map(|g| g.id.value()).collect::<Vec<_>>(),
            app.db().moves(GameId::from(1), 0),
            app.db().moves(GameId::from(2), 0),
            counters(&app, alice()),
            counters(&app, bob()),
            app.db().user_stats(bob()).unwrap().rating.value.to_bits(),
            hash_of(&app, 2).to_bytes(),
        );
        (outputs, state)
    };
    assert_eq!(run(), run());
}

#[test]
fn inspect_answers_games_moves_and_stats() {
    let mut app = App::new();
    challenge(&mut app, alice(), bob(), Some("e4")).unwrap();
    challenge(&mut app, alice(), carol(), None).unwrap();
    play(&mut app, bob(), 1, "e5").unwrap();

    let path = format!("games/{}", alice().to_text());
    match app.handle_inspect(path.as_bytes()).unwrap() {
        Report::Games { games } => {
            assert_eq!(games.iter().map(|g| g.id.value()).collect::<Vec<_>>(), vec![1, 2]);
            assert_eq!((games[1].white, games[1].black), (carol(), alice()));
        }
        other => panic!("unexpected report {other:?}"),
    }
    let path = format!("games/{}/1", alice().to_text());
    match app.handle_inspect(path.as_bytes()).unwrap() {
        Report::Games { games } => {
            assert_eq!(games.iter().map(|g| g.id.value()).collect::<Vec<_>>(), vec![2]);
        }
        other => panic!("unexpected report {other:?}"),
    }
    match app.handle_inspect(b"moves/1/2").unwrap() {
        Report::Moves { moves } => assert_eq!(moves, vec!["e5"]),
        other => panic!("unexpected report {other:?}"),
    }
    match app.handle_inspect(b"moves/1/0/ignored").unwrap() {
        Report::Moves { moves } => assert_eq!(moves, vec!["e4", "e5"]),
        other => panic!("unexpected report {other:?}"),
    }
    let path = format!("stats/{}", bob().to_text());
    match app.handle_inspect(path.as_bytes()).unwrap() {
        Report::UserStats { stats } => assert_eq!(stats.black_wins, 0),
        other => panic!("unexpected report {other:?}"),
    }
}

#[test]
fn inspect_refuses_what_is_no_query() {
    let app = App::new();
    for bad in [
        &b""[..],
        b"games",
        b"games/",
        b"games/0x1234",
        b"moves/1",
        b"moves/x/1",
        b"moves/1/-1",
        b"moves/1/65536",
        b"stats",
        b"ratings/1",
        b"\xff\xfe",
    ] {
        assert_eq!(app.handle_inspect(bad).err(), Some(Error::InvalidInput));
    }
    let path = format!("stats/{}", alice().to_text());
    assert_eq!(app.handle_inspect(path.as_bytes()).err(), Some(Error::NotFound));
    let path = format!("games/{}/abc", alice().to_text());
    assert_eq!(app.handle_inspect(path.as_bytes()).err(), Some(Error::InvalidInput));
}

#[test]
fn request_kinds_and_status() {
    assert_eq!(RequestKind::of("advance_state"), Some(RequestKind::Advance));
    assert_eq!(RequestKind::of("inspect_state"), Some(RequestKind::Inspect));
    assert_eq!(RequestKind::of("advance"), None);
    assert_eq!(RequestKind::of(""), None);
    assert_eq!(status(true), Status::Accept);
    assert_eq!(status(false), Status::Reject);
}

#[test]
fn victory_payload_is_topic_then_data() {
    let event = Victory {
        id: -7,
        winner: alice(),
        loser: bob(),
        message: "a message that is longer than thirty-two bytes".to_string(),
        notation: "1.e4 ".to_string(),
    };
    let payload = event.payload();
    assert_eq!(
        payload,
        expected_notice(-7, alice(), bob(), &event.message, &event.notation)
    );
    assert_eq!(&payload[..32], &keccak256("Victory(int32,address,address,string,string)").0[..]);
    // Head: five words; then the two strings, each with its length.
    assert_eq!(payload.len(), 32 + 5 * 32 + (32 + 64) + (32 + 32));
    assert_eq!(&payload[32..64], &{
        let mut word = [0xff; 32];
        word[31] = 0xf9;
        word
    });
    assert_eq!(&payload[64 + 12..96], &[0xa1; 20]);
}
