//! The application: it takes requests one at a time, changes the store where
//! a request asks for it, and says what is to be told of the change.
//!
//! A request is taken as a whole or refused as a whole: a refused request
//! leaves the store as it was.

use crate::address::Address;
use crate::chess::{san_text, start, Color, San};
use crate::db::{lemma_one_end, single_valued, Db, DbView, Settlement};
use crate::digest::GameHash;
use crate::error::Error;
use crate::game::{notation_text, Game, GameId, GameView, Outcome};
use crate::inspect::{parse_request, Request, RequestView};
use crate::message;
use crate::message::{Advance, AdvanceView, Report, ReportView, Status};
use crate::notice::{victory_payload, Victory};
use crate::rating::Score;
use crate::text::{chars_of, same_chars, utf8_string};
use glicko2::Glicko2Rating;
use vstd::prelude::*;
use vstd::utf8::{decode_utf8, valid_utf8};

verus! {

/// What the application has to tell after a request.
#[derive(Debug)]
pub enum Output {
    /// The payload of a notice.
    Notice(Vec<u8>),
    /// A report.
    Report(Report),
}

/// What an `Output` says.
pub enum OutputView {
    Notice(Seq<u8>),
    Report(ReportView),
}

impl View for Output {
    type V = OutputView;

    open spec fn view(&self) -> OutputView {
        match self {
            Output::Notice(payload) => OutputView::Notice(payload@),
            Output::Report(report) => OutputView::Report(report@),
        }
    }
}

/// What is told of the end of a game: a notice of the victory with the
/// winner, the loser, the sentence on the outcome and the record of the
/// game; for a draw, a report with the sentence and the record.
pub open spec fn termination(db: DbView, game: GameView, outcome: Outcome) -> OutputView {
    let notation = notation_text(db.notations(game.id@, 0));
    match outcome.winner_loser() {
        Some((winner, loser)) => OutputView::Notice(
            victory_payload(game.id@, winner@, loser@, outcome.message_text(), notation),
        ),
        None => OutputView::Report(
            ReportView::Draw { id: game.id, message: outcome.message_text(), notation },
        ),
    }
}

/// The store after a challenge by `sender`, or why the challenge is
/// refused. With a first move the challenger has white and the move is made
/// and recorded at once; without, the challenger has black.
pub open spec fn challenged(
    db: DbView,
    sender: Address,
    opponent: Address,
    first_move: Option<Seq<char>>,
) -> Result<DbView, Error> {
    let white = if first_move is Some {
        sender
    } else {
        opponent
    };
    let black = if first_move is Some {
        opponent
    } else {
        sender
    };
    match db.new_game(white, black) {
        Err(e) => Err(e),
        Ok(created) => match first_move {
            None => Ok(created),
            Some(text) => {
                let id = GameId::spec_new((db.last_id + 1) as i32);
                let game = GameView::new(id, white, black);
                match san_text(text) {
                    None => Err(Error::IllegalMove),
                    Some(san) => match game.play(sender, game.hash(), san) {
                        Err(e) => Err(e),
                        Ok(after) => created.record_move(id, after.last_move()),
                    },
                }
            },
        },
    }
}

/// The store and the game after a move by `sender`, before the game is
/// looked at for its end; or why the move is refused.
pub open spec fn moved(db: DbView, sender: Address, id: GameId, hash: Seq<u8>, text: Seq<char>) -> Result<
    (DbView, GameView),
    Error,
> {
    match db.load(id) {
        Err(e) => Err(e),
        Ok(game) => match san_text(text) {
            None => Err(Error::IllegalMove),
            Some(san) => match game.play(sender, hash, san) {
                Err(e) => Err(e),
                Ok(after) => match db.record_move(id, after.last_move()) {
                    Err(e) => Err(e),
                    Ok(recorded) => Ok((recorded, after)),
                },
            },
        },
    }
}

/// The game that `sender` resigns and the outcome of it, or why the
/// resignation is refused: the game must be going on and in the state that
/// `hash` tells, and the sender must be one of its players.
pub open spec fn resigned(db: DbView, sender: Address, id: GameId, hash: Seq<u8>) -> Result<
    (GameView, Outcome),
    Error,
> {
    match db.load(id) {
        Err(e) => Err(e),
        Ok(game) => if game.hash() != hash {
            Err(Error::StateMismatch)
        } else if game.outcome() is Some {
            Err(Error::GameOver)
        } else {
            match game.player_color(sender) {
                None => Err(Error::InvalidPlayer),
                Some(color) => Ok(
                    (game, Outcome::Resignation { winner: game.player(color.other()), loser: sender }),
                ),
            }
        },
    }
}

/// What holds of the end of a game in the application: the game is settled
/// in the store and its end is told, or nothing happens at all.
pub open spec fn ends<F: Fn(Glicko2Rating, Glicko2Rating, Score) -> Glicko2Rating>(
    before: DbView,
    game: GameView,
    outcome: Outcome,
    rate: F,
    after: DbView,
    result: Result<OutputView, Error>,
) -> bool {
    let plan = Settlement::of(game.white, game.black, outcome);
    match before.settle_error(plan) {
        Some(e) => result == Err::<OutputView, Error>(e) && after == before,
        None => result == Ok::<OutputView, Error>(termination(before, game, outcome))
            && before.ended_by(after, game.id, plan, rate),
    }
}

/// What holds of a move in the application: it is made and recorded, and
/// where it ends the game the game is settled and its end is told; or
/// nothing happens at all.
pub open spec fn makes_move<F: Fn(Glicko2Rating, Glicko2Rating, Score) -> Glicko2Rating>(
    before: DbView,
    sender: Address,
    id: GameId,
    hash: Seq<u8>,
    text: Seq<char>,
    rate: F,
    after: DbView,
    result: Result<Option<OutputView>, Error>,
) -> bool {
    match moved(before, sender, id, hash, text) {
        Err(e) => result == Err::<Option<OutputView>, Error>(e) && after == before,
        Ok((recorded, game)) => match game.outcome() {
            None => result == Ok::<Option<OutputView>, Error>(None) && after == recorded,
            Some(outcome) => {
                let plan = Settlement::of(game.white, game.black, outcome);
                match recorded.settle_error(plan) {
                    Some(e) => result == Err::<Option<OutputView>, Error>(e) && after == before,
                    None => result == Ok::<Option<OutputView>, Error>(
                        Some(termination(recorded, game, outcome)),
                    ) && recorded.ended_by(after, id, plan, rate),
                }
            },
        },
    }
}

/// What holds of a resignation in the application.
pub open spec fn resigns<F: Fn(Glicko2Rating, Glicko2Rating, Score) -> Glicko2Rating>(
    before: DbView,
    sender: Address,
    id: GameId,
    hash: Seq<u8>,
    rate: F,
    after: DbView,
    result: Result<Option<OutputView>, Error>,
) -> bool {
    match resigned(before, sender, id, hash) {
        Err(e) => result == Err::<Option<OutputView>, Error>(e) && after == before,
        Ok((game, outcome)) => {
            let plan = Settlement::of(game.white, game.black, outcome);
            match before.settle_error(plan) {
                Some(e) => result == Err::<Option<OutputView>, Error>(e) && after == before,
                None => result == Ok::<Option<OutputView>, Error>(
                    Some(termination(before, game, outcome)),
                ) && before.ended_by(after, id, plan, rate),
            }
        },
    }
}

/// What holds of a request that may change the state.
pub open spec fn advances<F: Fn(Glicko2Rating, Glicko2Rating, Score) -> Glicko2Rating>(
    before: DbView,
    sender: Address,
    advance: AdvanceView,
    rate: F,
    after: DbView,
    result: Result<Option<OutputView>, Error>,
) -> bool {
    match advance {
        AdvanceView::Challenge { opponent, first_move } => match challenged(
            before,
            sender,
            opponent,
            first_move,
        ) {
            Ok(created) => result == Ok::<Option<OutputView>, Error>(None) && after == created,
            Err(e) => result == Err::<Option<OutputView>, Error>(e) && after == before,
        },
        AdvanceView::Move { id, hash, san } => makes_move(
            before,
            sender,
            id,
            hash@,
            san,
            rate,
            after,
            result,
        ),
        AdvanceView::Resign { id, hash } => resigns(before, sender, id, hash@, rate, after, result),
    }
}

/// A challenge without a first move makes a game in which the opponent has
/// white and the challenger black. No move is made by it: where no move is
/// on record under the new game's number, the game that the store then
/// loads stands at the starting position with no ply played. With white to
/// move there, no move is taken from the challenger before the opponent
/// has moved.
pub proof fn lemma_open_challenge(db: DbView, sender: Address, opponent: Address)
    requires
        db.wf(),
        db.last_id < i32::MAX,
    ensures
        ({
            let id = GameId::spec_new((db.last_id + 1) as i32);
            let game = GameView::new(id, opponent, sender);
            &&& challenged(db, sender, opponent, None) matches Ok(created) && {
                &&& created.has_game(id)
                &&& created.games[created.game_index(id)] == (message::Game {
                    id,
                    white: opponent,
                    black: sender,
                })
                &&& created.moves == db.moves
                &&& db.notations(id@, 0).len() == 0 ==> created.load(id) == Ok::<GameView, Error>(
                    game,
                )
            }
            &&& game.position() == start()
            &&& game.half_move() == 0
            &&& game.turn() == Color::White && sender@ != opponent@ ==> forall|
                expected: Seq<u8>,
                san: Seq<char>,
            | #[trigger]
                game.play(sender, expected, san) == Err::<GameView, Error>(Error::NotYourTurn)
        }),
{
    let id = GameId::spec_new((db.last_id + 1) as i32);
    GameId::lemma_spec_new((db.last_id + 1) as i32);
    let created = db.new_game(opponent, sender)->Ok_0;
    let row = message::Game { id, white: opponent, black: sender };
    assert(created.games[db.games.len() as int] == row);
    assert(created.has_game(id));
    let at = created.game_index(id);
    if at < db.games.len() {
        assert(created.games[at] == db.games[at]);
        assert(db.games[at].id@ <= db.last_id);
        id.lemma_same(db.games[at].id);
    }
    assert(created.games[at] == row);
    if db.notations(id@, 0).len() == 0 {
        let texts = created.notations(id@, 0);
        assert(texts =~= Seq::<Seq<char>>::empty());
        assert(texts.map_values(|t: Seq<char>| san_text(t)->0) =~= Seq::<Seq<char>>::empty());
    }
}

/// The same request to the same state has the same effect: the state after
/// it and what is told of it are determined by the state before, the
/// sender and the request, where the rater gives but one rating for one
/// question.
pub proof fn lemma_advance_is_determined<F: Fn(Glicko2Rating, Glicko2Rating, Score) -> Glicko2Rating>(
    before: DbView,
    sender: Address,
    advance: AdvanceView,
    rate: F,
    one: DbView,
    told_one: Result<Option<OutputView>, Error>,
    other: DbView,
    told_other: Result<Option<OutputView>, Error>,
)
    requires
        single_valued(rate),
        advances(before, sender, advance, rate, one, told_one),
        advances(before, sender, advance, rate, other, told_other),
    ensures
        one == other,
        told_one == told_other,
{
    match advance {
        AdvanceView::Challenge { opponent, first_move } => {},
        AdvanceView::Move { id, hash, san } => {
            match moved(before, sender, id, hash@, san) {
                Err(e) => {},
                Ok((recorded, game)) => match game.outcome() {
                    None => {},
                    Some(outcome) => {
                        let plan = Settlement::of(game.white, game.black, outcome);
                        if recorded.settle_error(plan) is None {
                            lemma_one_end(recorded, one, other, id, plan, rate);
                        }
                    },
                },
            }
        },
        AdvanceView::Resign { id, hash } => {
            match resigned(before, sender, id, hash@) {
                Err(e) => {},
                Ok((game, outcome)) => {
                    let plan = Settlement::of(game.white, game.black, outcome);
                    if before.settle_error(plan) is None {
                        lemma_one_end(before, one, other, id, plan, rate);
                    }
                },
            }
        },
    }
}

/// The answer to a query.
pub open spec fn answer(db: DbView, request: RequestView) -> Result<ReportView, Error> {
    match request {
        RequestView::Games { address, after } => Ok(
            ReportView::Games { games: db.games_of(address, after) },
        ),
        RequestView::Moves { id, from } => Ok(ReportView::Moves { moves: db.notations(id, from) }),
        RequestView::Stats { address } => match db.user_stats(address) {
            Ok(stats) => Ok(ReportView::UserStats { stats }),
            Err(e) => Err(e),
        },
    }
}

/// The answer to the query that a payload carries. The payload is the path
/// of the query in UTF-8; a payload that is no text or puts no query is
/// refused.
pub open spec fn inspected(db: DbView, payload: Seq<u8>) -> Result<ReportView, Error> {
    if !valid_utf8(payload) {
        Err(Error::InvalidInput)
    } else {
        match parse_request(decode_utf8(payload)) {
            None => Err(Error::InvalidInput),
            Some(request) => answer(db, request),
        }
    }
}

/// What a result of the application says.
pub open spec fn told(result: Result<Option<Output>, Error>) -> Result<Option<OutputView>, Error> {
    match result {
        Ok(Some(output)) => Ok(Some(output@)),
        Ok(None) => Ok(None),
        Err(e) => Err(e),
    }
}

/// What an answer of the application says.
pub open spec fn reported(result: Result<Report, Error>) -> Result<ReportView, Error> {
    match result {
        Ok(report) => Ok(report@),
        Err(e) => Err(e),
    }
}

/// The two kinds of request that the host hands over.
#[derive(Clone, Copy, Debug, PartialEq, Eq, Structural)]
pub enum RequestKind {
    /// A request that may change the state.
    Advance,
    /// A query.
    Inspect,
}

impl RequestKind {
    /// The kind that the host's name for it stands for.
    pub open spec fn spec_of(name: Seq<char>) -> Option<RequestKind> {
        if name == "advance_state"@ {
            Some(RequestKind::Advance)
        } else if name == "inspect_state"@ {
            Some(RequestKind::Inspect)
        } else {
            None
        }
    }

    /// The kind that the host's name for it stands for.
    pub fn of(name: &str) -> (kind: Option<RequestKind>)
        ensures
            kind == RequestKind::spec_of(name@),
    {
        let name = chars_of(name);
        if same_chars(name.as_slice(), chars_of("advance_state").as_slice()) {
            Some(RequestKind::Advance)
        } else if same_chars(name.as_slice(), chars_of("inspect_state").as_slice()) {
            Some(RequestKind::Inspect)
        } else {
            None
        }
    }
}

/// The status that the host is told: a request that was handled is accepted
/// and every other one rejected.
pub fn status(handled: bool) -> (status: Status)
    ensures
        status == if handled {
            Status::Accept
        } else {
            Status::Reject
        },
{
    if handled {
        Status::Accept
    } else {
        Status::Reject
    }
}

/// The application. Its state is the store.
pub struct App {
    db: Db,
}

impl View for App {
    type V = DbView;

    closed spec fn view(&self) -> DbView {
        self.db@
    }
}

impl App {
    /// The application with an empty store.
    pub fn new() -> (app: App)
        ensures
            app@ == DbView::empty(app@.unrated),
            app@.wf(),
    {
        App { db: Db::memory() }
    }

    /// The store.
    pub fn db(&self) -> (db: &Db)
        ensures
            db@ == self@,
    {
        &self.db
    }

    /// What is told of the end of a game.
    fn termination(&self, game: &Game, outcome: Outcome) -> (output: Output)
        ensures
            output@ == termination(self@, game@, outcome),
    {
        let notation = self.db.game_notation(game.id());
        match outcome.winner_loser() {
            Some((winner, loser)) => {
                let event = Victory {
                    id: game.id().value(),
                    winner,
                    loser,
                    message: outcome.message(),
                    notation,
                };
                Output::Notice(event.payload())
            },
            None => Output::Report(
                Report::Draw { id: game.id(), message: outcome.message(), notation },
            ),
        }
    }

    /// Ends a game: its end is told and the records of its players are
    /// settled.
    pub fn end_game<F>(&mut self, game: &Game, outcome: Outcome, rate: F) -> (result: Result<
        Output,
        Error,
    >) where F: Fn(Glicko2Rating, Glicko2Rating, Score) -> Glicko2Rating
        requires
            forall|rating: Glicko2Rating, opponent: Glicko2Rating, score: Score|
                rate.requires((rating, opponent, score)),
        ensures
            ends(
                old(self)@,
                game@,
                outcome,
                rate,
                final(self)@,
                match result {
                    Ok(output) => Ok(output@),
                    Err(e) => Err(e),
                },
            ),
    {
        let output = self.termination(game, outcome);
        match self.db.end_game(game, Some(outcome), rate) {
            Ok(()) => Ok(output),
            Err(e) => Err(e),
        }
    }

    /// Handles a challenge.
    pub fn challenge(&mut self, sender: Address, opponent: Address, first_move: Option<String>) -> (result:
        Result<(), Error>)
        ensures
            match challenged(
                old(self)@,
                sender,
                opponent,
                match first_move {
                    Some(text) => Some(text@),
                    None => None,
                },
            ) {
                Ok(created) => result is Ok && final(self)@ == created,
                Err(e) => result == Err::<(), Error>(e) && final(self)@ == old(self)@,
            },
            first_move is None && result is Ok ==> GameView::new(
                GameId::spec_new((old(self)@.last_id + 1) as i32),
                opponent,
                sender,
            ).turn() == Color::White,
    {
        let text = match first_move {
            Some(text) => text,
            None => {
                return match self.db.new_game(opponent, sender) {
                    Ok(_) => Ok(()),
                    Err(e) => Err(e),
                };
            },
        };
        // The first move is tried on a game of its own before anything is
        // written, so that a refused challenge leaves nothing behind.
        let next = match self.db.next_id() {
            Some(next) => next,
            None => {
                return Err(Error::Storage);
            },
        };
        let mut game = Game::new(next, sender, opponent);
        let san = match San::parse(text.as_str()) {
            Some(san) => san,
            None => {
                return Err(Error::IllegalMove);
            },
        };
        let hash = game.hash();
        let m = match game.play(sender, hash, san) {
            Ok(m) => m,
            Err(e) => {
                return Err(e);
            },
        };
        if self.db.has_move(next, m.half_move()) {
            return Err(Error::Storage);
        }
        match self.db.new_game(sender, opponent) {
            Ok(_) => {},
            Err(e) => {
                return Err(e);
            },
        }
        self.db.record_move(next, m)
    }

    /// Handles a move.
    pub fn make_move<F>(&mut self, sender: Address, id: GameId, hash: GameHash, san: String, rate: F) -> (result:
        Result<Option<Output>, Error>) where
        F: Fn(Glicko2Rating, Glicko2Rating, Score) -> Glicko2Rating,

        requires
            forall|rating: Glicko2Rating, opponent: Glicko2Rating, score: Score|
                rate.requires((rating, opponent, score)),
        ensures
            makes_move(old(self)@, sender, id, hash@, san@, rate, final(self)@, told(result)),
    {
        let mut game = match self.db.game(id) {
            Ok(game) => game,
            Err(e) => {
                return Err(e);
            },
        };
        let san = match San::parse(san.as_str()) {
            Some(san) => san,
            None => {
                return Err(Error::IllegalMove);
            },
        };
        let m = match game.play(sender, hash, san) {
            Ok(m) => m,
            Err(e) => {
                return Err(e);
            },
        };
        // Whatever could still refuse the request is looked at before the
        // move is written.
        if self.db.has_move(id, m.half_move()) {
            return Err(Error::Storage);
        }
        let outcome = game.outcome();
        match outcome {
            Some(outcome) => {
                let plan = Settlement::of(game.white(), game.black(), outcome);
                match self.db.settle_error(plan) {
                    Some(e) => {
                        return Err(e);
                    },
                    None => {},
                }
            },
            None => {},
        }
        match self.db.record_move(id, m) {
            Ok(()) => {},
            Err(e) => {
                return Err(e);
            },
        }
        // Check for game over.
        match outcome {
            Some(outcome) => match self.end_game(&game, outcome, rate) {
                Ok(output) => Ok(Some(output)),
                Err(e) => Err(e),
            },
            None => Ok(None),
        }
    }

    /// Handles a resignation.
    pub fn resign<F>(&mut self, sender: Address, id: GameId, hash: GameHash, rate: F) -> (result:
        Result<Option<Output>, Error>) where
        F: Fn(Glicko2Rating, Glicko2Rating, Score) -> Glicko2Rating,

        requires
            forall|rating: Glicko2Rating, opponent: Glicko2Rating, score: Score|
                rate.requires((rating, opponent, score)),
        ensures
            resigns(old(self)@, sender, id, hash@, rate, final(self)@, told(result)),
    {
        let game = match self.db.game(id) {
            Ok(game) => game,
            Err(e) => {
                return Err(e);
            },
        };
        if game.hash() != hash {
            return Err(Error::StateMismatch);
        }
        if game.outcome().is_some() {
            return Err(Error::GameOver);
        }
        let color = match game.player_color(sender) {
            Some(color) => color,
            None => {
                return Err(Error::InvalidPlayer);
            },
        };
        let opponent = game.player(color.other());
        match self.end_game(&game, Outcome::Resignation { winner: opponent, loser: sender }, rate) {
            Ok(output) => Ok(Some(output)),
            Err(e) => Err(e),
        }
    }

    /// Handles a request that may change the state. `sender` is the
    /// account that the request came from, and `rate` makes ratings anew
    /// where a game ends.
    pub fn handle_advance<F>(&mut self, sender: Address, advance: Advance, rate: F) -> (result:
        Result<Option<Output>, Error>) where
        F: Fn(Glicko2Rating, Glicko2Rating, Score) -> Glicko2Rating,

        requires
            forall|rating: Glicko2Rating, opponent: Glicko2Rating, score: Score|
                rate.requires((rating, opponent, score)),
        ensures
            advances(old(self)@, sender, advance@, rate, final(self)@, told(result)),
    {
        match advance {
            Advance::Challenge { opponent, first_move } => {
                match self.challenge(sender, opponent, first_move) {
                    Ok(()) => Ok(None),
                    Err(e) => Err(e),
                }
            },
            Advance::Move { id, hash, san } => self.make_move(sender, id, hash, san, rate),
            Advance::Resign { id, hash } => self.resign(sender, id, hash, rate),
        }
    }

    /// Answers a query.
    pub fn answer(&self, request: Request) -> (result: Result<Report, Error>)
        ensures
            reported(result) == answer(self@, request@),
    {
        match request {
            Request::Games { address, after } => Ok(
                Report::Games { games: self.db.games(address, after) },
            ),
            Request::Moves { id, from } => Ok(Report::Moves { moves: self.db.moves(id, from) }),
            Request::Stats { address } => match self.db.user_stats(address) {
                Ok(stats) => Ok(Report::UserStats { stats }),
                Err(e) => Err(e),
            },
        }
    }

    /// Handles a query. The payload is the path of the query in UTF-8.
    pub fn handle_inspect(&self, payload: &[u8]) -> (result: Result<Report, Error>)
        ensures
            reported(result) == inspected(self@, payload@),
    {
        broadcast use vstd::utf8::encode_utf8_valid_utf8, vstd::utf8::encode_utf8_decode_utf8;

        let path = match utf8_string(payload) {
            Some(path) => path,
            None => {
                return Err(Error::InvalidInput);
            },
        };
        match Request::parse(path.as_str()) {
            Some(request) => self.answer(request),
            None => Err(Error::InvalidInput),
        }
    }
}

} // verus!
