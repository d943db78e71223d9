//! The store of games, moves and player records.
//!
//! Three tables are kept in memory. Players are keyed by address, games by
//! number, moves by game and ply. Games and moves are held in the order of
//! their keys, so that every listing comes out in ascending order.

use crate::address::Address;
use crate::chess::{san_text, Color, San};
use crate::error::Error;
use crate::game::{
    game_of_texts, is_plain, lemma_notation_reads_back, notation, notation_moves, notation_text,
    san_texts, Game, GameId, GameView, Move, MoveView, Outcome,
};
use crate::message;
use crate::message::UserStats;
use crate::rating::{unrated, Score};
use crate::text::{lemma_filter_order, lemma_filter_step, texts_of};
use glicko2::Glicko2Rating;
use vstd::prelude::*;

verus! {

/// One player's record as the store keeps it.
#[derive(Clone, Copy, Debug)]
pub struct User {
    pub address: Address,
    pub rating: Glicko2Rating,
    pub white_wins: i32,
    pub white_losses: i32,
    pub white_draws: i32,
    pub black_wins: i32,
    pub black_losses: i32,
    pub black_draws: i32,
}

impl User {
    /// The record of a player who has just appeared.
    pub open spec fn spec_fresh(address: Address, rating: Glicko2Rating) -> User {
        User {
            address,
            rating,
            white_wins: 0,
            white_losses: 0,
            white_draws: 0,
            black_wins: 0,
            black_losses: 0,
            black_draws: 0,
        }
    }

    /// The record of a player who has just appeared.
    #[verifier::when_used_as_spec(spec_fresh)]
    pub fn fresh(address: Address, rating: Glicko2Rating) -> (user: User)
        ensures
            user == User::spec_fresh(address, rating),
    {
        User {
            address,
            rating,
            white_wins: 0,
            white_losses: 0,
            white_draws: 0,
            black_wins: 0,
            black_losses: 0,
            black_draws: 0,
        }
    }

    /// Whether no counter is negative.
    pub open spec fn counted(self) -> bool {
        &&& self.white_wins >= 0
        &&& self.white_losses >= 0
        &&& self.white_draws >= 0
        &&& self.black_wins >= 0
        &&& self.black_losses >= 0
        &&& self.black_draws >= 0
    }
}

/// One of the six counters of a record.
#[derive(Clone, Copy, Debug, PartialEq, Eq, Structural)]
pub enum Counter {
    WhiteWins,
    WhiteLosses,
    WhiteDraws,
    BlackWins,
    BlackLosses,
    BlackDraws,
}

impl User {
    /// What a counter stands at.
    pub open spec fn spec_count(self, counter: Counter) -> i32 {
        match counter {
            Counter::WhiteWins => self.white_wins,
            Counter::WhiteLosses => self.white_losses,
            Counter::WhiteDraws => self.white_draws,
            Counter::BlackWins => self.black_wins,
            Counter::BlackLosses => self.black_losses,
            Counter::BlackDraws => self.black_draws,
        }
    }

    /// What a counter stands at.
    #[verifier::when_used_as_spec(spec_count)]
    pub fn count(self, counter: Counter) -> (count: i32)
        ensures
            count == self.spec_count(counter),
    {
        match counter {
            Counter::WhiteWins => self.white_wins,
            Counter::WhiteLosses => self.white_losses,
            Counter::WhiteDraws => self.white_draws,
            Counter::BlackWins => self.black_wins,
            Counter::BlackLosses => self.black_losses,
            Counter::BlackDraws => self.black_draws,
        }
    }

    /// The record with one counter one higher and all else as it was.
    pub open spec fn spec_bumped(self, counter: Counter) -> User {
        match counter {
            Counter::WhiteWins => User { white_wins: (self.white_wins + 1) as i32, ..self },
            Counter::WhiteLosses => User { white_losses: (self.white_losses + 1) as i32, ..self },
            Counter::WhiteDraws => User { white_draws: (self.white_draws + 1) as i32, ..self },
            Counter::BlackWins => User { black_wins: (self.black_wins + 1) as i32, ..self },
            Counter::BlackLosses => User { black_losses: (self.black_losses + 1) as i32, ..self },
            Counter::BlackDraws => User { black_draws: (self.black_draws + 1) as i32, ..self },
        }
    }

    /// The record with one counter one higher and all else as it was.
    #[verifier::when_used_as_spec(spec_bumped)]
    pub fn bumped(self, counter: Counter) -> (user: User)
        requires
            self.count(counter) < i32::MAX,
        ensures
            user == self.spec_bumped(counter),
    {
        let mut user = self;
        match counter {
            Counter::WhiteWins => {
                user.white_wins = user.white_wins + 1;
            },
            Counter::WhiteLosses => {
                user.white_losses = user.white_losses + 1;
            },
            Counter::WhiteDraws => {
                user.white_draws = user.white_draws + 1;
            },
            Counter::BlackWins => {
                user.black_wins = user.black_wins + 1;
            },
            Counter::BlackLosses => {
                user.black_losses = user.black_losses + 1;
            },
            Counter::BlackDraws => {
                user.black_draws = user.black_draws + 1;
            },
        }
        user
    }

    /// The record with another rating and all else as it was.
    pub open spec fn spec_rated(self, rating: Glicko2Rating) -> User {
        User { rating, ..self }
    }

    /// The record with another rating and all else as it was.
    #[verifier::when_used_as_spec(spec_rated)]
    pub fn rated(self, rating: Glicko2Rating) -> (user: User)
        ensures
            user == self.spec_rated(rating),
    {
        let mut user = self;
        user.rating = rating;
        user
    }
}

/// What the end of a game means for the records of two players: whose
/// records change, with which score each is rated against the other, and
/// which counter of each goes up.
#[derive(Clone, Copy, Debug)]
pub struct Settlement {
    pub first: Address,
    pub second: Address,
    pub first_score: Score,
    pub second_score: Score,
    pub first_counter: Counter,
    pub second_counter: Counter,
}

impl Settlement {
    /// The settlement of a game between `white` and `black`. A win goes to
    /// the winner and a loss to the loser, counted with the colors that the
    /// winner's place at the board gives; a draw goes to both players.
    pub open spec fn spec_of(white: Address, black: Address, outcome: Outcome) -> Settlement {
        match outcome.winner_loser() {
            Some((winner, loser)) => Settlement {
                first: winner,
                second: loser,
                first_score: Score::Win,
                second_score: Score::Loss,
                first_counter: if winner@ == white@ {
                    Counter::WhiteWins
                } else {
                    Counter::BlackWins
                },
                second_counter: if winner@ == white@ {
                    Counter::BlackLosses
                } else {
                    Counter::WhiteLosses
                },
            },
            None => Settlement {
                first: white,
                second: black,
                first_score: Score::Draw,
                second_score: Score::Draw,
                first_counter: Counter::WhiteDraws,
                second_counter: Counter::BlackDraws,
            },
        }
    }

    /// The settlement of a game between `white` and `black`.
    #[verifier::when_used_as_spec(spec_of)]
    pub fn of(white: Address, black: Address, outcome: Outcome) -> (plan: Settlement)
        ensures
            plan == Settlement::spec_of(white, black, outcome),
            plan.first_counter != plan.second_counter,
    {
        match outcome.winner_loser() {
            Some((winner, loser)) => {
                let as_white = winner == white;
                Settlement {
                    first: winner,
                    second: loser,
                    first_score: Score::Win,
                    second_score: Score::Loss,
                    first_counter: if as_white {
                        Counter::WhiteWins
                    } else {
                        Counter::BlackWins
                    },
                    second_counter: if as_white {
                        Counter::BlackLosses
                    } else {
                        Counter::WhiteLosses
                    },
                }
            },
            None => Settlement {
                first: white,
                second: black,
                first_score: Score::Draw,
                second_score: Score::Draw,
                first_counter: Counter::WhiteDraws,
                second_counter: Counter::BlackDraws,
            },
        }
    }
}

/// The record of a player as it is shown: each counter as far as sixteen
/// bits hold it.
pub open spec fn stats_of(user: User) -> UserStats {
    UserStats {
        rating: user.rating,
        white_wins: (user.white_wins % 0x1_0000) as u16,
        white_losses: (user.white_losses % 0x1_0000) as u16,
        white_draws: (user.white_draws % 0x1_0000) as u16,
        black_wins: (user.black_wins % 0x1_0000) as u16,
        black_losses: (user.black_losses % 0x1_0000) as u16,
        black_draws: (user.black_draws % 0x1_0000) as u16,
    }
}

/// One move as the store keeps it: the game, the ply and the notation.
pub struct MoveRecord {
    pub game: GameId,
    pub half_move: int,
    pub san: Seq<char>,
}

impl MoveRecord {
    /// Whether this move comes before `other`: in an earlier game, or
    /// earlier in the same game.
    pub open spec fn before(self, other: MoveRecord) -> bool {
        self.game@ < other.game@ || (self.game == other.game && self.half_move < other.half_move)
    }
}

struct MoveRow {
    game: GameId,
    half_move: u16,
    san: String,
}

impl View for MoveRow {
    type V = MoveRecord;

    closed spec fn view(&self) -> MoveRecord {
        MoveRecord { game: self.game, half_move: self.half_move as int, san: self.san@ }
    }
}

/// Whether a game is one in which the player takes part and whose number
/// is `from` at least.
pub open spec fn is_listed(address: Seq<u8>, from: int) -> spec_fn(message::Game) -> bool {
    |g: message::Game| g.id@ >= from && (g.white@ == address || g.black@ == address)
}

/// Whether a move is one of the game at the ply `from` or a later one.
pub open spec fn is_asked(id: int, from: int) -> spec_fn(MoveRecord) -> bool {
    |m: MoveRecord| m.game@ == id && m.half_move >= from
}

/// What the store holds.
pub struct DbView {
    /// The players, each once.
    pub users: Seq<User>,
    /// The games that are going on, by ascending number.
    pub games: Seq<message::Game>,
    /// Every move ever recorded, by game and ply.
    pub moves: Seq<MoveRecord>,
    /// The highest number that a game has had.
    pub last_id: int,
    /// The rating that a new player gets.
    pub unrated: Glicko2Rating,
}

impl DbView {
    /// What holds of every store: no player twice and no counter negative;
    /// the games in ascending order of their numbers, none above the highest
    /// number given; the moves in ascending order of game and ply, with
    /// plies as a game counts them.
    pub open spec fn wf(self) -> bool {
        &&& forall|i: int, j: int|
            0 <= i < j < self.users.len() ==> #[trigger] self.users[i].address@
                != #[trigger] self.users[j].address@
        &&& forall|i: int| 0 <= i < self.users.len() ==> (#[trigger] self.users[i]).counted()
        &&& forall|i: int, j: int|
            0 <= i < j < self.games.len() ==> #[trigger] self.games[i].id@
                < #[trigger] self.games[j].id@
        &&& forall|i: int| 0 <= i < self.games.len() ==> (#[trigger] self.games[i]).id@ <= self.last_id
        &&& 0 <= self.last_id <= i32::MAX
        &&& forall|i: int, j: int|
            0 <= i < j < self.moves.len() ==> (#[trigger] self.moves[i]).before(
                #[trigger] self.moves[j],
            )
        &&& forall|i: int|
            0 <= i < self.moves.len() ==> 0 <= (#[trigger] self.moves[i]).half_move <= u16::MAX
    }

    /// An empty store.
    pub open spec fn empty(unrated: Glicko2Rating) -> DbView {
        DbView {
            users: Seq::empty(),
            games: Seq::empty(),
            moves: Seq::empty(),
            last_id: 0,
            unrated,
        }
    }

    /// Whether the player has a record.
    pub open spec fn has_user(self, address: Seq<u8>) -> bool {
        exists|i: int| 0 <= i < self.users.len() && (#[trigger] self.users[i]).address@ == address
    }

    /// Where the player's record is, for a player who has one.
    pub open spec fn user_index(self, address: Seq<u8>) -> int {
        choose|i: int| 0 <= i < self.users.len() && (#[trigger] self.users[i]).address@ == address
    }

    /// The player's record, for a player who has one.
    pub open spec fn user(self, address: Seq<u8>) -> User {
        self.users[self.user_index(address)]
    }

    /// The store with a fresh record for the player, unless there is a
    /// record already.
    pub open spec fn with_user(self, address: Address) -> DbView {
        if self.has_user(address@) {
            self
        } else {
            DbView { users: self.users.push(User::fresh(address, self.unrated)), ..self }
        }
    }

    /// The store after a new game between the two players was created, or
    /// why none can be: the numbers have run out.
    pub open spec fn new_game(self, white: Address, black: Address) -> Result<DbView, Error> {
        if self.last_id >= i32::MAX {
            Err(Error::Storage)
        } else {
            let with_players = self.with_user(white).with_user(black);
            let id = GameId::spec_new((self.last_id + 1) as i32);
            Ok(
                DbView {
                    games: self.games.push(message::Game { id, white, black }),
                    last_id: self.last_id + 1,
                    ..with_players
                },
            )
        }
    }

    /// Whether a game with the number is going on.
    pub open spec fn has_game(self, id: GameId) -> bool {
        exists|i: int| 0 <= i < self.games.len() && (#[trigger] self.games[i]).id == id
    }

    /// Where the game is listed, for a game that is going on.
    pub open spec fn game_index(self, id: GameId) -> int {
        choose|i: int| 0 <= i < self.games.len() && (#[trigger] self.games[i]).id == id
    }

    /// The store without the game.
    pub open spec fn without_game(self, id: GameId) -> DbView {
        if self.has_game(id) {
            DbView { games: self.games.remove(self.game_index(id)), ..self }
        } else {
            self
        }
    }

    /// Where a game with the number `id` belongs in the list: behind the
    /// games with lower numbers and before those with higher ones.
    pub open spec fn game_slot(self, id: GameId) -> int {
        choose|k: int| self.is_game_slot(id, k)
    }

    /// Whether the games before the place `k` have lower numbers than `id`
    /// and the games from there on higher ones.
    pub open spec fn is_game_slot(self, id: GameId, k: int) -> bool {
        &&& 0 <= k <= self.games.len()
        &&& forall|i: int| 0 <= i < k ==> (#[trigger] self.games[i]).id@ < id@
        &&& forall|i: int| k <= i < self.games.len() ==> (#[trigger] self.games[i]).id@ > id@
    }

    /// The store after a game with a number of its own was entered, or why
    /// it cannot be: a game with the number is going on.
    pub open spec fn insert_game(self, game: GameView) -> Result<DbView, Error> {
        if self.has_game(game.id) {
            Err(Error::Storage)
        } else {
            Ok(
                DbView {
                    games: self.games.insert(
                        self.game_slot(game.id),
                        message::Game { id: game.id, white: game.white, black: game.black },
                    ),
                    last_id: if game.id@ > self.last_id {
                        game.id@
                    } else {
                        self.last_id
                    },
                    ..self
                },
            )
        }
    }

    /// Whether the move of the game at the ply is recorded.
    pub open spec fn has_move(self, game: GameId, half_move: int) -> bool {
        exists|i: int|
            0 <= i < self.moves.len() && (#[trigger] self.moves[i]).game == game
                && self.moves[i].half_move == half_move
    }

    /// Where a move belongs in the list: behind the moves before it and
    /// before the moves behind it.
    pub open spec fn move_slot(self, record: MoveRecord) -> int {
        choose|k: int| self.is_move_slot(record, k)
    }

    /// Whether the moves before the place `k` come before the move and the
    /// moves from there on behind it.
    pub open spec fn is_move_slot(self, record: MoveRecord, k: int) -> bool {
        &&& 0 <= k <= self.moves.len()
        &&& forall|i: int| 0 <= i < k ==> (#[trigger] self.moves[i]).before(record)
        &&& forall|i: int| k <= i < self.moves.len() ==> record.before(#[trigger] self.moves[i])
    }

    /// The store after a move of the game was recorded, or why it cannot
    /// be: the move at that ply is recorded already.
    pub open spec fn record_move(self, id: GameId, m: MoveView) -> Result<DbView, Error> {
        let record = MoveRecord { game: id, half_move: m.half_move, san: m.san };
        if self.has_move(id, m.half_move) {
            Err(Error::Storage)
        } else {
            Ok(DbView { moves: self.moves.insert(self.move_slot(record), record), ..self })
        }
    }

    /// The recorded moves of a game from the ply `from` on, in their order.
    pub open spec fn moves_of(self, id: int, from: int) -> Seq<MoveRecord> {
        self.moves.filter(is_asked(id, from))
    }

    /// The notations of the recorded moves of a game from the ply `from` on.
    pub open spec fn notations(self, id: int, from: int) -> Seq<Seq<char>> {
        self.moves_of(id, from).map_values(|m: MoveRecord| m.san)
    }

    /// The games going on in which the player takes part, those with a
    /// number above `after`; without `after`, those with a number that is
    /// not negative.
    pub open spec fn games_of(self, address: Seq<u8>, after: Option<int>) -> Seq<message::Game> {
        self.games.filter(
            is_listed(
                address,
                match after {
                    Some(after) => after + 1,
                    None => 0,
                },
            ),
        )
    }

    /// The record of a player as it is shown, or that there is none.
    pub open spec fn user_stats(self, address: Seq<u8>) -> Result<UserStats, Error> {
        if self.has_user(address) {
            Ok(stats_of(self.user(address)))
        } else {
            Err(Error::NotFound)
        }
    }

    /// The highest number of a game that is going on.
    pub open spec fn max_game(self) -> Option<GameId> {
        if self.games.len() == 0 {
            None
        } else {
            Some(self.games.last().id)
        }
    }

    /// The game with the number as its recorded moves make it, or why there
    /// is none: no such game is going on, a recorded notation is no move,
    /// or the moves do not make a game.
    pub open spec fn load(self, id: GameId) -> Result<GameView, Error> {
        if !self.has_game(id) {
            Err(Error::NotFound)
        } else {
            let row = self.games[self.game_index(id)];
            game_of_texts(id, row.white, row.black, self.notations(id@, 0))
        }
    }

    /// Why a settlement cannot be made, if it cannot: a player has no
    /// record, or a counter is full.
    pub open spec fn settle_error(self, plan: Settlement) -> Option<Error> {
        if !self.has_user(plan.first@) || !self.has_user(plan.second@) {
            Some(Error::NotFound)
        } else if self.user(plan.first@).count(plan.first_counter) >= i32::MAX || self.user(
            plan.second@,
        ).count(plan.second_counter) >= i32::MAX {
            Some(Error::Storage)
        } else {
            None
        }
    }

    /// The records after a settlement that gives the two players the
    /// ratings `first` and `second`: the ratings are written, the first
    /// player's first, then the counters go up.
    pub open spec fn settled_users(
        self,
        plan: Settlement,
        first: Glicko2Rating,
        second: Glicko2Rating,
    ) -> Seq<User> {
        let i = self.user_index(plan.first@);
        let j = self.user_index(plan.second@);
        let rated = self.users.update(i, self.users[i].rated(first));
        let rated = rated.update(j, rated[j].rated(second));
        let counted = rated.update(i, rated[i].bumped(plan.first_counter));
        counted.update(j, counted[j].bumped(plan.second_counter))
    }

    /// The store after the game with the number `id` ended with a
    /// settlement that gives the ratings `first` and `second`.
    pub open spec fn settled(
        self,
        id: GameId,
        plan: Settlement,
        first: Glicko2Rating,
        second: Glicko2Rating,
    ) -> DbView {
        DbView { users: self.settled_users(plan, first, second), ..self }.without_game(id)
    }
}

/// Whether `rate` can give `rating` for a player with the rating `own` who
/// scored `score` against an opponent with the rating `opponent`.
pub open spec fn rated<F: Fn(Glicko2Rating, Glicko2Rating, Score) -> Glicko2Rating>(
    rate: F,
    own: Glicko2Rating,
    opponent: Glicko2Rating,
    score: Score,
    rating: Glicko2Rating,
) -> bool {
    rate.ensures((own, opponent, score), rating)
}

impl DbView {
    /// Whether `after` is this store after the game with the number `id`
    /// ended with the settlement `plan`: each of the two players has a
    /// rating that `rate` gives for the player's old rating against the
    /// other's old rating.
    pub open spec fn ended_by<F: Fn(Glicko2Rating, Glicko2Rating, Score) -> Glicko2Rating>(
        self,
        after: DbView,
        id: GameId,
        plan: Settlement,
        rate: F,
    ) -> bool {
        exists|first: Glicko2Rating, second: Glicko2Rating|
            {
                &&& #[trigger] rated(
                    rate,
                    self.user(plan.first@).rating,
                    self.user(plan.second@).rating,
                    plan.first_score,
                    first,
                )
                &&& #[trigger] rated(
                    rate,
                    self.user(plan.second@).rating,
                    self.user(plan.first@).rating,
                    plan.second_score,
                    second,
                )
                &&& after == self.settled(id, plan, first, second)
            }
    }
}

/// Whether `rate` gives but one rating for one rating, opponent and score.
pub open spec fn single_valued<F: Fn(Glicko2Rating, Glicko2Rating, Score) -> Glicko2Rating>(
    rate: F,
) -> bool {
    forall|own: Glicko2Rating, opponent: Glicko2Rating, score: Score, a: Glicko2Rating, b: Glicko2Rating|
        #[trigger] rated(rate, own, opponent, score, a) && #[trigger] rated(
            rate,
            own,
            opponent,
            score,
            b,
        ) ==> a == b
}

/// With a rater that gives but one rating for one question, the end of a
/// game leaves but one store.
pub proof fn lemma_one_end<F: Fn(Glicko2Rating, Glicko2Rating, Score) -> Glicko2Rating>(
    db: DbView,
    one: DbView,
    other: DbView,
    id: GameId,
    plan: Settlement,
    rate: F,
)
    requires
        single_valued(rate),
        db.ended_by(one, id, plan, rate),
        db.ended_by(other, id, plan, rate),
    ensures
        one == other,
{
    let own = db.user(plan.first@).rating;
    let opponent = db.user(plan.second@).rating;
    let (a1, b1) = choose|first: Glicko2Rating, second: Glicko2Rating|
        {
            &&& #[trigger] rated(rate, own, opponent, plan.first_score, first)
            &&& #[trigger] rated(rate, opponent, own, plan.second_score, second)
            &&& one == db.settled(id, plan, first, second)
        };
    let (a2, b2) = choose|first: Glicko2Rating, second: Glicko2Rating|
        {
            &&& #[trigger] rated(rate, own, opponent, plan.first_score, first)
            &&& #[trigger] rated(rate, opponent, own, plan.second_score, second)
            &&& other == db.settled(id, plan, first, second)
        };
    assert(a1 == a2);
    assert(b1 == b2);
}

/// Where a player's record is, is where it was, after a change that keeps
/// every record's address.
proof fn lemma_same_places(before: DbView, after: DbView, address: Seq<u8>)
    requires
        before.wf(),
        after.users.len() == before.users.len(),
        forall|k: int|
            0 <= k < before.users.len() ==> (#[trigger] after.users[k]).address
                == before.users[k].address,
    ensures
        after.has_user(address) == before.has_user(address),
        before.has_user(address) ==> after.user_index(address) == before.user_index(address),
{
    if before.has_user(address) {
        let i = before.user_index(address);
        assert(after.users[i].address@ == address);
        let j = after.user_index(address);
        assert(before.users[j].address == after.users[j].address);
        if i < j {
            assert(before.users[i].address@ != before.users[j].address@);
        }
        if j < i {
            assert(before.users[j].address@ != before.users[i].address@);
        }
    }
    if after.has_user(address) {
        let j = after.user_index(address);
        assert(before.users[j].address == after.users[j].address);
    }
}

/// What a settlement does to the records: the two players get their new
/// ratings and one more on a counter each, and every other record stays as
/// it is.
pub proof fn lemma_settled_users(
    db: DbView,
    plan: Settlement,
    first: Glicko2Rating,
    second: Glicko2Rating,
)
    requires
        db.wf(),
        db.has_user(plan.first@),
        db.has_user(plan.second@),
    ensures
        ({
            let after = db.settled_users(plan, first, second);
            let i = db.user_index(plan.first@);
            let j = db.user_index(plan.second@);
            &&& after.len() == db.users.len()
            &&& forall|k: int|
                0 <= k < after.len() ==> (#[trigger] after[k]).address == db.users[k].address
            &&& forall|k: int|
                0 <= k < after.len() && k != i && k != j ==> #[trigger] after[k] == db.users[k]
            &&& i != j ==> after[i] == db.users[i].rated(first).bumped(plan.first_counter)
            &&& i != j ==> after[j] == db.users[j].rated(second).bumped(plan.second_counter)
            &&& i == j ==> after[i] == db.users[i].rated(second).bumped(plan.first_counter).bumped(
                plan.second_counter,
            )
        }),
{
}

/// A decisive game changes two counters and no other: the winner has one
/// more win with the winner's color, and the loser one more loss with the
/// other color. The records of all other players stay as they are.
pub proof fn lemma_counters_of_a_win(
    db: DbView,
    id: GameId,
    white: Address,
    black: Address,
    outcome: Outcome,
    winner: Address,
    loser: Address,
    first: Glicko2Rating,
    second: Glicko2Rating,
)
    requires
        db.wf(),
        outcome.winner_loser() == Some((winner, loser)),
        winner@ != loser@,
        db.settle_error(Settlement::of(white, black, outcome)) is None,
    ensures
        ({
            let won = if winner@ == white@ {
                Counter::WhiteWins
            } else {
                Counter::BlackWins
            };
            let lost = if winner@ == white@ {
                Counter::BlackLosses
            } else {
                Counter::WhiteLosses
            };
            let after = db.settled(id, Settlement::of(white, black, outcome), first, second);
            &&& after.has_user(winner@) && after.has_user(loser@)
            &&& after.user(winner@) == db.user(winner@).rated(first).bumped(won)
            &&& after.user(loser@) == db.user(loser@).rated(second).bumped(lost)
            &&& after.user(winner@).count(won) == db.user(winner@).count(won) + 1
            &&& after.user(loser@).count(lost) == db.user(loser@).count(lost) + 1
            &&& forall|c: Counter|
                c != won ==> after.user(winner@).count(c) == db.user(winner@).count(c)
            &&& forall|c: Counter|
                c != lost ==> after.user(loser@).count(c) == db.user(loser@).count(c)
            &&& forall|other: Seq<u8>|
                #![trigger db.has_user(other)]
                other != winner@ && other != loser@ && db.has_user(other) ==> after.has_user(other)
                    && after.user(other) == db.user(other)
            &&& after.moves == db.moves
            &&& after.last_id == db.last_id
        }),
{
    let plan = Settlement::of(white, black, outcome);
    let users = db.settled_users(plan, first, second);
    let after = db.settled(id, plan, first, second);
    lemma_settled_users(db, plan, first, second);
    assert(after.users == users);
    let i = db.user_index(winner@);
    let j = db.user_index(loser@);
    assert(i != j) by {
        assert(db.users[i].address@ == winner@);
        assert(db.users[j].address@ == loser@);
    }
    lemma_same_places(db, after, winner@);
    lemma_same_places(db, after, loser@);
    assert(after.user(winner@) == users[i]);
    assert(after.user(loser@) == users[j]);
    assert forall|other: Seq<u8>|
        #![trigger db.has_user(other)]
        other != winner@ && other != loser@ && db.has_user(other) implies after.has_user(other)
        && after.user(other) == db.user(other) by {
        lemma_same_places(db, after, other);
        let k = db.user_index(other);
        assert(db.users[k].address@ == other);
        assert(k != i && k != j);
        assert(users[k] == db.users[k]);
    }
}

/// In a drawn game each player's new rating is made from the player's old
/// rating against the other player's old rating, not against the other's
/// new one; and each has one more draw with the player's color.
pub proof fn lemma_ratings_of_a_draw<F: Fn(Glicko2Rating, Glicko2Rating, Score) -> Glicko2Rating>(
    db: DbView,
    after: DbView,
    id: GameId,
    white: Address,
    black: Address,
    outcome: Outcome,
    rate: F,
)
    requires
        db.wf(),
        outcome.winner_loser() is None,
        db.settle_error(Settlement::of(white, black, outcome)) is None,
        db.ended_by(after, id, Settlement::of(white, black, outcome), rate),
    ensures
        after.has_user(white@) && after.has_user(black@),
        rated(
            rate,
            db.user(white@).rating,
            db.user(black@).rating,
            Score::Draw,
            after.user(white@).rating,
        ),
        rated(
            rate,
            db.user(black@).rating,
            db.user(white@).rating,
            Score::Draw,
            after.user(black@).rating,
        ),
        after.user(white@).count(Counter::WhiteDraws) == db.user(white@).count(Counter::WhiteDraws)
            + 1,
        after.user(black@).count(Counter::BlackDraws) == db.user(black@).count(Counter::BlackDraws)
            + 1,
{
    let plan = Settlement::of(white, black, outcome);
    let (first, second) = choose|first: Glicko2Rating, second: Glicko2Rating|
        {
            &&& #[trigger] rated(
                rate,
                db.user(plan.first@).rating,
                db.user(plan.second@).rating,
                plan.first_score,
                first,
            )
            &&& #[trigger] rated(
                rate,
                db.user(plan.second@).rating,
                db.user(plan.first@).rating,
                plan.second_score,
                second,
            )
            &&& after == db.settled(id, plan, first, second)
        };
    let users = db.settled_users(plan, first, second);
    lemma_settled_users(db, plan, first, second);
    assert(after.users == users);
    lemma_same_places(db, after, white@);
    lemma_same_places(db, after, black@);
}

/// A new game gets a number above the number of every game before it,
/// going on or ended, and the number is not given again.
pub proof fn lemma_new_numbers_ascend(db: DbView, white: Address, black: Address)
    requires
        db.wf(),
    ensures
        db.new_game(white, black) matches Ok(after) ==> {
            &&& after.last_id == db.last_id + 1
            &&& after.games.last().id@ == after.last_id
            &&& forall|i: int| 0 <= i < db.games.len() ==> (#[trigger] db.games[i]).id@ < after.last_id
            &&& after.moves == db.moves
            &&& after.wf()
        },
{
    if db.last_id < i32::MAX {
        let after = db.new_game(white, black)->Ok_0;
        GameId::lemma_spec_new((db.last_id + 1) as i32);
        let first = db.with_user(white);
        let second = first.with_user(black);
        assert(first.wf()) by {
            if !db.has_user(white@) {
                assert forall|i: int, j: int| 0 <= i < j < first.users.len() implies (
                #[trigger] first.users[i]).address@ != (#[trigger] first.users[j]).address@ by {
                    if j == db.users.len() {
                        assert(first.users[i] == db.users[i]);
                    }
                }
            }
        }
        assert(second.wf()) by {
            if !first.has_user(black@) {
                assert forall|i: int, j: int| 0 <= i < j < second.users.len() implies (
                #[trigger] second.users[i]).address@ != (#[trigger] second.users[j]).address@ by {
                    if j == first.users.len() {
                        assert(second.users[i] == first.users[i]);
                    }
                }
            }
        }
        assert forall|i: int, j: int| 0 <= i < j < after.games.len() implies (
        #[trigger] after.games[i]).id@ < (#[trigger] after.games[j]).id@ by {
            if j == db.games.len() {
                assert(after.games[i] == db.games[i]);
            }
        }
    }
}

/// The end of a game takes the game off the list of games going on and
/// leaves everything else of the lists as it is: the other games, the
/// number last given, and every move on record, those of the ended game
/// too.
pub proof fn lemma_end_keeps_record(db: DbView, id: GameId)
    requires
        db.wf(),
    ensures
        !db.without_game(id).has_game(id),
        db.without_game(id).moves == db.moves,
        db.without_game(id).users == db.users,
        db.without_game(id).last_id == db.last_id,
        forall|other: GameId|
            other != id ==> db.without_game(id).has_game(other) == #[trigger] db.has_game(other),
        db.without_game(id).wf(),
{
    let after = db.without_game(id);
    if db.has_game(id) {
        let at = db.game_index(id);
        assert forall|i: int| 0 <= i < after.games.len() implies #[trigger] after.games[i]
            == db.games[if i < at { i } else { i + 1 }] by {}
        if after.has_game(id) {
            let i = after.game_index(id);
            let i0 = if i < at { i } else { i + 1 };
            assert(after.games[i] == db.games[i0]);
            if i0 < at {
                assert(db.games[i0].id@ < db.games[at].id@);
            } else {
                assert(db.games[at].id@ < db.games[i0].id@);
            }
        }
        assert forall|other: GameId| other != id implies after.has_game(other)
            == #[trigger] db.has_game(other) by {
            if db.has_game(other) {
                let k = db.game_index(other);
                let k1 = if k < at { k } else { k - 1 };
                assert(after.games[k1] == db.games[k]);
            }
            if after.has_game(other) {
                let k = after.game_index(other);
                assert(after.games[k] == db.games[if k < at { k } else { k + 1 }]);
            }
        }
        assert forall|i: int, j: int| 0 <= i < j < after.games.len() implies (
        #[trigger] after.games[i]).id@ < (#[trigger] after.games[j]).id@ by {
            assert(after.games[i] == db.games[if i < at { i } else { i + 1 }]);
            assert(after.games[j] == db.games[if j < at { j } else { j + 1 }]);
        }
        assert forall|i: int| 0 <= i < after.games.len() implies (#[trigger] after.games[i]).id@
            <= after.last_id by {
            assert(after.games[i] == db.games[if i < at { i } else { i + 1 }]);
        }
    }
}

/// Games are listed in ascending order of their numbers, each once.
pub proof fn lemma_games_ascend(db: DbView, address: Seq<u8>, after: Option<int>)
    requires
        db.wf(),
    ensures
        forall|i: int, j: int|
            0 <= i < j < db.games_of(address, after).len() ==> (#[trigger] db.games_of(
                address,
                after,
            )[i]).id@ < (#[trigger] db.games_of(address, after)[j]).id@,
{
    let from = match after {
        Some(after) => after + 1,
        None => 0,
    };
    let keep = is_listed(address, from);
    let place = lemma_filter_order(db.games, keep);
    let listed = db.games_of(address, after);
    assert forall|i: int, j: int| 0 <= i < j < listed.len() implies (#[trigger] listed[i]).id@ < (
    #[trigger] listed[j]).id@ by {
        assert(listed[i] == db.games[place[i]]);
        assert(listed[j] == db.games[place[j]]);
        assert(place[i] < place[j]);
    }
}

/// The moves of a game are listed in ascending order of their plies, each
/// ply once.
pub proof fn lemma_moves_ascend(db: DbView, id: int, from: int)
    requires
        db.wf(),
    ensures
        db.notations(id, from).len() == db.moves_of(id, from).len(),
        forall|i: int, j: int|
            0 <= i < j < db.moves_of(id, from).len() ==> (#[trigger] db.moves_of(
                id,
                from,
            )[i]).half_move < (#[trigger] db.moves_of(id, from)[j]).half_move,
{
    let keep = is_asked(id, from);
    let place = lemma_filter_order(db.moves, keep);
    let listed = db.moves_of(id, from);
    assert forall|i: int, j: int| 0 <= i < j < listed.len() implies (
    #[trigger] listed[i]).half_move < (#[trigger] listed[j]).half_move by {
        assert(listed[i] == db.moves[place[i]]);
        assert(listed[j] == db.moves[place[j]]);
        assert(place[i] < place[j]);
        assert(db.moves[place[i]].before(db.moves[place[j]]));
        db.moves.lemma_filter_pred(keep, i);
        db.moves.lemma_filter_pred(keep, j);
        assert(keep(listed[i]) && keep(listed[j]));
        db.moves[place[i]].game.lemma_same(db.moves[place[j]].game);
    }
}

/// The record of a game holds the game: the moves read out of the record
/// make the game that the store loads. This holds where every recorded
/// notation of the game is a text that can stand for a move.
pub proof fn lemma_record_holds_the_game(db: DbView, id: GameId)
    requires
        db.wf(),
        db.has_game(id),
        forall|i: int|
            0 <= i < db.notations(id@, 0).len() ==> is_plain(#[trigger] db.notations(id@, 0)[i]),
    ensures
        notation_moves(notation_text(db.notations(id@, 0))) == db.notations(id@, 0),
        db.load(id) == game_of_texts(
            id,
            db.games[db.game_index(id)].white,
            db.games[db.game_index(id)].black,
            notation_moves(notation_text(db.notations(id@, 0))),
        ),
{
    lemma_notation_reads_back(db.notations(id@, 0));
}

/// The store.
pub struct Db {
    users: Vec<User>,
    games: Vec<message::Game>,
    moves: Vec<MoveRow>,
    last_id: i32,
    unrated: Glicko2Rating,
}

/// The records that a vector of move rows stands for.
spec fn records(rows: Seq<MoveRow>) -> Seq<MoveRecord> {
    Seq::new(rows.len(), |i: int| rows[i]@)
}

impl View for Db {
    type V = DbView;

    closed spec fn view(&self) -> DbView {
        DbView {
            users: self.users@,
            games: self.games@,
            moves: records(self.moves@),
            last_id: self.last_id as int,
            unrated: self.unrated,
        }
    }
}

impl Db {
    #[verifier::type_invariant]
    spec fn valid(self) -> bool {
        self@.wf()
    }

    /// An empty store. A player who appears gets the rating of the unrated.
    pub fn memory() -> (db: Db)
        ensures
            db@ == DbView::empty(db@.unrated),
            db@.wf(),
    {
        let db = Db {
            users: Vec::new(),
            games: Vec::new(),
            moves: Vec::new(),
            last_id: 0,
            unrated: unrated(),
        };
        proof {
            assert(db@.moves =~= Seq::empty());
        }
        db
    }

    /// Where the player's record is, if there is one.
    fn find_user(&self, address: Address) -> (found: Option<usize>)
        ensures
            self@.wf(),
            found matches Some(i) ==> self@.has_user(address@) && i == self@.user_index(address@)
                && i < self@.users.len(),
            found is None ==> !self@.has_user(address@),
    {
        proof {
            use_type_invariant(self);
        }
        let mut i: usize = 0;
        while i < self.users.len()
            invariant
                self@.wf(),
                i <= self.users@.len(),
                forall|k: int| 0 <= k < i ==> (#[trigger] self.users@[k]).address@ != address@,
            decreases self.users@.len() - i,
        {
            if self.users[i].address == address {
                proof {
                    let j = self@.user_index(address@);
                    assert(self@.users[i as int].address@ == address@);
                    assert(self@.users[j].address@ == address@);
                    if j < i {
                        assert(self@.users[j].address@ != self@.users[i as int].address@);
                    }
                    if i < j {
                        assert(self@.users[i as int].address@ != self@.users[j].address@);
                    }
                }
                return Some(i);
            }
            i += 1;
        }
        None
    }

    /// Gives the player a fresh record, unless there is a record already.
    fn ensure_user(users: &mut Vec<User>, address: Address, rating: Glicko2Rating)
        ensures
            final(users)@ == old(users)@ || final(users)@ == old(users)@.push(
                User::fresh(address, rating),
            ),
            (exists|i: int|
                0 <= i < old(users)@.len() && (#[trigger] old(users)@[i]).address@ == address@)
                <==> final(users)@ == old(users)@,
    {
        let mut i: usize = 0;
        while i < users.len()
            invariant
                i <= users@.len(),
                users@ == old(users)@,
                forall|k: int| 0 <= k < i ==> (#[trigger] users@[k]).address@ != address@,
            decreases users@.len() - i,
        {
            if users[i].address == address {
                return ;
            }
            i += 1;
        }
        users.push(User::fresh(address, rating));
        proof {
            assert(final(users)@.len() != old(users)@.len());
        }
    }

    /// The number that the next new game gets, if there is one left.
    pub fn next_id(&self) -> (id: Option<GameId>)
        ensures
            self@.wf(),
            id matches Some(id) ==> self@.last_id < i32::MAX && id == GameId::spec_new(
                (self@.last_id + 1) as i32,
            ),
            id is None ==> self@.last_id >= i32::MAX,
    {
        proof {
            use_type_invariant(self);
        }
        if self.last_id == i32::MAX {
            None
        } else {
            let id = GameId::new(self.last_id + 1);
            proof {
                GameId::lemma_spec_new((self.last_id + 1) as i32);
                id.lemma_same(GameId::spec_new((self.last_id + 1) as i32));
            }
            Some(id)
        }
    }

    /// Creates a game between the two players and gives it the next number.
    /// A player who has no record yet gets one.
    pub fn new_game(&mut self, white: Address, black: Address) -> (result: Result<Game, Error>)
        ensures
            old(self)@.wf(),
            final(self)@.wf(),
            match old(self)@.new_game(white, black) {
                Ok(after) => result matches Ok(game) && final(self)@ == after && game@
                    == GameView::new(GameId::spec_new((old(self)@.last_id + 1) as i32), white, black)
                    && game@.wf() && game@.turn() == Color::White,
                Err(e) => result matches Err(err) && err == e && final(self)@ == old(self)@,
            },
    {
        proof {
            use_type_invariant(&*self);
        }
        if self.last_id == i32::MAX {
            return Err(Error::Storage);
        }
        let id = GameId::new(self.last_id + 1);
        proof {
            GameId::lemma_spec_new((self.last_id + 1) as i32);
            id.lemma_same(GameId::spec_new((self.last_id + 1) as i32));
        }
        let mut users: Vec<User> = Vec::new();
        core::mem::swap(&mut self.users, &mut users);
        Db::ensure_user(&mut users, white, self.unrated);
        Db::ensure_user(&mut users, black, self.unrated);
        self.users = users;
        self.last_id = self.last_id + 1;
        let mut games: Vec<message::Game> = Vec::new();
        core::mem::swap(&mut self.games, &mut games);
        games.push(message::Game { id, white, black });
        self.games = games;
        Ok(Game::new(id, white, black))
    }

    /// Where the game is listed, if it is going on.
    fn find_game(&self, id: GameId) -> (found: Option<usize>)
        ensures
            self@.wf(),
            found matches Some(i) ==> self@.has_game(id) && i == self@.game_index(id) && i
                < self@.games.len(),
            found is None ==> !self@.has_game(id),
    {
        proof {
            use_type_invariant(self);
        }
        let mut i: usize = 0;
        while i < self.games.len()
            invariant
                self@.wf(),
                i <= self.games@.len(),
                forall|k: int| 0 <= k < i ==> (#[trigger] self.games@[k]).id != id,
            decreases self.games@.len() - i,
        {
            if self.games[i].id == id {
                proof {
                    let j = self@.game_index(id);
                    assert(self@.games[i as int].id == id);
                    assert(self@.games[j].id == id);
                    if j < i {
                        assert(self@.games[j].id@ < self@.games[i as int].id@);
                    }
                    if i < j {
                        assert(self@.games[i as int].id@ < self@.games[j].id@);
                    }
                }
                return Some(i);
            }
            i += 1;
        }
        None
    }

    /// Takes the game off the list of games that are going on.
    fn remove_game(&mut self, id: GameId)
        ensures
            old(self)@.wf(),
            final(self)@.wf(),
            final(self)@ == old(self)@.without_game(id),
    {
        proof {
            use_type_invariant(&*self);
        }
        match self.find_game(id) {
            Some(i) => {
                let ghost before = self@;
                let mut games: Vec<message::Game> = Vec::new();
                proof {
                    assert(before.wf());
                    let after = DbView { games: games@, ..before };
                    assert(after.users == before.users);
                    assert(after.moves == before.moves);
                    assert(after.wf());
                }
                core::mem::swap(&mut self.games, &mut games);
                games.remove(i);
                proof {
                    assert forall|a: int, b: int| 0 <= a < b < games@.len() implies (
                    #[trigger] games@[a]).id@ < (#[trigger] games@[b]).id@ by {
                        let a0 = if a < i { a } else { a + 1 };
                        let b0 = if b < i { b } else { b + 1 };
                        assert(games@[a] == before.games[a0]);
                        assert(games@[b] == before.games[b0]);
                    }
                    assert forall|a: int| 0 <= a < games@.len() implies (#[trigger] games@[a]).id@
                        <= before.last_id by {
                        let a0 = if a < i { a } else { a + 1 };
                        assert(games@[a] == before.games[a0]);
                    }
                }
                self.games = games;
            },
            None => {},
        }
    }

    /// Whether the move of the game at the ply is recorded.
    pub fn has_move(&self, id: GameId, half_move: u16) -> (found: bool)
        ensures
            self@.wf(),
            found == self@.has_move(id, half_move as int),
    {
        proof {
            use_type_invariant(self);
        }
        let mut i: usize = 0;
        while i < self.moves.len()
            invariant
                self@.wf(),
                i <= self.moves@.len(),
                forall|k: int|
                    0 <= k < i ==> !((#[trigger] self@.moves[k]).game == id
                        && self@.moves[k].half_move == half_move),
            decreases self.moves@.len() - i,
        {
            proof {
                id.lemma_same(self.moves@[i as int].game);
                assert(self@.moves[i as int] == self.moves@[i as int]@);
            }
            if self.moves[i].game.value() == id.value() && self.moves[i].half_move == half_move {
                proof {
                    assert(self@.moves[i as int].game == id);
                }
                return true;
            }
            i += 1;
        }
        false
    }

    /// Why a settlement cannot be made, if it cannot.
    pub fn settle_error(&self, plan: Settlement) -> (error: Option<Error>)
        ensures
            self@.wf(),
            error == self@.settle_error(plan),
    {
        let i = match self.find_user(plan.first) {
            Some(i) => i,
            None => {
                return Some(Error::NotFound);
            },
        };
        let j = match self.find_user(plan.second) {
            Some(j) => j,
            None => {
                return Some(Error::NotFound);
            },
        };
        if self.users[i].count(plan.first_counter) == i32::MAX || self.users[j].count(
            plan.second_counter,
        ) == i32::MAX {
            Some(Error::Storage)
        } else {
            None
        }
    }

    /// Ends a game: the records of its players are settled and the game is
    /// taken off the list. Without an outcome the game is only taken off.
    ///
    /// For a win, the winner's rating is made anew with a win against the
    /// loser's rating and the loser's with a loss against the winner's; for
    /// a draw, both players' with a draw against the other's. `rate` makes
    /// a rating anew from the rating, the opponent's rating and the score.
    /// Both times it is handed the ratings as they were before either was
    /// written.
    pub fn end_game<F>(&mut self, game: &Game, outcome: Option<Outcome>, rate: F) -> (result:
        Result<(), Error>) where F: Fn(Glicko2Rating, Glicko2Rating, Score) -> Glicko2Rating
        requires
            forall|rating: Glicko2Rating, opponent: Glicko2Rating, score: Score|
                rate.requires((rating, opponent, score)),
        ensures
            old(self)@.wf(),
            final(self)@.wf(),
            match outcome {
                None => result is Ok && final(self)@ == old(self)@.without_game(game@.id),
                Some(o) => {
                    let plan = Settlement::of(game@.white, game@.black, o);
                    match old(self)@.settle_error(plan) {
                        Some(e) => result == Err::<(), Error>(e) && final(self)@ == old(self)@,
                        None => result is Ok && old(self)@.ended_by(
                            final(self)@,
                            game@.id,
                            plan,
                            rate,
                        ),
                    }
                },
            },
    {
        proof {
            use_type_invariant(&*self);
        }
        let plan = match outcome {
            Some(outcome) => Settlement::of(game.white(), game.black(), outcome),
            None => {
                self.remove_game(game.id());
                return Ok(());
            },
        };
        let i = match self.find_user(plan.first) {
            Some(i) => i,
            None => {
                return Err(Error::NotFound);
            },
        };
        let j = match self.find_user(plan.second) {
            Some(j) => j,
            None => {
                return Err(Error::NotFound);
            },
        };
        if self.users[i].count(plan.first_counter) == i32::MAX || self.users[j].count(
            plan.second_counter,
        ) == i32::MAX {
            return Err(Error::Storage);
        }
        let first = rate(self.users[i].rating, self.users[j].rating, plan.first_score);
        let second = rate(self.users[j].rating, self.users[i].rating, plan.second_score);
        let ghost before = self@;
        let mut users: Vec<User> = Vec::new();
        proof {
            assert(DbView { users: users@, ..before }.wf());
        }
        core::mem::swap(&mut self.users, &mut users);
        users[i] = users[i].rated(first);
        users[j] = users[j].rated(second);
        users[i] = users[i].bumped(plan.first_counter);
        users[j] = users[j].bumped(plan.second_counter);
        proof {
            assert(users@ =~= before.settled_users(plan, first, second));
            assert forall|k: int| 0 <= k < users@.len() implies (#[trigger] users@[k]).address
                == before.users[k].address && users@[k].counted() by {
                assert(before.users[k].counted());
            }
            assert forall|a: int, b: int| 0 <= a < b < users@.len() implies (
            #[trigger] users@[a]).address@ != (#[trigger] users@[b]).address@ by {
                assert(users@[a].address == before.users[a].address);
                assert(users@[b].address == before.users[b].address);
            }
            assert(DbView { users: users@, ..before }.wf());
        }
        self.users = users;
        self.remove_game(game.id());
        proof {
            assert(before.user(plan.first@) == before.users[i as int]);
            assert(before.user(plan.second@) == before.users[j as int]);
            assert(rated(
                rate,
                before.user(plan.first@).rating,
                before.user(plan.second@).rating,
                plan.first_score,
                first,
            ));
            assert(rated(
                rate,
                before.user(plan.second@).rating,
                before.user(plan.first@).rating,
                plan.second_score,
                second,
            ));
            assert(self@ == before.settled(game@.id, plan, first, second));
        }
        Ok(())
    }

    /// Enters a game that got its number elsewhere.
    pub fn insert_game(&mut self, game: &Game) -> (result: Result<(), Error>)
        ensures
            old(self)@.wf(),
            final(self)@.wf(),
            match old(self)@.insert_game(game@) {
                Ok(after) => result is Ok && final(self)@ == after,
                Err(e) => result == Err::<(), Error>(e) && final(self)@ == old(self)@,
            },
    {
        proof {
            use_type_invariant(&*self);
        }
        let id = game.id();
        let ghost before = self@;
        let mut k: usize = 0;
        while k < self.games.len() && self.games[k].id.value() < id.value()
            invariant
                self@ == before,
                before.wf(),
                k <= self.games@.len(),
                forall|i: int| 0 <= i < k ==> (#[trigger] self.games@[i]).id@ < id@,
            decreases self.games@.len() - k,
        {
            k += 1;
        }
        if k < self.games.len() && self.games[k].id.value() == id.value() {
            proof {
                id.lemma_same(self.games@[k as int].id);
                assert(before.games[k as int].id == id);
            }
            return Err(Error::Storage);
        }
        proof {
            assert forall|i: int| k <= i < before.games.len() implies (#[trigger] before.games[i]).id@
                > id@ by {
                if i > k {
                    assert(before.games[k as int].id@ < before.games[i].id@);
                }
            }
            assert(!before.has_game(id)) by {
                if before.has_game(id) {
                    let i = before.game_index(id);
                    assert(before.games[i].id == id);
                }
            }
            assert(before.is_game_slot(id, k as int));
            let slot = before.game_slot(id);
            if slot < k {
                assert(before.games[slot].id@ < id@);
            }
            if k < slot {
                assert(before.games[k as int].id@ > id@);
            }
            assert(slot == k);
        }
        let row = message::Game { id, white: game.white(), black: game.black() };
        let last_id: i32 = if id.value() > self.last_id {
            id.value()
        } else {
            self.last_id
        };
        let mut games: Vec<message::Game> = Vec::new();
        proof {
            assert(DbView { games: games@, ..before }.wf());
        }
        core::mem::swap(&mut self.games, &mut games);
        games.insert(k, row);
        proof {
            let after = DbView { games: games@, last_id: last_id as int, ..before };
            assert forall|a: int, b: int| 0 <= a < b < games@.len() implies (#[trigger] games@[a]).id@
                < (#[trigger] games@[b]).id@ by {
                let a0 = if a < k { a } else { a - 1 };
                let b0 = if b < k { b } else { b - 1 };
                if a != k {
                    assert(games@[a] == before.games[a0]);
                }
                if b != k {
                    assert(games@[b] == before.games[b0]);
                }
            }
            assert forall|a: int| 0 <= a < games@.len() implies (#[trigger] games@[a]).id@
                <= last_id by {
                let a0 = if a < k { a } else { a - 1 };
                if a != k {
                    assert(games@[a] == before.games[a0]);
                }
            }
            assert(after.wf());
            assert(DbView { games: Seq::empty(), last_id: last_id as int, ..before }.wf());
        }
        self.last_id = last_id;
        self.games = games;
        Ok(())
    }

    /// Records a move of a game.
    pub fn record_move(&mut self, id: GameId, m: Move) -> (result: Result<(), Error>)
        ensures
            old(self)@.wf(),
            final(self)@.wf(),
            match old(self)@.record_move(id, m@) {
                Ok(after) => result is Ok && final(self)@ == after,
                Err(e) => result == Err::<(), Error>(e) && final(self)@ == old(self)@,
            },
    {
        proof {
            use_type_invariant(&*self);
        }
        let half_move = m.half_move();
        let san = m.san();
        let ghost before = self@;
        let ghost record = MoveRecord { game: id, half_move: half_move as int, san: san@ };
        let mut k: usize = 0;
        while k < self.moves.len() && (self.moves[k].game.value() < id.value() || (
        self.moves[k].game.value() == id.value() && self.moves[k].half_move < half_move))
            invariant
                self@ == before,
                before.wf(),
                record.game == id,
                record.half_move == half_move,
                k <= self.moves@.len(),
                forall|i: int| 0 <= i < k ==> (#[trigger] before.moves[i]).before(record),
            decreases self.moves@.len() - k,
        {
            proof {
                id.lemma_same(self.moves@[k as int].game);
                assert(before.moves[k as int] == self.moves@[k as int]@);
            }
            k += 1;
        }
        proof {
            if k < self.moves@.len() {
                id.lemma_same(self.moves@[k as int].game);
                assert(before.moves[k as int] == self.moves@[k as int]@);
            }
        }
        if k < self.moves.len() && self.moves[k].game.value() == id.value()
            && self.moves[k].half_move == half_move {
            proof {
                assert(before.moves[k as int].game == id);
            }
            return Err(Error::Storage);
        }
        proof {
            assert forall|i: int| k <= i < before.moves.len() implies record.before(
                #[trigger] before.moves[i],
            ) by {
                before.moves[i].game.lemma_same(id);
                before.moves[k as int].game.lemma_same(id);
                before.moves[k as int].game.lemma_same(before.moves[i].game);
                if i > k {
                    assert(before.moves[k as int].before(before.moves[i]));
                }
            }
            assert(!before.has_move(id, half_move as int)) by {
                if before.has_move(id, half_move as int) {
                    let i = choose|i: int|
                        0 <= i < before.moves.len() && (#[trigger] before.moves[i]).game == id
                            && before.moves[i].half_move == half_move;
                    if i < k {
                        assert(before.moves[i].before(record));
                    } else {
                        assert(record.before(before.moves[i]));
                    }
                }
            }
            assert(before.is_move_slot(record, k as int));
            let slot = before.move_slot(record);
            if slot < k {
                assert(before.moves[slot].before(record));
                assert(record.before(before.moves[slot]));
            }
            if k < slot {
                assert(before.moves[k as int].before(record));
                assert(record.before(before.moves[k as int]));
            }
            assert(slot == k);
        }
        let row = MoveRow { game: id, half_move, san };
        let mut moves: Vec<MoveRow> = Vec::new();
        proof {
            assert(records(moves@) =~= Seq::empty());
            assert(DbView { moves: records(moves@), ..before }.wf());
        }
        core::mem::swap(&mut self.moves, &mut moves);
        moves.insert(k, row);
        proof {
            let after = DbView { moves: records(moves@), ..before };
            assert(records(moves@) =~= before.moves.insert(k as int, record));
            assert forall|a: int, b: int| 0 <= a < b < after.moves.len() implies (
            #[trigger] after.moves[a]).before(#[trigger] after.moves[b]) by {
                let a0 = if a < k { a } else { a - 1 };
                let b0 = if b < k { b } else { b - 1 };
                if a != k {
                    assert(after.moves[a] == before.moves[a0]);
                }
                if b != k {
                    assert(after.moves[b] == before.moves[b0]);
                }
                if a != k && b != k {
                    assert(before.moves[a0].before(before.moves[b0]));
                }
            }
            assert forall|a: int| 0 <= a < after.moves.len() implies 0 <= (
            #[trigger] after.moves[a]).half_move <= u16::MAX by {
                let a0 = if a < k { a } else { a - 1 };
                if a != k {
                    assert(after.moves[a] == before.moves[a0]);
                }
            }
            assert(after.wf());
        }
        self.moves = moves;
        Ok(())
    }

    /// The notations of the recorded moves of a game from the ply `from`
    /// on, in ascending order of their plies.
    pub fn moves(&self, id: GameId, from: u16) -> (moves: Vec<String>)
        ensures
            self@.wf(),
            texts_of(moves@) == self@.notations(id@, from as int),
    {
        proof {
            use_type_invariant(self);
        }
        let ghost wanted = is_asked(id@, from as int);
        let ghost text = |m: MoveRecord| m.san;
        let mut found: Vec<String> = Vec::new();
        let mut i: usize = 0;
        while i < self.moves.len()
            invariant
                i <= self.moves@.len(),
                wanted == is_asked(id@, from as int),
                text == |m: MoveRecord| m.san,
                texts_of(found@) == records(self.moves@).take(i as int).filter(wanted).map_values(
                    text,
                ),
            decreases self.moves@.len() - i,
        {
            let ghost rows = records(self.moves@);
            proof {
                lemma_filter_step(rows, wanted, i as int);
                id.lemma_same(self.moves@[i as int].game);
                assert(rows[i as int] == self.moves@[i as int]@);
            }
            if self.moves[i].game.value() == id.value() && self.moves[i].half_move >= from {
                let ghost before = texts_of(found@);
                found.push(self.moves[i].san.clone());
                proof {
                    assert(texts_of(found@) =~= before.push(rows[i as int].san));
                    assert(rows.take(i + 1).filter(wanted).map_values(text) =~= rows.take(
                        i as int,
                    ).filter(wanted).map_values(text).push(rows[i as int].san));
                }
            }
            i += 1;
        }
        proof {
            assert(records(self.moves@).take(self.moves@.len() as int) =~= records(self.moves@));
        }
        found
    }

    /// The games going on in which the player takes part and whose number
    /// is above `after`, in ascending order of their numbers. Without
    /// `after`, the games whose number is not negative.
    pub fn games(&self, address: Address, after: Option<GameId>) -> (games: Vec<message::Game>)
        ensures
            self@.wf(),
            games@ == self@.games_of(
                address@,
                match after {
                    Some(after) => Some(after@),
                    None => None,
                },
            ),
            forall|i: int, j: int|
                0 <= i < j < games@.len() ==> (#[trigger] games@[i]).id@ < (#[trigger] games@[j]).id@,
    {
        proof {
            use_type_invariant(self);
        }
        let from: i64 = match after {
            Some(after) => after.value() as i64 + 1,
            None => 0,
        };
        let ghost wanted = is_listed(address@, from as int);
        let mut found: Vec<message::Game> = Vec::new();
        let mut i: usize = 0;
        while i < self.games.len()
            invariant
                i <= self.games@.len(),
                wanted == is_listed(address@, from as int),
                found@ == self.games@.take(i as int).filter(wanted),
            decreases self.games@.len() - i,
        {
            proof {
                lemma_filter_step(self.games@, wanted, i as int);
            }
            let row = self.games[i];
            if row.id.value() as i64 >= from && (row.white == address || row.black == address) {
                found.push(row);
            }
            i += 1;
        }
        proof {
            assert(self.games@.take(self.games@.len() as int) =~= self.games@);
            lemma_games_ascend(
                self@,
                address@,
                match after {
                    Some(after) => Some(after@),
                    None => None,
                },
            );
        }
        found
    }

    /// The highest number of a game that is going on.
    pub fn max_game(&self) -> (id: Option<GameId>)
        ensures
            self@.wf(),
            id == self@.max_game(),
    {
        proof {
            use_type_invariant(self);
        }
        if self.games.len() == 0 {
            None
        } else {
            Some(self.games[self.games.len() - 1].id)
        }
    }

    /// The record of a player.
    pub fn user_stats(&self, address: Address) -> (result: Result<UserStats, Error>)
        ensures
            self@.wf(),
            result == self@.user_stats(address@),
    {
        match self.find_user(address) {
            Some(i) => {
                let user = self.users[i];
                proof {
                    assert(self@.users[i as int].counted());
                }
                Ok(
                    UserStats {
                        rating: user.rating,
                        white_wins: (user.white_wins % 0x1_0000) as u16,
                        white_losses: (user.white_losses % 0x1_0000) as u16,
                        white_draws: (user.white_draws % 0x1_0000) as u16,
                        black_wins: (user.black_wins % 0x1_0000) as u16,
                        black_losses: (user.black_losses % 0x1_0000) as u16,
                        black_draws: (user.black_draws % 0x1_0000) as u16,
                    },
                )
            },
            None => Err(Error::NotFound),
        }
    }

    /// The record of a game in one line, from the recorded moves. A game
    /// without recorded moves has an empty record, whether or not it is
    /// going on.
    pub fn game_notation(&self, id: GameId) -> (text: String)
        ensures
            self@.wf(),
            text@ == notation_text(self@.notations(id@, 0)),
    {
        let moves = self.moves(id, 0);
        notation(&moves)
    }

    /// Loads a game: its recorded moves are played again from the start.
    #[verifier::loop_isolation(false)]
    pub fn game(&self, id: GameId) -> (result: Result<Game, Error>)
        ensures
            self@.wf(),
            match self@.load(id) {
                Ok(game) => result matches Ok(loaded) && loaded@ == game && game.wf(),
                Err(e) => result matches Err(err) && err == e,
            },
            result matches Ok(loaded) ==> loaded@.id == id,
    {
        let row = match self.find_game(id) {
            Some(i) => self.games[i],
            None => {
                return Err(Error::NotFound);
            },
        };
        let stored = self.moves(id, 0);
        let ghost texts = self@.notations(id@, 0);
        let mut sans: Vec<San> = Vec::new();
        let mut i: usize = 0;
        while i < stored.len()
            invariant
                i <= stored@.len(),
                texts_of(stored@) == texts,
                sans@.len() == i,
                forall|k: int| 0 <= k < i ==> san_text(#[trigger] texts[k]) == Some(sans@[k]@),
            decreases stored@.len() - i,
        {
            proof {
                assert(texts[i as int] == stored@[i as int]@);
            }
            match San::parse(stored[i].as_str()) {
                Some(san) => {
                    sans.push(san);
                },
                None => {
                    proof {
                        assert(san_text(texts[i as int]) is None);
                    }
                    return Err(Error::IllegalMove);
                },
            }
            i += 1;
        }
        proof {
            assert(san_texts(sans@) =~= texts.map_values(|t: Seq<char>| san_text(t)->0));
        }
        Game::from_moves(id, row.white, row.black, sans)
    }
}

} // verus!
