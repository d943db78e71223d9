//! The game engine: players, position, ply counter and the chained hash that
//! commits to all of them.

use crate::address::{address_text, Address};
use crate::board::{board_text, draw};
use crate::chess::{
    checkmated, in_check, lacks_material, position_after, san_text, stalemated, start, verdict,
    white_to_move, Color, Position, San, Verdict,
};
use crate::digest::{keccak, keccak256, GameHash};
use crate::error::Error;
use crate::text::{
    chars_of, decimal, digits_string, is_digit, lemma_digits, lemma_filter_all, lemma_filter_step,
    lemma_split_append, split, split_at, string_of, texts_of, views,
};
use vstd::prelude::*;
use vstd::string::StringExecFns;
use vstd::utf8::encode_utf8;

verus! {

/// The number of a game, given out when the game is created.
#[derive(Clone, Copy, Debug, PartialEq, Eq, Structural)]
pub struct GameId(i32);

impl View for GameId {
    type V = int;

    closed spec fn view(&self) -> int {
        self.0 as int
    }
}

impl GameId {
    /// The game number `value`.
    pub closed spec fn spec_new(value: i32) -> GameId {
        GameId(value)
    }

    /// The game number `value`.
    #[verifier::when_used_as_spec(spec_new)]
    pub fn new(value: i32) -> (id: GameId)
        ensures
            id == GameId::spec_new(value),
            id@ == value,
    {
        GameId(value)
    }

    /// The number as an integer.
    pub fn value(&self) -> (value: i32)
        ensures
            value == self@,
    {
        self.0
    }

    /// A game number stands for the integer it was made of.
    pub proof fn lemma_spec_new(value: i32)
        ensures
            GameId::spec_new(value)@ == value,
    {
    }

    /// Game numbers that stand for the same integer are the same, and
    /// every one stands for an integer of 32 bits.
    pub proof fn lemma_same(self, other: GameId)
        ensures
            (self@ == other@) == (self == other),
            i32::MIN <= self@ <= i32::MAX,
    {
    }
}

impl From<i32> for GameId {
    fn from(value: i32) -> (id: GameId) {
        GameId(value)
    }
}

impl vstd::std_specs::convert::FromSpecImpl<i32> for GameId {
    open spec fn obeys_from_spec() -> bool {
        true
    }

    open spec fn from_spec(value: i32) -> GameId {
        GameId::spec_new(value)
    }
}

impl From<GameId> for i32 {
    fn from(id: GameId) -> (value: i32) {
        id.0
    }
}

impl vstd::std_specs::convert::FromSpecImpl<GameId> for i32 {
    open spec fn obeys_from_spec() -> bool {
        true
    }

    open spec fn from_spec(id: GameId) -> i32 {
        id@ as i32
    }
}

/// How a game ended.
#[derive(Clone, Copy, Debug)]
pub enum Outcome {
    Checkmate { winner: Address, loser: Address },
    Resignation { winner: Address, loser: Address },
    Stalemate,
    InsufficientMaterial,
    Draw,
}

impl Outcome {
    /// The winner and the loser, where the outcome has them.
    pub open spec fn spec_winner_loser(&self) -> Option<(Address, Address)> {
        match self {
            Outcome::Checkmate { winner, loser } => Some((*winner, *loser)),
            Outcome::Resignation { winner, loser } => Some((*winner, *loser)),
            _ => None,
        }
    }

    /// The addresses of the winning and losing players, if the outcome is
    /// decisive.
    #[verifier::when_used_as_spec(spec_winner_loser)]
    pub fn winner_loser(&self) -> (players: Option<(Address, Address)>)
        ensures
            players == self.spec_winner_loser(),
    {
        match self {
            Outcome::Checkmate { winner, loser } => Some((*winner, *loser)),
            Outcome::Resignation { winner, loser } => Some((*winner, *loser)),
            _ => None,
        }
    }

    /// Whether the outcome has a winner.
    pub open spec fn spec_is_victory(&self) -> bool {
        self.spec_winner_loser() is Some
    }

    /// Whether the outcome has a winner.
    #[verifier::when_used_as_spec(spec_is_victory)]
    pub fn is_victory(&self) -> (victory: bool)
        ensures
            victory == self.spec_is_victory(),
    {
        self.winner_loser().is_some()
    }

    /// Whether the outcome has no winner.
    pub open spec fn spec_is_draw(&self) -> bool {
        !self.spec_is_victory()
    }

    /// Whether the outcome has no winner.
    #[verifier::when_used_as_spec(spec_is_draw)]
    pub fn is_draw(&self) -> (draw: bool)
        ensures
            draw == self.spec_is_draw(),
    {
        !self.is_victory()
    }

    /// The sentence that tells the outcome.
    pub open spec fn message_text(&self) -> Seq<char> {
        match self {
            Outcome::Checkmate { winner, loser } => address_text(winner@) + " defeats "@
                + address_text(loser@) + " by checkmate"@,
            Outcome::Resignation { winner, loser } => address_text(winner@)
                + " wins by resignation"@,
            Outcome::Stalemate => "the game ends in a draw due to stalemate"@,
            Outcome::InsufficientMaterial => "the game ends in a draw due to insufficient material"@,
            Outcome::Draw => "the game is drawn"@,
        }
    }

    /// The sentence that tells the outcome.
    pub fn message(&self) -> (text: String)
        ensures
            text@ == self.message_text(),
    {
        match self {
            Outcome::Checkmate { winner, loser } => {
                let mut text = winner.to_text();
                text.append(" defeats ");
                text.append(loser.to_text().as_str());
                text.append(" by checkmate");
                text
            },
            Outcome::Resignation { winner, loser } => {
                let mut text = winner.to_text();
                text.append(" wins by resignation");
                text
            },
            Outcome::Stalemate => String::from_str("the game ends in a draw due to stalemate"),
            Outcome::InsufficientMaterial => String::from_str(
                "the game ends in a draw due to insufficient material",
            ),
            Outcome::Draw => String::from_str("the game is drawn"),
        }
    }
}

/// The four bytes of a game number, least significant first.
pub open spec fn le_bytes(id: int) -> Seq<u8> {
    let unsigned = if id < 0 {
        id + 0x1_0000_0000
    } else {
        id
    };
    seq![
        (unsigned % 256) as u8,
        (unsigned / 256 % 256) as u8,
        (unsigned / 65536 % 256) as u8,
        (unsigned / 16777216 % 256) as u8,
    ]
}

/// The hash of a game before its first move.
pub open spec fn initial_hash(id: int, white: Seq<u8>, black: Seq<u8>) -> Seq<u8> {
    keccak256(le_bytes(id) + white + black)
}

/// The position after the given moves from the starting position, where
/// each of them is legal in its turn.
pub open spec fn position_at(moves: Seq<Seq<char>>) -> Option<Seq<char>>
    decreases moves.len(),
{
    if moves.len() == 0 {
        Some(start())
    } else {
        match position_at(moves.drop_last()) {
            Some(before) => position_after(before, moves.last()),
            None => None,
        }
    }
}

/// The mark that a move gets for the position it leads to: `#` for
/// checkmate, else `+` for check, else none.
pub open spec fn suffix(after: Seq<char>) -> Seq<char> {
    if checkmated(after) {
        seq!['#']
    } else if in_check(after) {
        seq!['+']
    } else {
        Seq::empty()
    }
}

/// The notation of the last of the given moves: its text and its mark.
pub open spec fn last_notation(moves: Seq<Seq<char>>) -> Seq<char> {
    moves.last() + suffix(position_at(moves)->0)
}

/// The hash of a game after the given moves: each move's notation is
/// chained onto the hash before it.
pub open spec fn hash_at(id: int, white: Seq<u8>, black: Seq<u8>, moves: Seq<Seq<char>>) -> Seq<
    u8,
>
    decreases moves.len(),
{
    if moves.len() == 0 {
        initial_hash(id, white, black)
    } else {
        keccak256(
            hash_at(id, white, black, moves.drop_last()) + encode_utf8(last_notation(moves)),
        )
    }
}

/// The record of a game in one line: every move followed by a space, and
/// before each move of white the number of the move and a full stop, as in
/// `1.e4 e5 2.Nf3 `.
pub open spec fn notation_text(moves: Seq<Seq<char>>) -> Seq<char>
    decreases moves.len(),
{
    if moves.len() == 0 {
        Seq::empty()
    } else {
        let before = notation_text(moves.drop_last());
        let ply = moves.len() - 1;
        if ply % 2 == 0 {
            before + decimal(ply / 2 + 1) + seq!['.'] + moves.last() + seq![' ']
        } else {
            before + moves.last() + seq![' ']
        }
    }
}

/// Writes the record of a game from the notations of its moves.
pub fn notation(moves: &Vec<String>) -> (text: String)
    ensures
        text@ == notation_text(texts_of(moves@)),
{
    let mut text = String::new();
    let mut i: usize = 0;
    while i < moves.len()
        invariant
            i <= moves@.len(),
            text@ == notation_text(texts_of(moves@).take(i as int)),
        decreases moves@.len() - i,
    {
        let ghost before = text@;
        let ghost upto = texts_of(moves@).take(i + 1);
        proof {
            assert(upto.drop_last() =~= texts_of(moves@).take(i as int));
            assert(upto.last() == moves@[i as int]@);
        }
        if i % 2 == 0 {
            let number = digits_string((i / 2 + 1) as u64);
            text.append(number.as_str());
            text.append(".");
            proof {
                reveal_strlit(".");
                assert("."@ =~= seq!['.']);
            }
        }
        text.append(moves[i].as_str());
        text.append(" ");
        proof {
            reveal_strlit(" ");
            assert(" "@ =~= seq![' ']);
            assert(text@ =~= notation_text(upto));
        }
        i += 1;
    }
    proof {
        assert(texts_of(moves@).take(moves@.len() as int) =~= texts_of(moves@));
    }
    text
}

/// Whether a text can stand for a move in the record of a game: it is not
/// empty and holds neither a space nor a full stop.
pub open spec fn is_plain(text: Seq<char>) -> bool {
    text.len() > 0 && !text.contains(' ') && !text.contains('.')
}

/// A piece of a record without the number in front of it: what stands
/// behind the first full stop, or the whole piece where it has none.
pub open spec fn after_stop(piece: Seq<char>) -> Seq<char>
    decreases piece.len(),
{
    if !piece.contains('.') {
        piece
    } else if piece[0] == '.' {
        piece.drop_first()
    } else {
        after_stop(piece.drop_first())
    }
}

/// The moves that the record of a game holds: the pieces between its
/// spaces, each without the number in front of it.
pub open spec fn notation_moves(text: Seq<char>) -> Seq<Seq<char>> {
    split(text, ' ').filter(|piece: Seq<char>| piece.len() > 0).map_values(
        |piece: Seq<char>| after_stop(piece),
    )
}

/// Takes the number off a piece of a record.
fn strip_number(piece: &Vec<char>) -> (rest: Vec<char>)
    ensures
        rest@ == after_stop(piece@),
{
    proof {
        assert(piece@.skip(0) =~= piece@);
    }
    let mut i: usize = 0;
    while i < piece.len()
        invariant
            i <= piece@.len(),
            forall|k: int| 0 <= k < i ==> piece@[k] != '.',
            piece@.skip(i as int).contains('.') ==> after_stop(piece@) == after_stop(
                piece@.skip(i as int),
            ),
        decreases piece@.len() - i,
    {
        let ghost rest = piece@.skip(i as int);
        proof {
            assert(rest[0] == piece@[i as int]);
            assert(rest.drop_first() =~= piece@.skip(i + 1));
        }
        if piece[i] == '.' {
            let mut out: Vec<char> = Vec::new();
            let mut j: usize = i + 1;
            while j < piece.len()
                invariant
                    i + 1 <= j <= piece@.len(),
                    out@ == piece@.subrange(i + 1, j as int),
                decreases piece@.len() - j,
            {
                out.push(piece[j]);
                proof {
                    assert(piece@.subrange(i + 1, j + 1) =~= piece@.subrange(i + 1, j as int).push(
                        piece@[j as int],
                    ));
                }
                j += 1;
            }
            proof {
                assert(rest.contains('.'));
                assert(piece@.subrange(i + 1, piece@.len() as int) =~= rest.drop_first());
            }
            return out;
        }
        proof {
            if rest.drop_first().contains('.') {
                let k = choose|k: int|
                    0 <= k < rest.drop_first().len() && rest.drop_first()[k] == '.';
                assert(rest[k + 1] == '.');
                assert(rest.contains('.'));
            }
        }
        i += 1;
    }
    proof {
        assert(!piece@.contains('.'));
    }
    piece.clone()
}

/// Reads the moves out of the record of a game.
pub fn parse_notation(text: &str) -> (moves: Vec<String>)
    ensures
        texts_of(moves@) == notation_moves(text@),
{
    let chars = chars_of(text);
    let pieces = split_at(chars.as_slice(), ' ');
    let ghost all = split(text@, ' ');
    let ghost filled = |piece: Seq<char>| piece.len() > 0;
    let ghost bare = |piece: Seq<char>| after_stop(piece);
    let mut moves: Vec<String> = Vec::new();
    let mut i: usize = 0;
    while i < pieces.len()
        invariant
            i <= pieces@.len(),
            views(pieces@) == all,
            filled == |piece: Seq<char>| piece.len() > 0,
            bare == |piece: Seq<char>| after_stop(piece),
            texts_of(moves@) == all.take(i as int).filter(filled).map_values(bare),
        decreases pieces@.len() - i,
    {
        proof {
            lemma_filter_step(all, filled, i as int);
            assert(all[i as int] == pieces@[i as int]@);
        }
        if pieces[i].len() > 0 {
            let ghost before = texts_of(moves@);
            let rest = strip_number(&pieces[i]);
            moves.push(string_of(rest.as_slice()));
            proof {
                assert(texts_of(moves@) =~= before.push(after_stop(all[i as int])));
                assert(all.take(i + 1).filter(filled).map_values(bare) =~= all.take(
                    i as int,
                ).filter(filled).map_values(bare).push(after_stop(all[i as int])));
            }
        }
        i += 1;
    }
    proof {
        assert(all.take(all.len() as int) =~= all);
    }
    moves
}

/// The piece that stands for a move in the record of a game: the move,
/// with its number in front where it is a move of white.
pub open spec fn notation_piece(moves: Seq<Seq<char>>, ply: int) -> Seq<char> {
    if ply % 2 == 0 {
        decimal(ply / 2 + 1) + seq!['.'] + moves[ply]
    } else {
        moves[ply]
    }
}

/// The pieces of the record of a game.
pub open spec fn notation_pieces(moves: Seq<Seq<char>>) -> Seq<Seq<char>> {
    Seq::new(moves.len(), |ply: int| notation_piece(moves, ply))
}

/// Behind a number and a full stop stands what `after_stop` leaves.
proof fn lemma_after_number(number: Seq<char>, rest: Seq<char>)
    requires
        !number.contains('.'),
    ensures
        after_stop(number + seq!['.'] + rest) == rest,
    decreases number.len(),
{
    let piece = number + seq!['.'] + rest;
    assert(piece[number.len() as int] == '.');
    assert(piece.contains('.'));
    if number.len() == 0 {
        assert(piece.drop_first() =~= rest);
    } else {
        assert(piece[0] == number[0]);
        assert(number.contains(number[0]));
        assert forall|i: int| 0 <= i < number.drop_first().len() implies number.drop_first()[i]
            != '.' by {
            assert(number.drop_first()[i] == number[i + 1]);
            assert(number.contains(number[i + 1]));
        }
        assert(piece.drop_first() =~= number.drop_first() + seq!['.'] + rest);
        lemma_after_number(number.drop_first(), rest);
    }
}

/// The number of a move holds neither a space nor a full stop.
proof fn lemma_number_is_plain(n: int)
    requires
        n >= 0,
    ensures
        !decimal(n).contains(' '),
        !decimal(n).contains('.'),
{
    lemma_digits(n as nat);
    let text = decimal(n);
    if text.contains(' ') {
        let i = choose|i: int| 0 <= i < text.len() && text[i] == ' ';
        assert(is_digit(text[i]));
    }
    if text.contains('.') {
        let i = choose|i: int| 0 <= i < text.len() && text[i] == '.';
        assert(is_digit(text[i]));
    }
}

/// The record of a game is cut at its spaces into the pieces of its moves
/// and an empty piece behind the last space.
proof fn lemma_notation_pieces(moves: Seq<Seq<char>>)
    requires
        forall|i: int| 0 <= i < moves.len() ==> is_plain(#[trigger] moves[i]),
    ensures
        split(notation_text(moves), ' ') == notation_pieces(moves).push(Seq::<char>::empty()),
    decreases moves.len(),
{
    if moves.len() == 0 {
        assert(notation_pieces(moves).push(Seq::<char>::empty()) =~= seq![Seq::<char>::empty()]);
    } else {
        let shorter = moves.drop_last();
        let ply = moves.len() - 1;
        assert forall|i: int| 0 <= i < shorter.len() implies is_plain(#[trigger] shorter[i]) by {
            assert(shorter[i] == moves[i]);
        }
        lemma_notation_pieces(shorter);
        let before = notation_text(shorter);
        let piece = notation_piece(moves, ply);
        assert(is_plain(moves[ply]));
        lemma_number_is_plain(ply / 2 + 1);
        assert(!piece.contains(' ')) by {
            if piece.contains(' ') {
                let i = choose|i: int| 0 <= i < piece.len() && piece[i] == ' ';
                if ply % 2 == 0 {
                    let number = decimal(ply / 2 + 1);
                    if i < number.len() {
                        assert(number[i] == ' ');
                    } else if i > number.len() {
                        assert(moves[ply][i - number.len() - 1] == ' ');
                    }
                }
            }
        }
        assert(notation_text(moves) =~= (before + piece).push(' '));
        lemma_split_append(before, piece, ' ');
        assert(Seq::<char>::empty() + piece =~= piece);
        let cut = before + piece;
        assert(cut.push(' ').drop_last() =~= cut);
        assert(split(cut.push(' '), ' ') == split(cut, ' ').push(Seq::<char>::empty()));
        assert forall|i: int| 0 <= i < shorter.len() implies notation_piece(shorter, i)
            == notation_piece(moves, i) by {
            assert(shorter[i] == moves[i]);
        }
        assert(split(cut, ' ') =~= notation_pieces(moves));
    }
}

/// The record of a game reads back as the moves it was written from, where
/// each of them is a text that can stand for a move.
pub proof fn lemma_notation_reads_back(moves: Seq<Seq<char>>)
    requires
        forall|i: int| 0 <= i < moves.len() ==> is_plain(#[trigger] moves[i]),
    ensures
        notation_moves(notation_text(moves)) == moves,
{
    let filled = |piece: Seq<char>| piece.len() > 0;
    let bare = |piece: Seq<char>| after_stop(piece);
    let pieces = notation_pieces(moves);
    lemma_notation_pieces(moves);
    let all = pieces.push(Seq::<char>::empty());
    assert(all.drop_last() =~= pieces);
    assert(all.filter(filled) == pieces.filter(filled)) by {
        reveal(Seq::filter);
    }
    assert forall|i: int| 0 <= i < pieces.len() implies filled(#[trigger] pieces[i]) by {
        assert(is_plain(moves[i]));
    }
    lemma_filter_all(pieces, filled);
    assert forall|i: int| 0 <= i < pieces.len() implies after_stop(#[trigger] pieces[i])
        == moves[i] by {
        assert(is_plain(moves[i]));
        if i % 2 == 0 {
            lemma_number_is_plain(i / 2 + 1);
            lemma_after_number(decimal(i / 2 + 1), moves[i]);
        }
    }
    assert(pieces.map_values(bare) =~= moves);
}

/// A move that was made: its number in the game, counted from one, and its
/// notation.
#[derive(Debug)]
pub struct Move {
    san: String,
    half_move: u16,
}

/// What a `Move` holds.
pub struct MoveView {
    pub half_move: int,
    pub san: Seq<char>,
}

impl View for Move {
    type V = MoveView;

    closed spec fn view(&self) -> MoveView {
        MoveView { half_move: self.half_move as int, san: self.san@ }
    }
}

impl Clone for Move {
    fn clone(&self) -> (copy: Move)
        ensures
            copy@ == self@,
    {
        Move { san: self.san.clone(), half_move: self.half_move }
    }
}

impl Move {
    /// The number of the move in its game, counted from one.
    pub fn half_move(&self) -> (half_move: u16)
        ensures
            half_move == self@.half_move,
    {
        self.half_move
    }

    /// The notation of the move, with its mark for check or checkmate.
    pub fn san(&self) -> (san: String)
        ensures
            san@ == self@.san,
    {
        self.san.clone()
    }
}

/// What a game is: its number, its players and the moves made, each in its
/// canonical text without a mark.
pub struct GameView {
    pub id: GameId,
    pub white: Address,
    pub black: Address,
    pub moves: Seq<Seq<char>>,
}

impl GameView {
    /// A game without moves.
    pub open spec fn new(id: GameId, white: Address, black: Address) -> GameView {
        GameView { id, white, black, moves: Seq::empty() }
    }

    /// Whether every move was legal in its turn and the game is no longer
    /// than a game can be.
    pub open spec fn wf(self) -> bool {
        &&& position_at(self.moves) is Some
        &&& self.moves.len() <= u16::MAX
    }

    /// The position of the game, in Forsyth-Edwards notation.
    pub open spec fn position(self) -> Seq<char> {
        position_at(self.moves)->0
    }

    /// The hash of the game.
    pub open spec fn hash(self) -> Seq<u8> {
        hash_at(self.id@, self.white@, self.black@, self.moves)
    }

    /// The number of plies played.
    pub open spec fn half_move(self) -> int {
        self.moves.len() as int
    }

    /// The side to move.
    pub open spec fn turn(self) -> Color {
        Color::from_white(white_to_move(self.position()))
    }

    /// The player of a color.
    pub open spec fn player(self, color: Color) -> Address {
        match color {
            Color::White => self.white,
            Color::Black => self.black,
        }
    }

    /// The color of a player, if the player takes part. A player who
    /// holds both colors is found as white.
    pub open spec fn player_color(self, player: Address) -> Option<Color> {
        if self.white@ == player@ {
            Some(Color::White)
        } else if self.black@ == player@ {
            Some(Color::Black)
        } else {
            None
        }
    }

    /// The outcome of the game, if it is over: checkmate where the rules
    /// give a winner; else stalemate, want of material, or some other draw.
    pub open spec fn outcome(self) -> Option<Outcome> {
        match verdict(self.position()) {
            None => None,
            Some(Verdict::Decisive { winner }) => Some(
                Outcome::Checkmate { winner: self.player(winner), loser: self.player(winner.other()) },
            ),
            Some(Verdict::Draw) => Some(
                if stalemated(self.position()) {
                    Outcome::Stalemate
                } else if lacks_material(self.position()) {
                    Outcome::InsufficientMaterial
                } else {
                    Outcome::Draw
                },
            ),
        }
    }

    /// The game after one more move, or why the move is refused: it is not
    /// legal, or the game is full.
    pub open spec fn next(self, san: Seq<char>) -> Result<GameView, Error> {
        if position_after(self.position(), san) is None {
            Err(Error::IllegalMove)
        } else if self.moves.len() >= u16::MAX {
            Err(Error::TooLong)
        } else {
            Ok(GameView { moves: self.moves.push(san), ..self })
        }
    }

    /// The last move made, as the engine reports it.
    pub open spec fn last_move(self) -> MoveView {
        MoveView { half_move: self.moves.len() as int, san: last_notation(self.moves) }
    }

    /// The game after a move by `player`, or why it is refused. The player
    /// must take part, it must be the player's turn, the hash must be the
    /// game's, and the game must not be over; then the move is tried.
    pub open spec fn play(self, player: Address, expected: Seq<u8>, san: Seq<char>) -> Result<
        GameView,
        Error,
    > {
        if self.player_color(player) is None {
            Err(Error::InvalidPlayer)
        } else if self.turn() != self.player_color(player)->0 {
            Err(Error::NotYourTurn)
        } else if expected != self.hash() {
            Err(Error::StateMismatch)
        } else if self.outcome() is Some {
            Err(Error::GameOver)
        } else {
            self.next(san)
        }
    }

    /// The game after the given moves one after the other, or why the first
    /// of them that is refused is refused.
    pub open spec fn replay(self, sans: Seq<Seq<char>>) -> Result<GameView, Error>
        decreases sans.len(),
    {
        if sans.len() == 0 {
            Ok(self)
        } else {
            match self.next(sans.first()) {
                Ok(after) => after.replay(sans.drop_first()),
                Err(e) => Err(e),
            }
        }
    }
}

/// The hash of a game after a move is the hash of the hash before it
/// followed by the notation of the move; and the move counts one ply.
pub proof fn lemma_move_chains_hash(game: GameView, san: Seq<char>)
    requires
        game.wf(),
    ensures
        game.next(san) matches Ok(after) ==> {
            &&& after.hash() == keccak256(game.hash() + encode_utf8(after.last_move().san))
            &&& after.half_move() == game.half_move() + 1
            &&& after.last_move().half_move == after.half_move()
            &&& after.position() == position_after(game.position(), san)->0
            &&& after.wf()
        },
{
    if game.next(san) is Ok {
        let after = game.next(san)->Ok_0;
        assert(after.moves.drop_last() =~= game.moves);
    }
}

/// A move is taken only from the player whose turn it is and only for the
/// state that the game is in.
pub proof fn lemma_play_matches_state(
    game: GameView,
    player: Address,
    expected: Seq<u8>,
    san: Seq<char>,
)
    ensures
        game.play(player, expected, san) is Ok ==> {
            &&& expected == game.hash()
            &&& player@ == game.player(game.turn())@
            &&& game.outcome() is None
            &&& game.play(player, expected, san) == game.next(san)
        },
{
}

/// A move for another state than the game's is refused as such, whatever
/// the move is, where the player is in turn.
pub proof fn lemma_state_mismatch(game: GameView, player: Address, expected: Seq<u8>, san: Seq<char>)
    requires
        game.player_color(player) == Some(game.turn()),
        expected != game.hash(),
    ensures
        game.play(player, expected, san) == Err::<GameView, Error>(Error::StateMismatch),
{
}

/// In a game in which white is to move, no move is taken from the player
/// of black.
pub proof fn lemma_black_waits(game: GameView, expected: Seq<u8>, san: Seq<char>)
    requires
        game.turn() == Color::White,
        game.white@ != game.black@,
    ensures
        game.play(game.black, expected, san) == Err::<GameView, Error>(Error::NotYourTurn),
{
}

/// No move is taken in a game that is over.
pub proof fn lemma_finished_game_takes_no_move(
    game: GameView,
    player: Address,
    expected: Seq<u8>,
    san: Seq<char>,
)
    requires
        game.outcome() is Some,
    ensures
        game.play(player, expected, san) is Err,
{
}

/// Replaying moves keeps the number and the players of the game and adds
/// the moves to those made before.
pub proof fn lemma_replay_adds_moves(game: GameView, sans: Seq<Seq<char>>)
    requires
        game.wf(),
    ensures
        game.replay(sans) matches Ok(after) ==> {
            &&& after.id == game.id
            &&& after.white == game.white
            &&& after.black == game.black
            &&& after.moves == game.moves + sans
            &&& after.wf()
        },
    decreases sans.len(),
{
    if sans.len() == 0 {
        assert(game.moves + sans =~= game.moves);
    } else {
        match game.next(sans.first()) {
            Ok(next) => {
                lemma_move_chains_hash(game, sans.first());
                lemma_replay_adds_moves(next, sans.drop_first());
                assert(next.moves + sans.drop_first() =~= game.moves + sans);
            },
            Err(_) => {},
        }
    }
}

/// Replaying a sequence of moves and one more move is replaying the
/// sequence and then making the move. So a game that is played move by move
/// and a game that is made from the same moves at once are the same game,
/// with the same hash.
pub proof fn lemma_replay_then_move(game: GameView, sans: Seq<Seq<char>>, san: Seq<char>)
    ensures
        game.replay(sans.push(san)) == match game.replay(sans) {
            Ok(after) => after.next(san),
            Err(e) => Err(e),
        },
    decreases sans.len(),
{
    let all = sans.push(san);
    if sans.len() == 0 {
        assert(all.first() == san);
        assert(all.drop_first() =~= Seq::<Seq<char>>::empty());
        match game.next(san) {
            Ok(next) => {
                assert(next.replay(all.drop_first()) == Ok::<GameView, Error>(next));
            },
            Err(_) => {},
        }
    } else {
        assert(all.first() == sans.first());
        assert(all.drop_first() =~= sans.drop_first().push(san));
        match game.next(sans.first()) {
            Ok(next) => {
                lemma_replay_then_move(next, sans.drop_first(), san);
            },
            Err(_) => {},
        }
    }
}

/// The game that the given move texts make, each read as a move and all
/// of them played from the start; or why they make none: a text is no
/// move, or a move is refused.
pub open spec fn game_of_texts(id: GameId, white: Address, black: Address, texts: Seq<Seq<char>>) -> Result<
    GameView,
    Error,
> {
    if exists|i: int| 0 <= i < texts.len() && san_text(#[trigger] texts[i]) is None {
        Err(Error::IllegalMove)
    } else {
        GameView::new(id, white, black).replay(texts.map_values(|t: Seq<char>| san_text(t)->0))
    }
}

/// The texts of a vector of moves.
pub open spec fn san_texts(moves: Seq<San>) -> Seq<Seq<char>> {
    Seq::new(moves.len(), |i: int| moves[i]@)
}

/// A game of chess between two players.
pub struct Game {
    white: Address,
    black: Address,
    position: Position,
    half_move: u16,
    id: GameId,
    hash: GameHash,
    moves: Ghost<Seq<Seq<char>>>,
}

impl View for Game {
    type V = GameView;

    closed spec fn view(&self) -> GameView {
        GameView { id: self.id, white: self.white, black: self.black, moves: self.moves@ }
    }
}

/// The bytes that the hash of a new game is taken of.
fn initial_bytes(id: GameId, white: Address, black: Address) -> (bytes: Vec<u8>)
    ensures
        bytes@ == le_bytes(id@) + white@ + black@,
{
    let value: i64 = id.value() as i64;
    let unsigned: i64 = if value < 0 {
        value + 0x1_0000_0000
    } else {
        value
    };
    let mut bytes: Vec<u8> = Vec::new();
    bytes.push((unsigned % 256) as u8);
    bytes.push((unsigned / 256 % 256) as u8);
    bytes.push((unsigned / 65536 % 256) as u8);
    bytes.push((unsigned / 16777216 % 256) as u8);
    bytes.extend_from_slice(white.to_bytes().as_slice());
    bytes.extend_from_slice(black.to_bytes().as_slice());
    proof {
        assert(bytes@ =~= le_bytes(id@) + white@ + black@);
    }
    bytes
}

impl Game {
    #[verifier::type_invariant]
    spec fn valid(self) -> bool {
        &&& self.half_move == self.moves@.len()
        &&& position_at(self.moves@) == Some(self.position@)
        &&& self.hash@ == hash_at(self.id@, self.white@, self.black@, self.moves@)
    }

    /// Construct a new game in the starting position. White is to move.
    pub fn new(id: GameId, white: Address, black: Address) -> (game: Game)
        ensures
            game@ == GameView::new(id, white, black),
            game@.wf(),
            game@.turn() == Color::White,
    {
        let bytes = initial_bytes(id, white, black);
        let hash = GameHash::new(keccak(bytes.as_slice()));
        Game {
            white,
            black,
            position: Position::start(),
            half_move: 0,
            id,
            hash,
            moves: Ghost(Seq::empty()),
        }
    }

    /// Construct the game that results from the given moves.
    pub fn from_moves(id: GameId, white: Address, black: Address, moves: Vec<San>) -> (result:
        Result<Game, Error>)
        ensures
            match GameView::new(id, white, black).replay(san_texts(moves@)) {
                Ok(after) => result matches Ok(game) && game@ == after && after.wf(),
                Err(e) => result matches Err(err) && err == e,
            },
            result matches Ok(game) ==> game@.id == id && game@.white == white && game@.black
                == black,
    {
        let mut game = Game::new(id, white, black);
        let ghost begin = game@;
        proof {
            assert(san_texts(moves@).skip(0) =~= san_texts(moves@));
        }
        let mut i: usize = 0;
        while i < moves.len()
            invariant
                i <= moves@.len(),
                game@.wf(),
                game@.id == id,
                game@.white == white,
                game@.black == black,
                begin == GameView::new(id, white, black),
                begin.replay(san_texts(moves@)) == game@.replay(san_texts(moves@).skip(i as int)),
            decreases moves@.len() - i,
        {
            let ghost rest = san_texts(moves@).skip(i as int);
            proof {
                assert(rest.len() > 0);
                assert(rest.first() == moves@[i as int]@);
                assert(rest.drop_first() =~= san_texts(moves@).skip(i + 1));
            }
            match game.play_next_move(moves[i].clone()) {
                Ok(_) => {},
                Err(e) => {
                    return Err(e);
                },
            }
            i += 1;
        }
        proof {
            assert(san_texts(moves@).skip(moves@.len() as int) =~= Seq::<Seq<char>>::empty());
        }
        Ok(game)
    }

    /// The ID of the game.
    pub fn id(&self) -> (id: GameId)
        ensures
            id == self@.id,
    {
        self.id
    }

    /// The hash of the current game state.
    pub fn hash(&self) -> (hash: GameHash)
        ensures
            hash@ == self@.hash(),
            self@.wf(),
    {
        proof {
            use_type_invariant(self);
        }
        self.hash
    }

    /// The player controlling white.
    pub fn white(&self) -> (white: Address)
        ensures
            white == self@.white,
    {
        self.white
    }

    /// The player controlling black.
    pub fn black(&self) -> (black: Address)
        ensures
            black == self@.black,
    {
        self.black
    }

    /// The position of the game.
    pub fn position(&self) -> (position: &Position)
        ensures
            position@ == self@.position(),
            self@.wf(),
    {
        proof {
            use_type_invariant(self);
        }
        &self.position
    }

    /// The outcome of the game, if it is over.
    pub fn outcome(&self) -> (outcome: Option<Outcome>)
        ensures
            outcome == self@.outcome(),
            self@.wf(),
    {
        proof {
            use_type_invariant(self);
        }
        match self.position.verdict() {
            None => None,
            Some(Verdict::Decisive { winner }) => Some(
                Outcome::Checkmate { winner: self.player(winner), loser: self.player(winner.other()) },
            ),
            Some(Verdict::Draw) => {
                if self.position.is_stalemate() {
                    Some(Outcome::Stalemate)
                } else if self.position.is_insufficient_material() {
                    Some(Outcome::InsufficientMaterial)
                } else {
                    Some(Outcome::Draw)
                }
            },
        }
    }

    /// A human-readable text representation of the current board state.
    pub fn ansi_board(&self, perspective: Color) -> (text: String)
        ensures
            text@ == board_text(self@.position(), perspective),
    {
        proof {
            use_type_invariant(self);
        }
        draw(&self.position, perspective)
    }

    /// Get the color controlled by `player`, if they are playing in this
    /// game.
    pub fn player_color(&self, player: Address) -> (color: Option<Color>)
        ensures
            color == self@.player_color(player),
    {
        if self.white == player {
            Some(Color::White)
        } else if self.black == player {
            Some(Color::Black)
        } else {
            None
        }
    }

    /// Get the player controlling `color`.
    pub fn player(&self, color: Color) -> (player: Address)
        ensures
            player == self@.player(color),
    {
        match color {
            Color::White => self.white,
            Color::Black => self.black,
        }
    }

    /// Make a move as `player`, if legal. A refused move leaves the game as
    /// it was.
    pub fn play(&mut self, player: Address, expected_state: GameHash, san: San) -> (result:
        Result<Move, Error>)
        ensures
            old(self)@.wf(),
            match old(self)@.play(player, expected_state@, san@) {
                Ok(after) => result matches Ok(m) && final(self)@ == after && m@
                    == after.last_move() && after.wf(),
                Err(e) => result matches Err(err) && err == e && final(self)@ == old(self)@,
            },
            result is Ok ==> expected_state@ == old(self)@.hash() && player@ == old(self)@.player(
                old(self)@.turn(),
            )@,
            result is Ok ==> final(self)@.half_move() == old(self)@.half_move() + 1,
            old(self)@.outcome() is Some ==> result is Err,
    {
        proof {
            use_type_invariant(&*self);
        }
        let color = match self.player_color(player) {
            Some(color) => color,
            None => {
                return Err(Error::InvalidPlayer);
            },
        };
        if self.position.turn() != color {
            return Err(Error::NotYourTurn);
        }
        if expected_state != self.hash {
            return Err(Error::StateMismatch);
        }
        if self.outcome().is_some() {
            return Err(Error::GameOver);
        }
        self.play_next_move(san)
    }

    /// Make the next move of the game, whoever's turn it is. A refused move
    /// leaves the game as it was.
    pub fn play_next_move(&mut self, san: San) -> (result: Result<Move, Error>)
        ensures
            old(self)@.wf(),
            match old(self)@.next(san@) {
                Ok(after) => result matches Ok(m) && final(self)@ == after && m@
                    == after.last_move() && after.wf(),
                Err(e) => result matches Err(err) && err == e && final(self)@ == old(self)@,
            },
            result is Ok ==> final(self)@.half_move() == old(self)@.half_move() + 1,
            result is Ok ==> final(self)@.hash() == keccak256(
                old(self)@.hash() + encode_utf8(final(self)@.last_move().san),
            ),
    {
        proof {
            use_type_invariant(&*self);
        }
        // Make the move.
        let position = match self.position.play(&san) {
            Some(position) => position,
            None => {
                return Err(Error::IllegalMove);
            },
        };
        if self.half_move == u16::MAX {
            return Err(Error::TooLong);
        }
        let half_move: u16 = self.half_move + 1;
        let ghost moves = self.moves@.push(san@);
        proof {
            assert(moves.drop_last() =~= self.moves@);
        }
        // Construct the canonical notation for the move.
        let mut notation = san.to_text();
        if position.is_checkmate() {
            notation.append("#");
            proof {
                reveal_strlit("#");
                assert(notation@ =~= san@ + seq!['#']);
            }
        } else if position.is_check() {
            notation.append("+");
            proof {
                reveal_strlit("+");
                assert(notation@ =~= san@ + seq!['+']);
            }
        } else {
            proof {
                assert(notation@ =~= san@ + Seq::<char>::empty());
            }
        }
        // Update the game hash.
        let mut bytes: Vec<u8> = Vec::new();
        bytes.extend_from_slice(self.hash.to_bytes().as_slice());
        bytes.extend_from_slice(notation.as_str().as_bytes());
        proof {
            assert(bytes@ =~= self.hash@ + encode_utf8(last_notation(moves)));
        }
        let hash = GameHash::new(keccak(bytes.as_slice()));
        *self = Game {
            white: self.white,
            black: self.black,
            position,
            half_move,
            id: self.id,
            hash,
            moves: Ghost(moves),
        };
        Ok(Move { san: notation, half_move })
    }

    /// The number of plies played.
    pub fn half_move(&self) -> (half_move: u16)
        ensures
            half_move == self@.half_move(),
    {
        proof {
            use_type_invariant(self);
        }
        self.half_move
    }

    /// The number of full moves played: half the plies, rounded down.
    pub fn full_move(&self) -> (full_move: u16)
        ensures
            full_move == self@.half_move() / 2,
    {
        proof {
            use_type_invariant(self);
        }
        self.half_move / 2
    }

    /// The side to move.
    pub fn turn(&self) -> (color: Color)
        ensures
            color == self@.turn(),
    {
        proof {
            use_type_invariant(self);
        }
        self.position.turn()
    }
}

} // verus!
