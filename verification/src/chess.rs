//! The rules of chess, as far as the engine needs them: positions, moves in
//! standard algebraic notation, and what a position means for the game.
//!
//! A position is held as its Forsyth-Edwards notation. Everything that takes
//! knowledge of the rules is asked of the `shakmaty` crate and named here by
//! a function of the texts involved.

use shakmaty::fen::Fen;
use shakmaty::{CastlingMode, Chess, EnPassantMode, Position as ChessRules};
use vstd::prelude::*;

verus! {

/// One of the two sides.
#[derive(Clone, Copy, Debug, PartialEq, Eq, Structural)]
pub enum Color {
    White,
    Black,
}

impl Color {
    /// The other side.
    pub open spec fn spec_other(self) -> Color {
        match self {
            Color::White => Color::Black,
            Color::Black => Color::White,
        }
    }

    /// The other side.
    #[verifier::when_used_as_spec(spec_other)]
    pub fn other(self) -> (color: Color)
        ensures
            color == self.spec_other(),
    {
        match self {
            Color::White => Color::Black,
            Color::Black => Color::White,
        }
    }

    /// White for `true`, black for `false`.
    pub open spec fn spec_from_white(white: bool) -> Color {
        if white {
            Color::White
        } else {
            Color::Black
        }
    }

    /// White for `true`, black for `false`.
    #[verifier::when_used_as_spec(spec_from_white)]
    pub fn from_white(white: bool) -> (color: Color)
        ensures
            color == Color::spec_from_white(white),
    {
        if white {
            Color::White
        } else {
            Color::Black
        }
    }
}

/// A kind of piece.
#[derive(Clone, Copy, Debug, PartialEq, Eq, Structural)]
pub enum Role {
    Pawn,
    Knight,
    Bishop,
    Rook,
    Queen,
    King,
}

impl Role {
    /// The kind of piece with the number, from one for the pawn to six for
    /// the king. Another number stands for the king.
    pub open spec fn spec_of(number: u8) -> Role {
        if number == 1 {
            Role::Pawn
        } else if number == 2 {
            Role::Knight
        } else if number == 3 {
            Role::Bishop
        } else if number == 4 {
            Role::Rook
        } else if number == 5 {
            Role::Queen
        } else {
            Role::King
        }
    }

    /// The kind of piece with the number.
    #[verifier::when_used_as_spec(spec_of)]
    pub fn of(number: u8) -> (role: Role)
        ensures
            role == Role::spec_of(number),
    {
        if number == 1 {
            Role::Pawn
        } else if number == 2 {
            Role::Knight
        } else if number == 3 {
            Role::Bishop
        } else if number == 4 {
            Role::Rook
        } else if number == 5 {
            Role::Queen
        } else {
            Role::King
        }
    }
}

/// The piece that a color and a number stand for.
pub open spec fn piece_of(piece: Option<(bool, u8)>) -> Option<(Color, Role)> {
    match piece {
        Some((white, role)) => Some((Color::from_white(white), Role::of(role))),
        None => None,
    }
}

/// How a position ends the game, by the rules alone.
#[derive(Clone, Copy, Debug, PartialEq, Eq, Structural)]
pub enum Verdict {
    /// One side has won.
    Decisive { winner: Color },
    /// Neither side has.
    Draw,
}

/// The canonical writing of a move text, where the text is a move in
/// standard algebraic notation: what shakmaty's `San` displays after parsing
/// the text. A check or checkmate mark at the end of the text is dropped.
pub uninterp spec fn san_text(text: Seq<char>) -> Option<Seq<char>>;

/// Whether a text in Forsyth-Edwards notation sets up a position of standard
/// chess, as shakmaty's `Fen` and `Chess` decide it.
pub uninterp spec fn is_position(fen: Seq<char>) -> bool;

/// The position that a move leads to: the Forsyth-Edwards notation of the
/// position after playing the move that `san` denotes in the position `fen`;
/// nothing where `san` denotes no single legal move there.
pub uninterp spec fn position_after(fen: Seq<char>, san: Seq<char>) -> Option<Seq<char>>;

/// Whether white is to move in the position.
pub uninterp spec fn white_to_move(fen: Seq<char>) -> bool;

/// Whether the side to move is in check.
pub uninterp spec fn in_check(fen: Seq<char>) -> bool;

/// Whether the side to move is checkmated.
pub uninterp spec fn checkmated(fen: Seq<char>) -> bool;

/// Whether the side to move is stalemated.
pub uninterp spec fn stalemated(fen: Seq<char>) -> bool;

/// Whether neither side has the material to give mate.
pub uninterp spec fn lacks_material(fen: Seq<char>) -> bool;

/// How the position ends the game, if it does.
pub uninterp spec fn verdict(fen: Seq<char>) -> Option<Verdict>;

/// The piece on a square of the position, if there is one: whether it is
/// white, and the number of its kind from one for the pawn to six for the
/// king. Files and ranks count from zero, from the a-file and the first
/// rank.
pub uninterp spec fn piece_on(fen: Seq<char>, file: int, rank: int) -> Option<(bool, u8)>;

/// The starting position of chess.
pub open spec fn start() -> Seq<char> {
    "rnbqkbnr/pppppppp/8/8/8/8/PPPPPPPP/RNBQKBNR w KQkq - 0 1"@
}

/// Parses a move text with shakmaty's `San::from_str` and writes the move
/// back with its `Display`.
#[verifier::external_body]
fn canonical_san(text: &str) -> (canonical: Option<String>)
    ensures
        canonical matches Some(s) ==> san_text(text@) == Some(s@),
        canonical is None ==> san_text(text@) is None,
{
    text.parse::<shakmaty::san::San>().ok().map(|san| san.to_string())
}

/// Writes shakmaty's `Chess::default()`, the starting position, in
/// Forsyth-Edwards notation. White is to move in it.
#[verifier::external_body]
fn start_fen() -> (fen: String)
    ensures
        fen@ == start(),
        is_position(fen@),
        white_to_move(fen@),
{
    Fen::from_position(Chess::default(), EnPassantMode::Always).to_string()
}

/// Plays a move with shakmaty: `San::to_move` finds the legal move that the
/// text denotes in the position, `Position::play` makes it, and the new
/// position is written in Forsyth-Edwards notation. Nothing comes back where
/// a text does not parse or the move is not legal. The notation that comes
/// back sets up a position again, the one that was reached: this is claimed
/// of shakmaty's `Fen`, which writes the board, the side to move, the
/// castling rights, the square passed over by a pawn's double step and the
/// two move counters, and that is all a `Chess` holds.
#[verifier::external_body]
fn play_san(fen: &str, san: &str) -> (next: Option<String>)
    ensures
        next matches Some(n) ==> position_after(fen@, san@) == Some(n@) && is_position(n@),
        next is None ==> position_after(fen@, san@) is None,
{
    let position: Chess = Fen::from_ascii(fen.as_bytes()).ok()?.into_position(
        CastlingMode::Standard,
    ).ok()?;
    let m = shakmaty::san::San::from_ascii(san.as_bytes()).ok()?.to_move(&position).ok()?;
    let next = position.play(&m).ok()?;
    Some(Fen::from_position(next, EnPassantMode::Always).to_string())
}

/// Asks shakmaty's `Position::turn` whose move it is.
#[verifier::external_body]
fn fen_white_to_move(fen: &str) -> (white: bool)
    requires
        is_position(fen@),
    ensures
        white == white_to_move(fen@),
{
    let position: Chess = Fen::from_ascii(fen.as_bytes()).unwrap().into_position(
        CastlingMode::Standard,
    ).unwrap();
    position.turn().is_white()
}

/// Asks shakmaty's `Position::is_check`.
#[verifier::external_body]
fn fen_in_check(fen: &str) -> (check: bool)
    requires
        is_position(fen@),
    ensures
        check == in_check(fen@),
{
    let position: Chess = Fen::from_ascii(fen.as_bytes()).unwrap().into_position(
        CastlingMode::Standard,
    ).unwrap();
    position.is_check()
}

/// Asks shakmaty's `Position::is_checkmate`.
#[verifier::external_body]
fn fen_checkmated(fen: &str) -> (mate: bool)
    requires
        is_position(fen@),
    ensures
        mate == checkmated(fen@),
{
    let position: Chess = Fen::from_ascii(fen.as_bytes()).unwrap().into_position(
        CastlingMode::Standard,
    ).unwrap();
    position.is_checkmate()
}

/// Asks shakmaty's `Position::is_stalemate`.
#[verifier::external_body]
fn fen_stalemated(fen: &str) -> (stalemate: bool)
    requires
        is_position(fen@),
    ensures
        stalemate == stalemated(fen@),
{
    let position: Chess = Fen::from_ascii(fen.as_bytes()).unwrap().into_position(
        CastlingMode::Standard,
    ).unwrap();
    position.is_stalemate()
}

/// Asks shakmaty's `Position::is_insufficient_material`.
#[verifier::external_body]
fn fen_lacks_material(fen: &str) -> (lacking: bool)
    requires
        is_position(fen@),
    ensures
        lacking == lacks_material(fen@),
{
    let position: Chess = Fen::from_ascii(fen.as_bytes()).unwrap().into_position(
        CastlingMode::Standard,
    ).unwrap();
    position.is_insufficient_material()
}

/// Asks shakmaty's `Position::outcome`.
#[verifier::external_body]
fn fen_verdict(fen: &str) -> (outcome: Option<Verdict>)
    requires
        is_position(fen@),
    ensures
        outcome == verdict(fen@),
{
    let position: Chess = Fen::from_ascii(fen.as_bytes()).unwrap().into_position(
        CastlingMode::Standard,
    ).unwrap();
    match position.outcome() {
        Some(shakmaty::Outcome::Decisive { winner: shakmaty::Color::White }) => Some(
            Verdict::Decisive { winner: Color::White },
        ),
        Some(shakmaty::Outcome::Decisive { winner: shakmaty::Color::Black }) => Some(
            Verdict::Decisive { winner: Color::Black },
        ),
        Some(shakmaty::Outcome::Draw) => Some(Verdict::Draw),
        None => None,
    }
}

/// Asks the board of the position for the piece on a square, with
/// shakmaty's `Board::piece_at`. The piece comes back as whether it is
/// white and as the number of its role, which shakmaty counts from one for
/// the pawn to six for the king.
#[verifier::external_body]
fn fen_piece_on(fen: &str, file: u8, rank: u8) -> (piece: Option<(bool, u8)>)
    requires
        is_position(fen@),
        file < 8,
        rank < 8,
    ensures
        piece == piece_on(fen@, file as int, rank as int),
        piece matches Some((_, role)) ==> 1 <= role <= 6,
{
    let position: Chess = Fen::from_ascii(fen.as_bytes()).unwrap().into_position(
        CastlingMode::Standard,
    ).unwrap();
    let square = shakmaty::Square::from_coords(
        shakmaty::File::new(u32::from(file)),
        shakmaty::Rank::new(u32::from(rank)),
    );
    position.board().piece_at(square).map(|piece| (piece.color.is_white(), piece.role as u8))
}

/// A move in standard algebraic notation, in its canonical writing.
#[derive(Debug)]
pub struct San {
    text: String,
}

impl View for San {
    type V = Seq<char>;

    closed spec fn view(&self) -> Seq<char> {
        self.text@
    }
}

impl Clone for San {
    fn clone(&self) -> (copy: San)
        ensures
            copy@ == self@,
    {
        San { text: self.text.clone() }
    }
}

impl San {
    /// Reads a move from its text. A check or checkmate mark at the end is
    /// accepted and dropped.
    pub fn parse(text: &str) -> (san: Option<San>)
        ensures
            san matches Some(s) ==> san_text(text@) == Some(s@),
            san is None ==> san_text(text@) is None,
    {
        match canonical_san(text) {
            Some(text) => Some(San { text }),
            None => None,
        }
    }

    /// The text of the move.
    pub fn to_text(&self) -> (text: String)
        ensures
            text@ == self@,
    {
        self.text.clone()
    }

    /// The text of the move.
    pub fn as_str(&self) -> (text: &str)
        ensures
            text@ == self@,
    {
        self.text.as_str()
    }
}

/// A position of standard chess.
#[derive(Debug)]
pub struct Position {
    fen: String,
}

impl View for Position {
    type V = Seq<char>;

    closed spec fn view(&self) -> Seq<char> {
        self.fen@
    }
}

impl Clone for Position {
    fn clone(&self) -> (copy: Position)
        ensures
            copy@ == self@,
    {
        proof {
            use_type_invariant(self);
        }
        Position { fen: self.fen.clone() }
    }
}

impl Position {
    #[verifier::type_invariant]
    spec fn valid(self) -> bool {
        is_position(self.fen@)
    }

    /// The starting position, in which white is to move.
    pub fn start() -> (position: Position)
        ensures
            position@ == start(),
            white_to_move(start()),
    {
        Position { fen: start_fen() }
    }

    /// The position in Forsyth-Edwards notation.
    pub fn fen(&self) -> (fen: String)
        ensures
            fen@ == self@,
    {
        self.fen.clone()
    }

    /// The side to move.
    pub fn turn(&self) -> (color: Color)
        ensures
            color == Color::from_white(white_to_move(self@)),
    {
        proof {
            use_type_invariant(self);
        }
        Color::from_white(fen_white_to_move(self.fen.as_str()))
    }

    /// The position after a move, where the move is legal.
    pub fn play(&self, san: &San) -> (next: Option<Position>)
        ensures
            next matches Some(n) ==> position_after(self@, san@) == Some(n@),
            next is None ==> position_after(self@, san@) is None,
    {
        match play_san(self.fen.as_str(), san.as_str()) {
            Some(fen) => Some(Position { fen }),
            None => None,
        }
    }

    /// Whether the side to move is in check.
    pub fn is_check(&self) -> (check: bool)
        ensures
            check == in_check(self@),
    {
        proof {
            use_type_invariant(self);
        }
        fen_in_check(self.fen.as_str())
    }

    /// Whether the side to move is checkmated.
    pub fn is_checkmate(&self) -> (mate: bool)
        ensures
            mate == checkmated(self@),
    {
        proof {
            use_type_invariant(self);
        }
        fen_checkmated(self.fen.as_str())
    }

    /// Whether the side to move is stalemated.
    pub fn is_stalemate(&self) -> (stalemate: bool)
        ensures
            stalemate == stalemated(self@),
    {
        proof {
            use_type_invariant(self);
        }
        fen_stalemated(self.fen.as_str())
    }

    /// Whether neither side has the material to give mate.
    pub fn is_insufficient_material(&self) -> (lacking: bool)
        ensures
            lacking == lacks_material(self@),
    {
        proof {
            use_type_invariant(self);
        }
        fen_lacks_material(self.fen.as_str())
    }

    /// The piece on a square, if there is one. Files and ranks count from
    /// zero.
    pub fn piece_at(&self, file: u8, rank: u8) -> (piece: Option<(Color, Role)>)
        requires
            file < 8,
            rank < 8,
        ensures
            piece == piece_of(piece_on(self@, file as int, rank as int)),
    {
        proof {
            use_type_invariant(self);
        }
        match fen_piece_on(self.fen.as_str(), file, rank) {
            Some((white, role)) => Some((Color::from_white(white), Role::of(role))),
            None => None,
        }
    }

    /// How the position ends the game, if it does.
    pub fn verdict(&self) -> (outcome: Option<Verdict>)
        ensures
            outcome == verdict(self@),
    {
        proof {
            use_type_invariant(self);
        }
        fen_verdict(self.fen.as_str())
    }
}

} // verus!
