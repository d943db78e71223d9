//! A picture of the board for a terminal.

use crate::chess::{piece_of, piece_on, Color, Position, Role};
use crate::text::push_char;
use vstd::prelude::*;
use vstd::string::StringExecFns;

verus! {

/// A text as `ansi_term` paints it on a background of the given color, in
/// a foreground of the given color where there is one.
pub uninterp spec fn painted(text: Seq<char>, foreground: Option<Color>, background: Color) -> Seq<
    char,
>;

/// Paints with `Style::paint` of `ansi_term`: the style has the background
/// and, where one is given, the foreground, and the painted text is written
/// out with its escape codes.
#[verifier::external_body]
fn paint(text: &str, foreground: Option<Color>, background: Color) -> (out: String)
    ensures
        out@ == painted(text@, foreground, background),
{
    let style = ansi_term::Style::new().on(
        match background {
            Color::White => ansi_term::Color::White,
            Color::Black => ansi_term::Color::Black,
        },
    );
    match foreground {
        Some(Color::White) => style.fg(ansi_term::Color::White).paint(text).to_string(),
        Some(Color::Black) => style.fg(ansi_term::Color::Black).paint(text).to_string(),
        None => style.paint(text).to_string(),
    }
}

/// The sign of a piece: the filled one, or the outlined one.
pub open spec fn spec_glyph(role: Role, outlined: bool) -> char {
    if outlined {
        match role {
            Role::Pawn => '♙',
            Role::Knight => '♘',
            Role::Bishop => '♗',
            Role::Rook => '♖',
            Role::Queen => '♕',
            Role::King => '♔',
        }
    } else {
        match role {
            Role::Pawn => '♟',
            Role::Knight => '♞',
            Role::Bishop => '♝',
            Role::Rook => '♜',
            Role::Queen => '♛',
            Role::King => '♚',
        }
    }
}

/// The sign of a piece: the filled one, or the outlined one.
#[verifier::when_used_as_spec(spec_glyph)]
pub fn glyph(role: Role, outlined: bool) -> (sign: char)
    ensures
        sign == spec_glyph(role, outlined),
{
    if outlined {
        match role {
            Role::Pawn => '♙',
            Role::Knight => '♘',
            Role::Bishop => '♗',
            Role::Rook => '♖',
            Role::Queen => '♕',
            Role::King => '♔',
        }
    } else {
        match role {
            Role::Pawn => '♟',
            Role::Knight => '♞',
            Role::Bishop => '♝',
            Role::Rook => '♜',
            Role::Queen => '♛',
            Role::King => '♚',
        }
    }
}

/// The color of a square; the square in the corner of the a-file and the
/// first rank is black.
pub open spec fn square_color(file: int, rank: int) -> Color {
    Color::from_white((file + rank) % 2 == 1)
}

/// A square as it is shown: three characters wide on the square's color,
/// with the sign of its piece in the other color. A piece on a square of
/// its own color is shown outlined.
pub open spec fn square_text(fen: Seq<char>, file: int, rank: int) -> Seq<char> {
    let color = square_color(file, rank);
    match piece_of(piece_on(fen, file, rank)) {
        Some((piece, role)) => painted(
            seq![' ', glyph(role, piece == color), ' '],
            Some(color.other()),
            color,
        ),
        None => painted(seq![' ', ' ', ' '], None, color),
    }
}

/// The file shown in a column, counted from the left: the a-file first for
/// white, the h-file first for black.
pub open spec fn file_shown(perspective: Color, column: int) -> int {
    match perspective {
        Color::White => column,
        Color::Black => 7 - column,
    }
}

/// The rank shown in a line, counted from the top: the eighth rank first
/// for white, the first rank first for black.
pub open spec fn rank_shown(perspective: Color, line: int) -> int {
    match perspective {
        Color::White => 7 - line,
        Color::Black => line,
    }
}

/// The first `columns` squares of a rank as they are shown.
pub open spec fn squares_text(fen: Seq<char>, rank: int, perspective: Color, columns: int) -> Seq<
    char,
>
    decreases columns,
{
    if columns <= 0 {
        Seq::empty()
    } else {
        squares_text(fen, rank, perspective, columns - 1) + square_text(
            fen,
            file_shown(perspective, columns - 1),
            rank,
        )
    }
}

/// A rank as it is shown: its number, a space and its eight squares.
pub open spec fn rank_text(fen: Seq<char>, rank: int, perspective: Color) -> Seq<char> {
    seq![((rank + 49) as u8) as char, ' '] + squares_text(fen, rank, perspective, 8)
}

/// The first `lines` ranks as they are shown, one to the line.
pub open spec fn ranks_text(fen: Seq<char>, perspective: Color, lines: int) -> Seq<char>
    decreases lines,
{
    if lines <= 0 {
        Seq::empty()
    } else if lines == 1 {
        rank_text(fen, rank_shown(perspective, 0), perspective)
    } else {
        ranks_text(fen, perspective, lines - 1) + seq!['\n'] + rank_text(
            fen,
            rank_shown(perspective, lines - 1),
            perspective,
        )
    }
}

/// The letters of the files under the board.
pub open spec fn labels(perspective: Color) -> Seq<char> {
    match perspective {
        Color::White => " a  b  c  d  e  f  g  h "@,
        Color::Black => " h  g  f  e  d  c  b  a "@,
    }
}

/// The board as the player of the given color sees it: the eight ranks,
/// the player's own side at the bottom, and the letters of the files.
pub open spec fn board_text(fen: Seq<char>, perspective: Color) -> Seq<char> {
    ranks_text(fen, perspective, 8) + seq!['\n', ' ', ' '] + labels(perspective)
}

/// Draws one square.
fn draw_square(position: &Position, file: u8, rank: u8) -> (text: String)
    requires
        file < 8,
        rank < 8,
    ensures
        text@ == square_text(position@, file as int, rank as int),
{
    let color = Color::from_white((file + rank) % 2 == 1);
    match position.piece_at(file, rank) {
        Some((piece, role)) => {
            let mut text = String::new();
            push_char(&mut text, ' ');
            push_char(&mut text, glyph(role, piece == color));
            push_char(&mut text, ' ');
            proof {
                assert(text@ =~= seq![' ', glyph(role, piece == color), ' ']);
            }
            paint(text.as_str(), Some(color.other()), color)
        },
        None => {
            proof {
                reveal_strlit("   ");
                assert("   "@ =~= seq![' ', ' ', ' ']);
            }
            paint("   ", None, color)
        },
    }
}

/// Draws the board as the player of the given color sees it.
pub fn draw(position: &Position, perspective: Color) -> (text: String)
    ensures
        text@ == board_text(position@, perspective),
{
    let mut text = String::new();
    let mut line: u8 = 0;
    while line < 8
        invariant
            line <= 8,
            text@ == ranks_text(position@, perspective, line as int),
        decreases 8 - line,
    {
        let rank: u8 = match perspective {
            Color::White => 7 - line,
            Color::Black => line,
        };
        let mut row = String::new();
        push_char(&mut row, (rank + 49) as char);
        push_char(&mut row, ' ');
        let ghost head = row@;
        let mut column: u8 = 0;
        while column < 8
            invariant
                column <= 8,
                rank < 8,
                row@ == head + squares_text(position@, rank as int, perspective, column as int),
            decreases 8 - column,
        {
            let file: u8 = match perspective {
                Color::White => column,
                Color::Black => 7 - column,
            };
            let square = draw_square(position, file, rank);
            row.append(square.as_str());
            proof {
                assert(row@ =~= head + squares_text(
                    position@,
                    rank as int,
                    perspective,
                    column + 1,
                ));
            }
            column += 1;
        }
        proof {
            assert(head =~= seq![((rank + 49) as u8) as char, ' ']);
            assert(row@ == rank_text(position@, rank as int, perspective));
        }
        if line > 0 {
            push_char(&mut text, '\n');
        }
        text.append(row.as_str());
        proof {
            assert(text@ =~= ranks_text(position@, perspective, line + 1));
        }
        line += 1;
    }
    push_char(&mut text, '\n');
    push_char(&mut text, ' ');
    push_char(&mut text, ' ');
    match perspective {
        Color::White => text.append(" a  b  c  d  e  f  g  h "),
        Color::Black => text.append(" h  g  f  e  d  c  b  a "),
    }
    proof {
        assert(text@ =~= board_text(position@, perspective));
    }
    text
}

} // verus!
