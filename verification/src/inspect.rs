//! The queries that an observer can put, and the paths that write them:
//! `games/<address>[/<after>]`, `moves/<id>/<from>` and `stats/<address>`.

use crate::address::{address_from_text, address_text, is_address_text, Address};
use crate::game::GameId;
use crate::hexcode::hex_value;
use crate::text::{
    chars_of, decimal, decimal_string, is_digit, lemma_decimal_round_trip, lemma_split_next,
    lemma_split_whole, parse_decimal, read_decimal, same_chars, split, split_at, string_of,
};
use vstd::prelude::*;
use vstd::string::StringExecFns;

verus! {

/// A query.
#[derive(Clone, Copy, Debug)]
pub enum Request {
    /// The games of a player, those with a number above `after`.
    Games { address: Address, after: Option<GameId> },
    /// The moves of a game from the ply `from` on.
    Moves { id: GameId, from: u16 },
    /// The record of a player.
    Stats { address: Address },
}

/// What a `Request` asks for.
pub enum RequestView {
    Games { address: Seq<u8>, after: Option<int> },
    Moves { id: int, from: int },
    Stats { address: Seq<u8> },
}

impl View for Request {
    type V = RequestView;

    open spec fn view(&self) -> RequestView {
        match self {
            Request::Games { address, after } => RequestView::Games {
                address: address@,
                after: match after {
                    Some(id) => Some(id@),
                    None => None,
                },
            },
            Request::Moves { id, from } => RequestView::Moves { id: id@, from: *from as int },
            Request::Stats { address } => RequestView::Stats { address: address@ },
        }
    }
}

/// The query that a path puts, if it puts one. The path is cut at every
/// `/`. The first piece names the query; the pieces after it are its
/// parameters, and pieces beyond those are not looked at.
pub open spec fn parse_request(path: Seq<char>) -> Option<RequestView> {
    let parts = split(path, '/');
    if parts[0] == "games"@ {
        if parts.len() < 2 || address_from_text(parts[1]) is None {
            None
        } else if parts.len() < 3 {
            Some(RequestView::Games { address: address_from_text(parts[1])->0, after: None })
        } else {
            match parse_decimal(parts[2], i32::MIN as int, i32::MAX as int) {
                Some(after) => Some(
                    RequestView::Games {
                        address: address_from_text(parts[1])->0,
                        after: Some(after),
                    },
                ),
                None => None,
            }
        }
    } else if parts[0] == "moves"@ {
        if parts.len() < 3 {
            None
        } else {
            match (
                parse_decimal(parts[1], i32::MIN as int, i32::MAX as int),
                parse_decimal(parts[2], 0, u16::MAX as int),
            ) {
                (Some(id), Some(from)) => Some(RequestView::Moves { id, from }),
                _ => None,
            }
        }
    } else if parts[0] == "stats"@ {
        if parts.len() < 2 {
            None
        } else {
            match address_from_text(parts[1]) {
                Some(address) => Some(RequestView::Stats { address }),
                None => None,
            }
        }
    } else {
        None
    }
}

/// The path that puts a query.
pub open spec fn request_path(request: RequestView) -> Seq<char> {
    match request {
        RequestView::Games { address, after: None } => "games/"@ + address_text(address),
        RequestView::Games { address, after: Some(after) } => "games/"@ + address_text(address)
            + seq!['/'] + decimal(after),
        RequestView::Moves { id, from } => "moves/"@ + decimal(id) + seq!['/'] + decimal(from),
        RequestView::Stats { address } => "stats/"@ + address_text(address),
    }
}

/// No address as it is displayed holds a stroke.
proof fn lemma_address_has_no_stroke(text: Seq<char>)
    requires
        is_address_text(text),
    ensures
        !text.contains('/'),
{
    if text.contains('/') {
        let i = choose|i: int| 0 <= i < text.len() && text[i] == '/';
        if i >= 2 {
            assert(hex_value(text[i]) is Some);
        }
    }
}

/// No number in decimal holds a stroke, and within its bounds it reads
/// back as itself.
proof fn lemma_number_reads_back(n: int, min: int, max: int)
    requires
        min <= n <= max,
    ensures
        !decimal(n).contains('/'),
        parse_decimal(decimal(n), min, max) == Some(n),
{
    lemma_decimal_round_trip(n, min, max);
    let text = decimal(n);
    if text.contains('/') {
        let i = choose|i: int| 0 <= i < text.len() && text[i] == '/';
        assert(is_digit(text[i]) || text[i] == '-');
    }
}

/// A path of a name and one parameter is cut into the two.
proof fn lemma_two_pieces(name: Seq<char>, first: Seq<char>)
    requires
        !name.contains('/'),
        !first.contains('/'),
    ensures
        split(name + seq!['/'] + first, '/') == seq![name, first],
{
    lemma_split_whole(name, '/');
    lemma_split_next(name, first, '/');
    assert(seq![name].push(first) =~= seq![name, first]);
}

/// A path of a name and two parameters is cut into the three.
proof fn lemma_three_pieces(name: Seq<char>, first: Seq<char>, second: Seq<char>)
    requires
        !name.contains('/'),
        !first.contains('/'),
        !second.contains('/'),
    ensures
        split(name + seq!['/'] + first + seq!['/'] + second, '/') == seq![name, first, second],
{
    lemma_two_pieces(name, first);
    lemma_split_next(name + seq!['/'] + first, second, '/');
    assert(seq![name, first].push(second) =~= seq![name, first, second]);
}

/// What is known of the three names of queries.
proof fn lemma_names()
    ensures
        "games/"@ == "games"@ + seq!['/'],
        "moves/"@ == "moves"@ + seq!['/'],
        "stats/"@ == "stats"@ + seq!['/'],
        !"games"@.contains('/'),
        !"moves"@.contains('/'),
        !"stats"@.contains('/'),
        "games"@ != "moves"@,
        "games"@ != "stats"@,
        "moves"@ != "stats"@,
{
    reveal_strlit("games/");
    reveal_strlit("moves/");
    reveal_strlit("stats/");
    reveal_strlit("games");
    reveal_strlit("moves");
    reveal_strlit("stats");
    assert("games/"@ =~= "games"@ + seq!['/']);
    assert("moves/"@ =~= "moves"@ + seq!['/']);
    assert("stats/"@ =~= "stats"@ + seq!['/']);
    assert("games"@[0] != "moves"@[0]);
    assert("games"@[0] != "stats"@[0]);
    assert("moves"@[0] != "stats"@[0]);
}

/// Reads the number of a game.
fn read_id(text: &[char]) -> (id: Option<GameId>)
    ensures
        id matches Some(id) ==> parse_decimal(text@, i32::MIN as int, i32::MAX as int) == Some(id@),
        id is None ==> parse_decimal(text@, i32::MIN as int, i32::MAX as int) is None,
{
    match read_decimal(text, i32::MIN as i64, i32::MAX as i64) {
        Some(value) => Some(GameId::new(value as i32)),
        None => None,
    }
}

/// Reads an address.
fn read_address(text: &[char]) -> (address: Option<Address>)
    ensures
        address matches Some(a) ==> address_from_text(text@) == Some(a@),
        address is None ==> address_from_text(text@) is None,
{
    let text = string_of(text);
    Address::parse(text.as_str())
}

impl Request {
    /// Reads a query from its path.
    pub fn parse(path: &str) -> (request: Option<Request>)
        ensures
            request matches Some(r) ==> parse_request(path@) == Some(r@),
            request is None ==> parse_request(path@) is None,
    {
        let chars = chars_of(path);
        let parts = split_at(chars.as_slice(), '/');
        let ghost pieces = split(path@, '/');
        proof {
            assert(forall|i: int| 0 <= i < parts@.len() ==> parts@[i]@ == pieces[i]);
        }
        let kind = parts[0].as_slice();
        if same_chars(kind, chars_of("games").as_slice()) {
            if parts.len() < 2 {
                return None;
            }
            let address = match read_address(parts[1].as_slice()) {
                Some(address) => address,
                None => {
                    return None;
                },
            };
            if parts.len() < 3 {
                return Some(Request::Games { address, after: None });
            }
            match read_id(parts[2].as_slice()) {
                Some(after) => Some(Request::Games { address, after: Some(after) }),
                None => None,
            }
        } else if same_chars(kind, chars_of("moves").as_slice()) {
            if parts.len() < 3 {
                return None;
            }
            let id = match read_id(parts[1].as_slice()) {
                Some(id) => id,
                None => {
                    return None;
                },
            };
            match read_decimal(parts[2].as_slice(), 0, u16::MAX as i64) {
                Some(from) => Some(Request::Moves { id, from: from as u16 }),
                None => None,
            }
        } else if same_chars(kind, chars_of("stats").as_slice()) {
            if parts.len() < 2 {
                return None;
            }
            match read_address(parts[1].as_slice()) {
                Some(address) => Some(Request::Stats { address }),
                None => None,
            }
        } else {
            None
        }
    }

    /// Writes the path that puts the query. The path reads back as the
    /// same query.
    pub fn path(&self) -> (path: String)
        ensures
            path@ == request_path(self@),
            parse_request(path@) == Some(self@),
    {
        proof {
            lemma_names();
            reveal_strlit("/");
            assert("/"@ =~= seq!['/']);
        }
        match self {
            Request::Games { address, after } => {
                let mut path = String::from_str("games/");
                let text = address.to_text();
                path.append(text.as_str());
                proof {
                    lemma_address_has_no_stroke(text@);
                }
                match after {
                    Some(after) => {
                        path.append("/");
                        path.append(decimal_string(after.value() as i64).as_str());
                        proof {
                            after.lemma_same(*after);
                            lemma_number_reads_back(after@, i32::MIN as int, i32::MAX as int);
                            lemma_three_pieces("games"@, text@, decimal(after@));
                            assert(path@ =~= "games"@ + seq!['/'] + text@ + seq!['/'] + decimal(
                                after@,
                            ));
                        }
                    },
                    None => {
                        proof {
                            lemma_two_pieces("games"@, text@);
                            assert(path@ =~= "games"@ + seq!['/'] + text@);
                        }
                    },
                }
                path
            },
            Request::Moves { id, from } => {
                let mut path = String::from_str("moves/");
                path.append(decimal_string(id.value() as i64).as_str());
                path.append("/");
                path.append(decimal_string(*from as i64).as_str());
                proof {
                    id.lemma_same(*id);
                    lemma_number_reads_back(id@, i32::MIN as int, i32::MAX as int);
                    lemma_number_reads_back(*from as int, 0, u16::MAX as int);
                    lemma_three_pieces("moves"@, decimal(id@), decimal(*from as int));
                    assert(path@ =~= "moves"@ + seq!['/'] + decimal(id@) + seq!['/'] + decimal(
                        *from as int,
                    ));
                }
                path
            },
            Request::Stats { address } => {
                let mut path = String::from_str("stats/");
                let text = address.to_text();
                path.append(text.as_str());
                proof {
                    lemma_address_has_no_stroke(text@);
                    lemma_two_pieces("stats"@, text@);
                    assert(path@ =~= "stats"@ + seq!['/'] + text@);
                }
                path
            },
        }
    }
}

} // verus!
