//! A game record read into plies and headers by the `pgnparse` crate.

use vstd::prelude::*;

verus! {

/// One half-move of a game: the move in SAN and in UCI, and the position
/// (EPD) before it was played.
#[derive(Debug)]
pub struct Ply {
    pub san: String,
    pub uci: String,
    pub epd_before: String,
}

impl View for Ply {
    type V = (Seq<char>, Seq<char>, Seq<char>);

    open spec fn view(&self) -> (Seq<char>, Seq<char>, Seq<char>) {
        (self.san@, self.uci@, self.epd_before@)
    }
}

/// A parsed game record: its plies in order, and the two headers that the
/// book reads.
#[derive(Debug)]
pub struct ParsedGame {
    pub plies: Vec<Ply>,
    pub variant: String,
    pub result: String,
}

impl ParsedGame {
    pub open spec fn plies_view(&self) -> Seq<(Seq<char>, Seq<char>, Seq<char>)> {
        self.plies@.map_values(|p: Ply| p@)
    }
}

/// The plies that `pgnparse` reads from a record's text (none where it cannot read it).
pub uninterp spec fn pgn_plies_of(text: Seq<char>) -> Seq<(Seq<char>, Seq<char>, Seq<char>)>;

/// The value that `pgnparse` gives for a header of a record's text.
pub uninterp spec fn pgn_header_of(text: Seq<char>, key: Seq<char>) -> Seq<char>;

/// The header holding the variant's name.
pub const VARIANT_HEADER: &'static str = "Variant";

/// The header holding the game's result.
pub const RESULT_HEADER: &'static str = "Result";

/// Relies on `pgnparse::parser::parse_pgn_to_rust_struct`, which reads the
/// first game of the text (an empty game where it fails), and on
/// `PgnInfo::get_header` for the two headers asked for.
#[verifier::external_body]
fn parse_pgn(text: &str, variant_key: &str, result_key: &str) -> (r: ParsedGame)
    ensures
        r.plies_view() == pgn_plies_of(text@),
        r.variant@ == pgn_header_of(text@, variant_key@),
        r.result@ == pgn_header_of(text@, result_key@),
{
    let mut info = pgnparse::parser::parse_pgn_to_rust_struct(text);
    ParsedGame {
        variant: info.get_header(variant_key),
        result: info.get_header(result_key),
        plies: info.moves.into_iter().map(
            |m| Ply { san: m.san, uci: m.uci, epd_before: m.epd_before },
        ).collect(),
    }
}

/// Reads a game record: its plies, its variant header and its result header.
pub fn parse_game(text: &str) -> (r: ParsedGame)
    ensures
        r.plies_view() == pgn_plies_of(text@),
        r.variant@ == pgn_header_of(text@, VARIANT_HEADER@),
        r.result@ == pgn_header_of(text@, RESULT_HEADER@),
{
    parse_pgn(text, VARIANT_HEADER, RESULT_HEADER)
}

} // verus!
