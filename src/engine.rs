//! The decisions of incremental ingestion: which plies of a record are still
//! to be scored, how each is scored, and where the record's watermark moves.
//! The store reads and writes around them are made by the caller.

use vstd::prelude::*;
use crate::bookmove::BookMove;
use crate::conv::{get_variant, lower_of, variant_key_of};
use crate::pgn::{parse_game, pgn_header_of, pgn_plies_of, ParsedGame, RESULT_HEADER, VARIANT_HEADER};
use crate::pgnwithdigest::PgnWithDigest;
use crate::text::{chars_of, pieces, split_chars};

verus! {

/// The result header as an ordinal for the first mover: 2 a win, 0 a loss,
/// 1 a draw or anything else.
pub open spec fn ordinal_of(result: Seq<char>) -> int {
    if result == "1-0"@ {
        2
    } else if result == "0-1"@ {
        0
    } else {
        1
    }
}

/// The side to move in a position is the second mover: the field after the
/// first space of the position is `b`.
pub open spec fn second_to_move(epd: Seq<char>) -> bool {
    let fields = pieces(epd, seq![' ']);
    fields.len() > 1 && fields[1] == seq!['b']
}

/// The game's outcome seen from the side to move.
pub open spec fn outcome_for_mover(ordinal: int, second: bool) -> int {
    if second {
        2 - ordinal
    } else {
        ordinal
    }
}

/// The result header of a game as an ordinal for the first mover.
pub fn result_ordinal(result: &String) -> (r: i32)
    ensures
        r == ordinal_of(result@),
        0 <= r <= 2,
{
    if *result == "1-0".to_owned() {
        2
    } else if *result == "0-1".to_owned() {
        0
    } else {
        1
    }
}

/// Whether the side to move in the position is the second mover.
pub fn is_second_to_move(epd: &String) -> (r: bool)
    ensures
        r == second_to_move(epd@),
{
    let cs = chars_of(epd.as_str());
    let sep: Vec<char> = vec![' '];
    let fields = split_chars(&cs, &sep);
    proof {
        assert(sep@ =~= seq![' ']);
        if fields@.len() > 1 {
            assert(fields@.map_values(|p: Vec<char>| p@)[1] == fields@[1]@);
        }
    }
    if fields.len() > 1 && fields[1].len() == 1 && fields[1][0] == 'b' {
        assert(fields@[1]@ =~= seq!['b']);
        true
    } else {
        proof {
            if fields@.len() > 1 && fields@[1]@ == seq!['b'] {
                assert(fields@[1]@[0] == 'b');
            }
        }
        false
    }
}

/// The game's outcome from the point of view of the side to move.
pub fn result_wrt(ordinal: i32, second: bool) -> (r: i32)
    requires
        0 <= ordinal <= 2,
    ensures
        r == outcome_for_mover(ordinal as int, second),
        0 <= r <= 2,
{
    if second {
        2 - ordinal
    } else {
        ordinal
    }
}

/// Nothing of a record is left to score: all its plies, or as many as the
/// book's depth allows, are behind the watermark.
pub open spec fn skips(watermark: int, total: int, max_depth: int) -> bool {
    total <= watermark || watermark >= max_depth
}

/// The watermark after a record has been processed.
pub open spec fn next_watermark(watermark: int, total: int, max_depth: int) -> int {
    if skips(watermark, total, max_depth) {
        watermark
    } else if total < max_depth {
        total
    } else {
        max_depth
    }
}

/// The row that a ply gives.
pub open spec fn row_of(
    m: BookMove,
    variant: Seq<char>,
    digest: Seq<char>,
    ply: (Seq<char>, Seq<char>, Seq<char>),
    ordinal: int,
) -> bool {
    &&& m.variant@ == variant
    &&& m.sha@ == digest
    &&& m.san@ == ply.0
    &&& m.uci@ == ply.1
    &&& m.epd@ == ply.2
    &&& m.result_wrt == outcome_for_mover(ordinal, second_to_move(ply.2))
}

/// What processing a record comes to: the rows to append, in ply order, and
/// the record with its new watermark to write back, if anything was to be done.
#[derive(Debug)]
pub struct IngestStep {
    pub moves: Vec<BookMove>,
    pub update: Option<PgnWithDigest>,
}

/// `step` is what processing `record` from `watermark` comes to, for a game
/// with these plies and headers and a book of depth `max_depth`: nothing where
/// it skips; else one row per ply from the watermark to the new watermark, in
/// order, and the record with that watermark.
pub open spec fn step_of(
    step: IngestStep,
    record: PgnWithDigest,
    watermark: int,
    plies: Seq<(Seq<char>, Seq<char>, Seq<char>)>,
    variant_header: Seq<char>,
    result_header: Seq<char>,
    max_depth: int,
) -> bool {
    &&& skips(watermark, plies.len() as int, max_depth) ==> step.update is None
    &&& !skips(watermark, plies.len() as int, max_depth) ==> {
        &&& step.update is Some
        &&& step.update->0.pgn_str@ == record.pgn_str@
        &&& step.update->0.sha256_base64@ == record.sha256_base64@
        &&& step.update->0.processed_depth == next_watermark(watermark, plies.len() as int, max_depth)
    }
    &&& step.moves@.len() == next_watermark(watermark, plies.len() as int, max_depth) - watermark
    &&& forall|k: int|
        0 <= k < step.moves@.len() ==> row_of(
            #[trigger] step.moves@[k],
            variant_key_of(lower_of(variant_header)),
            record.sha256_base64@,
            plies[watermark + k],
            ordinal_of(result_header),
        )
}

/// The rows for the plies of a parsed game from the watermark up to the
/// book's depth, and the record with its watermark advanced.
pub fn plan_game(record: &PgnWithDigest, watermark: usize, game: &ParsedGame, max_depth: usize) -> (r: IngestStep)
    ensures
        step_of(
            r,
            *record,
            watermark as int,
            game.plies_view(),
            game.variant@,
            game.result@,
            max_depth as int,
        ),
{
    let total = game.plies.len();
    let mut moves: Vec<BookMove> = Vec::new();
    if total <= watermark || watermark >= max_depth {
        return IngestStep { moves, update: None };
    }
    let process_to: usize = if total < max_depth {
        total
    } else {
        max_depth
    };
    let variant = get_variant(game.variant.as_str());
    let ordinal = result_ordinal(&game.result);
    let mut i: usize = watermark;
    while i < process_to
        invariant
            watermark <= i <= process_to <= total,
            total == game.plies@.len(),
            0 <= ordinal <= 2,
            ordinal == ordinal_of(game.result@),
            variant@ == variant_key_of(lower_of(game.variant@)),
            moves@.len() == i - watermark,
            forall|k: int|
                0 <= k < moves@.len() ==> row_of(
                    #[trigger] moves@[k],
                    variant_key_of(lower_of(game.variant@)),
                    record.sha256_base64@,
                    game.plies_view()[watermark + k],
                    ordinal_of(game.result@),
                ),
        decreases process_to - i,
    {
        let ply = &game.plies[i];
        let second = is_second_to_move(&ply.epd_before);
        let m = BookMove {
            variant: variant.clone(),
            sha: record.sha256_base64.clone(),
            epd: ply.epd_before.clone(),
            san: ply.san.clone(),
            uci: ply.uci.clone(),
            result_wrt: result_wrt(ordinal, second),
        };
        assert(game.plies_view()[i as int] == game.plies@[i as int]@);
        moves.push(m);
        i = i + 1;
    }
    let update = PgnWithDigest {
        pgn_str: record.pgn_str.clone(),
        sha256_base64: record.sha256_base64.clone(),
        processed_depth: process_to,
    };
    IngestStep { moves, update: Some(update) }
}

/// Processes a record from the watermark that the store holds for it (0 for a
/// record never seen): reads its text and plans the rows and the new watermark.
pub fn plan_pgn(record: &PgnWithDigest, watermark: usize, max_depth: usize) -> (r: IngestStep)
    ensures
        step_of(
            r,
            *record,
            watermark as int,
            pgn_plies_of(record.pgn_str@),
            pgn_header_of(record.pgn_str@, VARIANT_HEADER@),
            pgn_header_of(record.pgn_str@, RESULT_HEADER@),
            max_depth as int,
        ),
{
    let game = parse_game(record.pgn_str.as_str());
    plan_game(record, watermark, &game, max_depth)
}

} // verus!

verus! {

/// The watermark that a record holds once a step has been written back.
pub open spec fn watermark_after(step: IngestStep, watermark: int) -> int {
    match step.update {
        Some(rec) => rec.processed_depth as int,
        None => watermark,
    }
}

/// Processing a record twice: once its step has been written back, processing
/// it again appends no row and writes nothing.
pub proof fn lemma_ingest_idempotent(
    first: IngestStep,
    second: IngestStep,
    record: PgnWithDigest,
    watermark: int,
    plies: Seq<(Seq<char>, Seq<char>, Seq<char>)>,
    variant_header: Seq<char>,
    result_header: Seq<char>,
    max_depth: int,
)
    requires
        0 <= watermark,
        step_of(first, record, watermark, plies, variant_header, result_header, max_depth),
        step_of(
            second,
            record,
            watermark_after(first, watermark),
            plies,
            variant_header,
            result_header,
            max_depth,
        ),
    ensures
        second.moves@.len() == 0,
        second.update is None,
        watermark_after(first, watermark) >= watermark,
{
}

/// Byte-identical records are one game: they have one digest, so one stored
/// record, and they read as the same plies and headers, so a second sighting
/// after the first was written back appends nothing.
pub proof fn lemma_duplicate_record(
    first: IngestStep,
    second: IngestStep,
    a: PgnWithDigest,
    b: PgnWithDigest,
    watermark: int,
    max_depth: int,
)
    requires
        0 <= watermark,
        a.pgn_str@ == b.pgn_str@,
        a.sha256_base64@ == crate::digest::digest_of(a.pgn_str@),
        b.sha256_base64@ == crate::digest::digest_of(b.pgn_str@),
        step_of(
            first,
            a,
            watermark,
            pgn_plies_of(a.pgn_str@),
            pgn_header_of(a.pgn_str@, VARIANT_HEADER@),
            pgn_header_of(a.pgn_str@, RESULT_HEADER@),
            max_depth,
        ),
        step_of(
            second,
            b,
            watermark_after(first, watermark),
            pgn_plies_of(b.pgn_str@),
            pgn_header_of(b.pgn_str@, VARIANT_HEADER@),
            pgn_header_of(b.pgn_str@, RESULT_HEADER@),
            max_depth,
        ),
    ensures
        a.sha256_base64@ == b.sha256_base64@,
        second.moves@.len() == 0,
        second.update is None,
{
}

/// Raising the book's depth resumes a record where it stopped: a first pass
/// from 0 at depth `d1` scores plies `0..min(n, d1)`, a second pass at depth
/// `d2 >= d1` scores exactly the plies from there to `min(n, d2)`, so every
/// ply up to the new watermark is scored once.
pub proof fn lemma_resume_deeper(
    first: IngestStep,
    second: IngestStep,
    record: PgnWithDigest,
    plies: Seq<(Seq<char>, Seq<char>, Seq<char>)>,
    variant_header: Seq<char>,
    result_header: Seq<char>,
    d1: int,
    d2: int,
)
    requires
        0 <= d1 <= d2,
        step_of(first, record, 0, plies, variant_header, result_header, d1),
        step_of(
            second,
            record,
            watermark_after(first, 0),
            plies,
            variant_header,
            result_header,
            d2,
        ),
    ensures
        watermark_after(first, 0) == first.moves@.len(),
        first.moves@.len() == if plies.len() < d1 { plies.len() as int } else { d1 },
        watermark_after(second, watermark_after(first, 0)) == if plies.len() < d2 {
            plies.len() as int
        } else {
            d2
        },
        first.moves@.len() + second.moves@.len() == watermark_after(
            second,
            watermark_after(first, 0),
        ),
{
}

/// The outcome seen from the side to move: in a game the first mover won, the
/// first mover's plies weigh 2 and the second mover's 0; in a draw every ply
/// weighs 1.
pub proof fn lemma_outcome_symmetry(second: bool)
    ensures
        outcome_for_mover(2, false) == 2,
        outcome_for_mover(2, true) == 0,
        outcome_for_mover(0, false) == 0,
        outcome_for_mover(0, true) == 2,
        outcome_for_mover(1, second) == 1,
{
}

} // verus!
