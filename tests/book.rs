use mongobook::book::{BookConfig, MemoryBook, RECORD_SEPARATOR};
use mongobook::bookmove::BookMove;
use mongobook::conv::get_variant;
use mongobook::digest::content_digest;
use mongobook::engine::{is_second_to_move, plan_pgn, result_ordinal, result_wrt};
use mongobook::pgn::parse_game;
use mongobook::pgnwithdigest::PgnWithDigest;
use mongobook::query::{sum_by_move, MoveWeight};
use mongobook::text::split_batch;

const START: &str = "rnbqkbnr/pppppppp/8/8/8/8/PPPPPPPP/RNBQKBNR w KQkq -";

fn game(result: &str) -> String {
    format!(
        "[Event \"Test\"]\r\n[White \"A\"]\r\n[Black \"B\"]\r\n[Result \"{}\"]\r\n\r\n1. e4 e5 2. Nf3 Nc6 3. Bb5 a6 4. Ba4 Nf6 5. O-O Be7 {}",
        result, result
    )
}

fn other_game() -> String {
    "[Event \"Other\"]\r\n[Result \"0-1\"]\r\n\r\n1. d4 d5 2. c4 e6 0-1".to_string()
}

fn batch(records: &[String]) -> String {
    let mut s = String::new();
    for r in records {
        s.push_str(r);
        s.push_str(RECORD_SEPARATOR);
    }
    s
}

fn weight(table: &[MoveWeight], uci: &str) -> Option<i64> {
    table.iter().find(|m| m.uci == uci).map(|m| m.weight)
}

fn row(variant: &str, epd: &str, uci: &str, w: i32) -> BookMove {
    BookMove {
        variant: variant.to_string(),
        sha: "x".to_string(),
        epd: epd.to_string(),
        san: uci.to_string(),
        uci: uci.to_string(),
        result_wrt: w,
    }
}

#[test]
fn variant_names_normalize() {
    assert_eq!(get_variant("Chess960"), "chess960");
    assert_eq!(get_variant("chess 960"), "chess960");
    assert_eq!(get_variant("CHESS960"), "chess960");
    assert_eq!(get_variant("bughouse"), "standard");
    assert_eq!(get_variant(""), "standard");
    assert_eq!(get_variant("King of the Hill"), "kingofthehill");
    assert_eq!(get_variant("3check"), "threecheck");
    assert_eq!(get_variant("Giveaway"), "antichess");
    assert_eq!(get_variant("Racing Kings"), "racingkings");
}

#[test]
fn digest_is_base64_sha256() {
    assert_eq!(content_digest("abc"), "ungWv48Bz+pBQUDeXa4iI7ADYaOWF3qctBD/YfIAFa0=");
    assert_eq!(content_digest(""), "47DEQpj8HBSa+/TImW+5JCeuQeRkm5NMpJWZG3hSuFU=");
    assert_eq!(content_digest("abc"), content_digest("abc"));
    assert_ne!(content_digest("abc"), content_digest("abd"));
    assert_eq!(content_digest(&game("1-0")).len(), 44);
}

#[test]
fn new_record_has_no_depth() {
    let rec = PgnWithDigest::from_pgn("abc");
    assert_eq!(rec.pgn_str, "abc");
    assert_eq!(rec.sha256_base64, content_digest("abc"));
    assert_eq!(rec.processed_depth, 0);
}

#[test]
fn batch_splits_and_drops_trailing_empty() {
    let b = format!("a{}b{}", RECORD_SEPARATOR, RECORD_SEPARATOR);
    assert_eq!(split_batch(&b, RECORD_SEPARATOR), vec!["a".to_string(), "b".to_string()]);
    let b = format!("a{}b", RECORD_SEPARATOR);
    assert_eq!(split_batch(&b, RECORD_SEPARATOR), vec!["a".to_string(), "b".to_string()]);
    assert_eq!(split_batch("", RECORD_SEPARATOR), Vec::<String>::new());
    assert_eq!(split_batch("a\r\n\r\nb", RECORD_SEPARATOR), vec!["a\r\n\r\nb".to_string()]);
    assert_eq!(split_batch("a--b--", "--"), vec!["a".to_string(), "b".to_string()]);
    assert_eq!(split_batch("a---b", "--"), vec!["a".to_string(), "-b".to_string()]);
}

#[test]
fn side_to_move_is_read_from_second_field() {
    assert!(!is_second_to_move(&START.to_string()));
    assert!(is_second_to_move(&"rnbqkbnr/pppppppp/8/8/4P3/8/PPPP1PPP/RNBQKBNR b KQkq -".to_string()));
    assert!(!is_second_to_move(&"nospace".to_string()));
    assert!(!is_second_to_move(&"x bb y".to_string()));
    assert!(is_second_to_move(&"x b".to_string()));
}

#[test]
fn result_header_ordinals() {
    assert_eq!(result_ordinal(&"1-0".to_string()), 2);
    assert_eq!(result_ordinal(&"0-1".to_string()), 0);
    assert_eq!(result_ordinal(&"1/2-1/2".to_string()), 1);
    assert_eq!(result_ordinal(&"?".to_string()), 1);
}

#[test]
fn outcome_is_seen_from_side_to_move() {
    assert_eq!(result_wrt(2, false), 2);
    assert_eq!(result_wrt(2, true), 0);
    assert_eq!(result_wrt(0, true), 2);
    assert_eq!(result_wrt(1, true), 1);
    assert_eq!(result_wrt(1, false), 1);
}

#[test]
fn parse_reads_plies_and_headers() {
    let g = parse_game(&game("1-0"));
    assert_eq!(g.plies.len(), 10);
    assert_eq!(g.result, "1-0");
    assert_eq!(g.variant, "?");
    assert_eq!(g.plies[0].uci, "e2e4");
    assert_eq!(g.plies[0].san, "e4");
    assert_eq!(g.plies[0].epd_before, START);
    let bad = parse_game("not a game");
    assert_eq!(bad.plies.len(), 0);
}

#[test]
fn plan_skips_when_done() {
    let mut rec = PgnWithDigest::from_pgn(&game("1-0"));
    let step = plan_pgn(&rec, 0, 4);
    assert_eq!(step.moves.len(), 4);
    assert_eq!(step.update.as_ref().map(|r| r.processed_depth), Some(4));
    rec.processed_depth = 4;
    let again = plan_pgn(&rec, 4, 4);
    assert!(again.moves.is_empty());
    assert!(again.update.is_none());
    let past = plan_pgn(&rec, 10, 40);
    assert!(past.moves.is_empty());
    assert!(past.update.is_none());
    let zero = plan_pgn(&rec, 0, 0);
    assert!(zero.moves.is_empty());
}

#[test]
fn summing_rows_per_move() {
    let p = "some position w - -";
    let rows = vec![
        row("standard", p, "e2e4", 2),
        row("standard", p, "e2e4", 0),
        row("standard", p, "d2d4", 1),
        row("chess960", p, "g1f3", 2),
        row("standard", START, "c2c4", 2),
    ];
    let t = sum_by_move(&rows, &"standard".to_string(), &p.to_string());
    assert_eq!(t.len(), 2);
    assert_eq!(weight(&t, "e2e4"), Some(2));
    assert_eq!(weight(&t, "d2d4"), Some(1));
    assert_eq!(weight(&t, "g1f3"), None);
}

#[test]
fn query_sums_appended_rows() {
    let p = "some position w - -".to_string();
    let mut book = MemoryBook::new();
    book.append(row("standard", &p, "e2e4", 2));
    book.append(row("standard", &p, "e2e4", 0));
    book.append(row("standard", &p, "d2d4", 1));
    let t = book.get_moves("standard", &p);
    assert_eq!(t.len(), 2);
    assert_eq!(weight(&t, "e2e4"), Some(2));
    assert_eq!(weight(&t, "d2d4"), Some(1));
    let t = book.get_moves("Standard", &p);
    assert_eq!(weight(&t, "e2e4"), Some(2));
}

#[test]
fn unknown_position_gives_empty_table() {
    let mut book = MemoryBook::new();
    assert!(book.get_moves("standard", &START.to_string()).is_empty());
    book.ingest(&batch(&[game("1-0")]), 40);
    assert!(book.get_moves("atomic", &START.to_string()).is_empty());
    assert!(book.get_moves("standard", &"8/8/8/8/8/8/8/8 w - -".to_string()).is_empty());
    assert!(!book.get_moves("standard", &START.to_string()).is_empty());
}

#[test]
fn ingesting_twice_adds_nothing() {
    let b = batch(&[game("1-0"), other_game()]);
    let mut book = MemoryBook::new();
    book.ingest(&b, 40);
    assert_eq!(book.moves.len(), 14);
    assert_eq!(book.records.len(), 2);
    book.ingest(&b, 40);
    assert_eq!(book.moves.len(), 14);
    assert_eq!(book.records.len(), 2);
}

#[test]
fn identical_records_are_stored_once() {
    let mut book = MemoryBook::new();
    book.ingest(&batch(&[game("1-0"), other_game(), game("1-0")]), 40);
    assert_eq!(book.records.len(), 2);
    assert_eq!(book.moves.len(), 14);
    book.ingest(&batch(&[other_game(), game("1/2-1/2"), game("1-0"), other_game()]), 40);
    assert_eq!(book.records.len(), 3);
    assert_eq!(book.moves.len(), 24);
    let d = content_digest(&game("1-0"));
    assert_eq!(book.records.iter().filter(|r| r.sha256_base64 == d).count(), 1);
    assert_eq!(book.moves.iter().filter(|m| m.sha == d).count(), 10);
}

#[test]
fn raising_depth_resumes_where_it_stopped() {
    let text = game("1-0");
    let d = content_digest(&text);
    let mut book = MemoryBook::new();
    book.ingest_record(&text, 5);
    assert_eq!(book.moves.len(), 5);
    assert_eq!(book.find(&d), Some(5));
    book.ingest_record(&text, 5);
    assert_eq!(book.moves.len(), 5);
    book.ingest_record(&text, 10);
    assert_eq!(book.moves.len(), 10);
    assert_eq!(book.find(&d), Some(10));
    let all = parse_game(&text);
    for (i, m) in book.moves.iter().enumerate() {
        assert_eq!(m.epd, all.plies[i].epd_before);
        assert_eq!(m.uci, all.plies[i].uci);
    }
    book.ingest_record(&text, 40);
    assert_eq!(book.moves.len(), 10);
    assert_eq!(book.find(&d), Some(10));
}

#[test]
fn decisive_and_drawn_games_score_by_side() {
    let mut book = MemoryBook::new();
    book.ingest(&batch(&[game("1-0")]), 40);
    for (i, m) in book.moves.iter().enumerate() {
        assert_eq!(m.result_wrt, if i % 2 == 0 { 2 } else { 0 });
        assert_eq!(m.variant, "standard");
    }
    let mut drawn = MemoryBook::new();
    drawn.ingest(&batch(&[game("1/2-1/2")]), 40);
    assert_eq!(drawn.moves.len(), 10);
    assert!(drawn.moves.iter().all(|m| m.result_wrt == 1));
    let mut lost = MemoryBook::new();
    lost.ingest(&batch(&[game("0-1")]), 40);
    assert_eq!(lost.moves[0].result_wrt, 0);
    assert_eq!(lost.moves[1].result_wrt, 2);
}

#[test]
fn unreadable_record_is_not_marked() {
    let mut book = MemoryBook::new();
    book.ingest(&batch(&["garbage".to_string()]), 40);
    assert!(book.moves.is_empty());
    assert_eq!(book.find(&content_digest("garbage")), None);
}

#[test]
fn config_depth_builder() {
    let c = BookConfig::new("mongodb://h:1".to_string(), "db".to_string(), 40).book_depth(10);
    assert_eq!(c.max_depth, 10);
    assert_eq!(c.store_uri, "mongodb://h:1");
    assert_eq!(c.database_name, "db");
}

#[test]
fn upsert_never_lowers_watermark() {
    let mut book = MemoryBook::new();
    let mut rec = PgnWithDigest::from_pgn("abc");
    rec.processed_depth = 7;
    book.upsert(rec);
    let mut lower = PgnWithDigest::from_pgn("abc");
    lower.processed_depth = 3;
    book.upsert(lower);
    assert_eq!(book.records.len(), 1);
    assert_eq!(book.find(&content_digest("abc")), Some(7));
    let mut higher = PgnWithDigest::from_pgn("abc");
    higher.processed_depth = 9;
    book.upsert(higher);
    assert_eq!(book.find(&content_digest("abc")), Some(9));
    assert_eq!(book.find(&content_digest("abd")), None);
}
