//! The book's configuration, and a book held in memory: its record store
//! keyed by digest, its move rows, and batch ingestion over them.

use vstd::prelude::*;
use crate::bookmove::BookMove;
use crate::conv::{get_variant, lower_of, variant_key_of};
use crate::digest::digest_of;
use crate::engine::{next_watermark, ordinal_of, plan_pgn, row_of, skips, IngestStep};
use crate::pgn::{pgn_header_of, pgn_plies_of, RESULT_HEADER, VARIANT_HEADER};
use crate::pgnwithdigest::PgnWithDigest;
use crate::query::{is_tally, sum_by_move, MoveWeight};
use crate::text::{records_of, split_batch};

verus! {

/// The store a book is kept in when none is configured.
pub const DEFAULT_STORE_URI: &'static str = "mongodb://localhost:27017";

/// The database a book is kept in when none is configured.
pub const DEFAULT_DATABASE_NAME: &'static str = "rustbook";

/// How many plies of each game are scored when no depth is configured.
pub const DEFAULT_MAX_DEPTH: usize = 40;

/// What separates the records of a batch.
pub const RECORD_SEPARATOR: &'static str = "\r\n\r\n\r\n";

/// Where a book is kept and how deep it goes.
#[derive(Debug)]
pub struct BookConfig {
    /// connection string of the store
    pub store_uri: String,
    /// database within the store
    pub database_name: String,
    /// how many plies of each game are scored
    pub max_depth: usize,
}

impl BookConfig {
    pub fn new(store_uri: String, database_name: String, max_depth: usize) -> (r: BookConfig)
        ensures
            r.store_uri == store_uri,
            r.database_name == database_name,
            r.max_depth == max_depth,
    {
        BookConfig { store_uri, database_name, max_depth }
    }

    /// The same configuration with another depth.
    pub fn book_depth(self, max_depth: usize) -> (r: BookConfig)
        ensures
            r.store_uri == self.store_uri,
            r.database_name == self.database_name,
            r.max_depth == max_depth,
    {
        BookConfig { max_depth, ..self }
    }
}

/// Some stored record has the digest.
pub open spec fn has_record(records: Seq<PgnWithDigest>, d: Seq<char>) -> bool {
    exists|i: int| 0 <= i < records.len() && (#[trigger] records[i]).sha256_base64@ == d
}

/// The watermark stored for a digest; 0 for a digest never seen.
pub open spec fn depth_of(records: Seq<PgnWithDigest>, d: Seq<char>) -> int {
    if has_record(records, d) {
        let i = choose|i: int| 0 <= i < records.len() && (#[trigger] records[i]).sha256_base64@ == d;
        records[i].processed_depth as int
    } else {
        0
    }
}

/// No two stored records share a digest.
pub open spec fn unique_digests(records: Seq<PgnWithDigest>) -> bool {
    forall|i: int, j: int|
        0 <= i < j < records.len() ==> records[i].sha256_base64@ != records[j].sha256_base64@
}

proof fn lemma_depth_at(records: Seq<PgnWithDigest>, i: int)
    requires
        unique_digests(records),
        0 <= i < records.len(),
    ensures
        has_record(records, records[i].sha256_base64@),
        depth_of(records, records[i].sha256_base64@) == records[i].processed_depth,
{
    let d = records[i].sha256_base64@;
    assert(has_record(records, d));
    let j = choose|j: int| 0 <= j < records.len() && (#[trigger] records[j]).sha256_base64@ == d;
    if j < i {
        assert(records[j].sha256_base64@ != records[i].sha256_base64@);
    } else if i < j {
        assert(records[i].sha256_base64@ != records[j].sha256_base64@);
    }
}

/// A book kept in memory: one record per digest, and one row per scored ply.
#[derive(Debug)]
pub struct MemoryBook {
    pub records: Vec<PgnWithDigest>,
    pub moves: Vec<BookMove>,
}

/// What ingesting one record's text does to a book at depth `max_depth`.
pub open spec fn record_ingested(old: MemoryBook, new: MemoryBook, text: Seq<char>, max_depth: int) -> bool {
    let d = digest_of(text);
    let w = depth_of(old.records@, d);
    let plies = pgn_plies_of(text);
    let n = next_watermark(w, plies.len() as int, max_depth);
    &&& unique_digests(new.records@)
    &&& depth_of(new.records@, d) == n
    &&& has_record(old.records@, d) ==> has_record(new.records@, d)
    &&& !skips(w, plies.len() as int, max_depth) ==> has_record(new.records@, d)
    &&& forall|e: Seq<char>|
        e != d ==> {
            &&& #[trigger] has_record(new.records@, e) == has_record(old.records@, e)
            &&& depth_of(new.records@, e) == depth_of(old.records@, e)
        }
    &&& new.moves@.len() == old.moves@.len() + (n - w)
    &&& new.moves@.subrange(0, old.moves@.len() as int) == old.moves@
    &&& forall|k: int|
        0 <= k < n - w ==> row_of(
            #[trigger] new.moves@[old.moves@.len() + k],
            variant_key_of(lower_of(pgn_header_of(text, VARIANT_HEADER@))),
            d,
            plies[w + k],
            ordinal_of(pgn_header_of(text, RESULT_HEADER@)),
        )
}

/// Every record of the batch is behind its watermark in the book.
pub open spec fn batch_done(book: MemoryBook, batch: Seq<char>, max_depth: int) -> bool {
    forall|t: Seq<char>|
        #[trigger] records_of(batch, RECORD_SEPARATOR@).contains(t) ==> skips(
            depth_of(book.records@, digest_of(t)),
            pgn_plies_of(t).len() as int,
            max_depth,
        )
}

/// `books` are the states of a book as the texts are ingested one after the
/// other, from the first state to the last.
pub open spec fn ingested_in_order(books: Seq<MemoryBook>, texts: Seq<Seq<char>>, max_depth: int) -> bool {
    &&& books.len() == texts.len() + 1
    &&& forall|j: int|
        0 <= j < texts.len() ==> record_ingested(#[trigger] books[j], books[j + 1], texts[j], max_depth)
}

/// What ingesting a batch does to a book at depth `max_depth`: each of its
/// records is ingested in turn; so afterwards all of them are behind their
/// watermarks, watermarks have only grown, and rows were only appended.
pub open spec fn batch_ingested(old: MemoryBook, new: MemoryBook, batch: Seq<char>, max_depth: int) -> bool {
    &&& exists|books: Seq<MemoryBook>|
        ingested_in_order(books, records_of(batch, RECORD_SEPARATOR@), max_depth) && books[0] == old
            && #[trigger] books.last() == new
    &&& unique_digests(new.records@)
    &&& batch_done(new, batch, max_depth)
    &&& forall|t: Seq<char>|
        #[trigger] records_of(batch, RECORD_SEPARATOR@).contains(t) && pgn_plies_of(t).len() > 0
            && max_depth > 0 ==> has_record(new.records@, digest_of(t))
    &&& forall|e: Seq<char>|
        #[trigger] depth_of(new.records@, e) >= depth_of(old.records@, e) && (has_record(
            old.records@,
            e,
        ) ==> has_record(new.records@, e))
    &&& new.moves@.subrange(0, old.moves@.len() as int) == old.moves@
    &&& batch_done(old, batch, max_depth) ==> new.moves@ == old.moves@
}

impl MemoryBook {
    pub open spec fn wf(&self) -> bool {
        unique_digests(self.records@)
    }

    /// An empty book.
    pub fn new() -> (r: MemoryBook)
        ensures
            r.wf(),
            r.records@.len() == 0,
            r.moves@.len() == 0,
    {
        MemoryBook { records: Vec::new(), moves: Vec::new() }
    }

    /// The watermark stored for a digest, if a record has it.
    pub fn find(&self, digest: &String) -> (r: Option<usize>)
        requires
            self.wf(),
        ensures
            r is Some <==> has_record(self.records@, digest@),
            r is Some ==> r->0 == depth_of(self.records@, digest@),
    {
        let mut i: usize = 0;
        while i < self.records.len()
            invariant
                self.wf(),
                i <= self.records@.len(),
                forall|j: int| 0 <= j < i ==> self.records@[j].sha256_base64@ != digest@,
            decreases self.records@.len() - i,
        {
            if self.records[i].sha256_base64 == *digest {
                proof {
                    lemma_depth_at(self.records@, i as int);
                }
                return Some(self.records[i].processed_depth);
            }
            i = i + 1;
        }
        None
    }

    /// Writes a record under its digest, in place of one stored there; a
    /// watermark never goes back, so the higher of the two is kept.
    pub fn upsert(&mut self, rec: PgnWithDigest)
        requires
            old(self).wf(),
        ensures
            final(self).wf(),
            final(self).moves == old(self).moves,
            has_record(final(self).records@, rec.sha256_base64@),
            depth_of(final(self).records@, rec.sha256_base64@) == if has_record(
                old(self).records@,
                rec.sha256_base64@,
            ) && depth_of(old(self).records@, rec.sha256_base64@) > rec.processed_depth {
                depth_of(old(self).records@, rec.sha256_base64@)
            } else {
                rec.processed_depth as int
            },
            forall|e: Seq<char>|
                e != rec.sha256_base64@ ==> {
                    &&& #[trigger] has_record(final(self).records@, e) == has_record(old(self).records@, e)
                    &&& depth_of(final(self).records@, e) == depth_of(old(self).records@, e)
                },
    {
        let ghost before = self.records@;
        let mut i: usize = 0;
        while i < self.records.len()
            invariant
                i <= self.records@.len(),
                self.records@ == before,
                forall|j: int| 0 <= j < i ==> self.records@[j].sha256_base64@ != rec.sha256_base64@,
            ensures
                i <= self.records@.len(),
                self.records@ == before,
                forall|j: int| 0 <= j < i ==> self.records@[j].sha256_base64@ != rec.sha256_base64@,
                i < self.records@.len() ==> self.records@[i as int].sha256_base64@ == rec.sha256_base64@,
            decreases self.records@.len() - i,
        {
            if self.records[i].sha256_base64 == rec.sha256_base64 {
                break;
            }
            i = i + 1;
        }
        let ghost d = rec.sha256_base64@;
        if i < self.records.len() {
            proof {
                lemma_depth_at(before, i as int);
            }
            let mut rec = rec;
            if self.records[i].processed_depth > rec.processed_depth {
                rec.processed_depth = self.records[i].processed_depth;
            }
            self.records.set(i, rec);
        } else {
            self.records.push(rec);
        }
        let ghost after = self.records@;
        proof {
            assert(unique_digests(after)) by {
                assert forall|a: int, b: int| 0 <= a < b < after.len() implies after[a].sha256_base64@
                    != after[b].sha256_base64@ by {
                    if a != i && b != i {
                        assert(after[a] == before[a]);
                        assert(after[b] == before[b]);
                    }
                }
            }
            lemma_depth_at(after, i as int);
            assert forall|e: Seq<char>| e != d implies {
                &&& #[trigger] has_record(after, e) == has_record(before, e)
                &&& depth_of(after, e) == depth_of(before, e)
            } by {
                if has_record(before, e) {
                    let j = choose|j: int| 0 <= j < before.len() && (#[trigger] before[j]).sha256_base64@ == e;
                    assert(j != i);
                    assert(after[j] == before[j]);
                    lemma_depth_at(before, j);
                    lemma_depth_at(after, j);
                }
                if has_record(after, e) {
                    let j = choose|j: int| 0 <= j < after.len() && (#[trigger] after[j]).sha256_base64@ == e;
                    assert(j != i);
                    assert(after[j] == before[j]);
                }
            }
        }
    }

    /// Appends one move row.
    pub fn append(&mut self, m: BookMove)
        ensures
            final(self).records == old(self).records,
            final(self).moves@ == old(self).moves@.push(m),
    {
        self.moves.push(m);
    }

    /// The moves known for a variant (named in any spelling) and a position,
    /// with their summed weights; empty where none is known.
    pub fn get_moves(&self, variant: &str, epd: &String) -> (r: Vec<MoveWeight>)
        requires
            self.moves@.len() < 0xffff_ffff,
        ensures
            is_tally(r@, self.moves@, variant_key_of(lower_of(variant@)), epd@),
    {
        let key = get_variant(variant);
        sum_by_move(&self.moves, &key, epd)
    }

    /// Ingests one record: reads the watermark stored for its digest, appends
    /// a row for each ply from there up to the book's depth, and writes the
    /// record back with its new watermark.
    pub fn ingest_record(&mut self, text: &str, max_depth: usize)
        requires
            old(self).wf(),
        ensures
            record_ingested(*old(self), *final(self), text@, max_depth as int),
    {
        let ghost prev = *self;
        let record = PgnWithDigest::from_pgn(text);
        let watermark: usize = match self.find(&record.sha256_base64) {
            Some(w) => w,
            None => 0,
        };
        let step = plan_pgn(&record, watermark, max_depth);
        let IngestStep { mut moves, update } = step;
        let ghost rows = moves@;
        self.moves.append(&mut moves);
        assert(self.moves@ == prev.moves@ + rows);
        assert(self.moves@.subrange(0, prev.moves@.len() as int) =~= prev.moves@);
        assert forall|k: int| 0 <= k < rows.len() implies #[trigger] self.moves@[prev.moves@.len() + k]
            == rows[k] by {}
        match update {
            Some(rec) => {
                self.upsert(rec);
            },
            None => {},
        }
    }

    /// Ingests a batch of records separated by `RECORD_SEPARATOR`, one after
    /// the other.
    pub fn ingest(&mut self, batch: &str, max_depth: usize)
        requires
            old(self).wf(),
        ensures
            final(self).wf(),
            batch_ingested(*old(self), *final(self), batch@, max_depth as int),
    {
        let ghost b0 = *self;
        let recs = split_batch(batch, RECORD_SEPARATOR);
        let ghost rv = records_of(batch@, RECORD_SEPARATOR@);
        let ghost m = max_depth as int;
        let ghost mut trace: Seq<MemoryBook> = seq![*self];
        let mut i: usize = 0;
        while i < recs.len()
            invariant
                self.wf(),
                trace.len() == i + 1,
                trace[0] == b0,
                trace.last() == *self,
                forall|j: int|
                    0 <= j < i ==> record_ingested(#[trigger] trace[j], trace[j + 1], rv[j], m),
                i <= recs@.len(),
                recs@.map_values(|s: String| s@) == rv,
                rv == records_of(batch@, RECORD_SEPARATOR@),
                m == max_depth,
                forall|j: int|
                    0 <= j < i ==> skips(
                        depth_of(self.records@, digest_of(#[trigger] rv[j])),
                        pgn_plies_of(rv[j]).len() as int,
                        m,
                    ),
                forall|j: int|
                    0 <= j < i && pgn_plies_of(#[trigger] rv[j]).len() > 0 && m > 0 ==> has_record(
                        self.records@,
                        digest_of(rv[j]),
                    ),
                forall|e: Seq<char>|
                    #[trigger] depth_of(self.records@, e) >= depth_of(b0.records@, e) && (has_record(
                        b0.records@,
                        e,
                    ) ==> has_record(self.records@, e)),
                b0.moves@.len() <= self.moves@.len(),
                self.moves@.subrange(0, b0.moves@.len() as int) == b0.moves@,
                batch_done(b0, batch@, m) ==> self.moves@ == b0.moves@,
            decreases recs@.len() - i,
        {
            let ghost prev = *self;
            let ghost t = rv[i as int];
            assert(recs@[i as int]@ == t);
            self.ingest_record(recs[i].as_str(), max_depth);
            let ghost d = digest_of(t);
            proof {
                let prev_trace = trace;
                trace = trace.push(*self);
                assert forall|j: int| 0 <= j < i + 1 implies record_ingested(#[trigger] trace[j], trace[j + 1], rv[j], m) by {
                    if j < i {
                        assert(trace[j] == prev_trace[j]);
                        assert(trace[j + 1] == prev_trace[j + 1]);
                    } else {
                        assert(trace[j] == prev);
                    }
                }
                assert forall|j: int|
                    0 <= j < i + 1 implies skips(
                        depth_of(self.records@, digest_of(#[trigger] rv[j])),
                        pgn_plies_of(rv[j]).len() as int,
                        m,
                    ) by {
                    if digest_of(rv[j]) != d {
                        assert(depth_of(self.records@, digest_of(rv[j])) == depth_of(prev.records@, digest_of(rv[j])));
                    }
                }
                assert forall|j: int|
                    0 <= j < i + 1 && pgn_plies_of(#[trigger] rv[j]).len() > 0 && m > 0 implies has_record(
                        self.records@,
                        digest_of(rv[j]),
                    ) by {
                    if digest_of(rv[j]) != d {
                        assert(has_record(self.records@, digest_of(rv[j])) == has_record(prev.records@, digest_of(rv[j])));
                    } else if j == i && depth_of(prev.records@, d) > 0 {
                        assert(has_record(prev.records@, d));
                    }
                }
                assert forall|e: Seq<char>|
                    #[trigger] depth_of(self.records@, e) >= depth_of(b0.records@, e) && (has_record(
                        b0.records@,
                        e,
                    ) ==> has_record(self.records@, e)) by {
                    if e != d {
                        assert(has_record(self.records@, e) == has_record(prev.records@, e));
                    }
                    assert(depth_of(prev.records@, e) >= depth_of(b0.records@, e));
                }
                assert(self.moves@.subrange(0, b0.moves@.len() as int) =~= b0.moves@) by {
                    assert(self.moves@.subrange(0, prev.moves@.len() as int) == prev.moves@);
                    assert(prev.moves@.subrange(0, b0.moves@.len() as int) == b0.moves@);
                    assert forall|k: int| 0 <= k < b0.moves@.len() implies self.moves@[k] == b0.moves@[k] by {
                        assert(self.moves@.subrange(0, prev.moves@.len() as int)[k] == prev.moves@[k]);
                        assert(prev.moves@.subrange(0, b0.moves@.len() as int)[k] == b0.moves@[k]);
                    }
                }
                if batch_done(b0, batch@, m) {
                    assert(rv.contains(t)) by {
                        assert(rv[i as int] == t);
                    }
                    assert(depth_of(prev.records@, d) >= depth_of(b0.records@, d));
                    assert(self.moves@ =~= prev.moves@) by {
                        assert(self.moves@.subrange(0, prev.moves@.len() as int) == prev.moves@);
                    }
                }
            }
            i = i + 1;
        }
        proof {
            assert forall|t: Seq<char>| #[trigger] rv.contains(t) implies skips(
                depth_of(self.records@, digest_of(t)),
                pgn_plies_of(t).len() as int,
                m,
            ) && (pgn_plies_of(t).len() > 0 && m > 0 ==> has_record(self.records@, digest_of(t))) by {
                let j = choose|j: int| 0 <= j < rv.len() && rv[j] == t;
                assert(j < recs@.len());
            }
            assert(ingested_in_order(trace, rv, m));
        }
    }
}

} // verus!

verus! {

/// Ingesting the same batch twice: the second pass appends no row.
pub proof fn lemma_batch_idempotent(b0: MemoryBook, b1: MemoryBook, b2: MemoryBook, batch: Seq<char>, max_depth: int)
    requires
        batch_ingested(b0, b1, batch, max_depth),
        batch_ingested(b1, b2, batch, max_depth),
    ensures
        b2.moves@ == b1.moves@,
{
}

/// A record that two batches both hold is stored once, under its digest; and
/// a second batch whose records were all in the first appends no row, however
/// they are ordered or repeated.
pub proof fn lemma_batch_dedup(
    b0: MemoryBook,
    b1: MemoryBook,
    b2: MemoryBook,
    first: Seq<char>,
    second: Seq<char>,
    t: Seq<char>,
    max_depth: int,
)
    requires
        batch_ingested(b0, b1, first, max_depth),
        batch_ingested(b1, b2, second, max_depth),
        records_of(first, RECORD_SEPARATOR@).contains(t),
        records_of(second, RECORD_SEPARATOR@).contains(t),
        pgn_plies_of(t).len() > 0,
        max_depth > 0,
    ensures
        has_record(b2.records@, digest_of(t)),
        forall|i: int, j: int|
            0 <= i < b2.records@.len() && 0 <= j < b2.records@.len()
                && (#[trigger] b2.records@[i]).sha256_base64@ == digest_of(t)
                && (#[trigger] b2.records@[j]).sha256_base64@ == digest_of(t) ==> i == j,
        (forall|u: Seq<char>|
            #[trigger] records_of(second, RECORD_SEPARATOR@).contains(u) ==> records_of(
                first,
                RECORD_SEPARATOR@,
            ).contains(u)) ==> b2.moves@ == b1.moves@,
{
    assert forall|i: int, j: int|
        0 <= i < b2.records@.len() && 0 <= j < b2.records@.len()
            && (#[trigger] b2.records@[i]).sha256_base64@ == digest_of(t)
            && (#[trigger] b2.records@[j]).sha256_base64@ == digest_of(t) implies i == j by {
        if i < j {
            assert(b2.records@[i].sha256_base64@ != b2.records@[j].sha256_base64@);
        } else if j < i {
            assert(b2.records@[j].sha256_base64@ != b2.records@[i].sha256_base64@);
        }
    }
}

/// Raising the depth resumes a record: ingested first at depth `d1`, then at
/// `d2 >= d1`, a record of `n` plies gets rows for plies `0..min(n, d1)` and
/// then for exactly `min(n, d1)..min(n, d2)`, and its watermark ends at
/// `min(n, d2)`.
pub proof fn lemma_resume_record(
    b0: MemoryBook,
    b1: MemoryBook,
    b2: MemoryBook,
    t: Seq<char>,
    d1: int,
    d2: int,
)
    requires
        0 <= d1 <= d2,
        !has_record(b0.records@, digest_of(t)),
        record_ingested(b0, b1, t, d1),
        record_ingested(b1, b2, t, d2),
    ensures
        ({
            let n = pgn_plies_of(t).len() as int;
            let w1 = if n < d1 { n } else { d1 };
            let w2 = if n < d2 { n } else { d2 };
            &&& depth_of(b1.records@, digest_of(t)) == w1
            &&& depth_of(b2.records@, digest_of(t)) == w2
            &&& b1.moves@.len() == b0.moves@.len() + w1
            &&& b2.moves@.len() == b1.moves@.len() + (w2 - w1)
            &&& b2.moves@.subrange(0, b1.moves@.len() as int) == b1.moves@
            &&& forall|k: int|
                0 <= k < w2 - w1 ==> #[trigger] b2.moves@[b1.moves@.len() + k].epd@ == pgn_plies_of(t)[w1
                    + k].2
        }),
{
    let n = pgn_plies_of(t).len() as int;
    let w1 = if n < d1 { n } else { d1 };
    assert forall|k: int| 0 <= k < (if n < d2 { n } else { d2 }) - w1 implies #[trigger] b2.moves@[b1.moves@.len() + k].epd@
        == pgn_plies_of(t)[w1 + k].2 by {
        assert(row_of(
            b2.moves@[b1.moves@.len() + k],
            variant_key_of(lower_of(pgn_header_of(t, VARIANT_HEADER@))),
            digest_of(t),
            pgn_plies_of(t)[w1 + k],
            ordinal_of(pgn_header_of(t, RESULT_HEADER@)),
        ));
    }
}

} // verus!
