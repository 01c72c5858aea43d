//! The book's read side: the weights of the moves known in a position,
//! summed per move.

use vstd::prelude::*;
use crate::bookmove::BookMove;

verus! {

/// A move known in a position, with its summed outcome weight.
#[derive(Debug)]
pub struct MoveWeight {
    pub uci: String,
    pub weight: i64,
}

/// The row belongs to the variant and position asked for.
pub open spec fn in_position(row: BookMove, variant: Seq<char>, epd: Seq<char>) -> bool {
    row.variant@ == variant && row.epd@ == epd
}

/// The summed weight of a move over the rows of a variant and position.
pub open spec fn weight_of(rows: Seq<BookMove>, variant: Seq<char>, epd: Seq<char>, uci: Seq<char>) -> int
    decreases rows.len(),
{
    if rows.len() == 0 {
        0
    } else {
        let row = rows.last();
        weight_of(rows.drop_last(), variant, epd, uci) + if in_position(row, variant, epd) && row.uci@
            == uci {
            row.result_wrt as int
        } else {
            0
        }
    }
}

/// Some row of the variant and position holds the move.
pub open spec fn known(rows: Seq<BookMove>, variant: Seq<char>, epd: Seq<char>, uci: Seq<char>) -> bool {
    exists|i: int| 0 <= i < rows.len() && in_position(#[trigger] rows[i], variant, epd) && rows[i].uci@ == uci
}

/// The table lists each known move once, with its summed weight, and nothing else.
pub open spec fn is_tally(table: Seq<MoveWeight>, rows: Seq<BookMove>, variant: Seq<char>, epd: Seq<char>) -> bool {
    &&& forall|i: int, j: int| 0 <= i < j < table.len() ==> table[i].uci@ != table[j].uci@
    &&& forall|i: int|
        0 <= i < table.len() ==> {
            &&& known(rows, variant, epd, #[trigger] table[i].uci@)
            &&& table[i].weight == weight_of(rows, variant, epd, table[i].uci@)
        }
    &&& forall|uci: Seq<char>|
        known(rows, variant, epd, uci) ==> exists|j: int| 0 <= j < table.len() && #[trigger] table[j].uci@ == uci
}

proof fn lemma_weight_bound(rows: Seq<BookMove>, variant: Seq<char>, epd: Seq<char>, uci: Seq<char>)
    ensures
        -(rows.len() * 0x8000_0000) <= weight_of(rows, variant, epd, uci) <= rows.len() * 0x8000_0000,
    decreases rows.len(),
{
    if rows.len() > 0 {
        lemma_weight_bound(rows.drop_last(), variant, epd, uci);
    }
}

/// Sums the weights of the rows of a variant and position per move. Where no
/// row belongs to them the table is empty.
pub fn sum_by_move(rows: &Vec<BookMove>, variant: &String, epd: &String) -> (r: Vec<MoveWeight>)
    requires
        rows@.len() < 0xffff_ffff,
    ensures
        is_tally(r@, rows@, variant@, epd@),
{
    let mut out: Vec<MoveWeight> = Vec::new();
    let mut n: usize = 0;
    while n < rows.len()
        invariant
            n <= rows@.len() < 0xffff_ffff,
            is_tally(out@, rows@.subrange(0, n as int), variant@, epd@),
        decreases rows@.len() - n,
    {
        let ghost prev = rows@.subrange(0, n as int);
        let ghost next = rows@.subrange(0, n + 1);
        let row = &rows[n];
        assert(next.drop_last() =~= prev);
        assert(next.last() == rows@[n as int]);
        assert forall|uci: Seq<char>| #[trigger] known(next, variant@, epd@, uci) <==> (known(prev, variant@, epd@, uci) || (in_position(*row, variant@, epd@) && row.uci@ == uci)) by {
            if known(next, variant@, epd@, uci) {
                let i = choose|i: int| 0 <= i < next.len() && in_position(#[trigger] next[i], variant@, epd@) && next[i].uci@ == uci;
                if i < n {
                    assert(prev[i] == next[i]);
                }
            }
            if known(prev, variant@, epd@, uci) {
                let i = choose|i: int| 0 <= i < prev.len() && in_position(#[trigger] prev[i], variant@, epd@) && prev[i].uci@ == uci;
                assert(next[i] == prev[i]);
            }
            if in_position(*row, variant@, epd@) && row.uci@ == uci {
                assert(next[n as int] == *row);
            }
        }
        if row.variant == *variant && row.epd == *epd {
            let mut j: usize = 0;
            while j < out.len()
                invariant
                    j <= out@.len(),
                    forall|jj: int| 0 <= jj < j ==> out@[jj].uci@ != row.uci@,
                ensures
                    j <= out@.len(),
                    forall|jj: int| 0 <= jj < j ==> out@[jj].uci@ != row.uci@,
                    j < out@.len() ==> out@[j as int].uci@ == row.uci@,
                decreases out@.len() - j,
            {
                if out[j].uci == row.uci {
                    break;
                }
                j = j + 1;
            }
            if j < out.len() {
                proof {
                    lemma_weight_bound(prev, variant@, epd@, row.uci@);
                    let len = prev.len();
                    assert(len * 0x8000_0000 <= 0x7fff_ffff_0000_0000) by (nonlinear_arith)
                        requires len < 0xffff_ffff;
                }
                let w = out[j].weight + row.result_wrt as i64;
                let entry = MoveWeight { uci: out[j].uci.clone(), weight: w };
                let ghost old_out = out@;
                out.set(j, entry);
                assert forall|i: int| 0 <= i < out@.len() implies {
                    &&& known(next, variant@, epd@, #[trigger] out@[i].uci@)
                    &&& out@[i].weight == weight_of(next, variant@, epd@, out@[i].uci@)
                } by {
                    assert(known(prev, variant@, epd@, old_out[i].uci@));
                    if i != j {
                        assert(out@[i] == old_out[i]);
                    }
                    assert(out@[i].uci@ == old_out[i].uci@);
                    assert(known(next, variant@, epd@, out@[i].uci@));
                }
                assert forall|a: int, b: int| 0 <= a < b < out@.len() implies out@[a].uci@ != out@[b].uci@ by {
                    assert(out@[a].uci@ == old_out[a].uci@);
                    assert(out@[b].uci@ == old_out[b].uci@);
                }
                assert forall|uci: Seq<char>| known(next, variant@, epd@, uci) implies exists|k: int| 0 <= k < out@.len() && #[trigger] out@[k].uci@ == uci by {
                    if known(prev, variant@, epd@, uci) {
                        let k = choose|k: int| 0 <= k < old_out.len() && #[trigger] old_out[k].uci@ == uci;
                        assert(out@[k].uci@ == uci);
                    } else {
                        assert(out@[j as int].uci@ == uci);
                    }
                }
            } else {
                let ghost old_out = out@;
                out.push(MoveWeight { uci: row.uci.clone(), weight: row.result_wrt as i64 });
                assert(!known(prev, variant@, epd@, row.uci@));
                assert forall|i: int| 0 <= i < out@.len() implies {
                    &&& known(next, variant@, epd@, #[trigger] out@[i].uci@)
                    &&& out@[i].weight == weight_of(next, variant@, epd@, out@[i].uci@)
                } by {
                    if i < old_out.len() {
                        assert(out@[i] == old_out[i]);
                    } else {
                        assert(weight_of(prev, variant@, epd@, row.uci@) == 0) by {
                            lemma_unknown_weighs_nothing(prev, variant@, epd@, row.uci@);
                        }
                    }
                }
                assert forall|uci: Seq<char>| known(next, variant@, epd@, uci) implies exists|k: int| 0 <= k < out@.len() && #[trigger] out@[k].uci@ == uci by {
                    if known(prev, variant@, epd@, uci) {
                        let k = choose|k: int| 0 <= k < old_out.len() && #[trigger] old_out[k].uci@ == uci;
                        assert(out@[k] == old_out[k]);
                    } else {
                        assert(out@[old_out.len() as int].uci@ == uci);
                    }
                }
            }
        } else {
            assert forall|i: int| 0 <= i < out@.len() implies {
                &&& known(next, variant@, epd@, #[trigger] out@[i].uci@)
                &&& out@[i].weight == weight_of(next, variant@, epd@, out@[i].uci@)
            } by {}
        }
        n = n + 1;
    }
    assert(rows@.subrange(0, rows@.len() as int) =~= rows@);
    out
}

proof fn lemma_unknown_weighs_nothing(rows: Seq<BookMove>, variant: Seq<char>, epd: Seq<char>, uci: Seq<char>)
    requires
        !known(rows, variant, epd, uci),
    ensures
        weight_of(rows, variant, epd, uci) == 0,
    decreases rows.len(),
{
    if rows.len() > 0 {
        let prev = rows.drop_last();
        assert(!known(prev, variant, epd, uci)) by {
            if known(prev, variant, epd, uci) {
                let i = choose|i: int| 0 <= i < prev.len() && in_position(#[trigger] prev[i], variant, epd) && prev[i].uci@ == uci;
                assert(rows[i] == prev[i]);
            }
        }
        lemma_unknown_weighs_nothing(prev, variant, epd, uci);
        if in_position(rows.last(), variant, epd) && rows.last().uci@ == uci {
            assert(in_position(rows[rows.len() - 1], variant, epd));
        }
    }
}

} // verus!

verus! {

/// A position that no row belongs to has an empty table: an empty table means
/// that no move is known there.
pub proof fn lemma_unknown_position_is_empty(
    table: Seq<MoveWeight>,
    rows: Seq<BookMove>,
    variant: Seq<char>,
    epd: Seq<char>,
)
    requires
        is_tally(table, rows, variant, epd),
    ensures
        (forall|i: int| 0 <= i < rows.len() ==> !in_position(#[trigger] rows[i], variant, epd))
            <==> table.len() == 0,
{
    if table.len() > 0 {
        assert(known(rows, variant, epd, table[0].uci@));
    }
    if exists|i: int| 0 <= i < rows.len() && in_position(#[trigger] rows[i], variant, epd) {
        let i = choose|i: int| 0 <= i < rows.len() && in_position(#[trigger] rows[i], variant, epd);
        assert(known(rows, variant, epd, rows[i].uci@));
    }
}

} // verus!
