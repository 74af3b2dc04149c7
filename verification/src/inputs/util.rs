//! Row preparation shared by the adapters: line splitting, the fixed
//! skip-head and skip-tail counts, and dropping blank boilerplate rows.

use vstd::prelude::*;

use crate::text::{split_bytes, split_seq};

verus! {

/// The raw rows of an input: its pieces between line feeds.
pub open spec fn raw_rows(input: Seq<u8>) -> Seq<Seq<u8>> {
    split_seq(input, 10)
}

/// A row with one trailing carriage return removed, so that lines ended by
/// either line-feed convention read the same.
pub open spec fn strip_cr(row: Seq<u8>) -> Seq<u8> {
    if row.len() > 0 && row.last() == 13 {
        row.drop_last()
    } else {
        row
    }
}

/// The rows left after unconditionally discarding the first `skip_head` and
/// the last `skip_tail` raw rows. An input with too few rows keeps none —
/// that is no error.
pub open spec fn kept_rows(input: Seq<u8>, skip_head: int, skip_tail: int) -> Seq<Seq<u8>> {
    let rows = raw_rows(input);
    if rows.len() >= skip_head + skip_tail {
        rows.subrange(skip_head, rows.len() - skip_tail)
    } else {
        Seq::empty()
    }
}

/// The kept rows, each stripped of a trailing carriage return, with blank
/// rows dropped as boilerplate.
pub open spec fn data_of(rows: Seq<Seq<u8>>) -> Seq<Seq<u8>>
    decreases rows.len(),
{
    if rows.len() == 0 {
        Seq::empty()
    } else {
        let rest = data_of(rows.drop_last());
        let r = strip_cr(rows.last());
        if r.len() > 0 {
            rest.push(r)
        } else {
            rest
        }
    }
}

/// The data rows an adapter with the given skip counts reads from an input.
pub open spec fn data_rows(input: Seq<u8>, skip_head: int, skip_tail: int) -> Seq<Seq<u8>> {
    data_of(kept_rows(input, skip_head, skip_tail))
}

/// How many of the rows are blank (empty once a trailing carriage return is
/// stripped).
pub open spec fn blank_count(rows: Seq<Seq<u8>>) -> int
    decreases rows.len(),
{
    if rows.len() == 0 {
        0
    } else {
        blank_count(rows.drop_last()) + if strip_cr(rows.last()).len() == 0 {
            1int
        } else {
            0int
        }
    }
}

/// The data rows are exactly the kept rows less the blank ones.
pub proof fn lemma_data_of_len(rows: Seq<Seq<u8>>)
    ensures
        data_of(rows).len() == rows.len() - blank_count(rows),
        0 <= blank_count(rows) <= rows.len(),
    decreases rows.len(),
{
    if rows.len() > 0 {
        lemma_data_of_len(rows.drop_last());
    }
}

/// Row accounting: with enough raw rows, the number of data rows is the raw
/// row count less the two skip counts and the blank rows among the kept
/// range; with fewer raw rows than are skipped, no data rows are read at
/// all, and that is no error.
pub proof fn lemma_data_rows_len(input: Seq<u8>, skip_head: int, skip_tail: int)
    requires
        skip_head >= 0,
        skip_tail >= 0,
    ensures
        raw_rows(input).len() >= skip_head + skip_tail ==> data_rows(
            input,
            skip_head,
            skip_tail,
        ).len() == raw_rows(input).len() - skip_head - skip_tail - blank_count(
            kept_rows(input, skip_head, skip_tail),
        ),
        raw_rows(input).len() < skip_head + skip_tail ==> data_rows(
            input,
            skip_head,
            skip_tail,
        ).len() == 0,
{
    lemma_data_of_len(kept_rows(input, skip_head, skip_tail));
}

/// How many results of a row sequence are successes.
pub open spec fn ok_count<T, E>(rs: Seq<Result<T, E>>) -> int
    decreases rs.len(),
{
    if rs.len() == 0 {
        0
    } else {
        ok_count(rs.drop_last()) + if rs.last() is Ok {
            1int
        } else {
            0int
        }
    }
}

/// When every result is a success, the success count is the length.
pub proof fn lemma_ok_count_all<T, E>(rs: Seq<Result<T, E>>)
    requires
        forall|i: int| 0 <= i < rs.len() ==> (#[trigger] rs[i]) is Ok,
    ensures
        ok_count(rs) == rs.len(),
    decreases rs.len(),
{
    if rs.len() > 0 {
        lemma_ok_count_all(rs.drop_last());
    }
}

/// Splits an input into its data rows for an adapter with the given skip
/// counts.
#[verifier::loop_isolation(false)]
pub fn prepare_rows(input: &[u8], skip_head: usize, skip_tail: usize) -> (r: Vec<Vec<u8>>)
    requires
        skip_head + skip_tail <= usize::MAX,
    ensures
        r.deep_view() == data_rows(input@, skip_head as int, skip_tail as int),
{
    let mut rows = split_bytes(input, 10);
    let mut out: Vec<Vec<u8>> = Vec::new();
    let ghost kept = kept_rows(input@, skip_head as int, skip_tail as int);
    if rows.len() < skip_head + skip_tail {
        proof {
            assert(kept =~= Seq::<Seq<u8>>::empty());
            assert(out.deep_view() =~= data_of(kept));
        }
        return out;
    }
    let end = rows.len() - skip_tail;
    let mut i: usize = skip_head;
    proof {
        assert(kept =~= rows.deep_view().subrange(
            skip_head as int,
            rows.deep_view().len() - skip_tail,
        ));
        assert(kept.take(0) =~= Seq::<Seq<u8>>::empty());
        assert(out.deep_view() =~= data_of(kept.take(0)));
    }
    while i < end
        invariant
            skip_head <= i <= end,
            end == rows@.len() - skip_tail,
            rows.deep_view().len() == rows@.len(),
            kept.len() == end - skip_head,
            forall|j: int| skip_head <= j < end ==> kept[j - skip_head] == rows.deep_view()[j],
            out.deep_view() == data_of(kept.take(i - skip_head)),
        decreases end - i,
    {
        let ghost k = i - skip_head;
        proof {
            assert(kept.take(k + 1).drop_last() =~= kept.take(k));
            assert(kept.take(k + 1).last() == kept[k]);
            assert(rows@[i as int]@ == rows.deep_view()[i as int]);
        }
        let mut row = rows[i].clone();
        proof {
            assert(row@ == kept[k]);
        }
        let rlen = row.len();
        if rlen > 0 && row[rlen - 1] == 13 {
            row.pop();
        }
        proof {
            assert(row@ =~= strip_cr(kept[k]));
        }
        if row.len() > 0 {
            let ghost o0 = out.deep_view();
            let ghost rv = row@;
            out.push(row);
            proof {
                assert(out.deep_view() =~~= o0.push(rv));
            }
        }
        i += 1;
    }
    proof {
        assert(kept.take(i - skip_head) =~= kept);
    }
    out
}

} // verus!
