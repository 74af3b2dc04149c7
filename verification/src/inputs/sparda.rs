//! The Sparda source adapter.
//!
//! Sparda exports predate Unicode: the bytes are windows-1252. The rows are
//! `;`-delimited and unquoted, with ten boilerplate lines up front and no
//! trailing line to discard. Dates are written `YYYY-M-D` and the amount
//! column uses the euro comma convention.

use vstd::prelude::*;

use crate::date::{parse_iso, parse_iso_spec, Date};
use crate::decode::{decode_w1252, w1252_decode};
use crate::error::ParseError;
use crate::homebank::{Payment, Record};
use crate::inputs::util::{
    blank_count, data_rows, kept_rows, lemma_data_rows_len, ok_count, prepare_rows, raw_rows,
};
use crate::money::{amount_field, Amount};
use crate::text::{split_seq, split_str, trim_quotes_str};

verus! {

/// One decoded Sparda row: every column of the export, parsed where the
/// record needs it and kept as plain text everywhere else. Underscore-
/// prefixed columns are retained for completeness only.
pub struct Sparda {
    pub buchungstag: Date,
    pub _wertstellungstag: Date,
    pub gegeniban: String,
    pub name_gegenkonto: String,
    pub verwendungszweck: String,
    pub umsatz: Amount,
    pub _waehrung: String,
}

/// The mathematical content of a Sparda row.
#[verifier::ext_equal]
pub struct SpardaV {
    pub buchungstag: Date,
    pub wertstellungstag: Date,
    pub gegeniban: Seq<char>,
    pub name_gegenkonto: Seq<char>,
    pub verwendungszweck: Seq<char>,
    /// The amount, in cents.
    pub umsatz: int,
    pub waehrung: Seq<char>,
}

impl View for Sparda {
    type V = SpardaV;

    open spec fn view(&self) -> SpardaV {
        SpardaV {
            buchungstag: self.buchungstag,
            wertstellungstag: self._wertstellungstag,
            gegeniban: self.gegeniban@,
            name_gegenkonto: self.name_gegenkonto@,
            verwendungszweck: self.verwendungszweck@,
            umsatz: self.umsatz.cents as int,
            waehrung: self._waehrung@,
        }
    }
}

/// What one split Sparda row parses to: the first failing column names the
/// row's error, in the order the columns are read.
pub open spec fn sparda_fields(fs: Seq<Seq<char>>) -> Result<SpardaV, ParseError> {
    if fs.len() < 7 {
        Err(ParseError::ColumnShape)
    } else if parse_iso_spec(fs[0]) is None {
        Err(ParseError::Date)
    } else if parse_iso_spec(fs[1]) is None {
        Err(ParseError::Date)
    } else if amount_field(fs[5]) is None {
        Err(ParseError::Currency)
    } else {
        Ok(
            SpardaV {
                buchungstag: parse_iso_spec(fs[0])->Some_0,
                wertstellungstag: parse_iso_spec(fs[1])->Some_0,
                gegeniban: fs[2],
                name_gegenkonto: fs[3],
                verwendungszweck: fs[4],
                umsatz: amount_field(fs[5])->Some_0,
                waehrung: fs[6],
            },
        )
    }
}

/// What one data row parses to: decode the row's bytes from windows-1252
/// (which never fails), split the columns at `;`, and read them.
pub open spec fn sparda_row(row: Seq<u8>) -> Result<SpardaV, ParseError> {
    sparda_fields(split_seq(w1252_decode(row), ';'))
}

impl Sparda {
    /// Reads one row's split columns into a Sparda row.
    pub fn from_fields(fields: &Vec<String>) -> (r: Result<Sparda, ParseError>)
        ensures
            r is Ok <==> sparda_fields(fields.deep_view()) is Ok,
            r is Ok ==> r->Ok_0@ == sparda_fields(fields.deep_view())->Ok_0,
            r is Err ==> r->Err_0 == sparda_fields(fields.deep_view())->Err_0,
    {
        let ghost fs = fields.deep_view();
        if fields.len() < 7 {
            return Err(ParseError::ColumnShape);
        }
        proof {
            assert forall|i: int| 0 <= i < 7 implies fields@[i]@ == fs[i] by {}
        }
        let buchungstag = match parse_iso(fields[0].as_str()) {
            Some(d) => d,
            None => {
                return Err(ParseError::Date);
            },
        };
        let wertstellungstag = match parse_iso(fields[1].as_str()) {
            Some(d) => d,
            None => {
                return Err(ParseError::Date);
            },
        };
        let umsatz_text = trim_quotes_str(fields[5].as_str());
        let umsatz = match Amount::parse_eur(umsatz_text.as_str()) {
            Some(a) => a,
            None => {
                return Err(ParseError::Currency);
            },
        };
        let s = Sparda {
            buchungstag,
            _wertstellungstag: wertstellungstag,
            gegeniban: fields[2].clone(),
            name_gegenkonto: fields[3].clone(),
            verwendungszweck: fields[4].clone(),
            umsatz,
            _waehrung: fields[6].clone(),
        };
        proof {
            assert(s@ =~= sparda_fields(fs)->Ok_0);
        }
        Ok(s)
    }

    /// The canonical record this row normalizes to: a fixed field-to-field
    /// mapping, with the payment method always electronic payment and the
    /// category and tags empty.
    pub fn to_record(self) -> (r: Record)
        ensures
            is_record_of_sparda(r, self@),
    {
        let r = Record {
            date: self.buchungstag,
            payment: Payment::ElectronicPayment,
            info: self.gegeniban,
            payee: self.name_gegenkonto,
            memo: self.verwendungszweck,
            amount: self.umsatz,
            category: String::new(),
            tags: Vec::new(),
        };
        proof {
            assert(r.tags.deep_view() =~= Seq::<Seq<char>>::empty());
        }
        r
    }
}

/// Whether `r` is the canonical record of the Sparda row `s`.
pub open spec fn is_record_of_sparda(r: Record, s: SpardaV) -> bool {
    &&& r.date == s.buchungstag
    &&& r.payment == Payment::ElectronicPayment
    &&& r.info@ == s.gegeniban
    &&& r.payee@ == s.name_gegenkonto
    &&& r.memo@ == s.verwendungszweck
    &&& r.amount.cents as int == s.umsatz
    &&& r.category@ == Seq::<char>::empty()
    &&& r.tags.deep_view() == Seq::<Seq<char>>::empty()
}

/// Whether an emitted row result agrees with what the row specification
/// says of that row.
pub open spec fn sparda_result_matches(
    res: Result<Record, ParseError>,
    s: Result<SpardaV, ParseError>,
) -> bool {
    match s {
        Ok(v) => res is Ok && is_record_of_sparda(res->Ok_0, v),
        Err(e) => res == Err::<Record, ParseError>(e),
    }
}

/// The row results the adapter yields for an input, in input order.
pub open spec fn sparda_results(input: Seq<u8>) -> Seq<Result<SpardaV, ParseError>> {
    data_rows(input, 10, 0).map_values(|row: Seq<u8>| sparda_row(row))
}

/// The lazy sequence of row-or-error results read from a Sparda export.
///
/// The rows are fixed when the iterator is made; each call of [`Self::next`]
/// decodes and parses one more row. Once exhausted it stays exhausted.
pub struct TeoIter {
    pub rows: Vec<Vec<u8>>,
    pub idx: usize,
}

impl TeoIter {
    /// Sets up the adapter over a whole export's bytes, discarding the ten
    /// leading boilerplate lines.
    pub fn new(input: &[u8]) -> (r: Self)
        ensures
            r.rows.deep_view() == data_rows(input@, 10, 0),
            r.idx == 0,
    {
        TeoIter { rows: prepare_rows(input, 10, 0), idx: 0 }
    }

    /// Decodes, parses and yields the next row, or `None` when the input is
    /// done.
    pub fn next(&mut self) -> (r: Option<Result<Record, ParseError>>)
        ensures
            final(self).rows == old(self).rows,
            old(self).idx >= old(self).rows@.len() ==> r is None && final(self).idx == old(
                self,
            ).idx,
            old(self).idx < old(self).rows@.len() ==> {
                &&& final(self).idx == old(self).idx + 1
                &&& r is Some
                &&& sparda_result_matches(
                    r->Some_0,
                    sparda_row(old(self).rows.deep_view()[old(self).idx as int]),
                )
            },
    {
        if self.idx >= self.rows.len() {
            return None;
        }
        let row = &self.rows[self.idx];
        proof {
            assert(row@ == old(self).rows.deep_view()[self.idx as int]);
        }
        self.idx = self.idx + 1;
        let text = decode_w1252(row.as_slice());
        let fields = split_str(text.as_str(), ';');
        match Sparda::from_fields(&fields) {
            Ok(s) => Some(Ok(s.to_record())),
            Err(e) => Some(Err(e)),
        }
    }

    /// Decodes and parses every remaining row, in order.
    pub fn collect_records(&mut self) -> (r: Vec<Result<Record, ParseError>>)
        requires
            old(self).idx <= old(self).rows@.len(),
        ensures
            final(self).rows == old(self).rows,
            final(self).idx == old(self).rows@.len(),
            r@.len() == old(self).rows@.len() - old(self).idx,
            forall|i: int|
                0 <= i < r@.len() ==> sparda_result_matches(
                    #[trigger] r@[i],
                    sparda_row(old(self).rows.deep_view()[old(self).idx + i]),
                ),
    {
        let mut r: Vec<Result<Record, ParseError>> = Vec::new();
        loop
            invariant
                self.rows == old(self).rows,
                old(self).idx <= self.idx <= self.rows@.len(),
                r@.len() == self.idx - old(self).idx,
                forall|i: int|
                    0 <= i < r@.len() ==> sparda_result_matches(
                        #[trigger] r@[i],
                        sparda_row(old(self).rows.deep_view()[old(self).idx + i]),
                    ),
            decreases self.rows@.len() - self.idx,
        {
            match self.next() {
                Some(x) => {
                    r.push(x);
                },
                None => {
                    return r;
                },
            }
        }
    }
}

/// Row accounting: on a valid export — every data row parses — the adapter
/// yields one record per raw row, less the ten skipped heading rows and the
/// blank boilerplate rows among what is kept.
pub proof fn lemma_sparda_row_accounting(input: Seq<u8>)
    requires
        raw_rows(input).len() >= 10,
        forall|i: int|
            0 <= i < sparda_results(input).len() ==> #[trigger] sparda_results(input)[i] is Ok,
    ensures
        ok_count(sparda_results(input)) == raw_rows(input).len() - 10 - blank_count(
            kept_rows(input, 10, 0),
        ),
{
    lemma_data_rows_len(input, 10, 0);
    crate::inputs::util::lemma_ok_count_all(sparda_results(input));
}

/// An input with fewer rows than the skip-head count yields the empty
/// result sequence, not an error.
pub proof fn lemma_sparda_short_input(input: Seq<u8>)
    requires
        raw_rows(input).len() < 10,
    ensures
        sparda_results(input).len() == 0,
{
    lemma_data_rows_len(input, 10, 0);
}

} // verus!
