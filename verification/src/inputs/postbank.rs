//! The Postbank source adapter.
//!
//! Postbank exports are UTF-8, `;`-delimited and unquoted, with seven
//! boilerplate lines up front and one trailing line to discard. Dates are
//! written `D.M.YYYY` and the amount column uses the euro comma convention.

use vstd::prelude::*;
use vstd::utf8::{decode_utf8, valid_utf8};

use crate::date::{parse_dmy, parse_dmy_spec, Date};
use crate::decode::decode_utf8_bytes;
use crate::error::ParseError;
use crate::homebank::{Payment, Record};
use crate::inputs::util::{
    blank_count, data_rows, kept_rows, lemma_data_rows_len, ok_count, prepare_rows, raw_rows,
};
use crate::money::{amount_field, Amount};
use crate::text::{split_seq, split_str, trim_quotes_str};

verus! {

/// One decoded Postbank row: every column of the export, parsed where the
/// record needs it and kept as plain text everywhere else, so that nothing
/// of the row is silently dropped. Underscore-prefixed columns are retained
/// for completeness only.
pub struct Postbank {
    pub buchungstag: Date,
    pub _wert: Date,
    pub _umsatzart: String,
    pub auftraggeber: String,
    pub verwendungszweck: String,
    pub _iban: String,
    pub _bic: String,
    pub kundenreferenz: String,
    pub _mandatsreferenz: String,
    pub _glaeubiger_id: String,
    pub _fremde_gebuehren: String,
    pub betrag: Amount,
    pub _abweichender_empfaenger: String,
    pub _count_auftraege: String,
    pub _count_schecks: String,
    pub _soll: String,
    pub _haben: String,
    pub _waehrung: String,
}

/// The mathematical content of a Postbank row.
#[verifier::ext_equal]
pub struct PostbankV {
    pub buchungstag: Date,
    pub wert: Date,
    pub umsatzart: Seq<char>,
    pub auftraggeber: Seq<char>,
    pub verwendungszweck: Seq<char>,
    pub iban: Seq<char>,
    pub bic: Seq<char>,
    pub kundenreferenz: Seq<char>,
    pub mandatsreferenz: Seq<char>,
    pub glaeubiger_id: Seq<char>,
    pub fremde_gebuehren: Seq<char>,
    /// The amount, in cents.
    pub betrag: int,
    pub abweichender_empfaenger: Seq<char>,
    pub count_auftraege: Seq<char>,
    pub count_schecks: Seq<char>,
    pub soll: Seq<char>,
    pub haben: Seq<char>,
    pub waehrung: Seq<char>,
}

impl View for Postbank {
    type V = PostbankV;

    open spec fn view(&self) -> PostbankV {
        PostbankV {
            buchungstag: self.buchungstag,
            wert: self._wert,
            umsatzart: self._umsatzart@,
            auftraggeber: self.auftraggeber@,
            verwendungszweck: self.verwendungszweck@,
            iban: self._iban@,
            bic: self._bic@,
            kundenreferenz: self.kundenreferenz@,
            mandatsreferenz: self._mandatsreferenz@,
            glaeubiger_id: self._glaeubiger_id@,
            fremde_gebuehren: self._fremde_gebuehren@,
            betrag: self.betrag.cents as int,
            abweichender_empfaenger: self._abweichender_empfaenger@,
            count_auftraege: self._count_auftraege@,
            count_schecks: self._count_schecks@,
            soll: self._soll@,
            haben: self._haben@,
            waehrung: self._waehrung@,
        }
    }
}

/// What one split Postbank row parses to: the first failing column names
/// the row's error, in the order the columns are read.
pub open spec fn postbank_fields(fs: Seq<Seq<char>>) -> Result<PostbankV, ParseError> {
    if fs.len() < 18 {
        Err(ParseError::ColumnShape)
    } else if parse_dmy_spec(fs[0]) is None {
        Err(ParseError::Date)
    } else if parse_dmy_spec(fs[1]) is None {
        Err(ParseError::Date)
    } else if amount_field(fs[11]) is None {
        Err(ParseError::Currency)
    } else {
        Ok(
            PostbankV {
                buchungstag: parse_dmy_spec(fs[0])->Some_0,
                wert: parse_dmy_spec(fs[1])->Some_0,
                umsatzart: fs[2],
                auftraggeber: fs[3],
                verwendungszweck: fs[4],
                iban: fs[5],
                bic: fs[6],
                kundenreferenz: fs[7],
                mandatsreferenz: fs[8],
                glaeubiger_id: fs[9],
                fremde_gebuehren: fs[10],
                betrag: amount_field(fs[11])->Some_0,
                abweichender_empfaenger: fs[12],
                count_auftraege: fs[13],
                count_schecks: fs[14],
                soll: fs[15],
                haben: fs[16],
                waehrung: fs[17],
            },
        )
    }
}

/// What one data row parses to: decode the row's bytes as UTF-8, split the
/// columns at `;`, and read them.
pub open spec fn postbank_row(row: Seq<u8>) -> Result<PostbankV, ParseError> {
    if !valid_utf8(row) {
        Err(ParseError::Decoding)
    } else {
        postbank_fields(split_seq(decode_utf8(row), ';'))
    }
}

impl Postbank {
    /// Reads one row's split columns into a Postbank row.
    pub fn from_fields(fields: &Vec<String>) -> (r: Result<Postbank, ParseError>)
        ensures
            r is Ok <==> postbank_fields(fields.deep_view()) is Ok,
            r is Ok ==> r->Ok_0@ == postbank_fields(fields.deep_view())->Ok_0,
            r is Err ==> r->Err_0 == postbank_fields(fields.deep_view())->Err_0,
    {
        let ghost fs = fields.deep_view();
        if fields.len() < 18 {
            return Err(ParseError::ColumnShape);
        }
        proof {
            assert forall|i: int| 0 <= i < 18 implies fields@[i]@ == fs[i] by {}
        }
        let buchungstag = match parse_dmy(fields[0].as_str()) {
            Some(d) => d,
            None => {
                return Err(ParseError::Date);
            },
        };
        let wert = match parse_dmy(fields[1].as_str()) {
            Some(d) => d,
            None => {
                return Err(ParseError::Date);
            },
        };
        let betrag_text = trim_quotes_str(fields[11].as_str());
        let betrag = match Amount::parse_eur(betrag_text.as_str()) {
            Some(a) => a,
            None => {
                return Err(ParseError::Currency);
            },
        };
        let p = Postbank {
            buchungstag,
            _wert: wert,
            _umsatzart: fields[2].clone(),
            auftraggeber: fields[3].clone(),
            verwendungszweck: fields[4].clone(),
            _iban: fields[5].clone(),
            _bic: fields[6].clone(),
            kundenreferenz: fields[7].clone(),
            _mandatsreferenz: fields[8].clone(),
            _glaeubiger_id: fields[9].clone(),
            _fremde_gebuehren: fields[10].clone(),
            betrag,
            _abweichender_empfaenger: fields[12].clone(),
            _count_auftraege: fields[13].clone(),
            _count_schecks: fields[14].clone(),
            _soll: fields[15].clone(),
            _haben: fields[16].clone(),
            _waehrung: fields[17].clone(),
        };
        proof {
            assert(p@ =~= postbank_fields(fs)->Ok_0);
        }
        Ok(p)
    }

    /// The canonical record this row normalizes to: a fixed field-to-field
    /// mapping, with the payment method always electronic payment and the
    /// category and tags empty.
    pub fn to_record(self) -> (r: Record)
        ensures
            is_record_of(r, self@),
    {
        let r = Record {
            date: self.buchungstag,
            payment: Payment::ElectronicPayment,
            info: self.kundenreferenz,
            payee: self.auftraggeber,
            memo: self.verwendungszweck,
            amount: self.betrag,
            category: String::new(),
            tags: Vec::new(),
        };
        proof {
            assert(r.tags.deep_view() =~= Seq::<Seq<char>>::empty());
        }
        r
    }
}

/// Whether `r` is the canonical record of the Postbank row `p`.
pub open spec fn is_record_of(r: Record, p: PostbankV) -> bool {
    &&& r.date == p.buchungstag
    &&& r.payment == Payment::ElectronicPayment
    &&& r.info@ == p.kundenreferenz
    &&& r.payee@ == p.auftraggeber
    &&& r.memo@ == p.verwendungszweck
    &&& r.amount.cents as int == p.betrag
    &&& r.category@ == Seq::<char>::empty()
    &&& r.tags.deep_view() == Seq::<Seq<char>>::empty()
}

/// Whether an emitted row result agrees with what the row specification
/// says of that row.
pub open spec fn result_matches(res: Result<Record, ParseError>, s: Result<PostbankV, ParseError>) -> bool {
    match s {
        Ok(v) => res is Ok && is_record_of(res->Ok_0, v),
        Err(e) => res == Err::<Record, ParseError>(e),
    }
}

/// The row results the adapter yields for an input, in input order.
pub open spec fn postbank_results(input: Seq<u8>) -> Seq<Result<PostbankV, ParseError>> {
    data_rows(input, 7, 1).map_values(|row: Seq<u8>| postbank_row(row))
}

/// The lazy sequence of row-or-error results read from a Postbank export.
///
/// The rows are fixed when the iterator is made; each call of [`Self::next`]
/// parses one more row. Once exhausted it stays exhausted.
pub struct PostbankIter {
    pub rows: Vec<Vec<u8>>,
    pub idx: usize,
}

impl PostbankIter {
    /// Sets up the adapter over a whole export's bytes, discarding the
    /// seven leading boilerplate lines and the one trailing line.
    pub fn new(input: &[u8]) -> (r: Self)
        ensures
            r.rows.deep_view() == data_rows(input@, 7, 1),
            r.idx == 0,
    {
        PostbankIter { rows: prepare_rows(input, 7, 1), idx: 0 }
    }

    /// Parses and yields the next row, or `None` when the input is done.
    pub fn next(&mut self) -> (r: Option<Result<Record, ParseError>>)
        ensures
            final(self).rows == old(self).rows,
            old(self).idx >= old(self).rows@.len() ==> r is None && final(self).idx == old(
                self,
            ).idx,
            old(self).idx < old(self).rows@.len() ==> {
                &&& final(self).idx == old(self).idx + 1
                &&& r is Some
                &&& result_matches(
                    r->Some_0,
                    postbank_row(old(self).rows.deep_view()[old(self).idx as int]),
                )
            },
    {
        if self.idx >= self.rows.len() {
            return None;
        }
        let row = &self.rows[self.idx];
        proof {
            assert(row@ == old(self).rows.deep_view()[self.idx as int]);
        }
        self.idx = self.idx + 1;
        let text = match decode_utf8_bytes(row.as_slice()) {
            Some(t) => t,
            None => {
                return Some(Err(ParseError::Decoding));
            },
        };
        let fields = split_str(text.as_str(), ';');
        match Postbank::from_fields(&fields) {
            Ok(p) => Some(Ok(p.to_record())),
            Err(e) => Some(Err(e)),
        }
    }

    /// Parses every remaining row, in order.
    pub fn collect_records(&mut self) -> (r: Vec<Result<Record, ParseError>>)
        requires
            old(self).idx <= old(self).rows@.len(),
        ensures
            final(self).rows == old(self).rows,
            final(self).idx == old(self).rows@.len(),
            r@.len() == old(self).rows@.len() - old(self).idx,
            forall|i: int|
                0 <= i < r@.len() ==> result_matches(
                    #[trigger] r@[i],
                    postbank_row(old(self).rows.deep_view()[old(self).idx + i]),
                ),
    {
        let mut r: Vec<Result<Record, ParseError>> = Vec::new();
        loop
            invariant
                self.rows == old(self).rows,
                old(self).idx <= self.idx <= self.rows@.len(),
                r@.len() == self.idx - old(self).idx,
                forall|i: int|
                    0 <= i < r@.len() ==> result_matches(
                        #[trigger] r@[i],
                        postbank_row(old(self).rows.deep_view()[old(self).idx + i]),
                    ),
            decreases self.rows@.len() - self.idx,
        {
            match self.next() {
                Some(x) => {
                    r.push(x);
                },
                None => {
                    return r;
                },
            }
        }
    }
}

/// Row accounting: on a valid export — every data row parses — the adapter
/// yields one record per raw row, less the seven skipped heading rows, the
/// one skipped trailing row, and the blank boilerplate rows among what is
/// kept.
pub proof fn lemma_postbank_row_accounting(input: Seq<u8>)
    requires
        raw_rows(input).len() >= 8,
        forall|i: int|
            0 <= i < postbank_results(input).len() ==> #[trigger] postbank_results(
                input,
            )[i] is Ok,
    ensures
        ok_count(postbank_results(input)) == raw_rows(input).len() - 7 - 1 - blank_count(
            kept_rows(input, 7, 1),
        ),
{
    lemma_data_rows_len(input, 7, 1);
    crate::inputs::util::lemma_ok_count_all(postbank_results(input));
}

/// An input with fewer rows than the skip-head count yields the empty
/// result sequence, not an error.
pub proof fn lemma_postbank_short_input(input: Seq<u8>)
    requires
        raw_rows(input).len() < 7,
    ensures
        postbank_results(input).len() == 0,
{
    lemma_data_rows_len(input, 7, 1);
}

} // verus!
