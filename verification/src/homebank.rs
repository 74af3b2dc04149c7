//! The canonical record shape and its destination-format serializer.
//!
//! Every adapter converges on [`Record`]. The writer renders records in the
//! fixed destination dialect: `;`-delimited fields, no header row, fields in
//! the fixed canonical order (date, payment method code, info, payee, memo,
//! amount, category, tags), one line per record.

use vstd::prelude::*;

use crate::date::{date_text, valid_date, Date};
use crate::money::{eur_text, Amount};
use crate::text::{digits_of, digits_str};

verus! {

/// The payment method tags of the destination format, serialized as their
/// small-integer code.
#[derive(Debug, Clone, Copy, PartialEq, Eq, Structural)]
pub enum Payment {
    /// No method given; code 0.
    Unspecified,
    CreditCard,
    Check,
    Cash,
    /// The destination format cannot carry multi-account transfers, so it
    /// reads this code as a plain bank transfer.
    BankTransfer,
    InternalTransfer,
    DebitCard,
    StandingOrder,
    ElectronicPayment,
    Deposit,
    FinancialInstitutionFee,
    DirectDebit,
}

/// The wire code of a payment method: its position in the closed list.
pub open spec fn payment_code(p: Payment) -> u8 {
    match p {
        Payment::Unspecified => 0,
        Payment::CreditCard => 1,
        Payment::Check => 2,
        Payment::Cash => 3,
        Payment::BankTransfer => 4,
        Payment::InternalTransfer => 5,
        Payment::DebitCard => 6,
        Payment::StandingOrder => 7,
        Payment::ElectronicPayment => 8,
        Payment::Deposit => 9,
        Payment::FinancialInstitutionFee => 10,
        Payment::DirectDebit => 11,
    }
}

impl Payment {
    /// The small-integer code the destination format stores.
    pub fn code(&self) -> (r: u8)
        ensures
            r == payment_code(*self),
    {
        match self {
            Payment::Unspecified => 0,
            Payment::CreditCard => 1,
            Payment::Check => 2,
            Payment::Cash => 3,
            Payment::BankTransfer => 4,
            Payment::InternalTransfer => 5,
            Payment::DebitCard => 6,
            Payment::StandingOrder => 7,
            Payment::ElectronicPayment => 8,
            Payment::Deposit => 9,
            Payment::FinancialInstitutionFee => 10,
            Payment::DirectDebit => 11,
        }
    }
}

/// The canonical transaction record all adapters converge on.
#[derive(Debug)]
pub struct Record {
    pub date: Date,
    pub payment: Payment,
    /// Free-text reference or identifier (may be empty).
    pub info: String,
    /// Free-text counterparty name (may be empty).
    pub payee: String,
    /// Free-text description (may be empty).
    pub memo: String,
    /// Signed amount in euro cents.
    pub amount: Amount,
    /// Free-text category path (empty when an adapter produced the record).
    pub category: String,
    /// Tag tokens, joined by single spaces in the destination format, so a
    /// token must never hold whitespace.
    pub tags: Vec<String>,
}

/// Tag tokens joined by single spaces; no tokens give empty text.
pub open spec fn join_spaced(ts: Seq<Seq<char>>) -> Seq<char>
    decreases ts.len(),
{
    if ts.len() == 0 {
        Seq::empty()
    } else if ts.len() == 1 {
        ts[0]
    } else {
        join_spaced(ts.drop_last()) + seq![' '] + ts.last()
    }
}

/// Joins tag tokens with single spaces.
pub fn join_tags(tags: &Vec<String>) -> (r: String)
    ensures
        r@ == join_spaced(tags.deep_view()),
{
    let mut r = String::new();
    let mut k: usize = 0;
    proof {
        reveal_strlit(" ");
        assert(" "@ =~= seq![' ']);
        assert(tags.deep_view().take(0) =~= Seq::<Seq<char>>::empty());
    }
    while k < tags.len()
        invariant
            0 <= k <= tags@.len(),
            tags.deep_view().len() == tags@.len(),
            r@ == join_spaced(tags.deep_view().take(k as int)),
            " "@ == seq![' '],
        decreases tags@.len() - k,
    {
        proof {
            assert(tags.deep_view()[k as int] == tags@[k as int]@);
            assert(tags.deep_view().take(k + 1).drop_last() =~= tags.deep_view().take(k as int));
            assert(tags.deep_view().take(k + 1).last() == tags.deep_view()[k as int]);
        }
        if k > 0 {
            r.append(" ");
        }
        r.append(tags[k].as_str());
        proof {
            if k == 0 {
                assert(tags.deep_view().take(1).len() == 1);
                assert(r@ =~= join_spaced(tags.deep_view().take(1)));
            } else {
                assert(r@ =~= join_spaced(tags.deep_view().take(k + 1)));
            }
        }
        k += 1;
    }
    proof {
        assert(tags.deep_view().take(k as int) =~= tags.deep_view());
    }
    r
}

/// Whether the destination dialect must quote a field holding this text:
/// exactly when it holds the delimiter, a quote, or a line break.
pub open spec fn needs_quoting(f: Seq<char>) -> bool {
    exists|i: int|
        0 <= i < f.len() && ((#[trigger] f[i]) == ';' || f[i] == '"' || f[i] == '\n' || f[i]
            == '\r')
}

/// `f` with every double quote doubled.
pub open spec fn escape_quotes(f: Seq<char>) -> Seq<char>
    decreases f.len(),
{
    if f.len() == 0 {
        Seq::empty()
    } else {
        (if f[0] == '"' {
            seq!['"', '"']
        } else {
            seq![f[0]]
        }) + escape_quotes(f.drop_first())
    }
}

/// The field text as the destination dialect writes it: quoted, with inner
/// quotes doubled, exactly when its content requires it.
pub open spec fn csv_field(f: Seq<char>) -> Seq<char> {
    if needs_quoting(f) {
        seq!['"'] + escape_quotes(f) + seq!['"']
    } else {
        f
    }
}

/// Escaping one more character appends its escaped form.
proof fn lemma_escape_push(a: Seq<char>, c: char)
    ensures
        escape_quotes(a.push(c)) == escape_quotes(a) + (if c == '"' {
            seq!['"', '"']
        } else {
            seq![c]
        }),
    decreases a.len(),
{
    reveal_with_fuel(escape_quotes, 2);
    let esc: Seq<char> = if c == '"' {
        seq!['"', '"']
    } else {
        seq![c]
    };
    if a.len() == 0 {
        assert(a.push(c).drop_first() =~= Seq::<char>::empty());
        assert(a.push(c)[0] == c);
        assert(escape_quotes(a.push(c)) =~= escape_quotes(a) + esc);
    } else {
        lemma_escape_push(a.drop_first(), c);
        assert(a.push(c).drop_first() =~= a.drop_first().push(c));
        assert(a.push(c)[0] == a[0]);
        assert(escape_quotes(a.push(c)) =~= escape_quotes(a) + esc);
    }
}

/// Whether the destination dialect must quote this field.
pub fn needs_quoting_str(f: &str) -> (r: bool)
    ensures
        r == needs_quoting(f@),
{
    let len = f.unicode_len();
    let mut i: usize = 0;
    while i < len
        invariant
            0 <= i <= f@.len(),
            len == f@.len(),
            forall|j: int|
                0 <= j < i ==> !((#[trigger] f@[j]) == ';' || f@[j] == '"' || f@[j] == '\n'
                    || f@[j] == '\r'),
        decreases f@.len() - i,
    {
        let c = f.get_char(i);
        if c == ';' || c == '"' || c == '\n' || c == '\r' {
            return true;
        }
        i += 1;
    }
    false
}

/// Renders one field in the destination dialect.
#[verifier::loop_isolation(false)]
pub fn csv_field_str(f: &str) -> (r: String)
    ensures
        r@ == csv_field(f@),
{
    if !needs_quoting_str(f) {
        return f.to_owned();
    }
    let len = f.unicode_len();
    let mut r = String::from_str("\"");
    let mut i: usize = 0;
    proof {
        reveal_strlit("\"");
        reveal_strlit("\"\"");
        assert("\""@ =~= seq!['"']);
        assert("\"\""@ =~= seq!['"', '"']);
        assert(f@.take(0) =~= Seq::<char>::empty());
        assert(r@ =~= seq!['"'] + escape_quotes(f@.take(0)));
    }
    while i < len
        invariant
            0 <= i <= f@.len(),
            r@ == seq!['"'] + escape_quotes(f@.take(i as int)),
        decreases f@.len() - i,
    {
        let c = f.get_char(i);
        proof {
            lemma_escape_push(f@.take(i as int), f@[i as int]);
            assert(f@.take(i + 1) =~= f@.take(i as int).push(f@[i as int]));
        }
        if c == '"' {
            r.append("\"\"");
        } else {
            r.append(f.substring_char(i, i + 1));
            proof {
                assert(f@.subrange(i as int, i + 1) =~= seq![f@[i as int]]);
            }
        }
        i += 1;
    }
    proof {
        assert(f@.take(i as int) =~= f@);
    }
    r.append("\"");
    proof {
        assert(r@ =~= csv_field(f@));
    }
    r
}

/// The one output line a record serializes to: the eight fields in the
/// fixed canonical order, `;`-delimited, newline-terminated, no header.
pub open spec fn record_line(r: Record) -> Seq<char> {
    csv_field(date_text(r.date)) + seq![';'] + csv_field(
        digits_of(payment_code(r.payment) as nat),
    ) + seq![';'] + csv_field(r.info@) + seq![';'] + csv_field(r.payee@) + seq![';'] + csv_field(
        r.memo@,
    ) + seq![';'] + csv_field(eur_text(r.amount.cents as int)) + seq![';'] + csv_field(r.category@)
        + seq![';'] + csv_field(join_spaced(r.tags.deep_view())) + seq!['\n']
}

/// The text a record sequence writes, one line per record, in order.
pub open spec fn lines_text(rs: Seq<Record>) -> Seq<char>
    decreases rs.len(),
{
    if rs.len() == 0 {
        Seq::empty()
    } else {
        lines_text(rs.drop_last()) + record_line(rs.last())
    }
}

/// A destination-format serializer: it accumulates the emitted text, and
/// the caller hands that text to its output stream.
pub struct RecordWriter {
    /// The text emitted so far.
    pub out: String,
}

impl Record {
    /// A fresh serializer with nothing written yet.
    pub fn writer() -> (w: RecordWriter)
        ensures
            w.out@ == Seq::<char>::empty(),
    {
        RecordWriter { out: String::new() }
    }

    /// Appends this record's one output line to the writer.
    pub fn write(self, w: &mut RecordWriter)
        requires
            valid_date(self.date),
        ensures
            final(w).out@ == old(w).out@ + record_line(self),
    {
        let mut line = csv_field_str(self.date.to_iso_string().as_str());
        line.append(";");
        line.append(csv_field_str(digits_str(self.payment.code() as u64).as_str()).as_str());
        line.append(";");
        line.append(csv_field_str(self.info.as_str()).as_str());
        line.append(";");
        line.append(csv_field_str(self.payee.as_str()).as_str());
        line.append(";");
        line.append(csv_field_str(self.memo.as_str()).as_str());
        line.append(";");
        line.append(csv_field_str(self.amount.to_eur_string().as_str()).as_str());
        line.append(";");
        line.append(csv_field_str(self.category.as_str()).as_str());
        line.append(";");
        line.append(csv_field_str(join_tags(&self.tags).as_str()).as_str());
        line.append("\n");
        proof {
            reveal_strlit(";");
            reveal_strlit("\n");
            assert(";"@ =~= seq![';']);
            assert("\n"@ =~= seq!['\n']);
            assert(line@ =~= record_line(self));
        }
        w.out.append(line.as_str());
    }
}

/// Writes every record of the sequence, in order.
pub fn write_all(records: Vec<Record>, w: &mut RecordWriter)
    requires
        forall|i: int| 0 <= i < records@.len() ==> valid_date((#[trigger] records@[i]).date),
    ensures
        final(w).out@ == old(w).out@ + lines_text(records@),
{
    let ghost orig = records@;
    let orig_len = records.len();
    let mut records = records;
    let mut k: usize = 0;
    proof {
        assert(orig.take(0) =~= Seq::<Record>::empty());
        assert(old(w).out@ + lines_text(orig.take(0)) =~= old(w).out@);
    }
    while records.len() > 0
        invariant
            0 <= k <= orig.len(),
            records@ == orig.skip(k as int),
            orig.len() == orig_len,
            w.out@ == old(w).out@ + lines_text(orig.take(k as int)),
            forall|i: int| 0 <= i < orig.len() ==> valid_date((#[trigger] orig[i]).date),
        decreases records@.len(),
    {
        proof {
            assert(records@.len() == orig.len() - k);
        }
        let r = records.remove(0);
        proof {
            assert(orig.skip(k as int)[0] == orig[k as int]);
            assert(orig.skip(k as int).remove(0) =~= orig.skip(k + 1));
            assert(orig.take(k + 1).drop_last() =~= orig.take(k as int));
            assert(orig.take(k + 1).last() == orig[k as int]);
        }
        r.write(w);
        k += 1;
        proof {
            assert(w.out@ =~= old(w).out@ + lines_text(orig.take(k as int)));
        }
    }
    proof {
        assert(orig.take(k as int) =~= orig);
    }
}

/// Writing the same record sequence to two fresh serializers yields
/// byte-identical output: the text written is a function of the records
/// alone.
pub proof fn lemma_write_idempotent(w1: RecordWriter, w2: RecordWriter, rs: Seq<Record>)
    requires
        w1.out@ == Seq::<char>::empty(),
        w2.out@ == Seq::<char>::empty(),
    ensures
        w1.out@ + lines_text(rs) == w2.out@ + lines_text(rs),
{
    assert(w1.out@ + lines_text(rs) =~= lines_text(rs));
    assert(w2.out@ + lines_text(rs) =~= lines_text(rs));
}

/// One record writes as exactly the eight fields in the fixed canonical
/// order — date, payment code, info, payee, memo, amount, category, tags —
/// `;`-delimited and newline-terminated, with no header line around it.
pub proof fn lemma_record_line_shape(r: Record)
    ensures
        record_line(r) == csv_field(date_text(r.date)) + seq![';'] + csv_field(
            digits_of(payment_code(r.payment) as nat),
        ) + seq![';'] + csv_field(r.info@) + seq![';'] + csv_field(r.payee@) + seq![';']
            + csv_field(r.memo@) + seq![';'] + csv_field(eur_text(r.amount.cents as int))
            + seq![';'] + csv_field(r.category@) + seq![';'] + csv_field(
            join_spaced(r.tags.deep_view()),
        ) + seq!['\n'],
        record_line(r).last() == '\n',
{
    assert(record_line(r).last() == '\n');
}

} // verus!
