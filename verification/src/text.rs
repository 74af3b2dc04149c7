//! Splitting of delimiter-separated text, and digit helpers shared by the
//! date and amount conventions.

use vstd::prelude::*;

verus! {

/// The pieces of `s` between occurrences of the separator `sep`.
///
/// There is always at least one piece: splitting the empty sequence gives
/// one empty piece, and every separator ends one piece and starts the next.
pub open spec fn split_seq<T>(s: Seq<T>, sep: T) -> Seq<Seq<T>>
    decreases s.len(),
{
    if s.len() == 0 {
        seq![Seq::<T>::empty()]
    } else if s[0] == sep {
        seq![Seq::<T>::empty()] + split_seq(s.drop_first(), sep)
    } else {
        let rest = split_seq(s.drop_first(), sep);
        rest.update(0, seq![s[0]] + rest[0])
    }
}

pub proof fn lemma_split_seq_len<T>(s: Seq<T>, sep: T)
    ensures
        split_seq(s, sep).len() >= 1,
    decreases s.len(),
{
    if s.len() != 0 {
        lemma_split_seq_len(s.drop_first(), sep);
    }
}

/// Splits a byte sequence at every occurrence of `sep`.
pub fn split_bytes(s: &[u8], sep: u8) -> (r: Vec<Vec<u8>>)
    ensures
        r.deep_view() == split_seq(s@, sep),
{
    let mut r: Vec<Vec<u8>> = Vec::new();
    let mut cur: Vec<u8> = Vec::new();
    let mut i: usize = 0;
    proof {
        lemma_split_seq_len(s@, sep);
        assert(s@.subrange(0, s@.len() as int) =~= s@);
        assert(cur@ + split_seq(s@, sep)[0] =~= split_seq(s@, sep)[0]);
        assert(split_seq(s@, sep) =~~= r.deep_view() + seq![split_seq(s@, sep)[0]] + split_seq(
            s@,
            sep,
        ).drop_first());
    }
    while i < s.len()
        invariant
            0 <= i <= s@.len(),
            split_seq(s@, sep) =~~= r.deep_view() + seq![
                cur@ + split_seq(s@.subrange(i as int, s@.len() as int), sep)[0],
            ] + split_seq(s@.subrange(i as int, s@.len() as int), sep).drop_first(),
        decreases s@.len() - i,
    {
        let ghost tail = s@.subrange(i as int, s@.len() as int);
        proof {
            lemma_split_seq_len(tail, sep);
            lemma_split_seq_len(s@.subrange(i + 1, s@.len() as int), sep);
            assert(tail.len() > 0);
            assert(tail[0] == s@[i as int]);
            assert(tail.drop_first() =~= s@.subrange(i + 1, s@.len() as int));
        }
        let ghost tail1 = s@.subrange(i + 1, s@.len() as int);
        let b = s[i];
        if b == sep {
            proof {
                assert(split_seq(tail, sep) == seq![Seq::<u8>::empty()] + split_seq(tail1, sep));
                assert(split_seq(tail, sep)[0] =~= Seq::<u8>::empty());
                assert(split_seq(tail, sep).drop_first() =~= split_seq(tail1, sep));
                assert(cur@ + Seq::<u8>::empty() =~= cur@);
            }
            let ghost r0 = r.deep_view();
            let ghost cur0 = cur@;
            r.push(cur);
            cur = Vec::new();
            proof {
                assert(r.deep_view() =~~= r0.push(cur0));
                assert(split_seq(tail1, sep) =~= seq![split_seq(tail1, sep)[0]] + split_seq(
                    tail1,
                    sep,
                ).drop_first());
                assert(cur@ + split_seq(tail1, sep)[0] =~= split_seq(tail1, sep)[0]);
            }
        } else {
            proof {
                let rest = split_seq(tail1, sep);
                assert(split_seq(tail, sep) == rest.update(0, seq![tail[0]] + rest[0]));
                assert(split_seq(tail, sep)[0] == seq![s@[i as int]] + rest[0]);
                assert(split_seq(tail, sep).drop_first() =~= rest.drop_first());
                assert(cur@ + (seq![s@[i as int]] + rest[0]) =~= cur@.push(s@[i as int]) + rest[0]);
            }
            cur.push(b);
        }
        i += 1;
    }
    proof {
        let tail = s@.subrange(i as int, s@.len() as int);
        assert(tail =~= Seq::<u8>::empty());
        assert(split_seq(tail, sep) == seq![Seq::<u8>::empty()]);
        assert(cur@ + Seq::<u8>::empty() =~= cur@);
    }
    let ghost r0 = r.deep_view();
    let ghost cur0 = cur@;
    r.push(cur);
    proof {
        assert(r.deep_view() =~~= r0.push(cur0));
        assert(r.deep_view() =~~= split_seq(s@, sep));
    }
    r
}

/// Splits a string at every occurrence of the character `sep`.
pub fn split_str(s: &str, sep: char) -> (r: Vec<String>)
    ensures
        r.deep_view() == split_seq(s@, sep),
{
    let len = s.unicode_len();
    let mut r: Vec<String> = Vec::new();
    let mut start: usize = 0;
    let mut i: usize = 0;
    proof {
        lemma_split_seq_len(s@, sep);
        assert(s@.subrange(0, s@.len() as int) =~= s@);
        assert(s@.subrange(0, 0) + split_seq(s@, sep)[0] =~= split_seq(s@, sep)[0]);
        assert(split_seq(s@, sep) =~~= r.deep_view() + seq![split_seq(s@, sep)[0]] + split_seq(
            s@,
            sep,
        ).drop_first());
    }
    while i < len
        invariant
            0 <= start <= i <= s@.len(),
            len == s@.len(),
            forall|j: int| start <= j < i ==> s@[j] != sep,
            split_seq(s@, sep) =~~= r.deep_view() + seq![
                s@.subrange(start as int, i as int) + split_seq(
                    s@.subrange(i as int, s@.len() as int),
                    sep,
                )[0],
            ] + split_seq(s@.subrange(i as int, s@.len() as int), sep).drop_first(),
        decreases s@.len() - i,
    {
        let ghost tail = s@.subrange(i as int, s@.len() as int);
        proof {
            lemma_split_seq_len(tail, sep);
            lemma_split_seq_len(s@.subrange(i + 1, s@.len() as int), sep);
            assert(tail[0] == s@[i as int]);
            assert(tail.drop_first() =~= s@.subrange(i + 1, s@.len() as int));
        }
        let ghost tail1 = s@.subrange(i + 1, s@.len() as int);
        let c = s.get_char(i);
        if c == sep {
            proof {
                assert(split_seq(tail, sep) == seq![Seq::<char>::empty()] + split_seq(tail1, sep));
                assert(split_seq(tail, sep)[0] =~= Seq::<char>::empty());
                assert(split_seq(tail, sep).drop_first() =~= split_seq(tail1, sep));
                assert(s@.subrange(start as int, i as int) + Seq::<char>::empty() =~= s@.subrange(
                    start as int,
                    i as int,
                ));
            }
            let piece = s.substring_char(start, i).to_owned();
            let ghost r0 = r.deep_view();
            let ghost p0 = piece@;
            r.push(piece);
            start = i + 1;
            proof {
                assert(r.deep_view() =~~= r0.push(p0));
                assert(split_seq(tail1, sep) =~= seq![split_seq(tail1, sep)[0]] + split_seq(
                    tail1,
                    sep,
                ).drop_first());
                assert(s@.subrange(start as int, i + 1) + split_seq(tail1, sep)[0] =~= split_seq(
                    tail1,
                    sep,
                )[0]);
            }
        } else {
            proof {
                let rest = split_seq(tail1, sep);
                assert(split_seq(tail, sep) == rest.update(0, seq![tail[0]] + rest[0]));
                assert(split_seq(tail, sep)[0] == seq![s@[i as int]] + rest[0]);
                assert(split_seq(tail, sep).drop_first() =~= rest.drop_first());
                assert(s@.subrange(start as int, i as int) + (seq![s@[i as int]] + rest[0])
                    =~= s@.subrange(start as int, i + 1) + rest[0]);
            }
        }
        i += 1;
    }
    proof {
        let tail = s@.subrange(i as int, s@.len() as int);
        assert(tail =~= Seq::<char>::empty());
        assert(split_seq(tail, sep) == seq![Seq::<char>::empty()]);
        assert(s@.subrange(start as int, i as int) + Seq::<char>::empty() =~= s@.subrange(
            start as int,
            i as int,
        ));
    }
    let piece = s.substring_char(start, i).to_owned();
    let ghost r0 = r.deep_view();
    let ghost p0 = piece@;
    r.push(piece);
    proof {
        assert(r.deep_view() =~~= r0.push(p0));
        assert(r.deep_view() =~~= split_seq(s@, sep));
    }
    r
}

/// Whether `c` is a decimal digit.
pub open spec fn is_digit(c: char) -> bool {
    48 <= c as u32 <= 57
}

/// The numeric value of the digit `c`.
pub open spec fn digit_val(c: char) -> nat {
    (c as u32 - 48) as nat
}

/// Whether every character of `s` is a decimal digit.
pub open spec fn all_digits(s: Seq<char>) -> bool {
    forall|i: int| 0 <= i < s.len() ==> is_digit(#[trigger] s[i])
}

/// The number written by the digit sequence `s`, most significant first.
pub open spec fn seq_num(s: Seq<char>) -> nat
    decreases s.len(),
{
    if s.len() == 0 {
        0
    } else {
        seq_num(s.drop_last()) * 10 + digit_val(s.last())
    }
}

/// Ten to the `n`th power.
pub open spec fn pow10(n: nat) -> nat
    decreases n,
{
    if n == 0 {
        1
    } else {
        10 * pow10((n - 1) as nat)
    }
}

/// A digit sequence of length `n` writes a number below `pow10(n)`.
pub proof fn lemma_seq_num_bound(s: Seq<char>)
    requires
        all_digits(s),
    ensures
        seq_num(s) < pow10(s.len()),
    decreases s.len(),
{
    if s.len() > 0 {
        lemma_seq_num_bound(s.drop_last());
        assert(is_digit(s.last()));
        assert(digit_val(s.last()) <= 9);
    }
}

/// Reads a digit string of at most eight characters as a number.
pub fn parse_small_num(s: &str) -> (r: u32)
    requires
        1 <= s@.len() <= 8,
        all_digits(s@),
    ensures
        r == seq_num(s@),
{
    let len = s.unicode_len();
    let mut acc: u32 = 0;
    let mut i: usize = 0;
    proof {
        assert(s@.take(0) =~= Seq::<char>::empty());
    }
    while i < len
        invariant
            0 <= i <= s@.len() <= 8,
            len == s@.len(),
            all_digits(s@),
            acc == seq_num(s@.take(i as int)),
        decreases s@.len() - i,
    {
        let c = s.get_char(i);
        let v = c as u32;
        proof {
            assert(is_digit(s@[i as int]));
            assert(48 <= v <= 57);
            lemma_seq_num_bound(s@.take(i as int));
            lemma_pow10_le(i as nat, 7);
            reveal_with_fuel(pow10, 9);
            assert(pow10(7) == 10000000);
            assert(acc < 10000000);
            assert(s@.take(i + 1).drop_last() =~= s@.take(i as int));
            assert(s@.take(i + 1).last() == s@[i as int]);
        }
        acc = acc * 10 + (v - 48);
        i += 1;
    }
    proof {
        assert(s@.take(i as int) =~= s@);
    }
    acc
}

/// `pow10` grows with its argument.
pub proof fn lemma_pow10_le(a: nat, b: nat)
    requires
        a <= b,
    ensures
        pow10(a) <= pow10(b),
    decreases b,
{
    if a < b {
        lemma_pow10_le(a, (b - 1) as nat);
    }
}

/// The digit character writing the value `n`.
pub open spec fn digit_char(n: int) -> char {
    ((48 + n) as u8) as char
}

/// The decimal text of `n`, most significant digit first.
pub open spec fn digits_of(n: nat) -> Seq<char>
    decreases n,
{
    if n < 10 {
        seq![digit_char(n as int)]
    } else {
        digits_of(n / 10) + seq![digit_char((n % 10) as int)]
    }
}

/// The one-character string for the digit `n`.
pub fn digit_str(n: u64) -> (r: &'static str)
    requires
        n < 10,
    ensures
        r@ == seq![digit_char(n as int)],
{
    proof {
        reveal_strlit("0");
        reveal_strlit("1");
        reveal_strlit("2");
        reveal_strlit("3");
        reveal_strlit("4");
        reveal_strlit("5");
        reveal_strlit("6");
        reveal_strlit("7");
        reveal_strlit("8");
        reveal_strlit("9");
    }
    let r: &'static str = if n == 0 {
        "0"
    } else if n == 1 {
        "1"
    } else if n == 2 {
        "2"
    } else if n == 3 {
        "3"
    } else if n == 4 {
        "4"
    } else if n == 5 {
        "5"
    } else if n == 6 {
        "6"
    } else if n == 7 {
        "7"
    } else if n == 8 {
        "8"
    } else {
        "9"
    };
    proof {
        assert(r@ =~= seq![digit_char(n as int)]);
    }
    r
}

/// The decimal text of `n`, with no sign and no separators.
pub fn digits_str(n: u64) -> (r: String)
    ensures
        r@ == digits_of(n as nat),
    decreases n,
{
    if n < 10 {
        digit_str(n).to_owned()
    } else {
        let mut s = digits_str(n / 10);
        s.append(digit_str(n % 10));
        proof {
            assert(s@ =~= digits_of(n as nat));
        }
        s
    }
}

/// All the pieces of `ss`, glued back to back.
pub open spec fn concat_seqs(ss: Seq<Seq<char>>) -> Seq<char>
    decreases ss.len(),
{
    if ss.len() == 0 {
        Seq::empty()
    } else {
        ss[0] + concat_seqs(ss.drop_first())
    }
}

/// Gluing the first `j` pieces and then the rest gives the whole.
pub proof fn lemma_concat_take_drop(ss: Seq<Seq<char>>, j: int)
    requires
        0 <= j <= ss.len(),
    ensures
        concat_seqs(ss) == concat_seqs(ss.take(j)) + concat_seqs(ss.skip(j)),
    decreases j,
{
    if j == 0 {
        assert(ss.take(0) =~= Seq::<Seq<char>>::empty());
        assert(ss.skip(0) =~= ss);
        assert(concat_seqs(ss.take(0)) + concat_seqs(ss) =~= concat_seqs(ss));
    } else {
        lemma_concat_take_drop(ss.drop_first(), j - 1);
        assert(ss.take(j).drop_first() =~= ss.drop_first().take(j - 1));
        assert(ss.skip(j) =~= ss.drop_first().skip(j - 1));
        assert(ss.take(j)[0] == ss[0]);
        assert(concat_seqs(ss.take(j)) == ss[0] + concat_seqs(ss.drop_first().take(j - 1)));
        assert(concat_seqs(ss.take(j)) + concat_seqs(ss.skip(j)) =~= ss[0] + (concat_seqs(
            ss.drop_first().take(j - 1),
        ) + concat_seqs(ss.drop_first().skip(j - 1))));
    }
}

/// Gluing a single piece gives that piece.
pub proof fn lemma_concat_singleton(x: Seq<char>)
    ensures
        concat_seqs(seq![x]) == x,
{
    reveal_with_fuel(concat_seqs, 2);
    assert(seq![x].drop_first() =~= Seq::<Seq<char>>::empty());
    assert(concat_seqs(seq![x]) =~= x);
}

/// A digit sequence never writes a larger number than an extension of it.
pub proof fn lemma_seq_num_prefix(a: Seq<char>, b: Seq<char>)
    ensures
        seq_num(a) <= seq_num(a + b),
    decreases b.len(),
{
    if b.len() == 0 {
        assert(a + b =~= a);
    } else {
        lemma_seq_num_prefix(a, b.drop_last());
        assert((a + b).drop_last() =~= a + b.drop_last());
        assert(seq_num(a + b) == seq_num(a + b.drop_last()) * 10 + digit_val((a + b).last()));
    }
}

/// `s` with every leading and trailing double-quote character removed.
pub open spec fn trim_quotes(s: Seq<char>) -> Seq<char> {
    let a = first_non_quote(s);
    let b = last_non_quote(s);
    if a <= b {
        s.subrange(a, b + 1)
    } else {
        Seq::empty()
    }
}

/// The first index of `s` holding something other than a double quote
/// (`s.len()` if there is none).
pub open spec fn first_non_quote(s: Seq<char>) -> int
    decreases s.len(),
{
    if s.len() == 0 {
        0
    } else if s[0] != '"' {
        0
    } else {
        1 + first_non_quote(s.drop_first())
    }
}

/// The last index of `s` holding something other than a double quote
/// (`-1` if there is none).
pub open spec fn last_non_quote(s: Seq<char>) -> int
    decreases s.len(),
{
    if s.len() == 0 {
        -1
    } else if s.last() != '"' {
        s.len() - 1
    } else {
        last_non_quote(s.drop_last())
    }
}

proof fn lemma_first_non_quote_at(s: Seq<char>, a: int)
    requires
        0 <= a <= s.len(),
        forall|j: int| 0 <= j < a ==> s[j] == '"',
        a < s.len() ==> s[a] != '"',
    ensures
        first_non_quote(s) == a,
    decreases s.len(),
{
    if s.len() > 0 && s[0] == '"' {
        lemma_first_non_quote_at(s.drop_first(), a - 1);
    }
}

proof fn lemma_last_non_quote_at(s: Seq<char>, b: int)
    requires
        -1 <= b < s.len(),
        forall|j: int| b < j < s.len() ==> s[j] == '"',
        b >= 0 ==> s[b] != '"',
    ensures
        last_non_quote(s) == b,
    decreases s.len(),
{
    if s.len() > 0 && s.last() == '"' {
        lemma_last_non_quote_at(s.drop_last(), b);
    }
}

/// Removes every leading and trailing double-quote character of `s`.
pub fn trim_quotes_str(s: &str) -> (r: String)
    ensures
        r@ == trim_quotes(s@),
{
    let len = s.unicode_len();
    let mut a: usize = 0;
    while a < len && s.get_char(a) == '"'
        invariant
            0 <= a <= s@.len(),
            len == s@.len(),
            forall|j: int| 0 <= j < a ==> s@[j] == '"',
        decreases s@.len() - a,
    {
        a += 1;
    }
    proof {
        lemma_first_non_quote_at(s@, a as int);
    }
    let mut b = len;
    while b > a && s.get_char(b - 1) == '"'
        invariant
            a <= b <= s@.len(),
            len == s@.len(),
            forall|j: int| b <= j < s@.len() ==> s@[j] == '"',
        decreases b,
    {
        b -= 1;
    }
    if b == a {
        proof {
            assert(forall|j: int| 0 <= j < s@.len() ==> s@[j] == '"');
            lemma_first_non_quote_at(s@, s@.len() as int);
            lemma_last_non_quote_at(s@, -1);
        }
        String::new()
    } else {
        proof {
            assert(s@[b - 1] != '"');
            lemma_last_non_quote_at(s@, b - 1);
        }
        s.substring_char(a, b).to_owned()
    }
}

} // verus!

