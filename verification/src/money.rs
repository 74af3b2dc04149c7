//! Monetary amounts in the euro text convention the banks use.
//!
//! An amount is held as a signed count of cents. The text form uses a comma
//! as the decimal separator and an optional dot every three digits of the
//! integer part: `-1.234,56` is -123456 cents. Rendering for the
//! destination format uses the same convention, without a currency symbol.

use vstd::prelude::*;

use crate::text::{
    all_digits, concat_seqs, digit_char, digit_val, digits_of, digit_str, digits_str, is_digit,
    lemma_concat_singleton, lemma_concat_take_drop, lemma_seq_num_bound, lemma_seq_num_prefix,
    parse_small_num, pow10, seq_num, split_seq, split_str,
};

verus! {

/// A signed amount of euro cents.
#[derive(Debug, Clone, Copy, PartialEq, Eq, Structural)]
pub struct Amount {
    pub cents: i64,
}

/// Whether `f` is a well-formed fraction part: one or two digits.
pub open spec fn frac_ok(f: Seq<char>) -> bool {
    1 <= f.len() <= 2 && all_digits(f)
}

/// The cents a fraction part stands for: one digit names tenths.
pub open spec fn frac_cents(f: Seq<char>) -> int {
    if f.len() == 1 {
        seq_num(f) * 10 as int
    } else {
        seq_num(f) as int
    }
}

/// Whether the dot-separated digit groups of an integer part are
/// well-formed: at least one digit up front, and exactly three digits in
/// every further group.
pub open spec fn groups_ok(gs: Seq<Seq<char>>) -> bool {
    &&& gs.len() >= 1
    &&& gs[0].len() >= 1
    &&& forall|i: int| 1 <= i < gs.len() ==> (#[trigger] gs[i]).len() == 3
    &&& forall|i: int| 0 <= i < gs.len() ==> all_digits(#[trigger] gs[i])
}

/// `s` without its leading sign character, if it has one.
pub open spec fn signless(s: Seq<char>) -> Seq<char> {
    if s.len() > 0 && (s[0] == '-' || s[0] == '+') {
        s.drop_first()
    } else {
        s
    }
}

/// Whether `s` starts with a minus sign.
pub open spec fn is_negative(s: Seq<char>) -> bool {
    s.len() > 0 && s[0] == '-'
}

/// The cents the amount text `s` names, if it is well-formed.
///
/// The text is an optional sign, the integer part (digits, with an optional
/// grouping dot every three digits), and an optional decimal comma followed
/// by one or two fraction digits.
pub open spec fn eur_value(s: Seq<char>) -> Option<int> {
    let parts = split_seq(s, ',');
    let gs = split_seq(signless(parts[0]), '.');
    if parts.len() <= 2 && (parts.len() == 2 ==> frac_ok(parts[1])) && groups_ok(gs) {
        let mag = seq_num(concat_seqs(gs)) * 100 + if parts.len() == 2 {
            frac_cents(parts[1])
        } else {
            0
        };
        if is_negative(parts[0]) {
            Some(-mag)
        } else {
            Some(mag)
        }
    } else {
        None
    }
}

impl Amount {
    /// Parses an amount text of the euro convention.
    ///
    /// Returns the named cents whenever the text is well-formed and the
    /// value fits the cents field; rejects everything else.
    #[verifier::loop_isolation(false)]
    pub fn parse_eur(s: &str) -> (r: Option<Amount>)
        ensures
            r is Some <==> (eur_value(s@) is Some && -(i64::MAX as int) <= eur_value(s@)->Some_0
                <= i64::MAX as int),
            r is Some ==> r->Some_0.cents == eur_value(s@)->Some_0,
    {
        let parts = split_str(s, ',');
        proof {
            crate::text::lemma_split_seq_len(s@, ',');
            assert(parts@.len() == parts.deep_view().len());
            assert(parts@[0]@ == parts.deep_view()[0]);
            assert(parts.deep_view()[0] == split_seq(s@, ',')[0]);
        }
        if parts.len() > 2 {
            return None;
        }
        // Fraction part: one or two digits, one digit naming tenths.
        let mut frac_val: u64 = 0;
        if parts.len() == 2 {
            proof {
                assert(parts@[1]@ == parts.deep_view()[1]);
                assert(parts.deep_view()[1] == split_seq(s@, ',')[1]);
            }
            let f = parts[1].as_str();
            let flen = f.unicode_len();
            if flen < 1 || flen > 2 || !crate::date::is_digits_str(f) {
                proof {
                    assert(!frac_ok(split_seq(s@, ',')[1]));
                    assert(eur_value(s@) is None);
                }
                return None;
            }
            frac_val = parse_small_num(f) as u64;
            proof {
                lemma_seq_num_bound(f@);
                crate::text::lemma_pow10_le(f@.len() as nat, 2);
                reveal_with_fuel(pow10, 3);
                assert(pow10(2) == 100);
                assert(frac_val <= 99);
            }
            if flen == 1 {
                frac_val = frac_val * 10;
            }
            proof {
                assert(frac_val == frac_cents(f@));
                assert(frac_val <= 99);
            }
        }
        // Sign and integer part.
        let ip_full = parts[0].as_str();
        let iplen = ip_full.unicode_len();
        let mut neg = false;
        let mut has_sign = false;
        if iplen > 0 {
            let c0 = ip_full.get_char(0);
            neg = c0 == '-';
            has_sign = neg || c0 == '+';
        }
        let ip: &str = if has_sign {
            ip_full.substring_char(1, iplen)
        } else {
            ip_full
        };
        proof {
            if has_sign {
                assert(ip@ =~= signless(ip_full@));
            }
            assert(ip@ == signless(split_seq(s@, ',')[0]));
            assert(neg == is_negative(split_seq(s@, ',')[0]));
        }
        let gs = split_str(ip, '.');
        let ghost gsv = split_seq(ip@, '.');
        // Validate the digit groups.
        let mut g: usize = 0;
        while g < gs.len()
            invariant
                0 <= g <= gs.len(),
                gs.deep_view() == gsv,
                forall|i: int| 1 <= i < g ==> (#[trigger] gsv[i]).len() == 3,
                forall|i: int| 0 <= i < g ==> all_digits(#[trigger] gsv[i]),
                g >= 1 ==> gsv[0].len() >= 1,
            decreases gs.len() - g,
        {
            proof {
                assert(gs.deep_view()[g as int] == gsv[g as int]);
            }
            let grp = gs[g].as_str();
            let glen = grp.unicode_len();
            if g == 0 {
                if glen < 1 {
                    proof {
                        assert(!groups_ok(gsv));
                        assert(eur_value(s@) is None);
                    }
                    return None;
                }
            } else {
                if glen != 3 {
                    proof {
                        assert(gsv[g as int].len() != 3);
                        assert(!groups_ok(gsv));
                        assert(eur_value(s@) is None);
                    }
                    return None;
                }
            }
            if !crate::date::is_digits_str(grp) {
                proof {
                    assert(!all_digits(gsv[g as int]));
                    assert(!groups_ok(gsv));
                    assert(eur_value(s@) is None);
                }
                return None;
            }
            g += 1;
        }
        proof {
            crate::text::lemma_split_seq_len(ip@, '.');
            assert(groups_ok(gsv));
        }
        // Accumulate the euros across the groups, stopping as soon as the
        // cents could no longer fit.
        let limit: u64 = (i64::MAX as u64 - frac_val) / 100;
        let mut acc: u64 = 0;
        let ghost done: Seq<char> = Seq::empty();
        let mut done_g: Ghost<Seq<char>> = Ghost(done);
        proof {
            assert(concat_seqs(gsv.take(0)) =~= Seq::<char>::empty());
            assert(seq_num(done_g@) == 0);
        }
        let mut g: usize = 0;
        while g < gs.len()
            invariant
                0 <= g <= gs.len(),
                gs.deep_view() == gsv,
                groups_ok(gsv),
                done_g@ == concat_seqs(gsv.take(g as int)),
                acc == seq_num(done_g@),
                acc <= limit,
                limit == (i64::MAX as u64 - frac_val) / 100,
                frac_val <= 99,
            decreases gs.len() - g,
        {
            proof {
                assert(gs.deep_view()[g as int] == gsv[g as int]);
            }
            let grp = gs[g].as_str();
            let glen = grp.unicode_len();
            let mut k: usize = 0;
            proof {
                assert(done_g@ + grp@.take(0) =~= done_g@);
            }
            while k < glen
                invariant
                    0 <= k <= glen,
                    glen == grp@.len(),
                    all_digits(grp@),
                    acc == seq_num(done_g@ + grp@.take(k as int)),
                    acc <= limit,
                    limit == (i64::MAX as u64 - frac_val) / 100,
                    frac_val <= 99,
                    0 <= g < gs.len(),
                    gs.deep_view() == gsv,
                    groups_ok(gsv),
                    done_g@ == concat_seqs(gsv.take(g as int)),
                    grp@ == gsv[g as int],
                decreases glen - k,
            {
                let c = grp.get_char(k);
                let d = (c as u32 - 48) as u64;
                proof {
                    assert(is_digit(grp@[k as int]));
                    assert(d == digit_val(grp@[k as int]));
                    assert((done_g@ + grp@.take(k + 1)).drop_last() =~= done_g@ + grp@.take(
                        k as int,
                    ));
                    assert((done_g@ + grp@.take(k + 1)).last() == grp@[k as int]);
                }
                let next = acc * 10 + d;
                if next > limit {
                    proof {
                        lemma_value_too_large(gsv, g as int, k as int, frac_val as int, next as int);
                        assert(seq_num(concat_seqs(gsv)) * 100 + frac_val > i64::MAX as int);
                        let ev = eur_value(s@);
                        assert(ev is Some ==> (ev->Some_0 > i64::MAX as int || ev->Some_0 < -(
                        i64::MAX as int)));
                    }
                    return None;
                }
                acc = next;
                k += 1;
            }
            proof {
                assert(grp@.take(glen as int) =~= grp@);
                lemma_concat_take_drop(gsv.take(g + 1), g as int);
                assert(gsv.take(g + 1).take(g as int) =~= gsv.take(g as int));
                assert(gsv.take(g + 1).skip(g as int) =~= seq![gsv[g as int]]);
                lemma_concat_singleton(gsv[g as int]);
            }
            done_g = Ghost(done_g@ + grp@);
            g += 1;
        }
        proof {
            assert(gsv.take(g as int) =~= gsv);
        }
        // acc now holds the euros and fits the limit, so the cents fit.
        proof {
            assert(acc * 100 + frac_val <= i64::MAX as u64) by (nonlinear_arith)
                requires
                    acc <= (i64::MAX as u64 - frac_val) / 100,
                    frac_val <= 99,
            ;
        }
        let mag = acc * 100 + frac_val;
        let cents: i64 = if neg {
            -(mag as i64)
        } else {
            mag as i64
        };
        Some(Amount { cents })
    }
}

/// The cents a monetary column of a bank export names, after stray quote
/// characters around it are dropped; `None` when it does not match the euro
/// pattern or does not fit the cents field.
pub open spec fn amount_field(f: Seq<char>) -> Option<int> {
    let v = eur_value(crate::text::trim_quotes(f));
    if v is Some && -(i64::MAX as int) <= v->Some_0 <= i64::MAX as int {
        v
    } else {
        None
    }
}

/// Digit text with a grouping dot before every three digits from the right.
pub open spec fn grouped(ds: Seq<char>) -> Seq<char>
    decreases ds.len(),
{
    if ds.len() <= 3 {
        ds
    } else {
        grouped(ds.take(ds.len() - 3)) + seq!['.'] + ds.skip(ds.len() - 3)
    }
}

/// The destination text of an amount of cents: an optional minus sign, the
/// euros with a grouping dot every three digits, a decimal comma, and two
/// cents digits.
pub open spec fn eur_text(cents: int) -> Seq<char> {
    let mag = if cents < 0 {
        -cents
    } else {
        cents
    };
    let sign: Seq<char> = if cents < 0 {
        seq!['-']
    } else {
        Seq::empty()
    };
    sign + grouped(digits_of((mag / 100) as nat)) + seq![','] + seq![
        digit_char(mag % 100 / 10),
        digit_char(mag % 100 % 10),
    ]
}

/// Inserts a grouping dot before every three digits from the right.
fn group_digits(s: &str) -> (r: String)
    ensures
        r@ == grouped(s@),
    decreases s@.len(),
{
    let len = s.unicode_len();
    if len <= 3 {
        s.to_owned()
    } else {
        let mut r = group_digits(s.substring_char(0, len - 3));
        r.append(".");
        r.append(s.substring_char(len - 3, len));
        proof {
            reveal_strlit(".");
            assert("."@ =~= seq!['.']);
            assert(s@.subrange(0, s@.len() - 3) =~= s@.take(s@.len() - 3));
            assert(s@.subrange(s@.len() - 3, s@.len() as int) =~= s@.skip(s@.len() - 3));
            assert(r@ =~= grouped(s@));
        }
        r
    }
}

impl Amount {
    /// Renders the amount in the destination text convention.
    pub fn to_eur_string(&self) -> (r: String)
        ensures
            r@ == eur_text(self.cents as int),
    {
        let neg = self.cents < 0;
        let mag: u64 = if self.cents < 0 {
            (-(self.cents + 1)) as u64 + 1
        } else {
            self.cents as u64
        };
        proof {
            if neg {
                assert(mag == -(self.cents as int));
            }
        }
        let euros = mag / 100;
        let cts = mag % 100;
        let mut r = String::new();
        if neg {
            r.append("-");
        }
        let ds = digits_str(euros);
        let gd = group_digits(ds.as_str());
        r.append(gd.as_str());
        r.append(",");
        r.append(digit_str(cts / 10));
        r.append(digit_str(cts % 10));
        proof {
            reveal_strlit("-");
            reveal_strlit(",");
            assert("-"@ =~= seq!['-']);
            assert(","@ =~= seq![',']);
            assert(r@ =~= eur_text(self.cents as int));
        }
        r
    }
}

/// When a prefix of the integer digits alone is already past the limit,
/// the whole amount is too large for the cents field.
proof fn lemma_value_too_large(gsv: Seq<Seq<char>>, g: int, k: int, frac_val: int, next: int)
    requires
        groups_ok(gsv),
        0 <= g < gsv.len(),
        0 <= k < gsv[g].len(),
        0 <= frac_val <= 99,
        next == seq_num(concat_seqs(gsv.take(g)) + gsv[g].take(k + 1)),
        next > (i64::MAX as int - frac_val) / 100,
    ensures
        seq_num(concat_seqs(gsv)) * 100 + frac_val > i64::MAX as int,
{
    let pre = concat_seqs(gsv.take(g)) + gsv[g].take(k + 1);
    lemma_concat_take_drop(gsv, g + 1);
    lemma_concat_take_drop(gsv.take(g + 1), g);
    assert(gsv.take(g + 1).take(g) =~= gsv.take(g));
    assert(gsv.take(g + 1).skip(g) =~= seq![gsv[g]]);
    lemma_concat_singleton(gsv[g]);
    assert(concat_seqs(gsv) == (concat_seqs(gsv.take(g)) + gsv[g]) + concat_seqs(gsv.skip(g + 1)));
    assert(concat_seqs(gsv.take(g)) + gsv[g] =~= pre + gsv[g].skip(k + 1));
    assert(concat_seqs(gsv) =~= pre + (gsv[g].skip(k + 1) + concat_seqs(gsv.skip(g + 1))));
    lemma_seq_num_prefix(pre, gsv[g].skip(k + 1) + concat_seqs(gsv.skip(g + 1)));
    let euros = seq_num(concat_seqs(gsv));
    assert(euros >= next);
    let lim = (i64::MAX as int - frac_val) / 100;
    assert(lim * 100 + 99 >= i64::MAX as int - frac_val) by (nonlinear_arith)
        requires
            lim == (i64::MAX as int - frac_val) / 100,
            0 <= frac_val <= 99,
    ;
    assert(euros * 100 >= (lim + 1) * 100) by (nonlinear_arith)
        requires
            euros >= lim + 1,
    ;
    assert(euros * 100 + frac_val > i64::MAX as int);
}

} // verus!
