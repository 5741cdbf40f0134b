//! Exact fixed-point money: a signed count of cents, never a float.

use crate::text::{
    all_digits, dec_str_of, digit_char_of, digit_val, digits_val, find_char, index_of_first,
    lemma_dec_str_of, lemma_index_of_first_props, lemma_index_of_first_some, parse_i64,
    parse_i64_spec, push_dec_u64,
};
use vstd::prelude::*;

verus! {

/// A price in US dollars, stored as a whole number of cents to avoid any
/// rounding drift.
#[derive(Copy, Clone, Ord, PartialOrd, PartialEq, Eq, Structural, Debug)]
pub struct PriceUSD(pub i64);

/// A floating value could not be represented exactly as whole cents.
#[derive(Copy, Clone, Debug)]
pub struct InsufficientPrecision;

/// A piece of text was not a well-formed price.
#[derive(Copy, Clone, Debug)]
pub struct InvalidPrice;

/// What parsing a price means: an optional `$`, then either `dollars.cents`
/// with the fractional part below one hundred in magnitude, or a bare dollar
/// count; the whole must fit in a signed cent count.
pub open spec fn parse_price_spec(s: Seq<char>) -> Option<i64> {
    let t = if s.len() > 0 && s[0] == '$' {
        s.drop_first()
    } else {
        s
    };
    match index_of_first(t, '.') {
        Some(i) => match (parse_i64_spec(t.subrange(0, i)), parse_i64_spec(
            t.subrange(i + 1, t.len() as int),
        )) {
            (Some(d), Some(c)) => if -100 < c && c < 100 && i64::MIN <= 100 * d + c
                && 100 * d + c <= i64::MAX && i64::MIN <= 100 * d && 100 * d <= i64::MAX {
                Some((100 * d + c) as i64)
            } else {
                None
            },
            _ => None,
        },
        None => match parse_i64_spec(t) {
            Some(d) => if i64::MIN <= 100 * d && 100 * d <= i64::MAX {
                Some((100 * d) as i64)
            } else {
                None
            },
            None => None,
        },
    }
}

/// Two-digit rendering of a cent remainder below one hundred.
pub open spec fn cents_text(r: nat) -> Seq<char> {
    if r < 10 {
        seq!['0', digit_char_of(r)]
    } else {
        dec_str_of(r)
    }
}

/// The text `to_text` produces: a dollar sign, the signed whole-dollar part,
/// a dot, and the cent remainder padded to two digits.
pub open spec fn money_text(c: int) -> Seq<char> {
    let m = if c < 0 {
        -c
    } else {
        c
    };
    let sign = if c < 0 {
        seq!['-']
    } else {
        Seq::<char>::empty()
    };
    seq!['$'] + sign + dec_str_of((m / 100) as nat) + seq!['.'] + cents_text((m % 100) as nat)
}

impl PriceUSD {
    /// Build a price from separate dollar and cent counts.
    pub fn new(dollars: i64, cents: i64) -> (r: PriceUSD)
        requires
            i64::MIN <= 100 * dollars <= i64::MAX,
            i64::MIN <= 100 * dollars + cents <= i64::MAX,
        ensures
            r.0 == 100 * dollars + cents,
    {
        PriceUSD(100 * dollars + cents)
    }

    /// The exact number of cents this price stands for.
    pub fn cents(&self) -> (r: i64)
        ensures
            r == self.0,
    {
        self.0
    }

    /// Build a price directly from a cent count.
    pub fn from_cents(cents: i64) -> (r: PriceUSD)
        ensures
            r.0 == cents,
    {
        PriceUSD(cents)
    }

    /// Parse a price from text, as `parse_price_spec` describes.
    pub fn parse(s: &str) -> (r: Result<PriceUSD, InvalidPrice>)
        ensures
            match parse_price_spec(s@) {
                Some(c) => r matches Ok(p) && p.0 == c,
                None => r matches Err(_),
            },
    {
        let n = s.unicode_len();
        let t: &str = if n > 0 && s.get_char(0) == '$' {
            s.substring_char(1, n)
        } else {
            s
        };
        proof {
            if n > 0 && s@[0] == '$' {
                assert(s@.subrange(1, n as int) =~= s@.drop_first());
            }
        }
        let tn = t.unicode_len();
        match find_char(t, '.') {
            Some(i) => {
                proof {
                    lemma_index_of_first_props(t@, '.');
                }
                let dollars_part = t.substring_char(0, i);
                let cents_part = t.substring_char(i + 1, tn);
                match (parse_i64(dollars_part), parse_i64(cents_part)) {
                    (Some(d), Some(c)) => {
                        if !(-100 < c && c < 100) {
                            return Err(InvalidPrice);
                        }
                        match d.checked_mul(100) {
                            Some(whole) => match whole.checked_add(c) {
                                Some(total) => Ok(PriceUSD(total)),
                                None => Err(InvalidPrice),
                            },
                            None => Err(InvalidPrice),
                        }
                    },
                    _ => Err(InvalidPrice),
                }
            },
            None => {
                match parse_i64(t) {
                    Some(d) => match d.checked_mul(100) {
                        Some(total) => Ok(PriceUSD(total)),
                        None => Err(InvalidPrice),
                    },
                    None => Err(InvalidPrice),
                }
            },
        }
    }

    /// Render the price, as `money_text` describes.
    pub fn to_text(&self) -> (r: String)
        requires
            self.0 > i64::MIN,
        ensures
            r@ == money_text(self.0 as int),
    {
        proof {
            reveal_strlit("$");
            reveal_strlit("-");
            reveal_strlit(".");
            reveal_strlit("0");
        }
        let c = self.0;
        let mut out = String::new();
        out.append("$");
        if c < 0 {
            out.append("-");
        }
        let mag: u64 = if c < 0 {
            (-c) as u64
        } else {
            c as u64
        };
        push_dec_u64(mag / 100, &mut out);
        out.append(".");
        let rem = mag % 100;
        if rem < 10 {
            out.append("0");
            out.append(crate::text::digit_str(rem));
        } else {
            push_dec_u64(rem, &mut out);
        }
        proof {
            assert(out@ =~= money_text(c as int));
        }
        out
    }
}

/// Parsing a well-formed non-negative price text and rendering the result
/// reproduces an equivalent value: the rendered text reads back to the very
/// same cent count.
pub proof fn lemma_parse_then_format(s: Seq<char>, c: i64)
    requires
        parse_price_spec(s) == Some(c),
        c >= 0,
    ensures
        parse_price_spec(money_text(c as int)) == Some(c),
{
    lemma_money_round_trip(c as int);
}

/// Money round-trip: rendering a non-negative cent count and parsing the text
/// back yields the same cent count.
pub proof fn lemma_money_round_trip(c: int)
    requires
        0 <= c <= i64::MAX,
    ensures
        parse_price_spec(money_text(c)) == Some(c as i64),
{
    let d = (c / 100) as nat;
    let r = (c % 100) as nat;
    let dec = dec_str_of(d);
    let cents = cents_text(r);
    lemma_dec_str_of(d);
    if r < 10 {
        lemma_cent_digit_val(r);
        assert(cents.drop_last() =~= seq!['0']);
        assert(seq!['0'].drop_last() =~= Seq::<char>::empty());
        assert('0' as int == 48);
        assert(digit_val('0') == 0);
        assert(digits_val(seq!['0']) == 10 * digits_val(seq!['0'].drop_last()) + digit_val('0'));
        assert(digits_val(cents) == 10 * digits_val(cents.drop_last()) + digit_val(cents.last()));
        assert(digits_val(cents) == r);
        assert(all_digits(cents));
    } else {
        lemma_dec_str_of(r);
    }
    let s = money_text(c);
    let t = dec + seq!['.'] + cents;
    assert(s[0] == '$');
    assert(s.drop_first() =~= t);
    // The dot sits right after the dollar digits; everything before it is a
    // digit, so it is the first dot.
    let i = dec.len() as int;
    assert(t[i] == '.');
    assert(forall|k: int| 0 <= k < i ==> t[k] == dec[k]);
    assert(forall|k: int| 0 <= k < i ==> t[k] != '.');
    lemma_index_of_first_some(t, '.', i);
    assert(t.subrange(0, i) =~= dec);
    assert(t.subrange(i + 1, t.len() as int) =~= cents);
    // Both parts parse back to the division of c by one hundred.
    assert(!(dec[0] == '-') && !(dec[0] == '+'));
    assert(parse_i64_spec(dec) == Some(d as i64));
    assert(!(cents[0] == '-') && !(cents[0] == '+'));
    assert(parse_i64_spec(cents) == Some(r as i64));
    assert(100 * (d as int) + (r as int) == c);
}

proof fn lemma_cent_digit_val(d: nat)
    requires
        d < 10,
    ensures
        digit_val(digit_char_of(d)) == d,
        48 <= digit_char_of(d) as int <= 57,
{
    assert('0' as int == 48 && '1' as int == 49 && '2' as int == 50 && '3' as int == 51
        && '4' as int == 52 && '5' as int == 53 && '6' as int == 54 && '7' as int == 55
        && '8' as int == 56 && '9' as int == 57);
}

} // verus!
