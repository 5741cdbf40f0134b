//! Verified text utilities: whitespace trimming, decimal parsing and
//! formatting, and small string predicates used by the extractors.

use vstd::prelude::*;

verus! {

// ---------------------------------------------------------------------------
// Character classes
// ---------------------------------------------------------------------------

/// The Unicode `White_Space` characters, the set `str::trim` removes.
pub open spec fn is_space_char(c: char) -> bool {
    c == ' ' || c == '\t' || c == '\n' || c == '\u{b}' || c == '\u{c}' || c == '\r'
        || c == '\u{85}' || c == '\u{a0}' || c == '\u{1680}'
        || (0x2000 <= c as int && c as int <= 0x200a)
        || c == '\u{2028}' || c == '\u{2029}' || c == '\u{202f}' || c == '\u{205f}'
        || c == '\u{3000}'
}

pub fn is_space(c: char) -> (r: bool)
    ensures
        r == is_space_char(c),
{
    let u = c as u32;
    c == ' ' || c == '\t' || c == '\n' || c == '\u{b}' || c == '\u{c}' || c == '\r'
        || c == '\u{85}' || c == '\u{a0}' || c == '\u{1680}'
        || (0x2000 <= u && u <= 0x200a)
        || c == '\u{2028}' || c == '\u{2029}' || c == '\u{202f}' || c == '\u{205f}'
        || c == '\u{3000}'
}

pub open spec fn is_digit_char(c: char) -> bool {
    48 <= c as int && c as int <= 57
}

pub fn is_digit(c: char) -> (r: bool)
    ensures
        r == is_digit_char(c),
{
    let u = c as u32;
    48 <= u && u <= 57
}

/// Numeric value of a decimal digit character.
pub open spec fn digit_val(c: char) -> nat {
    (c as int - 48) as nat
}

pub open spec fn all_digits(s: Seq<char>) -> bool {
    forall|i: int| 0 <= i < s.len() ==> is_digit_char(#[trigger] s[i])
}

// ---------------------------------------------------------------------------
// Trimming
// ---------------------------------------------------------------------------

pub open spec fn trim_start_spec(s: Seq<char>) -> Seq<char>
    decreases s.len(),
{
    if s.len() == 0 {
        s
    } else if is_space_char(s[0]) {
        trim_start_spec(s.drop_first())
    } else {
        s
    }
}

pub open spec fn trim_end_spec(s: Seq<char>) -> Seq<char>
    decreases s.len(),
{
    if s.len() == 0 {
        s
    } else if is_space_char(s.last()) {
        trim_end_spec(s.drop_last())
    } else {
        s
    }
}

/// What `str::trim` leaves: the input without leading and trailing whitespace.
pub open spec fn trim_spec(s: Seq<char>) -> Seq<char> {
    trim_end_spec(trim_start_spec(s))
}

proof fn lemma_trim_start_at(s: Seq<char>, i: int)
    requires
        0 <= i <= s.len(),
        forall|k: int| 0 <= k < i ==> is_space_char(#[trigger] s[k]),
        i == s.len() || !is_space_char(s[i]),
    ensures
        trim_start_spec(s) =~= s.subrange(i, s.len() as int),
    decreases i,
{
    if i == 0 {
        assert(s.subrange(0, s.len() as int) =~= s);
    } else {
        let t = s.drop_first();
        lemma_trim_start_at(t, i - 1);
        assert(t.subrange(i - 1, t.len() as int) =~= s.subrange(i, s.len() as int));
    }
}

proof fn lemma_trim_end_at(s: Seq<char>, j: int)
    requires
        0 <= j <= s.len(),
        forall|k: int| j <= k < s.len() ==> is_space_char(#[trigger] s[k]),
        j == 0 || !is_space_char(s[j - 1]),
    ensures
        trim_end_spec(s) =~= s.subrange(0, j),
    decreases s.len() - j,
{
    if j == s.len() {
        assert(s.subrange(0, s.len() as int) =~= s);
    } else {
        let t = s.drop_last();
        lemma_trim_end_at(t, j);
        assert(t.subrange(0, j) =~= s.subrange(0, j));
    }
}

/// Remove leading and trailing whitespace, exactly as `trim_spec` describes.
pub fn trim<'a>(s: &'a str) -> (r: &'a str)
    ensures
        r@ == trim_spec(s@),
{
    let n = s.unicode_len();
    let mut i: usize = 0;
    while i < n && is_space(s.get_char(i))
        invariant
            n == s@.len(),
            0 <= i <= n,
            forall|k: int| 0 <= k < i ==> is_space_char(#[trigger] s@[k]),
        decreases n - i,
    {
        i = i + 1;
    }
    proof {
        lemma_trim_start_at(s@, i as int);
    }
    if i == n {
        let r = s.substring_char(n, n);
        proof {
            assert(trim_start_spec(s@) =~= Seq::<char>::empty());
            assert(trim_spec(s@) =~= Seq::<char>::empty());
            assert(r@ =~= Seq::<char>::empty());
        }
        return r;
    }
    let mut j: usize = n;
    while j > i + 1 && is_space(s.get_char(j - 1))
        invariant
            n == s@.len(),
            0 <= i < j <= n,
            !is_space_char(s@[i as int]),
            forall|k: int| j <= k < n ==> is_space_char(#[trigger] s@[k]),
        decreases j,
    {
        j = j - 1;
    }
    let r = s.substring_char(i, j);
    proof {
        let t = s@.subrange(i as int, n as int);
        lemma_trim_end_at(t, j - i);
        assert(t.subrange(0, j - i) =~= s@.subrange(i as int, j as int));
    }
    r
}

/// Remove leading whitespace only, exactly as `trim_start_spec` describes.
pub fn trim_start<'a>(s: &'a str) -> (r: &'a str)
    ensures
        r@ == trim_start_spec(s@),
{
    let n = s.unicode_len();
    let mut i: usize = 0;
    while i < n && is_space(s.get_char(i))
        invariant
            n == s@.len(),
            0 <= i <= n,
            forall|k: int| 0 <= k < i ==> is_space_char(#[trigger] s@[k]),
        decreases n - i,
    {
        i = i + 1;
    }
    proof {
        lemma_trim_start_at(s@, i as int);
    }
    s.substring_char(i, n)
}

// ---------------------------------------------------------------------------
// String predicates
// ---------------------------------------------------------------------------

pub open spec fn has_prefix(s: Seq<char>, p: Seq<char>) -> bool {
    s.len() >= p.len() && s.subrange(0, p.len() as int) == p
}

pub open spec fn has_suffix(s: Seq<char>, p: Seq<char>) -> bool {
    s.len() >= p.len() && s.subrange(s.len() - p.len(), s.len() as int) == p
}

/// Whether two pieces of text hold the same characters.
pub fn str_eq(a: &str, b: &str) -> (r: bool)
    ensures
        r == (a@ == b@),
{
    let na = a.unicode_len();
    let nb = b.unicode_len();
    if na != nb {
        return false;
    }
    let mut i: usize = 0;
    while i < na
        invariant
            na == a@.len(),
            na == b@.len(),
            0 <= i <= na,
            forall|k: int| 0 <= k < i ==> a@[k] == b@[k],
        decreases na - i,
    {
        if a.get_char(i) != b.get_char(i) {
            return false;
        }
        i = i + 1;
    }
    proof {
        assert(a@ =~= b@);
    }
    true
}

pub fn starts_with(s: &str, p: &str) -> (r: bool)
    ensures
        r == has_prefix(s@, p@),
{
    let n = s.unicode_len();
    let m = p.unicode_len();
    if n < m {
        return false;
    }
    let head = s.substring_char(0, m);
    str_eq(head, p)
}

pub fn ends_with(s: &str, p: &str) -> (r: bool)
    ensures
        r == has_suffix(s@, p@),
{
    let n = s.unicode_len();
    let m = p.unicode_len();
    if n < m {
        return false;
    }
    let tail = s.substring_char(n - m, n);
    str_eq(tail, p)
}

/// Least index of `c` in `s`, if any.
pub open spec fn index_of_first(s: Seq<char>, c: char) -> Option<int>
    decreases s.len(),
{
    if s.len() == 0 {
        None
    } else if s[0] == c {
        Some(0)
    } else {
        match index_of_first(s.drop_first(), c) {
            Some(j) => Some(j + 1),
            None => None,
        }
    }
}

pub proof fn lemma_index_of_first_some(s: Seq<char>, c: char, i: int)
    requires
        0 <= i < s.len(),
        s[i] == c,
        forall|k: int| 0 <= k < i ==> s[k] != c,
    ensures
        index_of_first(s, c) == Some(i),
    decreases i,
{
    if i > 0 {
        lemma_index_of_first_some(s.drop_first(), c, i - 1);
    }
}

pub proof fn lemma_index_of_first_none(s: Seq<char>, c: char)
    requires
        forall|k: int| 0 <= k < s.len() ==> s[k] != c,
    ensures
        index_of_first(s, c) is None,
    decreases s.len(),
{
    if s.len() > 0 {
        lemma_index_of_first_none(s.drop_first(), c);
    }
}

pub proof fn lemma_index_of_first_props(s: Seq<char>, c: char)
    ensures
        match index_of_first(s, c) {
            Some(i) => 0 <= i < s.len() && s[i] == c && forall|k: int| 0 <= k < i ==> s[k] != c,
            None => forall|k: int| 0 <= k < s.len() ==> s[k] != c,
        },
    decreases s.len(),
{
    if s.len() > 0 && s[0] != c {
        let t = s.drop_first();
        lemma_index_of_first_props(t, c);
        match index_of_first(t, c) {
            Some(j) => {
                assert(s[j + 1] == t[j]);
                assert forall|k: int| 0 <= k < j + 1 implies s[k] != c by {
                    if k > 0 {
                        assert(s[k] == t[k - 1]);
                    }
                }
            },
            None => {
                assert forall|k: int| 0 <= k < s.len() implies s[k] != c by {
                    if k > 0 {
                        assert(s[k] == t[k - 1]);
                    }
                }
            },
        }
    }
}

/// Least index of `c` in `s`, executable form.
pub fn find_char(s: &str, c: char) -> (r: Option<usize>)
    ensures
        match r {
            Some(i) => index_of_first(s@, c) == Some(i as int),
            None => index_of_first(s@, c) is None,
        },
{
    let n = s.unicode_len();
    let mut i: usize = 0;
    while i < n
        invariant
            n == s@.len(),
            0 <= i <= n,
            forall|k: int| 0 <= k < i ==> s@[k] != c,
        decreases n - i,
    {
        if s.get_char(i) == c {
            proof {
                lemma_index_of_first_some(s@, c, i as int);
            }
            return Some(i);
        }
        i = i + 1;
    }
    proof {
        lemma_index_of_first_none(s@, c);
    }
    None
}

// ---------------------------------------------------------------------------
// Decimal digit strings: value of a digit string
// ---------------------------------------------------------------------------

/// Value of a string of decimal digits, most significant first.
pub open spec fn digits_val(s: Seq<char>) -> nat
    decreases s.len(),
{
    if s.len() == 0 {
        0
    } else {
        10 * digits_val(s.drop_last()) + digit_val(s.last())
    }
}

proof fn lemma_digits_val_push(s: Seq<char>, c: char)
    ensures
        digits_val(s.push(c)) == 10 * digits_val(s) + digit_val(c),
{
    assert(s.push(c).drop_last() =~= s);
    assert(s.push(c).last() == c);
}

proof fn lemma_digits_val_grows(s: Seq<char>, i: int, j: int)
    requires
        0 <= i <= j <= s.len(),
    ensures
        digits_val(s.subrange(0, i)) <= digits_val(s.subrange(0, j)),
    decreases j - i,
{
    if i < j {
        lemma_digits_val_grows(s, i, j - 1);
        let t = s.subrange(0, j - 1);
        assert(s.subrange(0, j).drop_last() =~= t);
    }
}

// ---------------------------------------------------------------------------
// Parsing unsigned and signed integers, as `u64::from_str` and
// `i64::from_str` do: an optional sign, then one or more decimal digits,
// rejecting anything else and any value out of range.
// ---------------------------------------------------------------------------

pub open spec fn parse_u64_spec(s: Seq<char>) -> Option<u64> {
    let body = if s.len() > 0 && s[0] == '+' {
        s.drop_first()
    } else {
        s
    };
    if body.len() > 0 && all_digits(body) && digits_val(body) <= u64::MAX {
        Some(digits_val(body) as u64)
    } else {
        None
    }
}

pub open spec fn parse_i64_spec(s: Seq<char>) -> Option<i64> {
    if s.len() == 0 {
        None
    } else {
        let neg = s[0] == '-';
        let body = if s[0] == '-' || s[0] == '+' {
            s.drop_first()
        } else {
            s
        };
        if body.len() > 0 && all_digits(body) {
            let v = digits_val(body);
            if neg {
                if v <= 0x8000_0000_0000_0000 {
                    Some((-(v as int)) as i64)
                } else {
                    None
                }
            } else {
                if v <= i64::MAX {
                    Some(v as i64)
                } else {
                    None
                }
            }
        } else {
            None
        }
    }
}

/// Value of the digit run `s[start..]`, when it is non-empty, all digits and
/// fits in a `u64`.
pub fn parse_digit_run_str(s: &str, start: usize) -> (r: Option<u64>)
    requires
        start <= s@.len(),
    ensures
        ({
            let body = s@.subrange(start as int, s@.len() as int);
            match r {
                Some(v) => body.len() > 0 && all_digits(body) && digits_val(body) == v,
                None => !(body.len() > 0 && all_digits(body) && digits_val(body) <= u64::MAX),
            }
        }),
{
    let ghost body = s@.subrange(start as int, s@.len() as int);
    let n = s.unicode_len();
    if start == n {
        return None;
    }
    let mut acc: u64 = 0;
    let mut i: usize = start;
    while i < n
        invariant
            n == s@.len(),
            start <= i <= n,
            body == s@.subrange(start as int, s@.len() as int),
            forall|k: int| start <= k < i ==> is_digit_char(#[trigger] s@[k]),
            acc == digits_val(s@.subrange(start as int, i as int)),
        decreases n - i,
    {
        let c = s.get_char(i);
        let u = c as u32;
        if !(48 <= u && u <= 57) {
            proof {
                assert(body[i - start] == s@[i as int]);
                assert(!all_digits(body));
            }
            return None;
        }
        let d: u64 = (u as u64) - 48;
        proof {
            assert(d == digit_val(c));
            assert(s@.subrange(start as int, i + 1).drop_last() =~= s@.subrange(
                start as int,
                i as int,
            ));
        }
        if acc > (u64::MAX - d) / 10 {
            proof {
                let big = s@.subrange(start as int, i + 1);
                assert(digits_val(big) == 10 * digits_val(big.drop_last()) + digit_val(big.last()));
                assert(digits_val(big) > u64::MAX);
                lemma_digits_val_grows(s@.subrange(start as int, n as int), i + 1 - start, n - start);
                assert(s@.subrange(start as int, n as int).subrange(0, i + 1 - start) =~= big);
                assert(s@.subrange(start as int, n as int).subrange(0, n - start) =~= body);
            }
            return None;
        }
        acc = acc * 10 + d;
        i = i + 1;
    }
    proof {
        assert(s@.subrange(start as int, n as int) =~= body);
    }
    Some(acc)
}

/// Parse as `u64::from_str` does.
pub fn parse_u64(s: &str) -> (r: Option<u64>)
    ensures
        r == parse_u64_spec(s@),
{
    let n = s.unicode_len();
    let start: usize = if n > 0 && s.get_char(0) == '+' {
        1
    } else {
        0
    };
    proof {
        if start == 1 {
            assert(s@.subrange(1, n as int) =~= s@.drop_first());
        } else {
            assert(s@.subrange(0, n as int) =~= s@);
        }
    }
    match parse_digit_run_str(s, start) {
        Some(v) => Some(v),
        None => None,
    }
}

/// Parse as `u32::from_str` does.
pub open spec fn parse_u32_spec(s: Seq<char>) -> Option<u32> {
    match parse_u64_spec(s) {
        Some(v) => if v <= u32::MAX {
            Some(v as u32)
        } else {
            None
        },
        None => None,
    }
}

pub fn parse_u32(s: &str) -> (r: Option<u32>)
    ensures
        r == parse_u32_spec(s@),
{
    match parse_u64(s) {
        Some(v) => if v <= 0xffff_ffff {
            Some(v as u32)
        } else {
            None
        },
        None => None,
    }
}

/// Parse as `i64::from_str` does.
pub fn parse_i64(s: &str) -> (r: Option<i64>)
    ensures
        r == parse_i64_spec(s@),
{
    let n = s.unicode_len();
    if n == 0 {
        return None;
    }
    let c0 = s.get_char(0);
    let neg = c0 == '-';
    let start: usize = if c0 == '-' || c0 == '+' {
        1
    } else {
        0
    };
    proof {
        if start == 1 {
            assert(s@.subrange(1, n as int) =~= s@.drop_first());
        } else {
            assert(s@.subrange(0, n as int) =~= s@);
        }
    }
    let mag = match parse_digit_run_str(s, start) {
        Some(v) => v,
        None => {
            return None;
        },
    };
    if neg {
        if mag > 0x8000_0000_0000_0000 {
            None
        } else if mag == 0x8000_0000_0000_0000 {
            Some(i64::MIN)
        } else {
            Some(-(mag as i64))
        }
    } else {
        if mag > 0x7fff_ffff_ffff_ffff {
            None
        } else {
            Some(mag as i64)
        }
    }
}

// ---------------------------------------------------------------------------
// Formatting unsigned integers in decimal
// ---------------------------------------------------------------------------

/// Decimal rendering of `n`, most significant digit first, no sign and no
/// leading zero.
pub open spec fn dec_str_of(n: nat) -> Seq<char>
    decreases n,
{
    if n < 10 {
        seq![digit_char_of(n)]
    } else {
        dec_str_of(n / 10) + seq![digit_char_of(n % 10)]
    }
}

/// The digit character for a value below ten.
pub open spec fn digit_char_of(d: nat) -> char {
    if d == 0 {
        '0'
    } else if d == 1 {
        '1'
    } else if d == 2 {
        '2'
    } else if d == 3 {
        '3'
    } else if d == 4 {
        '4'
    } else if d == 5 {
        '5'
    } else if d == 6 {
        '6'
    } else if d == 7 {
        '7'
    } else if d == 8 {
        '8'
    } else {
        '9'
    }
}

/// Every character `dec_str_of` produces is a digit, and reading the digits
/// back yields the value that was rendered.
proof fn lemma_digit_char_val(d: nat)
    requires
        d < 10,
    ensures
        digit_val(digit_char_of(d)) == d,
        is_digit_char(digit_char_of(d)),
{
    assert('0' as int == 48 && '1' as int == 49 && '2' as int == 50 && '3' as int == 51
        && '4' as int == 52 && '5' as int == 53 && '6' as int == 54 && '7' as int == 55
        && '8' as int == 56 && '9' as int == 57);
}

pub proof fn lemma_dec_str_of(n: nat)
    ensures
        dec_str_of(n).len() >= 1,
        all_digits(dec_str_of(n)),
        digits_val(dec_str_of(n)) == n,
    decreases n,
{
    if n < 10 {
        lemma_digit_char_val(n);
        let one = seq![digit_char_of(n)];
        assert(dec_str_of(n) =~= one);
        assert(one.drop_last() =~= Seq::<char>::empty());
        assert(digits_val(one) == 10 * digits_val(one.drop_last()) + digit_val(one.last()));
    } else {
        lemma_digit_char_val(n % 10);
        lemma_dec_str_of(n / 10);
        let head = dec_str_of(n / 10);
        let c = digit_char_of(n % 10);
        assert(dec_str_of(n) =~= head.push(c));
        lemma_digits_val_push(head, c);
        assert(forall|i: int|
            0 <= i < head.push(c).len() ==> is_digit_char(#[trigger] head.push(c)[i]));
    }
}

/// The one-character text of a decimal digit.
pub fn digit_str(d: u64) -> (r: &'static str)
    requires
        d < 10,
    ensures
        r@ =~= seq![digit_char_of(d as nat)],
{
    proof {
        reveal_strlit("0");
        reveal_strlit("1");
        reveal_strlit("2");
        reveal_strlit("3");
        reveal_strlit("4");
        reveal_strlit("5");
        reveal_strlit("6");
        reveal_strlit("7");
        reveal_strlit("8");
        reveal_strlit("9");
    }
    if d == 0 {
        "0"
    } else if d == 1 {
        "1"
    } else if d == 2 {
        "2"
    } else if d == 3 {
        "3"
    } else if d == 4 {
        "4"
    } else if d == 5 {
        "5"
    } else if d == 6 {
        "6"
    } else if d == 7 {
        "7"
    } else if d == 8 {
        "8"
    } else {
        "9"
    }
}

/// Append the decimal rendering of `n` to `out`.
pub fn push_dec_u64(n: u64, out: &mut String)
    ensures
        final(out)@ == old(out)@ + dec_str_of(n as nat),
    decreases n,
{
    if n < 10 {
        out.append(digit_str(n));
        proof {
            assert(out@ =~= old(out)@ + dec_str_of(n as nat));
        }
    } else {
        push_dec_u64(n / 10, out);
        out.append(digit_str(n % 10));
        proof {
            assert(out@ =~= old(out)@ + dec_str_of(n as nat));
        }
    }
}

} // verus!
