//! Decimal numerals: the text of an integer and the integer of a text.
use vstd::prelude::*;

use crate::text::push_char;

verus! {

/// The character of a decimal digit.
pub open spec fn digit_char(d: int) -> char
    recommends 0 <= d < 10,
{
    ((d + 48) as u32) as char
}

/// Whether `c` is one of the ASCII digits `0` to `9`.
pub open spec fn is_digit(c: char) -> bool {
    '0' <= c && c <= '9'
}

/// The value of an ASCII digit.
pub open spec fn digit_value(c: char) -> int {
    (c as int) - 48
}

/// The digits of a natural number, most significant first, without leading zeros.
pub open spec fn nat_numeral(n: nat) -> Seq<char>
    decreases n,
{
    if n < 10 {
        seq![digit_char(n as int)]
    } else {
        nat_numeral((n / 10) as nat).push(digit_char((n % 10) as int))
    }
}

/// The text `format!("{}", n)` gives for an integer: a `-` before the digits of a negative one.
pub open spec fn numeral(n: int) -> Seq<char> {
    if n < 0 {
        seq!['-'] + nat_numeral((-n) as nat)
    } else {
        nat_numeral(n as nat)
    }
}

/// The digit character of `d`, which is below ten.
fn digit_to_char(d: u64) -> (c: char)
    requires
        d < 10,
    ensures
        c == digit_char(d as int),
        is_digit(c),
        digit_value(c) == d,
{
    let b: u8 = (d as u8) + 48;
    b as char
}

/// Appends the digits of `m` to `s`.
fn push_digits(s: &mut String, m: u64)
    ensures
        final(s)@ == old(s)@ + nat_numeral(m as nat),
    decreases m,
{
    if m < 10 {
        let c = digit_to_char(m);
        push_char(s, c);
        assert(nat_numeral(m as nat) == seq![c]);
    } else {
        push_digits(s, m / 10);
        let c = digit_to_char(m % 10);
        push_char(s, c);
        assert(old(s)@ + nat_numeral(m as nat) =~= old(s)@ + nat_numeral((m / 10) as nat) + seq![c]);
    }
}

/// Writes the decimal text of `n`, as `format!("{}", n)` does.
pub fn format_int(n: i64) -> (s: String)
    requires
        n > i64::MIN,
    ensures
        s@ == numeral(n as int),
{
    let mut s = String::new();
    if n < 0 {
        push_char(&mut s, '-');
        push_digits(&mut s, (-n) as u64);
    } else {
        push_digits(&mut s, n as u64);
    }
    s
}


/// Whether every character of `s` is an ASCII digit.
pub open spec fn all_digits(s: Seq<char>) -> bool {
    forall|i: int| 0 <= i < s.len() ==> is_digit(#[trigger] s[i])
}

/// The value of a sequence of digits, most significant first.
pub open spec fn digits_value(s: Seq<char>) -> int
    decreases s.len(),
{
    if s.len() == 0 {
        0
    } else {
        digits_value(s.drop_last()) * 10 + digit_value(s.last())
    }
}

/// The integer that a text denotes: an optional `+` or `-`, then at least one
/// ASCII digit and nothing else.
pub open spec fn integer_of(s: Seq<char>) -> Option<int> {
    if s.len() == 0 {
        None
    } else if s[0] == '-' || s[0] == '+' {
        let d = s.drop_first();
        if d.len() > 0 && all_digits(d) {
            Some(if s[0] == '-' { -digits_value(d) } else { digits_value(d) })
        } else {
            None
        }
    } else if all_digits(s) {
        Some(digits_value(s))
    } else {
        None
    }
}

/// What `str::parse::<i32>` gives for a text: its integer when that fits in an `i32`.
pub open spec fn i32_of(s: Seq<char>) -> Option<int> {
    match integer_of(s) {
        Some(v) => if i32::MIN <= v <= i32::MAX { Some(v) } else { None },
        None => None,
    }
}

proof fn lemma_digits_value_nonneg(s: Seq<char>)
    requires
        all_digits(s),
    ensures
        digits_value(s) >= 0,
    decreases s.len(),
{
    if s.len() > 0 {
        assert(is_digit(s[s.len() - 1]));
        lemma_digits_value_nonneg(s.drop_last());
    }
}

/// Parses a decimal `i32` as `str::parse::<i32>` does.
pub fn parse_i32(s: &Vec<char>) -> (r: Option<i32>)
    ensures
        match r {
            Some(v) => i32_of(s@) == Some(v as int),
            None => i32_of(s@) is None,
        },
{
    let n = s.len();
    if n == 0 {
        return None;
    }
    let neg = s[0] == '-';
    let start: usize = if s[0] == '-' || s[0] == '+' { 1 } else { 0 };
    if start == n {
        return None;
    }
    let ghost d = s@.subrange(start as int, n as int);
    let limit: u64 = 0x8000_0000;
    let mut acc: u64 = 0;
    let mut over = false;
    let mut i: usize = start;
    while i < n
        invariant
            start <= i <= n,
            n == s@.len(),
            start < n,
            limit == 0x8000_0000,
            d == s@.subrange(start as int, n as int),
            start == 1 <==> (s@[0] == '-' || s@[0] == '+'),
            start == 0 || start == 1,
            neg == (s@[0] == '-'),
            all_digits(s@.subrange(start as int, i as int)),
            !over ==> acc as int == digits_value(s@.subrange(start as int, i as int)) && acc <= limit,
            over ==> digits_value(s@.subrange(start as int, i as int)) > limit,
        decreases n - i,
    {
        let c = s[i];
        if !('0' <= c && c <= '9') {
            proof {
                assert(!is_digit(d[i - start]));
                if start == 0 {
                    assert(!all_digits(s@));
                } else {
                    assert(d =~= s@.drop_first());
                }
            }
            return None;
        }
        let ghost prev = s@.subrange(start as int, i as int);
        let ghost next = s@.subrange(start as int, i + 1);
        assert(next =~= prev.push(c));
        assert(next.drop_last() =~= prev);
        proof {
            lemma_digits_value_nonneg(prev);
        }
        if !over {
            let dv = (c as u32 - 48) as u64;
            acc = acc * 10 + dv;
            if acc > limit {
                over = true;
            }
        }
        i += 1;
    }
    proof {
        assert(s@.subrange(start as int, n as int) == d);
        if start == 0 {
            assert(d =~= s@);
            assert(!(s@[0] == '-' || s@[0] == '+')) by {
                assert(is_digit(d[0]));
            }
        } else {
            assert(d =~= s@.drop_first());
        }
    }
    if over {
        return None;
    }
    if neg {
        let v: i64 = -(acc as i64);
        Some(v as i32)
    } else if acc < limit {
        Some(acc as i32)
    } else {
        None
    }
}


proof fn lemma_digit_char(d: int)
    requires
        0 <= d < 10,
    ensures
        is_digit(digit_char(d)),
        digit_value(digit_char(d)) == d,
        digit_char(d) != '-',
        digit_char(d) != '+',
{
}

proof fn lemma_nat_numeral(m: nat)
    ensures
        nat_numeral(m).len() > 0,
        all_digits(nat_numeral(m)),
        digits_value(nat_numeral(m)) == m,
    decreases m,
{
    if m < 10 {
        lemma_digit_char(m as int);
        assert(nat_numeral(m).drop_last() =~= Seq::<char>::empty());
        assert(digits_value(Seq::<char>::empty()) == 0);
        assert(digits_value(nat_numeral(m)) == 0 * 10 + digit_value(digit_char(m as int)));
    } else {
        assert(m / 10 < m) by (nonlinear_arith) requires m >= 10;
        lemma_nat_numeral((m / 10) as nat);
        lemma_digit_char((m % 10) as int);
        let s = nat_numeral(m);
        assert(s.drop_last() =~= nat_numeral((m / 10) as nat));
        assert(s.last() == digit_char((m % 10) as int));
        assert((m / 10) * 10 + m % 10 == m) by (nonlinear_arith);
        assert(digits_value(s) == digits_value(nat_numeral((m / 10) as nat)) * 10 + digit_value(s.last()));
    }
}

/// The text that `format!("{}", n)` writes for an `i32` parses back, with
/// `str::parse::<i32>`, to `n`.
pub proof fn lemma_parse_format_round_trip(n: i32)
    ensures
        i32_of(numeral(n as int)) == Some(n as int),
{
    if n < 0 {
        let m = (-(n as int)) as nat;
        lemma_nat_numeral(m);
        let s = numeral(n as int);
        assert(s.drop_first() =~= nat_numeral(m));
    } else {
        let m = n as nat;
        lemma_nat_numeral(m);
        let s = numeral(n as int);
        assert(is_digit(s[0]));
    }
}


/// The text of an integer holds only digits and a leading `-`, and is not empty.
pub proof fn lemma_numeral_chars(n: int)
    ensures
        numeral(n).len() > 0,
        forall|i: int| 0 <= i < numeral(n).len() ==> is_digit(#[trigger] numeral(n)[i]) || numeral(n)[i] == '-',
{
    if n < 0 {
        lemma_nat_numeral((-n) as nat);
        let s = numeral(n);
        assert forall|i: int| 0 <= i < s.len() implies is_digit(#[trigger] s[i]) || s[i] == '-' by {
            if i > 0 {
                assert(s[i] == nat_numeral((-n) as nat)[i - 1]);
            }
        }
    } else {
        lemma_nat_numeral(n as nat);
    }
}


/// The text of an integer is its canonical decimal form: a `-` exactly for a
/// negative integer, then at least one digit, no leading zero unless the
/// integer is 0, and the digits' value is the integer's magnitude.
pub proof fn lemma_numeral_canonical(n: int)
    ensures
        ({
            let s = numeral(n);
            let d = if n < 0 { s.drop_first() } else { s };
            &&& (s[0] == '-') == (n < 0)
            &&& d.len() > 0
            &&& all_digits(d)
            &&& digits_value(d) == (if n < 0 { -n } else { n })
            &&& (d[0] == '0' ==> n == 0 && d.len() == 1)
        }),
{
    let m: nat = if n < 0 { (-n) as nat } else { n as nat };
    lemma_nat_numeral(m);
    lemma_nat_numeral_leading(m);
    let s = numeral(n);
    if n < 0 {
        assert(s.drop_first() =~= nat_numeral(m));
    } else {
        lemma_digit_char(0);
        assert(is_digit(s[0]));
    }
}

proof fn lemma_nat_numeral_leading(m: nat)
    ensures
        nat_numeral(m)[0] == '0' ==> m == 0 && nat_numeral(m).len() == 1,
        m >= 10 ==> nat_numeral(m)[0] == nat_numeral((m / 10) as nat)[0],
    decreases m,
{
    if m >= 10 {
        assert(m / 10 < m) by (nonlinear_arith) requires m >= 10;
        lemma_nat_numeral((m / 10) as nat);
        lemma_nat_numeral_leading((m / 10) as nat);
        assert((m / 10) >= 1) by (nonlinear_arith) requires m >= 10;
    } else {
        lemma_digit_char(m as int);
        if m > 0 {
            assert(digit_value(digit_char(m as int)) == m);
        }
    }
}

/// A text is read as an integer only when, after an optional sign, it is all
/// digits and not empty: empty text, a lone sign and any other character are
/// refused.
pub proof fn lemma_parse_refuses(s: Seq<char>)
    ensures
        s.len() == 0 ==> i32_of(s) is None,
        (s.len() == 1 && (s[0] == '-' || s[0] == '+')) ==> i32_of(s) is None,
        (exists|i: int| 0 < i < s.len() && !is_digit(#[trigger] s[i])) ==> i32_of(s) is None,
        (s.len() > 0 && !is_digit(s[0]) && s[0] != '-' && s[0] != '+') ==> i32_of(s) is None,
{
    if exists|i: int| 0 < i < s.len() && !is_digit(#[trigger] s[i]) {
        let i = choose|i: int| 0 < i < s.len() && !is_digit(#[trigger] s[i]);
        if s[0] == '-' || s[0] == '+' {
            assert(!is_digit(s.drop_first()[i - 1]));
        }
    }
}

/// A sign `+` in front of a text and leading zeros change nothing of the
/// integer read, and a `-` in front of the text of a natural number reads as
/// its negation.
pub proof fn lemma_parse_signs_and_zeros(n: i32)
    requires
        n >= 0,
    ensures
        i32_of(seq!['+'] + numeral(n as int)) == Some(n as int),
        i32_of(seq!['0'] + numeral(n as int)) == Some(n as int),
        i32_of(seq!['-'] + numeral(n as int)) == Some(-(n as int)),
{
    let m = n as nat;
    lemma_nat_numeral(m);
    let d = nat_numeral(m);
    assert((seq!['+'] + d).drop_first() =~= d);
    assert((seq!['-'] + d).drop_first() =~= d);
    let z = seq!['0'] + d;
    lemma_digit_char(0);
    assert(is_digit(z[0]));
    assert(all_digits(z)) by {
        assert forall|i: int| 0 <= i < z.len() implies is_digit(#[trigger] z[i]) by {
            if i > 0 {
                assert(z[i] == d[i - 1]);
            }
        }
    }
    lemma_leading_zero_value(d);
}

proof fn lemma_leading_zero_value(d: Seq<char>)
    ensures
        digits_value(seq!['0'] + d) == digits_value(d),
    decreases d.len(),
{
    let z = seq!['0'] + d;
    if d.len() == 0 {
        assert(z.drop_last() =~= Seq::<char>::empty());
        assert(digits_value(Seq::<char>::empty()) == 0);
    } else {
        lemma_leading_zero_value(d.drop_last());
        assert(z.drop_last() =~= seq!['0'] + d.drop_last());
        assert(z.last() == d.last());
    }
}

} // verus!
