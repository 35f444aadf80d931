//! Decimal numerals: writing a size and reading one back.

use vstd::prelude::*;

verus! {

/// The character of decimal digit `d`.
pub open spec fn digit_char(d: nat) -> char {
    if d == 0 {
        '0'
    } else if d == 1 {
        '1'
    } else if d == 2 {
        '2'
    } else if d == 3 {
        '3'
    } else if d == 4 {
        '4'
    } else if d == 5 {
        '5'
    } else if d == 6 {
        '6'
    } else if d == 7 {
        '7'
    } else if d == 8 {
        '8'
    } else {
        '9'
    }
}

/// Whether `c` is one of `0`..`9`.
pub open spec fn is_digit(c: char) -> bool {
    48 <= c as u32 && c as u32 <= 57
}

/// The value of the digit `c`.
pub open spec fn digit_value(c: char) -> nat {
    (c as u32 - 48) as nat
}

/// The decimal numeral of `n`, without sign or leading zeros, as `to_string` writes it.
pub open spec fn decimal(n: nat) -> Seq<char>
    decreases n,
{
    if n < 10 {
        seq![digit_char(n)]
    } else {
        decimal(n / 10).push(digit_char(n % 10))
    }
}

/// The value of a sequence of decimal digits.
pub open spec fn digits_value(s: Seq<char>) -> nat
    decreases s.len(),
{
    if s.len() == 0 {
        0
    } else {
        digits_value(s.drop_last()) * 10 + digit_value(s.last())
    }
}

/// Whether every character of `s` is a decimal digit.
pub open spec fn all_digits(s: Seq<char>) -> bool {
    forall|i: int| 0 <= i < s.len() ==> is_digit(#[trigger] s[i])
}

/// The digits of a numeral: `s` without one leading `+`.
pub open spec fn numeral_digits(s: Seq<char>) -> Seq<char> {
    if s.len() > 0 && s[0] == '+' { s.drop_first() } else { s }
}

/// What `str::parse::<usize>` gives for `s`: an optional `+` and then at least
/// one decimal digit, whose value fits in `usize`.
pub open spec fn usize_numeral(s: Seq<char>) -> Option<nat> {
    let d = numeral_digits(s);
    if d.len() > 0 && all_digits(d) && digits_value(d) <= usize::MAX {
        Some(digits_value(d))
    } else {
        None
    }
}

/// The text of one decimal digit.
fn digit_text(d: u64) -> (r: &'static str)
    requires
        d < 10,
    ensures
        r@ == seq![digit_char(d as nat)],
{
    proof {
        reveal_strlit("0");
        reveal_strlit("1");
        reveal_strlit("2");
        reveal_strlit("3");
        reveal_strlit("4");
        reveal_strlit("5");
        reveal_strlit("6");
        reveal_strlit("7");
        reveal_strlit("8");
        reveal_strlit("9");
    }
    if d == 0 {
        assert("0"@ =~= seq![digit_char(0)]);
        "0"
    } else if d == 1 {
        assert("1"@ =~= seq![digit_char(1)]);
        "1"
    } else if d == 2 {
        assert("2"@ =~= seq![digit_char(2)]);
        "2"
    } else if d == 3 {
        assert("3"@ =~= seq![digit_char(3)]);
        "3"
    } else if d == 4 {
        assert("4"@ =~= seq![digit_char(4)]);
        "4"
    } else if d == 5 {
        assert("5"@ =~= seq![digit_char(5)]);
        "5"
    } else if d == 6 {
        assert("6"@ =~= seq![digit_char(6)]);
        "6"
    } else if d == 7 {
        assert("7"@ =~= seq![digit_char(7)]);
        "7"
    } else if d == 8 {
        assert("8"@ =~= seq![digit_char(8)]);
        "8"
    } else {
        assert("9"@ =~= seq![digit_char(9)]);
        "9"
    }
}

/// Writes `n` in decimal.
pub fn decimal_text(n: u64) -> (r: String)
    ensures
        r@ == decimal(n as nat),
{
    let mut m: u64 = n;
    let mut out = String::new();
    assert(decimal(n as nat) =~= decimal(n as nat) + out@);
    loop
        invariant
            decimal(n as nat) == decimal(m as nat) + out@,
        decreases m,
    {
        let mut t = digit_text(m % 10).to_owned();
        t.append(out.as_str());
        if m < 10 {
            assert(decimal(n as nat) =~= t@);
            return t;
        }
        assert(decimal(m as nat) + out@ =~= decimal((m / 10) as nat) + t@);
        out = t;
        m = m / 10;
    }
}

proof fn lemma_digits_value_prefix(s: Seq<char>, j: int, k: int)
    requires
        0 <= j <= k <= s.len(),
    ensures
        digits_value(s.take(j)) <= digits_value(s.take(k)),
    decreases k - j,
{
    if j < k {
        lemma_digits_value_prefix(s, j, k - 1);
        assert(s.take(k).drop_last() =~= s.take(k - 1));
    }
}

/// Reads a `usize` as `str::parse` does: an optional `+`, then decimal digits
/// whose value fits; anything else gives `None`.
pub fn parse_usize(s: &str) -> (r: Option<usize>)
    ensures
        r matches Some(v) ==> usize_numeral(s@) == Some(v as nat),
        r is None ==> usize_numeral(s@) is None,
{
    let n = s.unicode_len();
    let mut i: usize = 0;
    if n > 0 && s.get_char(0) == '+' {
        i = 1;
    }
    let ghost d = numeral_digits(s@);
    assert(d =~= s@.skip(i as int));
    if i == n {
        return None;
    }
    let mut acc: usize = 0;
    let mut k: usize = i;
    assert(d.take(0) =~= Seq::<char>::empty());
    while k < n
        invariant
            n == s@.len(),
            i <= k <= n,
            d =~= s@.skip(i as int),
            d == numeral_digits(s@),
            acc as nat == digits_value(d.take(k - i)),
            all_digits(d.take(k - i)),
        decreases n - k,
    {
        let c = s.get_char(k);
        let u = c as u32;
        assert(d[k - i] == c);
        assert(d.take(k - i + 1).drop_last() =~= d.take(k - i));
        if u < 48 || u > 57 {
            assert(!is_digit(d[k - i]));
            assert(!all_digits(d));
            return None;
        }
        let dv = (u - 48) as usize;
        if acc > (usize::MAX - dv) / 10 {
            proof {
                assert(digits_value(d.take(k - i + 1)) > usize::MAX) by (nonlinear_arith)
                    requires
                        acc > (usize::MAX - dv) / 10,
                        digits_value(d.take(k - i + 1)) == acc * 10 + dv,
                        dv <= 9,
                ;
                lemma_digits_value_prefix(d, k - i + 1, d.len() as int);
                assert(d.take(d.len() as int) =~= d);
            }
            return None;
        }
        proof {
            assert(acc * 10 + dv <= usize::MAX) by (nonlinear_arith)
                requires
                    acc <= (usize::MAX - dv) / 10,
                    dv <= 9,
            ;
        }
        acc = acc * 10 + dv;
        k = k + 1;
    }
    assert(d.take(n - i) =~= d);
    Some(acc)
}

} // verus!
