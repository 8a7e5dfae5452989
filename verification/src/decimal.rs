//! Decimal digit strings: rendering and reading numbers.

use vstd::prelude::*;

verus! {

/// The character for one decimal digit.
pub open spec fn dec_digit(d: int) -> char {
    if d == 0 {
        '0'
    } else if d == 1 {
        '1'
    } else if d == 2 {
        '2'
    } else if d == 3 {
        '3'
    } else if d == 4 {
        '4'
    } else if d == 5 {
        '5'
    } else if d == 6 {
        '6'
    } else if d == 7 {
        '7'
    } else if d == 8 {
        '8'
    } else {
        '9'
    }
}

/// The decimal rendering of `n`, without leading zeros.
pub open spec fn dec_str(n: int) -> Seq<char>
    decreases n when n >= 0
{
    if n < 10 {
        seq![dec_digit(n)]
    } else {
        dec_str(n / 10).push(dec_digit(n % 10))
    }
}

/// Whether `c` is a decimal digit.
pub open spec fn is_dec_digit(c: char) -> bool {
    '0' <= c && c <= '9'
}

/// The value of one decimal digit character.
pub open spec fn digit_val(c: char) -> int {
    c as int - 48
}

/// Whether every character of `s` is a decimal digit.
pub open spec fn all_dec_digits(s: Seq<char>) -> bool {
    forall|k: int| 0 <= k < s.len() ==> is_dec_digit(#[trigger] s[k])
}

/// The value of a string of decimal digits; most significant first.
pub open spec fn digits_val(s: Seq<char>) -> int
    decreases s.len(),
{
    if s.len() == 0 {
        0
    } else {
        digits_val(s.drop_last()) * 10 + digit_val(s.last())
    }
}

/// `k` zero characters.
pub open spec fn zeros(k: int) -> Seq<char> {
    Seq::new(
        if k < 0 {
            0nat
        } else {
            k as nat
        },
        |i: int| '0',
    )
}

/// The value of a digit string of at most `k` digits, `k` up to eight, is
/// non-negative and below ten to the `k`.
pub proof fn lemma_digits_val_range(s: Seq<char>, k: int)
    requires
        all_dec_digits(s),
        0 <= k <= 8,
        s.len() <= k,
    ensures
        0 <= digits_val(s) < pow10_small(k),
    decreases s.len(),
{
    if s.len() > 0 {
        let rest = s.drop_last();
        assert(all_dec_digits(rest));
        lemma_digits_val_range(rest, k - 1);
        assert(0 <= digit_val(s.last()) <= 9);
        assert(pow10_small(k) == 10 * pow10_small(k - 1));
    }
}

/// Ten to the `k`, written out for small `k`.
pub open spec fn pow10_small(k: int) -> int {
    if k <= 0 {
        1
    } else if k == 1 {
        10
    } else if k == 2 {
        100
    } else if k == 3 {
        1000
    } else if k == 4 {
        10000
    } else if k == 5 {
        100000
    } else if k == 6 {
        1000000
    } else if k == 7 {
        10000000
    } else {
        100000000
    }
}

/// The rendering of a number below ten to the `k`, `k` up to eight, takes
/// at most `k` digits.
pub proof fn lemma_dec_str_len(n: int, k: int)
    requires
        1 <= k <= 8,
        0 <= n < pow10_small(k),
    ensures
        1 <= dec_str(n).len() <= k,
    decreases k,
{
    if n >= 10 {
        assert(k >= 2);
        assert(pow10_small(k) == 10 * pow10_small(k - 1));
        assert(n / 10 < pow10_small(k - 1));
        lemma_dec_str_len(n / 10, k - 1);
    }
}

/// The character for one digit.
pub fn digit_char(d: u64) -> (c: char)
    requires
        d < 10,
    ensures
        c == dec_digit(d as int),
{
    if d == 0 {
        '0'
    } else if d == 1 {
        '1'
    } else if d == 2 {
        '2'
    } else if d == 3 {
        '3'
    } else if d == 4 {
        '4'
    } else if d == 5 {
        '5'
    } else if d == 6 {
        '6'
    } else if d == 7 {
        '7'
    } else if d == 8 {
        '8'
    } else {
        '9'
    }
}

/// The decimal rendering of `n`, as characters.
pub fn u64_dec_chars(n: u64) -> (r: Vec<char>)
    ensures
        r@ == dec_str(n as int),
{
    let mut rev: Vec<char> = Vec::new();
    let mut m: u64 = n;
    rev.push(digit_char(m % 10));
    proof {
        if n < 10 {
            assert(dec_str(n as int) =~= rev@.reverse());
        } else {
            assert(dec_str(n as int) =~= dec_str((n / 10) as int) + rev@.reverse());
        }
    }
    m = m / 10;
    while m > 0
        invariant
            rev@.len() >= 1,
            m == 0 ==> dec_str(n as int) == rev@.reverse(),
            m > 0 ==> dec_str(n as int) == dec_str(m as int) + rev@.reverse(),
        decreases m,
    {
        let ghost rev_pre = rev@;
        let ghost m_pre = m as int;
        rev.push(digit_char(m % 10));
        proof {
            assert(rev@.reverse() =~= seq![dec_digit(m_pre % 10)] + rev_pre.reverse());
            if m_pre < 10 {
                assert(dec_str(m_pre) =~= seq![dec_digit(m_pre)]);
                assert(m_pre % 10 == m_pre);
                assert(dec_str(n as int) =~= rev@.reverse());
            } else {
                assert(dec_str(m_pre) =~= dec_str(m_pre / 10).push(dec_digit(m_pre % 10)));
                assert(dec_str(m_pre / 10) + rev@.reverse() =~= dec_str(m_pre) + rev_pre.reverse());
                assert(dec_str(n as int) =~= dec_str(m_pre / 10) + rev@.reverse());
            }
        }
        m = m / 10;
    }
    let k = rev.len();
    let mut out: Vec<char> = Vec::new();
    let mut j: usize = 0;
    while j < k
        invariant
            k == rev@.len(),
            0 <= j <= k,
            out@ =~= rev@.reverse().take(j as int),
        decreases k - j,
    {
        out.push(rev[k - 1 - j]);
        assert(rev@.reverse()[j as int] == rev@[k - 1 - j]);
        j = j + 1;
    }
    assert(out@ =~= rev@.reverse());
    out
}

} // verus!
