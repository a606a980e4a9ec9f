//! Decimal numbers in text: reading them the way `str::parse` does for an
//! unsigned integer, and writing them the way `to_string` does.

use vstd::prelude::*;

verus! {

/// An ASCII digit.
pub open spec fn is_digit(c: char) -> bool {
    '0' <= c && c <= '9'
}

pub open spec fn digit_value(c: char) -> nat {
    (c as int - '0' as int) as nat
}

pub open spec fn all_digits(s: Seq<char>) -> bool {
    forall|i: int| 0 <= i < s.len() ==> is_digit(s[i])
}

/// The number the digits of `s` spell, most significant first.
pub open spec fn dec_value(s: Seq<char>) -> nat
    decreases s.len(),
{
    if s.len() == 0 {
        0
    } else {
        dec_value(s.drop_last()) * 10 + digit_value(s.last())
    }
}

/// `str::parse` into an unsigned integer that holds at most `max`: an
/// optional `+`, then one or more ASCII digits whose value fits.
pub open spec fn parse_unsigned(s: Seq<char>, max: nat) -> Option<nat> {
    let t = unsigned_digits(s);
    if t.len() > 0 && all_digits(t) && dec_value(t) <= max {
        Some(dec_value(t))
    } else {
        None
    }
}

/// The digits of an unsigned number: `s` without its optional leading `+`.
pub open spec fn unsigned_digits(s: Seq<char>) -> Seq<char> {
    if s.len() > 0 && s[0] == '+' {
        s.drop_first()
    } else {
        s
    }
}

pub open spec fn digit_chars() -> Seq<char> {
    seq!['0', '1', '2', '3', '4', '5', '6', '7', '8', '9']
}

/// `n.to_string()` for an unsigned `n`: its decimal digits, no padding.
pub open spec fn decimal(n: nat) -> Seq<char>
    decreases n,
{
    if n < 10 {
        seq![digit_chars()[n as int]]
    } else {
        decimal(n / 10).push(digit_chars()[(n % 10) as int])
    }
}

/// How many decimal digits `n` has.
pub open spec fn num_digits(n: nat) -> nat
    decreases n,
{
    if n < 10 {
        1
    } else {
        num_digits(n / 10) + 1
    }
}

pub proof fn lemma_decimal_len(n: nat)
    ensures
        decimal(n).len() == num_digits(n),
        num_digits(n) >= 1,
    decreases n,
{
    if n >= 10 {
        lemma_decimal_len(n / 10);
    }
}

proof fn lemma_digit_char(d: nat)
    requires
        d < 10,
    ensures
        is_digit(digit_chars()[d as int]),
        digit_value(digit_chars()[d as int]) == d,
{
    let s = digit_chars();
    assert(s[0] == '0' && s[1] == '1' && s[2] == '2' && s[3] == '3' && s[4] == '4');
    assert(s[5] == '5' && s[6] == '6' && s[7] == '7' && s[8] == '8' && s[9] == '9');
}

/// Writing a number and reading it back gives the number: its decimal text
/// is all digits, with no sign, and spells it.
pub proof fn lemma_decimal_reads_back(n: nat, max: nat)
    requires
        n <= max,
    ensures
        all_digits(decimal(n)),
        decimal(n).len() > 0,
        decimal(n)[0] != '+',
        dec_value(decimal(n)) == n,
        parse_unsigned(decimal(n), max) == Some(n),
    decreases n,
{
    if n < 10 {
        lemma_digit_char(n);
        assert(decimal(n).drop_last() =~= Seq::<char>::empty());
        assert(dec_value(Seq::<char>::empty()) == 0);
        assert(decimal(n).last() == digit_chars()[n as int]);
        assert(dec_value(decimal(n)) == n);
    } else {
        lemma_decimal_reads_back(n / 10, max);
        lemma_digit_char(n % 10);
        let d = decimal(n);
        assert(d.drop_last() =~= decimal(n / 10));
        assert(d.last() == digit_chars()[(n % 10) as int]);
        assert(n == (n / 10) * 10 + n % 10);
        assert(dec_value(d) == dec_value(decimal(n / 10)) * 10 + digit_value(d.last()));
        assert(dec_value(d) == n);
        assert(d[0] == decimal(n / 10)[0]);
        assert forall|i: int| 0 <= i < d.len() implies is_digit(d[i]) by {
            if i < d.len() - 1 {
                assert(d[i] == decimal(n / 10)[i]);
            }
        }
    }
    assert(unsigned_digits(decimal(n)) == decimal(n));
}

proof fn lemma_dec_value_grows(t: Seq<char>, k: int)
    requires
        0 <= k <= t.len(),
    ensures
        dec_value(t.take(k)) <= dec_value(t),
    decreases t.len() - k,
{
    if k < t.len() {
        lemma_dec_value_grows(t, k + 1);
        assert(t.take(k + 1).drop_last() =~= t.take(k));
    } else {
        assert(t.take(k) =~= t);
    }
}

/// `str::parse::<u64>()`, `None` standing for its error.
pub fn parse_u64(s: &[char]) -> (r: Option<u64>)
    ensures
        r matches Some(v) ==> parse_unsigned(s@, u64::MAX as nat) == Some(v as nat),
        r is None ==> parse_unsigned(s@, u64::MAX as nat) is None,
{
    let start: usize = if s.len() > 0 && s[0] == '+' {
        1
    } else {
        0
    };
    let ghost t = s@.skip(start as int);
    assert(t =~= unsigned_digits(s@));
    if start >= s.len() {
        return None;
    }
    let mut v: u64 = 0;
    let mut k: usize = start;
    while k < s.len()
        invariant
            start <= k <= s@.len(),
            start < s@.len(),
            t == s@.skip(start as int),
            t == unsigned_digits(s@),
            all_digits(t.take(k - start)),
            v as nat == dec_value(t.take(k - start)),
        decreases s@.len() - k,
    {
        let c = s[k];
        assert(t[k - start] == c);
        if !('0' <= c && c <= '9') {
            assert(!is_digit(t[k - start]));
            assert(!all_digits(t));
            return None;
        }
        let d: u64 = (c as u32 - '0' as u32) as u64;
        assert(t.take(k - start + 1).drop_last() =~= t.take(k - start));
        assert(t.take(k - start + 1).last() == c);
        assert(digit_value(c) == d);
        assert(dec_value(t.take(k - start + 1)) == v * 10 + d);
        match v.checked_mul(10) {
            Some(m) => match m.checked_add(d) {
                Some(n) => {
                    v = n;
                },
                None => {
                    proof {
                        lemma_dec_value_grows(t, k - start + 1);
                    }
                    return None;
                },
            },
            None => {
                proof {
                    lemma_dec_value_grows(t, k - start + 1);
                }
                return None;
            },
        }
        k = k + 1;
    }
    assert(t.take(k - start) =~= t);
    Some(v)
}

/// `str::parse::<usize>()`, `None` standing for its error.
pub fn parse_usize(s: &[char]) -> (r: Option<usize>)
    ensures
        r matches Some(v) ==> parse_unsigned(s@, usize::MAX as nat) == Some(v as nat),
        r is None ==> parse_unsigned(s@, usize::MAX as nat) is None,
{
    match parse_u64(s) {
        Some(v) => if v <= usize::MAX as u64 {
            Some(v as usize)
        } else {
            None
        },
        None => None,
    }
}

/// `str::parse::<u32>()`, `None` standing for its error.
pub fn parse_u32(s: &[char]) -> (r: Option<u32>)
    ensures
        r matches Some(v) ==> parse_unsigned(s@, u32::MAX as nat) == Some(v as nat),
        r is None ==> parse_unsigned(s@, u32::MAX as nat) is None,
{
    match parse_u64(s) {
        Some(v) => if v <= u32::MAX as u64 {
            Some(v as u32)
        } else {
            None
        },
        None => None,
    }
}

/// `n.to_string()`.
pub fn decimal_of(n: u64) -> (v: Vec<char>)
    ensures
        v@ == decimal(n as nat),
    decreases n,
{
    let table = ['0', '1', '2', '3', '4', '5', '6', '7', '8', '9'];
    assert(table@ =~= digit_chars());
    if n < 10 {
        let mut v = Vec::new();
        v.push(table[n as usize]);
        assert(v@ =~= seq![digit_chars()[n as int]]);
        v
    } else {
        let mut v = decimal_of(n / 10);
        v.push(table[(n % 10) as usize]);
        v
    }
}

/// How many decimal digits `n` has: `n.to_string().len()`.
pub fn digits(n: usize) -> (d: usize)
    ensures
        d == num_digits(n as nat),
    decreases n,
{
    if n < 10 {
        1
    } else {
        let d = digits(n / 10);
        proof {
            lemma_num_digits_small((n / 10) as nat);
        }
        d + 1
    }
}

proof fn lemma_num_digits_small(n: nat)
    ensures
        num_digits(n) <= n + 1,
    decreases n,
{
    if n >= 10 {
        lemma_num_digits_small(n / 10);
    }
}

} // verus!
