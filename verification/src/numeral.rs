//! Decimal numerals: the mapping between unsigned integers and their
//! decimal text, used for period labels and for decoding client signals.

use vstd::prelude::*;

verus! {

/// The character standing for one decimal digit value.
pub open spec fn digit_char(d: nat) -> char
    recommends
        d < 10,
{
    if d == 0 {
        '0'
    } else if d == 1 {
        '1'
    } else if d == 2 {
        '2'
    } else if d == 3 {
        '3'
    } else if d == 4 {
        '4'
    } else if d == 5 {
        '5'
    } else if d == 6 {
        '6'
    } else if d == 7 {
        '7'
    } else if d == 8 {
        '8'
    } else {
        '9'
    }
}

/// The digit value of one decimal digit character.
pub open spec fn char_digit(c: char) -> nat {
    ((c as int) - ('0' as int)) as nat
}

pub open spec fn is_digit(c: char) -> bool {
    '0' <= c && c <= '9'
}

/// The canonical decimal representation of `n`: no sign, no leading
/// zero except for `n == 0` itself.
pub open spec fn dec_rep(n: nat) -> Seq<char>
    decreases n,
{
    if n < 10 {
        seq![digit_char(n)]
    } else {
        dec_rep(n / 10) + seq![digit_char(n % 10)]
    }
}

proof fn lemma_digit_char_roundtrip(d: nat)
    requires
        d < 10,
    ensures
        is_digit(digit_char(d)),
        char_digit(digit_char(d)) == d,
{
}

/// Every character of a decimal representation is a digit, and the
/// representation is never empty.
pub proof fn lemma_dec_rep_digits(n: nat)
    ensures
        dec_rep(n).len() >= 1,
        forall|i: int| 0 <= i < dec_rep(n).len() ==> is_digit(#[trigger] dec_rep(n)[i]),
    decreases n,
{
    if n < 10 {
        lemma_digit_char_roundtrip(n);
    } else {
        lemma_dec_rep_digits(n / 10);
        lemma_digit_char_roundtrip(n % 10);
    }
}

fn digit_str(d: u64) -> (s: &'static str)
    requires
        d < 10,
    ensures
        s@ =~= seq![digit_char(d as nat)],
{
    proof {
        reveal_strlit("0");
        reveal_strlit("1");
        reveal_strlit("2");
        reveal_strlit("3");
        reveal_strlit("4");
        reveal_strlit("5");
        reveal_strlit("6");
        reveal_strlit("7");
        reveal_strlit("8");
        reveal_strlit("9");
    }
    match d {
        0 => "0",
        1 => "1",
        2 => "2",
        3 => "3",
        4 => "4",
        5 => "5",
        6 => "6",
        7 => "7",
        8 => "8",
        _ => "9",
    }
}

/// The value of a string of decimal digits, most significant first.
/// Leading zeros are allowed and do not change the value.
pub open spec fn numeral_value(s: Seq<char>) -> nat
    decreases s.len(),
{
    if s.len() == 0 {
        0
    } else {
        numeral_value(s.drop_last()) * 10 + char_digit(s.last())
    }
}

/// A non-empty string of decimal digits.
pub open spec fn is_numeral(s: Seq<char>) -> bool {
    s.len() >= 1 && forall|i: int| 0 <= i < s.len() ==> is_digit(#[trigger] s[i])
}

proof fn lemma_numeral_value_push(s: Seq<char>, c: char)
    ensures
        numeral_value(s.push(c)) == numeral_value(s) * 10 + char_digit(c),
{
    assert(s.push(c).drop_last() =~= s);
    assert(s.push(c).last() == c);
}

/// Appending digits never lowers the value of a numeral prefix.
proof fn lemma_numeral_value_take_monotonic(s: Seq<char>, i: int, j: int)
    requires
        0 <= i <= j <= s.len(),
    ensures
        numeral_value(s.take(i)) <= numeral_value(s.take(j)),
    decreases j - i,
{
    if i < j {
        lemma_numeral_value_take_monotonic(s, i, j - 1);
        assert(s.take(j).drop_last() =~= s.take(j - 1));
        assert(numeral_value(s.take(j - 1)) * 10 >= numeral_value(s.take(j - 1)));
    }
}

/// Reading the canonical decimal text of `n` back gives `n`.
pub proof fn lemma_dec_rep_value(n: nat)
    ensures
        is_numeral(dec_rep(n)),
        numeral_value(dec_rep(n)) == n,
    decreases n,
{
    lemma_dec_rep_digits(n);
    if n < 10 {
        lemma_digit_char_roundtrip(n);
        assert(dec_rep(n) =~= seq![digit_char(n)]);
        assert(dec_rep(n).drop_last() =~= Seq::<char>::empty());
        assert(dec_rep(n).last() == digit_char(n));
        assert(numeral_value(dec_rep(n).drop_last()) == 0);
        assert(numeral_value(dec_rep(n)) == n);
    } else {
        lemma_dec_rep_value(n / 10);
        lemma_digit_char_roundtrip(n % 10);
        assert(dec_rep(n) =~= dec_rep(n / 10).push(digit_char(n % 10)));
        lemma_numeral_value_push(dec_rep(n / 10), digit_char(n % 10));
        assert(numeral_value(dec_rep(n)) == (n / 10) * 10 + n % 10);
        assert(numeral_value(dec_rep(n)) == n);
    }
}

/// Reads a decimal numeral. Returns the value exactly when the whole
/// string is a non-empty run of digits whose value fits in a `u64`;
/// anything else is refused.
pub fn parse_u64(s: &str) -> (r: Option<u64>)
    ensures
        r == if is_numeral(s@) && numeral_value(s@) <= u64::MAX {
            Some(numeral_value(s@) as u64)
        } else {
            None::<u64>
        },
{
    let n = s.unicode_len();
    if n == 0 {
        return None;
    }
    let mut acc: u64 = 0;
    let mut i: usize = 0;
    while i < n
        invariant
            0 <= i <= n,
            n == s@.len(),
            acc as nat == numeral_value(s@.take(i as int)),
            forall|k: int| 0 <= k < i ==> is_digit(#[trigger] s@[k]),
        decreases n - i,
    {
        let c = s.get_char(i);
        if c < '0' || c > '9' {
            assert(!is_numeral(s@));
            return None;
        }
        let d: u64 = (c as u32 as u64) - ('0' as u32 as u64);
        proof {
            assert(d == char_digit(s@[i as int]));
        }
        if acc > u64::MAX / 10 || acc * 10 > u64::MAX - d {
            proof {
                lemma_numeral_value_push(s@.take(i as int), s@[i as int]);
                assert(s@.take(i as int).push(s@[i as int]) =~= s@.take(i as int + 1));
                lemma_numeral_value_take_monotonic(s@, i as int + 1, n as int);
                assert(s@.take(n as int) =~= s@);
            }
            return None;
        }
        acc = acc * 10 + d;
        proof {
            lemma_numeral_value_push(s@.take(i as int), s@[i as int]);
            assert(s@.take(i as int).push(s@[i as int]) =~= s@.take(i as int + 1));
        }
        i = i + 1;
    }
    proof {
        assert(s@.take(n as int) =~= s@);
    }
    Some(acc)
}

/// Renders `n` as its canonical decimal text.
pub fn u64_to_string(n: u64) -> (s: String)
    ensures
        s@ == dec_rep(n as nat),
    decreases n,
{
    if n < 10 {
        digit_str(n).to_owned()
    } else {
        let mut s = u64_to_string(n / 10);
        s.append(digit_str(n % 10));
        proof {
            assert(s@ =~= dec_rep(n as nat));
        }
        s
    }
}

} // verus!
