//! Rounding of decimal text for display: round half away from zero at
//! a requested number of decimal places, trailing zeros dropped. A
//! display transform only — it never feeds back into a stored total.

use vstd::prelude::*;

use crate::numeral::char_digit;
use crate::numeral::digit_char;
use crate::numeral::is_digit;
use crate::numeral::numeral_value;

verus! {

/// One added to a string of decimal digits, carrying into a new
/// leading digit if they are all nines.
pub open spec fn inc_digits(ds: Seq<char>) -> Seq<char>
    decreases ds.len(),
{
    if ds.len() == 0 {
        seq!['1']
    } else if ds.last() == '9' {
        inc_digits(ds.drop_last()).push('0')
    } else {
        ds.drop_last().push(digit_char(char_digit(ds.last()) + 1))
    }
}

/// `inc_digits` is the digit-level face of adding one: the value goes
/// up by exactly one and the result is again all digits.
pub proof fn lemma_inc_digits_value(ds: Seq<char>)
    requires
        forall|i: int| 0 <= i < ds.len() ==> is_digit(#[trigger] ds[i]),
    ensures
        numeral_value(inc_digits(ds)) == numeral_value(ds) + 1,
        inc_digits(ds).len() >= ds.len(),
        forall|i: int| 0 <= i < inc_digits(ds).len() ==> is_digit(#[trigger] inc_digits(ds)[i]),
    decreases ds.len(),
{
    if ds.len() == 0 {
        assert(numeral_value(seq!['1']) == numeral_value(seq!['1'].drop_last()) * 10 + char_digit(
            '1',
        ));
        assert(seq!['1'].drop_last() =~= Seq::<char>::empty());
    } else if ds.last() == '9' {
        lemma_inc_digits_value(ds.drop_last());
        let r = inc_digits(ds.drop_last()).push('0');
        assert(r.drop_last() =~= inc_digits(ds.drop_last()));
        assert(numeral_value(r) == (numeral_value(ds.drop_last()) + 1) * 10 + 0);
        assert(numeral_value(ds) == numeral_value(ds.drop_last()) * 10 + 9);
    } else {
        let r = ds.drop_last().push(digit_char(char_digit(ds.last()) + 1));
        assert(r.drop_last() =~= ds.drop_last());
        assert(is_digit(ds.last()) && ds.last() != '9');
        assert(char_digit(ds.last()) < 9);
        assert(char_digit(digit_char(char_digit(ds.last()) + 1)) == char_digit(ds.last()) + 1);
        assert(is_digit(digit_char(char_digit(ds.last()) + 1)));
    }
}

/// Digits with their trailing zeros dropped.
pub open spec fn trim_zeros(ds: Seq<char>) -> Seq<char>
    decreases ds.len(),
{
    if ds.len() > 0 && ds.last() == '0' {
        trim_zeros(ds.drop_last())
    } else {
        ds
    }
}

/// Trimming only ever drops trailing characters: the result is the
/// prefix of its input of its own length.
pub proof fn lemma_trim_zeros_prefix(ds: Seq<char>)
    ensures
        trim_zeros(ds).len() <= ds.len(),
        trim_zeros(ds) == ds.take(trim_zeros(ds).len() as int),
    decreases ds.len(),
{
    if ds.len() > 0 && ds.last() == '0' {
        lemma_trim_zeros_prefix(ds.drop_last());
        assert(ds.drop_last().take(trim_zeros(ds).len() as int) =~= ds.take(
            trim_zeros(ds).len() as int,
        ));
    } else {
        assert(ds.take(ds.len() as int) =~= ds);
    }
}

/// The position of the first dot at or after `i`, or the length if
/// there is none.
pub open spec fn find_dot(s: Seq<char>, i: int) -> int
    recommends
        0 <= i <= s.len(),
    decreases s.len() - i,
{
    if i < 0 || i >= s.len() {
        s.len() as int
    } else if s[i] == '.' {
        i
    } else {
        find_dot(s, i + 1)
    }
}

/// The unsigned body of `s`: the text after an optional leading minus.
pub open spec fn body_of(s: Seq<char>) -> Seq<char> {
    if s.len() > 0 && s[0] == '-' {
        s.skip(1)
    } else {
        s
    }
}

/// The integer digits of the body: everything before the first dot.
pub open spec fn int_digits_of(b: Seq<char>) -> Seq<char> {
    b.take(find_dot(b, 0))
}

/// The fraction digits of the body: everything after the first dot,
/// empty if there is no dot.
pub open spec fn frac_digits_of(b: Seq<char>) -> Seq<char> {
    if find_dot(b, 0) == b.len() {
        Seq::<char>::empty()
    } else {
        b.skip(find_dot(b, 0) + 1)
    }
}

/// A string of decimal digits throughout.
pub open spec fn all_digits(ds: Seq<char>) -> bool {
    forall|i: int| 0 <= i < ds.len() ==> is_digit(#[trigger] ds[i])
}

/// Plain decimal text: an optional minus, at least one integer digit,
/// and, if a dot is present, at least one digit after it.
pub open spec fn is_decimal_text(s: Seq<char>) -> bool {
    &&& int_digits_of(body_of(s)).len() >= 1
    &&& all_digits(int_digits_of(body_of(s)))
    &&& (find_dot(body_of(s), 0) < body_of(s).len() ==> frac_digits_of(body_of(s)).len() >= 1
        && all_digits(frac_digits_of(body_of(s))))
}

/// The rounded digits: integer and fraction digits of the result of
/// rounding half away from zero at `d` places. Text already within
/// `d` places is left as it stands.
pub open spec fn rounded_digits(intd: Seq<char>, frac: Seq<char>, d: nat) -> (Seq<char>, Seq<
    char,
>) {
    if frac.len() <= d {
        (intd, frac)
    } else {
        let combined = intd + frac.take(d as int);
        let grown = if char_digit(frac[d as int]) >= 5 {
            inc_digits(combined)
        } else {
            combined
        };
        (grown.take(grown.len() - d), trim_zeros(grown.skip(grown.len() - d)))
    }
}

/// What rounding `s` at `d` places yields: the sign kept, the
/// magnitude rounded half away from zero, trailing zeros and a bare
/// dot dropped. Text that is not plain decimal passes through
/// unchanged, as a non-finite value would.
pub open spec fn round_spec(s: Seq<char>, d: nat) -> Seq<char> {
    if !is_decimal_text(s) {
        s
    } else {
        let b = body_of(s);
        let sign: Seq<char> = if s.len() > 0 && s[0] == '-' {
            seq!['-']
        } else {
            Seq::<char>::empty()
        };
        let pair = rounded_digits(int_digits_of(b), frac_digits_of(b), d);
        if pair.1.len() == 0 {
            sign + pair.0
        } else {
            sign + pair.0 + seq!['.'] + pair.1
        }
    }
}

fn digit_to_str(c: char) -> (s: &'static str)
    requires
        is_digit(c),
    ensures
        s@ =~= seq![c],
{
    proof {
        reveal_strlit("0");
        reveal_strlit("1");
        reveal_strlit("2");
        reveal_strlit("3");
        reveal_strlit("4");
        reveal_strlit("5");
        reveal_strlit("6");
        reveal_strlit("7");
        reveal_strlit("8");
        reveal_strlit("9");
    }
    match c {
        '0' => "0",
        '1' => "1",
        '2' => "2",
        '3' => "3",
        '4' => "4",
        '5' => "5",
        '6' => "6",
        '7' => "7",
        '8' => "8",
        _ => "9",
    }
}

fn succ_digit(c: char) -> (r: char)
    requires
        is_digit(c),
        c != '9',
    ensures
        r == digit_char(char_digit(c) + 1),
{
    match c {
        '0' => '1',
        '1' => '2',
        '2' => '3',
        '3' => '4',
        '4' => '5',
        '5' => '6',
        '6' => '7',
        '7' => '8',
        _ => '9',
    }
}

fn inc_digit_vec(ds: Vec<char>) -> (r: Vec<char>)
    requires
        forall|i: int| 0 <= i < ds@.len() ==> is_digit(#[trigger] ds@[i]),
    ensures
        r@ == inc_digits(ds@),
    decreases ds@.len(),
{
    let mut ds = ds;
    match ds.pop() {
        None => {
            proof {
                assert(ds@ =~= Seq::<char>::empty());
            }
            let mut r: Vec<char> = Vec::new();
            r.push('1');
            proof {
                assert(r@ =~= seq!['1']);
            }
            r
        },
        Some(last) => {
            proof {
                assert(ds@ =~= ds@.push(last).drop_last());
                assert(ds@.push(last).last() == last);
            }
            if last == '9' {
                let mut r = inc_digit_vec(ds);
                r.push('0');
                r
            } else {
                let next = succ_digit(last);
                ds.push(next);
                ds
            }
        },
    }
}

fn trim_zero_vec(ds: Vec<char>) -> (r: Vec<char>)
    ensures
        r@ == trim_zeros(ds@),
    decreases ds@.len(),
{
    let mut ds = ds;
    let n = ds.len();
    if n > 0 {
        let last = ds[n - 1];
        if last == '0' {
            let ghost before = ds@;
            ds.pop();
            proof {
                assert(ds@ =~= before.drop_last());
            }
            return trim_zero_vec(ds);
        }
    }
    ds
}

fn push_digits(out: &mut String, ds: &Vec<char>)
    requires
        forall|i: int| 0 <= i < ds@.len() ==> is_digit(#[trigger] ds@[i]),
    ensures
        final(out)@ == old(out)@ + ds@,
{
    let n = ds.len();
    let mut i: usize = 0;
    while i < n
        invariant
            0 <= i <= n,
            n == ds@.len(),
            forall|k: int| 0 <= k < n ==> is_digit(#[trigger] ds@[k]),
            out@ == old(out)@ + ds@.take(i as int),
        decreases n - i,
    {
        out.append(digit_to_str(ds[i]));
        proof {
            assert(old(out)@ + ds@.take(i as int) + seq![ds@[i as int]] =~= old(out)@ + ds@.take(
                i as int + 1,
            ));
        }
        i = i + 1;
    }
    proof {
        assert(ds@.take(n as int) =~= ds@);
    }
}

/// Rounds decimal text at `decimals` places, half away from zero, for
/// display. Text that is not plain decimal — a non-finite value, say —
/// passes through unchanged.
#[verifier::rlimit(100)]
pub fn round(s: &str, decimals: usize) -> (r: String)
    ensures
        r@ == round_spec(s@, decimals as nat),
{
    let n = s.unicode_len();
    let neg = if n > 0 {
        s.get_char(0) == '-'
    } else {
        false
    };
    let start: usize = if neg {
        1
    } else {
        0
    };
    let ghost b = body_of(s@);
    proof {
        assert(b =~= s@.skip(start as int));
    }
    // Find the first dot of the body.
    let mut p: usize = start;
    while p < n && s.get_char(p) != '.'
        invariant
            start <= p <= n,
            n == s@.len(),
            b == s@.skip(start as int),
            b == body_of(s@),
            find_dot(b, 0) == find_dot(b, p - start),
            forall|k: int| 0 <= k < p - start ==> b[k] != '.',
        decreases n - p,
    {
        proof {
            assert(b[p - start] == s@[p as int]);
        }
        p = p + 1;
    }
    let dot = p;
    proof {
        if dot == n {
            assert(find_dot(b, dot - start) == b.len());
        } else {
            assert(b[dot - start] == s@[dot as int]);
            assert(find_dot(b, dot - start) == dot - start);
        }
    }
    // Validate and collect the integer digits.
    if dot == start {
        proof {
            assert(int_digits_of(b).len() == 0);
            assert(!is_decimal_text(s@));
            assert(round_spec(s@, decimals as nat) == s@);
        }
        return s.to_owned();
    }
    let mut intv: Vec<char> = Vec::new();
    let mut j: usize = start;
    while j < dot
        invariant
            start <= j <= dot <= n,
            n == s@.len(),
            b == s@.skip(start as int),
            b == body_of(s@),
            find_dot(b, 0) == dot - start,
            intv@ =~= b.take(j - start),
            forall|k: int| 0 <= k < j - start ==> is_digit(#[trigger] b[k]),
        decreases dot - j,
    {
        let c = s.get_char(j);
        proof {
            assert(b[j - start] == s@[j as int]);
        }
        if c < '0' || c > '9' {
            proof {
                assert(int_digits_of(b)[j - start] == b[j - start]);
                assert(!all_digits(int_digits_of(b))) by {
                    assert(0 <= j - start < int_digits_of(b).len());
                    assert(!is_digit(int_digits_of(b)[j - start]));
                };
                assert(b == body_of(s@));
                assert(!is_decimal_text(s@));
                assert(round_spec(s@, decimals as nat) == s@);
            }
            return s.to_owned();
        }
        intv.push(c);
        j = j + 1;
    }
    proof {
        assert(intv@ =~= int_digits_of(b));
    }
    // Validate and collect the fraction digits.
    let mut fracv: Vec<char> = Vec::new();
    if dot < n {
        if dot + 1 == n {
            proof {
                assert(frac_digits_of(b) =~= Seq::<char>::empty());
                assert(find_dot(b, 0) < b.len());
                assert(!is_decimal_text(s@));
                assert(round_spec(s@, decimals as nat) == s@);
            }
            return s.to_owned();
        }
        let mut j2: usize = dot + 1;
        while j2 < n
            invariant
                dot + 1 <= j2 <= n,
                n == s@.len(),
                b == s@.skip(start as int),
                b == body_of(s@),
                start <= dot < n,
                find_dot(b, 0) == dot - start,
                fracv@ =~= b.skip(dot - start + 1).take(j2 - dot - 1),
                forall|k: int|
                    0 <= k < j2 - dot - 1 ==> is_digit(#[trigger] b.skip(dot - start + 1)[k]),
            decreases n - j2,
        {
            let c = s.get_char(j2);
            proof {
                assert(b.skip(dot - start + 1)[j2 - dot - 1] == s@[j2 as int]);
            }
            if c < '0' || c > '9' {
                proof {
                    assert(frac_digits_of(b)[j2 - dot - 1] == b.skip(dot - start + 1)[j2 - dot
                        - 1]);
                    assert(!all_digits(frac_digits_of(b))) by {
                        assert(0 <= j2 - dot - 1 < frac_digits_of(b).len());
                        assert(!is_digit(frac_digits_of(b)[j2 - dot - 1]));
                    };
                    assert(b == body_of(s@));
                    assert(find_dot(b, 0) < b.len());
                    assert(!is_decimal_text(s@));
                    assert(round_spec(s@, decimals as nat) == s@);
                }
                return s.to_owned();
            }
            fracv.push(c);
            j2 = j2 + 1;
        }
        proof {
            assert(fracv@ =~= frac_digits_of(b));
        }
    } else {
        proof {
            assert(fracv@ =~= frac_digits_of(b));
        }
    }
    proof {
        assert(is_decimal_text(s@));
    }
    // Within the requested places already: hand the text back as it is.
    if fracv.len() <= decimals {
        proof {
            let pair = rounded_digits(int_digits_of(b), frac_digits_of(b), decimals as nat);
            if find_dot(b, 0) == b.len() {
                assert(round_spec(s@, decimals as nat) =~= s@);
            } else {
                assert(b =~= int_digits_of(b) + seq!['.'] + frac_digits_of(b));
                assert(round_spec(s@, decimals as nat) =~= s@);
            }
        }
        return s.to_owned();
    }
    // Round: keep `decimals` fraction digits, look at the next one.
    let decide = fracv[decimals];
    let mut kept = fracv;
    kept.truncate(decimals);
    proof {
        assert(kept@ =~= frac_digits_of(b).take(decimals as int));
    }
    let mut combined = intv;
    let mut kept_tail = kept;
    combined.append(&mut kept_tail);
    proof {
        assert(combined@ == int_digits_of(b) + frac_digits_of(b).take(decimals as int));
    }
    let grown: Vec<char> = if decide >= '5' {
        inc_digit_vec(combined)
    } else {
        combined
    };
    proof {
        let combined_spec = int_digits_of(b) + frac_digits_of(b).take(decimals as int);
        assert(forall|i: int| 0 <= i < combined_spec.len() ==> is_digit(#[trigger] combined_spec[i]));
        lemma_inc_digits_value(combined_spec);
        assert(forall|i: int| 0 <= i < grown@.len() ==> is_digit(#[trigger] grown@[i]));
        assert(grown@.len() >= decimals);
    }
    let cut = grown.len() - decimals;
    let mut int_part = grown;
    let frac_part = int_part.split_off(cut);
    proof {
        assert(int_part@ =~= rounded_digits(
            int_digits_of(b),
            frac_digits_of(b),
            decimals as nat,
        ).0);
    }
    proof {
        assert(frac_part@ =~= grown@.skip(cut as int));
    }
    let frac_trimmed = trim_zero_vec(frac_part);
    proof {
        lemma_trim_zeros_prefix(grown@.skip(cut as int));
        assert(forall|i: int| 0 <= i < frac_trimmed@.len() ==> is_digit(#[trigger] frac_trimmed@[i]));
    }
    proof {
        assert(frac_trimmed@ == rounded_digits(
            int_digits_of(b),
            frac_digits_of(b),
            decimals as nat,
        ).1);
    }
    // Assemble the output text.
    let mut out = String::new();
    if neg {
        out.append("-");
        proof {
            reveal_strlit("-");
            assert(out@ =~= seq!['-']);
        }
    }
    push_digits(&mut out, &int_part);
    if frac_trimmed.len() > 0 {
        out.append(".");
        proof {
            reveal_strlit(".");
        }
        push_digits(&mut out, &frac_trimmed);
    }
    proof {
        assert(out@ =~= round_spec(s@, decimals as nat));
    }
    out
}

} // verus!
