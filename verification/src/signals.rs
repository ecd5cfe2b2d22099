//! The signal decoder: raw textual key/value pairs from a request are
//! validated and converted into typed request structures, or refused.

use vstd::prelude::*;

use crate::numeral::is_numeral;
use crate::numeral::numeral_value;
use crate::numeral::parse_u64;

verus! {

/// Why a request was refused before any computation or stream started.
#[derive(Debug, Clone, Copy, PartialEq, Eq)]
pub enum DecodeError {
    /// A required field is absent or not readable as its declared type.
    MalformedInput,
}

/// The decoded pacing signal of the demo stream: the wait between
/// successive fragment emissions, in milliseconds.
pub struct Signals {
    pub delay: u64,
}

/// The decoded valuation request. The four rate and cash-flow fields
/// are kept as the decimal text the client sent; the caller turns them
/// into numbers. The horizon is decoded here.
pub struct DcfForm {
    pub fcf: String,
    pub growth: String,
    pub discount: String,
    pub terminal: String,
    pub years: u32,
}

/// The value of the first pair carrying `key`, if any.
pub open spec fn lookup(pairs: Seq<(String, String)>, key: Seq<char>) -> Option<Seq<char>>
    decreases pairs.len(),
{
    if pairs.len() == 0 {
        None
    } else if pairs[0].0@ == key {
        Some(pairs[0].1@)
    } else {
        lookup(pairs.skip(1), key)
    }
}

/// Finds the first pair carrying `key` and hands its value back.
fn find_value<'a>(pairs: &'a Vec<(String, String)>, key: &str) -> (r: Option<&'a String>)
    ensures
        match r {
            Some(v) => lookup(pairs@, key@) == Some(v@),
            None => lookup(pairs@, key@) is None,
        },
{
    let key_owned = key.to_owned();
    let n = pairs.len();
    let mut i: usize = 0;
    proof {
        assert(pairs@.skip(0) =~= pairs@);
    }
    while i < n
        invariant
            0 <= i <= n,
            n == pairs@.len(),
            key_owned@ == key@,
            lookup(pairs@, key@) == lookup(pairs@.skip(i as int), key@),
        decreases n - i,
    {
        proof {
            assert(pairs@.skip(i as int)[0] == pairs@[i as int]);
            assert(pairs@.skip(i as int).skip(1) =~= pairs@.skip(i as int + 1));
        }
        if pairs[i].0 == key_owned {
            return Some(&pairs[i].1);
        }
        i = i + 1;
    }
    proof {
        assert(pairs@.skip(n as int) =~= Seq::<(String, String)>::empty());
    }
    None
}

/// Whether the pairs decode to a pacing signal: a `delay` field whose
/// text is a decimal numeral that fits in sixty-four bits.
pub open spec fn signals_decodable(pairs: Seq<(String, String)>) -> bool {
    match lookup(pairs, "delay"@) {
        Some(v) => is_numeral(v) && numeral_value(v) <= u64::MAX,
        None => false,
    }
}

/// Decodes the demo endpoint's pacing signal. Succeeds exactly when a
/// `delay` field is present and reads as an unsigned integer; no
/// defaulting and no clamping is done.
pub fn decode_signals(pairs: &Vec<(String, String)>) -> (r: Result<Signals, DecodeError>)
    ensures
        signals_decodable(pairs@) ==> (r matches Ok(s) && s.delay as nat == numeral_value(
            lookup(pairs@, "delay"@)->Some_0,
        )),
        !signals_decodable(pairs@) ==> (r matches Err(e) && e is MalformedInput),
{
    match find_value(pairs, "delay") {
        Some(v) => match parse_u64(v.as_str()) {
            Some(d) => Ok(Signals { delay: d }),
            None => Err(DecodeError::MalformedInput),
        },
        None => Err(DecodeError::MalformedInput),
    }
}

/// Whether the pairs decode to a valuation request: all five fields
/// present, with `years` a decimal numeral fitting in thirty-two bits.
/// The four remaining fields are validated as numbers by the caller.
pub open spec fn dcf_form_decodable(pairs: Seq<(String, String)>) -> bool {
    &&& lookup(pairs, "fcf"@) is Some
    &&& lookup(pairs, "growth"@) is Some
    &&& lookup(pairs, "discount"@) is Some
    &&& lookup(pairs, "terminal"@) is Some
    &&& match lookup(pairs, "years"@) {
        Some(v) => is_numeral(v) && numeral_value(v) <= u32::MAX,
        None => false,
    }
}

/// Decodes the valuation endpoint's five fields. Succeeds exactly when
/// every field is present and the horizon reads as an unsigned
/// integer; each text value is passed through unchanged.
pub fn decode_dcf_form(pairs: &Vec<(String, String)>) -> (r: Result<DcfForm, DecodeError>)
    ensures
        dcf_form_decodable(pairs@) ==> (r matches Ok(f) && f.fcf@ == lookup(pairs@, "fcf"@)->Some_0
            && f.growth@ == lookup(pairs@, "growth"@)->Some_0
            && f.discount@ == lookup(pairs@, "discount"@)->Some_0
            && f.terminal@ == lookup(pairs@, "terminal"@)->Some_0
            && f.years as nat == numeral_value(lookup(pairs@, "years"@)->Some_0)),
        !dcf_form_decodable(pairs@) ==> (r matches Err(e) && e is MalformedInput),
{
    let fcf = match find_value(pairs, "fcf") {
        Some(v) => v.clone(),
        None => { return Err(DecodeError::MalformedInput); },
    };
    let growth = match find_value(pairs, "growth") {
        Some(v) => v.clone(),
        None => { return Err(DecodeError::MalformedInput); },
    };
    let discount = match find_value(pairs, "discount") {
        Some(v) => v.clone(),
        None => { return Err(DecodeError::MalformedInput); },
    };
    let terminal = match find_value(pairs, "terminal") {
        Some(v) => v.clone(),
        None => { return Err(DecodeError::MalformedInput); },
    };
    let years_text = match find_value(pairs, "years") {
        Some(v) => v,
        None => { return Err(DecodeError::MalformedInput); },
    };
    let years = match parse_u64(years_text.as_str()) {
        Some(y) => {
            if y > 0xffff_ffff {
                return Err(DecodeError::MalformedInput);
            }
            y as u32
        },
        None => { return Err(DecodeError::MalformedInput); },
    };
    Ok(DcfForm { fcf, growth, discount, terminal, years })
}

} // verus!
