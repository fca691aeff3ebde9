//! Time-point arguments of the form `timeline=value`, such as
//! `--time_sequence sim_frame=42`.
use vstd::prelude::*;
use crate::text::{chars_of, push_char};

verus! {

broadcast use vstd::string::group_string_axioms;

/// Index of the first occurrence of `c` in `s`, or `-1`.
pub open spec fn first_index_of(s: Seq<char>, c: char) -> int
    decreases s.len(),
{
    if s.len() == 0 {
        -1
    } else if s[0] == c {
        0
    } else {
        let k = first_index_of(s.drop_first(), c);
        if k < 0 {
            -1
        } else {
            k + 1
        }
    }
}

/// The text before and after the first `c`, if `c` occurs (`str::split_once`).
pub open spec fn spec_split_once(s: Seq<char>, c: char) -> Option<(Seq<char>, Seq<char>)> {
    let k = first_index_of(s, c);
    if k < 0 {
        None
    } else {
        Some((s.subrange(0, k), s.subrange(k + 1, s.len() as int)))
    }
}

pub open spec fn is_first_index(s: Seq<char>, c: char, k: int) -> bool {
    &&& -1 <= k < s.len()
    &&& k >= 0 ==> s[k] == c
    &&& forall|j: int| 0 <= j < s.len() && (k < 0 || j < k) ==> s[j] != c
}

proof fn lemma_first_index_of(s: Seq<char>, c: char, k: int)
    requires
        is_first_index(s, c, k),
    ensures
        first_index_of(s, c) == k,
    decreases s.len(),
{
    if s.len() > 0 && s[0] != c {
        let t = s.drop_first();
        let k2 = if k < 0 { -1 } else { k - 1 };
        assert forall|j: int| 0 <= j < t.len() && (k2 < 0 || j < k2) implies t[j] != c by {
            assert(t[j] == s[j + 1]);
        }
        lemma_first_index_of(t, c, k2);
    }
}

fn string_of(cs: &Vec<char>, a: usize, b: usize) -> (s: String)
    requires
        a <= b <= cs.len(),
    ensures
        s@ == cs@.subrange(a as int, b as int),
{
    let mut s = String::new();
    let mut i: usize = a;
    while i < b
        invariant
            a <= i <= b <= cs.len(),
            s@ == cs@.subrange(a as int, i as int),
        decreases b - i,
    {
        push_char(&mut s, cs[i]);
        assert(cs@.subrange(a as int, i + 1) == cs@.subrange(a as int, i as int).push(cs@[i as int]));
        i = i + 1;
    }
    s
}

/// Splits `s` at its first `c` (`str::split_once`).
pub fn split_once(s: &str, c: char) -> (r: Option<(String, String)>)
    ensures
        match spec_split_once(s@, c) {
            None => r is None,
            Some((x, y)) => r matches Some((a, b)) && a@ == x && b@ == y,
        },
{
    let cs = chars_of(s);
    let mut i: usize = 0;
    while i < cs.len()
        invariant
            i <= cs.len(),
            cs@ == s@,
            forall|j: int| 0 <= j < i ==> cs@[j] != c,
        decreases cs.len() - i,
    {
        if cs[i] == c {
            proof {
                lemma_first_index_of(s@, c, i as int);
            }
            return Some((string_of(&cs, 0, i), string_of(&cs, i + 1, cs.len())));
        }
        i = i + 1;
    }
    proof {
        lemma_first_index_of(s@, c, -1);
    }
    None
}

pub open spec fn is_digit(c: char) -> bool {
    48 <= (c as u32) <= 57
}

pub open spec fn all_digits(s: Seq<char>) -> bool {
    forall|i: int| 0 <= i < s.len() ==> is_digit(#[trigger] s[i])
}

/// The number that a string of decimal digits denotes.
pub open spec fn digits_value(s: Seq<char>) -> nat
    decreases s.len(),
{
    if s.len() == 0 {
        0
    } else {
        digits_value(s.drop_last()) * 10 + ((s.last() as u32) - 48) as nat
    }
}

/// The `i64` that `s` denotes, as `str::parse::<i64>` reads it: an optional
/// `+` or `-`, then one or more decimal digits, within the range of `i64`.
pub open spec fn spec_parse_i64(s: Seq<char>) -> Option<i64> {
    if s.len() == 0 {
        None
    } else {
        let neg = s[0] == '-';
        let digits = if s[0] == '-' || s[0] == '+' {
            s.drop_first()
        } else {
            s
        };
        let v: int = if neg {
            -digits_value(digits)
        } else {
            digits_value(digits) as int
        };
        if digits.len() == 0 || !all_digits(digits) || v < i64::MIN || v > i64::MAX {
            None
        } else {
            Some(v as i64)
        }
    }
}

proof fn lemma_digits_value_grows(s: Seq<char>, i: int)
    requires
        0 <= i <= s.len(),
        all_digits(s),
    ensures
        digits_value(s.take(i)) <= digits_value(s),
    decreases s.len() - i,
{
    if i < s.len() {
        lemma_digits_value_grows(s, i + 1);
        assert(s.take(i + 1).drop_last() == s.take(i));
    } else {
        assert(s.take(i) == s);
    }
}

/// Parses a decimal `i64` (`str::parse::<i64>`).
pub fn parse_i64(s: &str) -> (r: Option<i64>)
    ensures
        r == spec_parse_i64(s@),
{
    let cs = chars_of(s);
    if cs.len() == 0 {
        return None;
    }
    let neg = cs[0] == '-';
    let start: usize = if cs[0] == '-' || cs[0] == '+' {
        1
    } else {
        0
    };
    let ghost digits = if cs@[0] == '-' || cs@[0] == '+' {
        s@.drop_first()
    } else {
        s@
    };
    assert(digits == cs@.subrange(start as int, cs.len() as int));
    if start == cs.len() {
        return None;
    }
    let limit: u64 = 0x8000_0000_0000_0000;
    let mut acc: u64 = 0;
    let mut i: usize = start;
    while i < cs.len()
        invariant
            start <= i <= cs.len(),
            cs@ == s@,
            s@.len() > 0,
            start as int == (if s@[0] == '-' || s@[0] == '+' { 1int } else { 0int }),
            neg == (s@[0] == '-'),
            digits == cs@.subrange(start as int, cs.len() as int),
            all_digits(cs@.subrange(start as int, i as int)),
            acc == digits_value(cs@.subrange(start as int, i as int)),
            acc <= limit,
            limit == 0x8000_0000_0000_0000u64,
        decreases cs.len() - i,
    {
        let c = cs[i];
        let ghost pre = cs@.subrange(start as int, i as int);
        let ghost next = cs@.subrange(start as int, i + 1);
        assert(next.drop_last() == pre);
        let cu: u32 = c as u32;
        if !(48 <= cu && cu <= 57) {
            assert(digits[i - start] == c);
            assert(!is_digit(digits[i - start]));
            return None;
        }
        let d: u64 = (cu - 48) as u64;
        assert(next.last() == c);
        assert(digits_value(next) == acc * 10 + d);
        if acc > (limit - d) / 10 {
            proof {
                assert(acc * 10 + d > limit) by (nonlinear_arith)
                    requires
                        acc > (limit - d) / 10,
                        d <= 9,
                        limit == 0x8000_0000_0000_0000u64,
                ;
                assert(digits_value(next) > limit);
                if all_digits(digits) {
                    assert(digits.take(i + 1 - start) == next);
                    lemma_digits_value_grows(digits, i + 1 - start);
                    assert(digits_value(digits) > limit);
                    let sd = if s@[0] == '-' || s@[0] == '+' {
                        s@.drop_first()
                    } else {
                        s@
                    };
                    assert(sd == digits);
                    let v: int = if s@[0] == '-' {
                        -digits_value(sd)
                    } else {
                        digits_value(sd) as int
                    };
                    assert(v < i64::MIN || v > i64::MAX);
                }
            }
            return None;
        }
        acc = acc * 10 + d;
        i = i + 1;
    }
    assert(cs@.subrange(start as int, i as int) == digits);
    if neg {
        if acc == limit {
            Some(i64::MIN)
        } else {
            Some(-(acc as i64))
        }
    } else {
        if acc == limit {
            None
        } else {
            Some(acc as i64)
        }
    }
}

/// One time-point argument: a timeline and the value on it.
pub struct TimeArg {
    pub timeline: String,
    pub value: i64,
}

/// The time-point arguments that a list of `timeline=value` entries gives:
/// entries without `=` are passed over; the first value that does not parse
/// as an `i64` is the error.
pub open spec fn spec_time_args(entries: Seq<Seq<char>>) -> Result<Seq<(Seq<char>, i64)>, Seq<char>>
    decreases entries.len(),
{
    if entries.len() == 0 {
        Ok(Seq::empty())
    } else {
        match spec_time_args(entries.drop_last()) {
            Err(e) => Err(e),
            Ok(acc) => match spec_split_once(entries.last(), '=') {
                None => Ok(acc),
                Some((name, value)) => match spec_parse_i64(value) {
                    None => Err(value),
                    Some(x) => Ok(acc.push((name, x))),
                },
            },
        }
    }
}

pub open spec fn strings_view(s: Seq<String>) -> Seq<Seq<char>> {
    s.map_values(|x: String| x@)
}

pub open spec fn time_args_view(s: Seq<TimeArg>) -> Seq<(Seq<char>, i64)> {
    s.map_values(|a: TimeArg| (a.timeline@, a.value))
}

/// Reads `timeline=value` entries; on a value that is not an `i64`, returns
/// that value's text.
pub fn time_args(entries: &Vec<String>) -> (r: Result<Vec<TimeArg>, String>)
    ensures
        match spec_time_args(strings_view(entries@)) {
            Ok(v) => r matches Ok(a) && time_args_view(a@) == v,
            Err(e) => r matches Err(t) && t@ == e,
        },
{
    let ghost ev = strings_view(entries@);
    let mut out: Vec<TimeArg> = Vec::new();
    let mut i: usize = 0;
    assert(ev.take(0) == Seq::<Seq<char>>::empty());
    assert(time_args_view(out@) == Seq::<(Seq<char>, i64)>::empty());
    while i < entries.len()
        invariant
            i <= entries.len(),
            ev == strings_view(entries@),
            spec_time_args(ev.take(i as int)) == Ok::<Seq<(Seq<char>, i64)>, Seq<char>>(time_args_view(out@)),
        decreases entries.len() - i,
    {
        assert(ev.take(i + 1).drop_last() == ev.take(i as int));
        assert(ev.take(i + 1).last() == entries@[i as int]@);
        match split_once(entries[i].as_str(), '=') {
            None => {},
            Some((name, value)) => {
                match parse_i64(value.as_str()) {
                    None => {
                        proof {
                            lemma_time_args_err_stays(ev, i + 1, value@);
                        }
                        return Err(value);
                    },
                    Some(x) => {
                        let ghost before = out@;
                        out.push(TimeArg { timeline: name, value: x });
                        assert(time_args_view(out@) == time_args_view(before).push((name@, x)));
                    },
                }
            },
        }
        i = i + 1;
    }
    assert(ev.take(i as int) == ev);
    Ok(out)
}

proof fn lemma_time_args_err_stays(ev: Seq<Seq<char>>, n: int, e: Seq<char>)
    requires
        0 <= n <= ev.len(),
        spec_time_args(ev.take(n)) == Err::<Seq<(Seq<char>, i64)>, Seq<char>>(e),
    ensures
        spec_time_args(ev) == Err::<Seq<(Seq<char>, i64)>, Seq<char>>(e),
    decreases ev.len() - n,
{
    if n < ev.len() {
        assert(ev.take(n + 1).drop_last() == ev.take(n));
        lemma_time_args_err_stays(ev, n + 1, e);
    } else {
        assert(ev.take(n) == ev);
    }
}

/// The time-point arguments of the three lists: sequences, durations in
/// nanoseconds and timestamps in nanoseconds since the epoch.
pub struct TimePointArgs {
    pub sequences: Vec<TimeArg>,
    pub durations: Vec<TimeArg>,
    pub timestamps: Vec<TimeArg>,
}

/// The three lists read in turn; the first value that does not parse, in
/// that order, is the error.
pub open spec fn spec_time_point_args(
    sequences: Seq<Seq<char>>,
    durations: Seq<Seq<char>>,
    timestamps: Seq<Seq<char>>,
) -> Result<(Seq<(Seq<char>, i64)>, Seq<(Seq<char>, i64)>, Seq<(Seq<char>, i64)>), Seq<char>> {
    match spec_time_args(sequences) {
        Err(e) => Err(e),
        Ok(a) => match spec_time_args(durations) {
            Err(e) => Err(e),
            Ok(b) => match spec_time_args(timestamps) {
                Err(e) => Err(e),
                Ok(c) => Ok((a, b, c)),
            },
        },
    }
}

/// Reads the three lists of `timeline=value` entries; on a value that is not
/// an `i64`, returns that value's text.
pub fn time_point_args(sequences: &Vec<String>, durations: &Vec<String>, timestamps: &Vec<String>) -> (r: Result<TimePointArgs, String>)
    ensures
        match spec_time_point_args(strings_view(sequences@), strings_view(durations@), strings_view(timestamps@)) {
            Ok((a, b, c)) => r matches Ok(t) && time_args_view(t.sequences@) == a
                && time_args_view(t.durations@) == b && time_args_view(t.timestamps@) == c,
            Err(e) => r matches Err(x) && x@ == e,
        },
{
    let a = match time_args(sequences) {
        Ok(a) => a,
        Err(e) => {
            return Err(e);
        },
    };
    let b = match time_args(durations) {
        Ok(b) => b,
        Err(e) => {
            return Err(e);
        },
    };
    let c = match time_args(timestamps) {
        Ok(c) => c,
        Err(e) => {
            return Err(e);
        },
    };
    Ok(TimePointArgs { sequences: a, durations: b, timestamps: c })
}

} // verus!
