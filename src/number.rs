//! Decimal generation numbers in directory names and pointer files.

use vstd::prelude::*;
use vstd::string::*;
use crate::error::GenError;

verus! {

/// What `str::trim` leaves of a string.
pub uninterp spec fn trim_of(s: Seq<char>) -> Seq<char>;

/// Relies on `str::trim`: the string without leading and trailing white space.
#[verifier::external_body]
fn trim(s: &str) -> (r: &str)
    ensures
        r@ == trim_of(s@),
{
    s.trim()
}

/// Whether `c` is an ASCII decimal digit.
pub open spec fn is_digit(c: char) -> bool {
    '0' <= c && c <= '9'
}

/// Whether `s` is a non-empty run of decimal digits.
pub open spec fn is_digits(s: Seq<char>) -> bool {
    s.len() > 0 && forall|i: int| 0 <= i < s.len() ==> is_digit(s[i])
}

/// The value of a run of decimal digits.
pub open spec fn digits_value(s: Seq<char>) -> nat
    decreases s.len(),
{
    if s.len() == 0 {
        0
    } else {
        digits_value(s.drop_last()) * 10 + (s.last() as nat - '0' as nat) as nat
    }
}

/// The number that `s` spells as a `usize`: decimal digits, with an optional
/// leading `+`, whose value fits.
pub open spec fn parse_usize_spec(s: Seq<char>) -> Option<usize> {
    let t = if s.len() > 0 && s[0] == '+' {
        s.drop_first()
    } else {
        s
    };
    if is_digits(t) && digits_value(t) <= usize::MAX {
        Some(digits_value(t) as usize)
    } else {
        None
    }
}

/// Whether `s` is the decimal form of `n` as `usize::to_string` writes it:
/// digits without a leading zero (but for zero itself) whose value is `n`.
pub open spec fn is_decimal_of(s: Seq<char>, n: nat) -> bool {
    is_digits(s) && (s.len() == 1 || s[0] != '0') && digits_value(s) == n
}

proof fn lemma_digits_grow(s: Seq<char>, k: int)
    requires
        0 <= k <= s.len(),
        is_digits(s),
    ensures
        digits_value(s.take(k)) <= digits_value(s),
    decreases s.len() - k,
{
    if k < s.len() {
        lemma_digits_grow(s, k + 1);
        let t = s.take(k + 1);
        assert(t.drop_last() =~= s.take(k));
        assert(is_digit(s[k]));
        assert(digits_value(t) == digits_value(s.take(k)) * 10 + (t.last() as nat - '0' as nat) as nat);
    } else {
        assert(s.take(k) =~= s);
    }
}

/// The value of the decimal digits of `s`, or `None` where `s` is not an
/// optional `+` followed by digits whose value fits in a `usize`.
pub fn parse_usize(s: &str) -> (r: Option<usize>)
    ensures
        r == parse_usize_spec(s@),
{
    let n = s.unicode_len();
    let mut start: usize = 0;
    if n > 0 && s.get_char(0) == '+' {
        start = 1;
    }
    let ghost t = if s@.len() > 0 && s@[0] == '+' {
        s@.drop_first()
    } else {
        s@
    };
    if start >= n {
        return None;
    }
    assert(t =~= s@.subrange(start as int, n as int));
    let mut value: usize = 0;
    let mut i: usize = start;
    while i < n
        invariant
            n == s@.len(),
            start <= i <= n,
            start < n,
            start == 0 || start == 1,
            start == 1 <==> (s@.len() > 0 && s@[0] == '+'),
            t == (if s@.len() > 0 && s@[0] == '+' {
                s@.drop_first()
            } else {
                s@
            }),
            t == s@.subrange(start as int, n as int),
            forall|j: int| 0 <= j < i - start ==> is_digit(t[j]),
            value == digits_value(t.take(i - start)),
        decreases n - i,
    {
        let c = s.get_char(i);
        let ghost k = i - start;
        assert(c == t[k]);
        if c < '0' || c > '9' {
            assert(!is_digit(t[k]));
            assert(!is_digits(t));
            return None;
        }
        let d = (c as u32 - '0' as u32) as usize;
        proof {
            let u = t.take(k + 1);
            assert(u.drop_last() =~= t.take(k));
            assert(u.last() == c);
        }
        if value > (usize::MAX - d) / 10 {
            return overflow_or_bad(s, start, i, value, d);
        }
        assert(value * 10 + d <= usize::MAX) by (nonlinear_arith)
            requires
                value <= (usize::MAX - d) / 10,
                d <= 9,
        ;
        value = value * 10 + d;
        i = i + 1;
    }
    assert(t.take(n - start) =~= t);
    Some(value)
}

fn overflow_or_bad(s: &str, start: usize, i: usize, value: usize, d: usize) -> (r: Option<usize>)
    requires
        start <= i < s@.len(),
        value > (usize::MAX - d) / 10,
        d as nat == (s@[i as int] as nat - '0' as nat) as nat,
        is_digit(s@[i as int]),
        value == digits_value(s@.subrange(start as int, s@.len() as int).take(i - start)),
        start == 0 || start == 1,
        start == 1 <==> (s@.len() > 0 && s@[0] == '+'),
    ensures
        r == parse_usize_spec(s@),
{
    let ghost t = s@.subrange(start as int, s@.len() as int);
    proof {
        if start == 1 {
            assert(t =~= s@.drop_first());
        } else {
            assert(t =~= s@);
        }
        let k = i - start;
        let u = t.take(k + 1);
        assert(u.drop_last() =~= t.take(k));
        assert(u.last() == s@[i as int]);
        assert(digits_value(u) == value * 10 + d);
        assert(value * 10 + d > usize::MAX) by (nonlinear_arith)
            requires
                value > (usize::MAX - d) / 10,
                d <= 9,
        ;
        if is_digits(t) {
            lemma_digits_grow(t, k + 1);
        }
    }
    None
}

/// The generation number that a directory name or pointer file spells,
/// white space around it ignored.
pub fn usize_from_gen_name(name: &str) -> (r: Result<usize, GenError>)
    ensures
        r == match parse_usize_spec(trim_of(name@)) {
            Some(v) => Ok::<usize, GenError>(v),
            None => Err(GenError::InvalidNumber),
        },
{
    match parse_usize(trim(name)) {
        Some(v) => Ok(v),
        None => Err(GenError::InvalidNumber),
    }
}

/// The generation numbers of a listing of generation names; fails where
/// any name is not a number.
pub fn list_gen_nums(names: &Vec<String>) -> (r: Result<Vec<usize>, GenError>)
    ensures
        match r {
            Ok(nums) => nums@.len() == names@.len() && forall|i: int|
                0 <= i < names@.len() ==> parse_usize_spec(trim_of(names@[i]@)) == Some(nums@[i]),
            Err(e) => e == GenError::InvalidNumber && exists|i: int|
                0 <= i < names@.len() && parse_usize_spec(trim_of(names@[i]@)) is None,
        },
{
    let mut nums: Vec<usize> = Vec::new();
    let mut i: usize = 0;
    while i < names.len()
        invariant
            i <= names@.len(),
            nums@.len() == i,
            forall|j: int| 0 <= j < i ==> parse_usize_spec(trim_of(names@[j]@)) == Some(nums@[j]),
        decreases names.len() - i,
    {
        match usize_from_gen_name(names[i].as_str()) {
            Ok(v) => nums.push(v),
            Err(e) => {
                return Err(e);
            },
        }
        i = i + 1;
    }
    Ok(nums)
}

/// Whether `name` is the decimal form of `n`, as a generation's directory
/// is named.
pub fn names_generation(name: &str, n: usize) -> (r: bool)
    ensures
        r == is_decimal_of(name@, n as nat),
{
    let len = name.unicode_len();
    if len == 0 {
        return false;
    }
    if len > 1 && name.get_char(0) == '0' {
        return false;
    }
    if name.get_char(0) == '+' {
        return false;
    }
    match parse_usize(name) {
        Some(v) => v == n,
        None => {
            proof {
                if is_digits(name@) && digits_value(name@) == n as nat {
                    assert(parse_usize_spec(name@) == Some(n));
                }
            }
            false
        },
    }
}

} // verus!
