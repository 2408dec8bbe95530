//! Grid sizes written as text, `<width>x<height>`, and the sizes that take
//! their place when none is given.

use vstd::prelude::*;

verus! {

/// What stands between the width and the height.
pub const SEPARATOR: char = 'x';

/// The width of a window when no size is asked for.
pub const WINDOW_WIDTH: usize = 1024;

/// The height of a window when no size is asked for.
pub const WINDOW_HEIGHT: usize = 768;

/// The width assumed of a terminal that does not tell its size.
pub const TERMINAL_WIDTH: usize = 80;

/// The height assumed of a terminal that does not tell its size.
pub const TERMINAL_HEIGHT: usize = 24;

/// Whether `c` is one of the ten decimal digits.
pub open spec fn is_digit(c: char) -> bool {
    '0' <= c <= '9'
}

/// What a decimal digit stands for.
pub open spec fn digit_value(c: char) -> nat {
    (c as int - '0' as int) as nat
}

/// Whether `s` holds decimal digits and nothing else.
pub open spec fn all_digits(s: Seq<char>) -> bool {
    forall|i: int| 0 <= i < s.len() ==> is_digit(#[trigger] s[i])
}

/// The number that a run of decimal digits stands for, the most significant
/// digit first.
pub open spec fn decimal(digits: Seq<char>) -> nat
    decreases digits.len(),
{
    if digits.len() == 0 {
        0
    } else {
        10 * decimal(digits.drop_last()) + digit_value(digits.last())
    }
}

/// A number as text without the `+` that may stand before its digits.
pub open spec fn unsigned(s: Seq<char>) -> Seq<char> {
    if s.len() > 0 && s[0] == '+' {
        s.drop_first()
    } else {
        s
    }
}

/// The number that `s` stands for: at least one decimal digit, with or
/// without a `+` before them, of a value that the machine can hold.
pub open spec fn number(s: Seq<char>) -> Option<usize> {
    let digits = unsigned(s);
    if digits.len() > 0 && all_digits(digits) && decimal(digits) <= usize::MAX {
        Some(decimal(digits) as usize)
    } else {
        None
    }
}

/// Whether `s` holds exactly one separator, at position `k`.
pub open spec fn sole_separator(s: Seq<char>, k: int) -> bool {
    &&& 0 <= k < s.len()
    &&& forall|i: int| 0 <= i < s.len() ==> (#[trigger] s[i] == SEPARATOR <==> i == k)
}

/// The size that `s` stands for: a number, one separator and another number,
/// and nothing else.
pub open spec fn size_of(s: Seq<char>) -> Option<(usize, usize)> {
    if exists|k: int| sole_separator(s, k) {
        let k = choose|k: int| sole_separator(s, k);
        match (number(s.take(k)), number(s.skip(k + 1))) {
            (Some(w), Some(h)) => Some((w, h)),
            _ => None,
        }
    } else {
        None
    }
}

/// The size that is asked for, if one is and it can be read, else `fallback`.
pub open spec fn size_or(size: Option<&str>, fallback: (usize, usize)) -> (usize, usize) {
    match size {
        Some(s) => match size_of(s@) {
            Some(asked) => asked,
            None => fallback,
        },
        None => fallback,
    }
}

/// What a terminal's size is taken to be: what it tells, else 80 by 24.
pub open spec fn terminal_or_default(detected: Option<(usize, usize)>) -> (usize, usize) {
    match detected {
        Some(size) => size,
        None => (TERMINAL_WIDTH, TERMINAL_HEIGHT),
    }
}

/// A run of digits stands for no less than any of its beginnings.
pub proof fn lemma_decimal_grows(digits: Seq<char>, n: int)
    requires
        0 <= n <= digits.len(),
    ensures
        decimal(digits.take(n)) <= decimal(digits),
    decreases digits.len(),
{
    if n == digits.len() {
        assert(digits.take(n) =~= digits);
    } else {
        lemma_decimal_grows(digits.drop_last(), n);
        assert(digits.drop_last().take(n) =~= digits.take(n));
    }
}

/// The characters of a string, in order.
fn chars_of(s: &str) -> (v: Vec<char>)
    ensures
        v@ == s@,
{
    let mut v: Vec<char> = Vec::new();
    for c in it: s.chars()
        invariant
            it.seq() == s@,
            v@ == it.seq().take(it.index()),
    {
        v.push(c);
    }
    v
}

/// The position of the first separator at or after `from`, or the length of
/// `chars` if there is none.
fn find_separator(chars: &Vec<char>, from: usize) -> (k: usize)
    requires
        from <= chars.len(),
    ensures
        from <= k <= chars.len(),
        forall|i: int| from <= i < k ==> chars@[i] != SEPARATOR,
        k < chars.len() ==> chars@[k as int] == SEPARATOR,
{
    let mut k: usize = from;
    while k < chars.len() && chars[k] != SEPARATOR
        invariant
            from <= k <= chars.len(),
            forall|i: int| from <= i < k ==> chars@[i] != SEPARATOR,
        decreases chars.len() - k,
    {
        k += 1;
    }
    k
}

/// Reads the characters of `chars` from `from` up to `to` as a number.
fn parse_number(chars: &Vec<char>, from: usize, to: usize) -> (r: Option<usize>)
    requires
        from <= to <= chars.len(),
    ensures
        r == number(chars@.subrange(from as int, to as int)),
{
    let ghost text: Seq<char> = chars@.subrange(from as int, to as int);
    let mut i: usize = from;
    if i < to && chars[i] == '+' {
        i += 1;
    }
    let start: usize = i;
    let ghost digits: Seq<char> = chars@.subrange(start as int, to as int);
    assert(digits =~= unsigned(text));
    if start == to {
        return None;
    }
    let mut value: usize = 0;
    while i < to
        invariant
            from <= start <= i <= to <= chars.len(),
            digits == chars@.subrange(start as int, to as int),
            digits == unsigned(chars@.subrange(from as int, to as int)),
            all_digits(digits.take(i - start)),
            value == decimal(digits.take(i - start)),
        decreases to - i,
    {
        let c: char = chars[i];
        if c < '0' || c > '9' {
            assert(!is_digit(digits[i - start]));
            return None;
        }
        let digit: usize = (c as u32 - '0' as u32) as usize;
        proof {
            lemma_decimal_grows(digits, i - start + 1);
            assert(digits.take(i - start + 1).drop_last() =~= digits.take(i - start));
        }
        let tens: usize = match value.checked_mul(10) {
            Some(tens) => tens,
            None => {
                return None;
            },
        };
        value = match tens.checked_add(digit) {
            Some(sum) => sum,
            None => {
                return None;
            },
        };
        i += 1;
    }
    assert(digits.take(to - start) =~= digits);
    Some(value)
}

/// Reads a size written as `<width>x<height>`.
fn parse_size_str(size: &str) -> (r: Option<(usize, usize)>)
    ensures
        r == size_of(size@),
{
    let chars: Vec<char> = chars_of(size);
    let n: usize = chars.len();
    let k: usize = find_separator(&chars, 0);
    if k == n {
        assert forall|j: int| !sole_separator(chars@, j) by {
            if 0 <= j < n {
                assert(chars@[j] != SEPARATOR);
            }
        }
        return None;
    }
    let second: usize = find_separator(&chars, k + 1);
    if second != n {
        assert forall|j: int| !sole_separator(chars@, j) by {
            assert(chars@[k as int] == SEPARATOR && chars@[second as int] == SEPARATOR);
        }
        return None;
    }
    assert(sole_separator(chars@, k as int));
    assert(chars@.take(k as int) =~= chars@.subrange(0, k as int));
    assert(chars@.skip(k + 1) =~= chars@.subrange(k + 1, n as int));
    match (parse_number(&chars, 0, k), parse_number(&chars, k + 1, n)) {
        (Some(w), Some(h)) => Some((w, h)),
        _ => None,
    }
}

/// Reads a size written as `<width>x<height>`: two numbers in decimal, each
/// with or without a `+` before it, and one `x` between them. Anything else
/// is no size.
pub fn parse_size(size: &String) -> (r: Option<(usize, usize)>)
    ensures
        r == size_of(size@),
{
    parse_size_str(size.as_str())
}

/// The size that is asked for, if one is and it can be read, else `fallback`.
pub fn requested_size(size: Option<&str>, fallback: (usize, usize)) -> (r: (usize, usize))
    ensures
        r == size_or(size, fallback),
{
    match size {
        Some(s) => match parse_size_str(s) {
            Some(asked) => asked,
            None => fallback,
        },
        None => fallback,
    }
}

/// The size of the window: what is asked for, else 1024 by 768.
pub fn window_size(size: Option<&str>) -> (r: (usize, usize))
    ensures
        r == size_or(size, (WINDOW_WIDTH, WINDOW_HEIGHT)),
{
    requested_size(size, (WINDOW_WIDTH, WINDOW_HEIGHT))
}

/// The size of the terminal that the process writes to, as
/// `term_size::dimensions` finds it. Whether it finds one, and which, is up
/// to the terminal: nothing is claimed of the outcome.
#[verifier::external_body]
fn terminal_dimensions() -> Option<(usize, usize)> {
    term_size::dimensions()
}

/// The size of a grid shown in a terminal of which `detected` is known: what
/// is asked for, else what the terminal tells, else 80 by 24.
pub fn terminal_size_for(size: Option<&str>, detected: Option<(usize, usize)>) -> (r: (
    usize,
    usize,
))
    ensures
        r == size_or(size, terminal_or_default(detected)),
{
    let fallback: (usize, usize) = match detected {
        Some(found) => found,
        None => (TERMINAL_WIDTH, TERMINAL_HEIGHT),
    };
    requested_size(size, fallback)
}

/// The size of a grid shown in the terminal that the process writes to: what
/// is asked for, else what the terminal tells, else 80 by 24.
pub fn terminal_size(size: Option<&str>) -> (r: (usize, usize))
    ensures
        exists|detected: Option<(usize, usize)>|
            r == #[trigger] size_or(size, terminal_or_default(detected)),
{
    let detected: Option<(usize, usize)> = terminal_dimensions();
    terminal_size_for(size, detected)
}

} // verus!
