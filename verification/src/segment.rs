//! Naming of segment files within a recording session.
//!
//! The segments of a session are numbered from zero in the order in which
//! they begin. A segment's file is named by its number in decimal, padded
//! with leading zeros to six characters, and lies directly in the session
//! directory.

use vstd::prelude::*;
use vstd::string::*;

verus! {

/// Least number of characters in a segment's file name.
pub const NAME_WIDTH: usize = 6;

/// The character that writes the decimal digit `d`.
pub open spec fn digit_char(d: nat) -> char {
    if d == 0 {
        '0'
    } else if d == 1 {
        '1'
    } else if d == 2 {
        '2'
    } else if d == 3 {
        '3'
    } else if d == 4 {
        '4'
    } else if d == 5 {
        '5'
    } else if d == 6 {
        '6'
    } else if d == 7 {
        '7'
    } else if d == 8 {
        '8'
    } else {
        '9'
    }
}

/// The decimal digit that `c` writes; zero for any other character.
pub open spec fn digit_value(c: char) -> nat {
    if c == '1' {
        1
    } else if c == '2' {
        2
    } else if c == '3' {
        3
    } else if c == '4' {
        4
    } else if c == '5' {
        5
    } else if c == '6' {
        6
    } else if c == '7' {
        7
    } else if c == '8' {
        8
    } else if c == '9' {
        9
    } else {
        0
    }
}

/// `n` in decimal, without leading zeros.
pub open spec fn decimal_digits(n: nat) -> Seq<char>
    decreases n,
{
    if n < 10 {
        seq![digit_char(n)]
    } else {
        decimal_digits(n / 10).push(digit_char(n % 10))
    }
}

/// The number that a string of decimal digits writes.
pub open spec fn decimal_value(digits: Seq<char>) -> nat
    decreases digits.len(),
{
    if digits.len() == 0 {
        0
    } else {
        decimal_value(digits.drop_last()) * 10 + digit_value(digits.last())
    }
}

/// `count` zero characters.
pub open spec fn zeros(count: nat) -> Seq<char> {
    Seq::new(count, |i: int| '0')
}

/// The file name of segment `index`: its decimal digits, with leading zeros
/// up to six characters.
pub open spec fn segment_name(index: nat) -> Seq<char> {
    let digits = decimal_digits(index);
    if digits.len() >= NAME_WIDTH {
        digits
    } else {
        zeros((NAME_WIDTH - digits.len()) as nat) + digits
    }
}

/// The destination of segment `index` in the session directory `dir`.
pub open spec fn segment_path(dir: Seq<char>, index: nat) -> Seq<char> {
    dir + seq!['/'] + segment_name(index)
}

fn digit_str(d: u64) -> (s: &'static str)
    requires
        d < 10,
    ensures
        s@ == seq![digit_char(d as nat)],
{
    proof {
        reveal_strlit("0");
        reveal_strlit("1");
        reveal_strlit("2");
        reveal_strlit("3");
        reveal_strlit("4");
        reveal_strlit("5");
        reveal_strlit("6");
        reveal_strlit("7");
        reveal_strlit("8");
        reveal_strlit("9");
    }
    let s = if d == 0 {
        "0"
    } else if d == 1 {
        "1"
    } else if d == 2 {
        "2"
    } else if d == 3 {
        "3"
    } else if d == 4 {
        "4"
    } else if d == 5 {
        "5"
    } else if d == 6 {
        "6"
    } else if d == 7 {
        "7"
    } else if d == 8 {
        "8"
    } else {
        "9"
    };
    assert(s@ =~= seq![digit_char(d as nat)]);
    s
}

fn decimal_len(n: u64) -> (count: usize)
    ensures
        count == decimal_digits(n as nat).len(),
        1 <= count <= 20,
    decreases n,
{
    if n < 10 {
        1
    } else {
        proof {
            lemma_decimal_len_bound(n as nat);
        }
        decimal_len(n / 10) + 1
    }
}

proof fn lemma_decimal_len_bound(n: nat)
    requires
        n <= u64::MAX,
    ensures
        1 <= decimal_digits(n).len() <= 20,
{
    reveal_with_fuel(decimal_digits, 21);
}

fn append_decimal(text: &mut String, n: u64)
    ensures
        final(text)@ == old(text)@ + decimal_digits(n as nat),
    decreases n,
{
    if n >= 10 {
        append_decimal(text, n / 10);
    }
    text.append(digit_str(n % 10));
    proof {
        assert(final(text)@ =~= old(text)@ + decimal_digits(n as nat));
    }
}

/// Builds the file name of segment `index`.
pub fn segment_file_name(index: u64) -> (name: String)
    ensures
        name@ == segment_name(index as nat),
{
    let count = decimal_len(index);
    let mut name = String::new();
    let mut width: usize = count;
    while width < NAME_WIDTH
        invariant
            count <= width,
            width <= NAME_WIDTH || width == count,
            name@ == zeros((width - count) as nat),
        decreases NAME_WIDTH - width,
    {
        proof {
            reveal_strlit("0");
        }
        name.append("0");
        width += 1;
        proof {
            assert(name@ =~= zeros((width - count) as nat));
        }
    }
    proof {
        assert(zeros(0) + decimal_digits(index as nat) =~= decimal_digits(index as nat));
    }
    append_decimal(&mut name, index);
    name
}

/// Builds the destination of segment `index` in the session directory `dir`.
pub fn segment_file_path(dir: &str, index: u64) -> (path: String)
    ensures
        path@ == segment_path(dir@, index as nat),
{
    let name = segment_file_name(index);
    let mut path = String::from_str(dir);
    proof {
        reveal_strlit("/");
    }
    path.append("/");
    path.append(name.as_str());
    proof {
        assert("/"@ =~= seq!['/']);
    }
    path
}

proof fn lemma_zeros_value(count: nat)
    ensures
        decimal_value(zeros(count)) == 0,
    decreases count,
{
    if count > 0 {
        assert(zeros(count).drop_last() =~= zeros((count - 1) as nat));
        lemma_zeros_value((count - 1) as nat);
    }
}

proof fn lemma_padded_value(count: nat, n: nat)
    ensures
        decimal_value(zeros(count) + decimal_digits(n)) == n,
    decreases n,
{
    let padded = zeros(count) + decimal_digits(n);
    if n < 10 {
        assert(padded.drop_last() =~= zeros(count));
        lemma_zeros_value(count);
    } else {
        assert(padded.drop_last() =~= zeros(count) + decimal_digits(n / 10));
        lemma_padded_value(count, n / 10);
    }
}

/// A segment's file name, read as a decimal number, is the segment's index.
pub proof fn lemma_segment_name_value(index: nat)
    ensures
        decimal_value(segment_name(index)) == index,
        segment_name(index).len() >= NAME_WIDTH,
{
    lemma_padded_value(0, index);
    assert(zeros(0) + decimal_digits(index) =~= decimal_digits(index));
    let digits = decimal_digits(index);
    if digits.len() < NAME_WIDTH {
        lemma_padded_value((NAME_WIDTH - digits.len()) as nat, index);
    }
}

/// No file name is used for two segments.
pub proof fn lemma_segment_names_distinct(first: nat, second: nat)
    requires
        first != second,
    ensures
        segment_name(first) != segment_name(second),
{
    lemma_segment_name_value(first);
    lemma_segment_name_value(second);
}

/// Within one session directory no destination is used for two segments.
pub proof fn lemma_segment_paths_distinct(dir: Seq<char>, first: nat, second: nat)
    requires
        first != second,
    ensures
        segment_path(dir, first) != segment_path(dir, second),
{
    lemma_segment_names_distinct(first, second);
    let a = segment_path(dir, first);
    let b = segment_path(dir, second);
    let start = dir.len() + 1;
    assert(a.subrange(start as int, a.len() as int) =~= segment_name(first));
    assert(b.subrange(start as int, b.len() as int) =~= segment_name(second));
}

} // verus!
