//! Building `String`s character by character, and decimal numerals.
use vstd::prelude::*;

verus! {

/// The decimal digit character for `d` (0 <= d < 10).
pub open spec fn decimal_digit(d: nat) -> char {
    ((d + 48) as u8) as char
}

/// The decimal numeral of `n`, without leading zeros.
pub open spec fn decimal(n: nat) -> Seq<char>
    decreases n,
{
    if n < 10 {
        seq![decimal_digit(n)]
    } else {
        decimal(n / 10).push(decimal_digit(n % 10))
    }
}

/// Relies on `String::push`: the character is appended at the end.
#[verifier::external_body]
pub(crate) fn push_char(s: &mut String, c: char)
    ensures
        final(s)@ == old(s)@.push(c),
{
    s.push(c)
}

/// Appends the characters of `cs`, first to last.
pub(crate) fn push_chars(s: &mut String, cs: &Vec<char>)
    ensures
        final(s)@ == old(s)@ + cs@,
{
    let ghost start = s@;
    let mut i: usize = 0;
    while i < cs.len()
        invariant
            i <= cs.len(),
            s@ == start + cs@.take(i as int),
        decreases cs.len() - i,
    {
        push_char(s, cs[i]);
        i += 1;
        assert(cs@.take(i as int) =~= cs@.take(i - 1).push(cs@[i - 1]));
    }
    assert(cs@.take(i as int) =~= cs@);
}

/// Appends the decimal numeral of `n`.
pub(crate) fn push_decimal(s: &mut String, n: usize)
    ensures
        final(s)@ == old(s)@ + decimal(n as nat),
{
    // Digits are found least significant first and written in reverse.
    let mut low_first: Vec<char> = Vec::new();
    let mut rest: usize = n;
    while rest >= 10
        invariant
            decimal(n as nat) == decimal(rest as nat) + low_first@.reverse(),
        decreases rest,
    {
        let d = (rest % 10) as u8;
        let ghost before = low_first@;
        low_first.push((d + 48) as char);
        assert(low_first@.reverse() =~= seq![decimal_digit((rest % 10) as nat)] + before.reverse());
        assert(decimal(rest as nat) == decimal((rest / 10) as nat).push(decimal_digit((rest % 10) as nat)));
        assert(decimal(rest as nat) + before.reverse() =~= decimal((rest / 10) as nat) + low_first@.reverse());
        rest = rest / 10;
    }
    let mut high_first: Vec<char> = Vec::new();
    high_first.push(((rest as u8) + 48) as char);
    let mut i: usize = low_first.len();
    while i > 0
        invariant
            i <= low_first.len(),
            high_first@ == seq![decimal_digit(rest as nat)] + low_first@.reverse().take(
                (low_first.len() - i) as int,
            ),
        decreases i,
    {
        i -= 1;
        high_first.push(low_first[i]);
        assert(low_first@.reverse().take((low_first.len() - i) as int) =~= low_first@.reverse().take(
            (low_first.len() - i - 1) as int,
        ).push(low_first@[i as int]));
    }
    assert(low_first@.reverse().take(low_first.len() as int) =~= low_first@.reverse());
    assert(decimal(rest as nat) == seq![decimal_digit(rest as nat)]);
    push_chars(s, &high_first);
}

} // verus!
