//! The 58-symbol alphabet and its inverse.
//!
//! Digit values run from 0 to 57 in the order
//! `123456789ABCDEFGHJKLMNPQRSTUVWXYZabcdefghijkmnopqrstuvwxyz`:
//! the digits and letters without `0`, `O`, `I` and `l`.
use vstd::prelude::*;

verus! {

/// Number of symbols, and so the base of the numeral system.
pub const BASE: u8 = 58;

/// Whether `c` is one of the 58 symbols.
pub open spec fn is_symbol(c: char) -> bool {
    ||| '1' <= c <= '9'
    ||| 'A' <= c <= 'H'
    ||| 'J' <= c <= 'N'
    ||| 'P' <= c <= 'Z'
    ||| 'a' <= c <= 'k'
    ||| 'm' <= c <= 'z'
}

/// The digit value of a symbol (meaningful only where `is_symbol(c)`).
pub open spec fn digit(c: char) -> nat {
    if '1' <= c <= '9' {
        (c as int - '1' as int) as nat
    } else if 'A' <= c <= 'H' {
        (c as int - 'A' as int + 9) as nat
    } else if 'J' <= c <= 'N' {
        (c as int - 'J' as int + 17) as nat
    } else if 'P' <= c <= 'Z' {
        (c as int - 'P' as int + 22) as nat
    } else if 'a' <= c <= 'k' {
        (c as int - 'a' as int + 33) as nat
    } else if 'm' <= c <= 'z' {
        (c as int - 'm' as int + 44) as nat
    } else {
        0
    }
}

/// The ASCII code of the symbol for digit value `d` (0 <= d < 58).
pub open spec fn symbol_code(d: nat) -> u8 {
    if d < 9 {
        (d + 49) as u8
    } else if d < 17 {
        (d - 9 + 65) as u8
    } else if d < 22 {
        (d - 17 + 74) as u8
    } else if d < 33 {
        (d - 22 + 80) as u8
    } else if d < 44 {
        (d - 33 + 97) as u8
    } else {
        (d - 44 + 109) as u8
    }
}

/// The symbol for digit value `d` (0 <= d < 58).
pub open spec fn symbol(d: nat) -> char {
    symbol_code(d) as char
}

/// Symbols and digit values are inverse to each other.
pub proof fn lemma_symbol_digit(d: nat)
    requires
        d < 58,
    ensures
        is_symbol(symbol(d)),
        digit(symbol(d)) == d,
{
}

/// Every symbol has a digit value below the base, and is the symbol of it.
pub proof fn lemma_digit_symbol(c: char)
    requires
        is_symbol(c),
    ensures
        digit(c) < 58,
        symbol(digit(c)) == c,
{
}

/// The look-alike characters `0`, `O`, `I`, `l` and every character outside
/// ASCII are not symbols.
pub proof fn lemma_excluded_characters(c: char)
    ensures
        !is_symbol('0') && !is_symbol('O') && !is_symbol('I') && !is_symbol('l'),
        (c as u32) >= 128 ==> !is_symbol(c),
{
}

/// The symbol for digit value `d`.
pub fn symbol_of(d: u8) -> (c: char)
    requires
        d < BASE,
    ensures
        c == symbol(d as nat),
{
    let code: u8 = if d < 9 {
        d + 49
    } else if d < 17 {
        d - 9 + 65
    } else if d < 22 {
        d - 17 + 74
    } else if d < 33 {
        d - 22 + 80
    } else if d < 44 {
        d - 33 + 97
    } else {
        d - 44 + 109
    };
    code as char
}

/// Entry of the reverse table for bytes that are not symbols.
pub const INVALID: u8 = 255;

/// The reverse-table entry for byte `b`: its digit value where `b` is the
/// code of a symbol, `INVALID` elsewhere.
pub open spec fn table_entry(b: int) -> u8 {
    if is_symbol((b as u8) as char) {
        digit((b as u8) as char) as u8
    } else {
        INVALID
    }
}

/// The reverse table: one entry for each byte value.
pub struct ReverseTable {
    entries: [u8; 256],
}

impl ReverseTable {
    /// Whether every entry is the one `table_entry` gives.
    pub closed spec fn wf(&self) -> bool {
        forall|b: int| 0 <= b < 256 ==> #[trigger] self.entries[b] == table_entry(b)
    }

    /// Builds the table from the alphabet.
    pub fn new() -> (t: ReverseTable)
        ensures
            t.wf(),
    {
        let mut entries = [INVALID; 256];
        let mut d: u8 = 0;
        while d < BASE
            invariant
                d <= BASE,
                forall|b: int|
                    0 <= b < 256 ==> #[trigger] entries[b] == (if is_symbol((b as u8) as char)
                        && digit((b as u8) as char) < d {
                        digit((b as u8) as char) as u8
                    } else {
                        INVALID
                    }),
            decreases BASE - d,
        {
            let c = symbol_of(d);
            let code = c as u32 as usize;
            proof {
                lemma_symbol_digit(d as nat);
            }
            entries[code] = d;
            assert forall|b: int| 0 <= b < 256 implies #[trigger] entries[b] == (if is_symbol(
                (b as u8) as char,
            ) && digit((b as u8) as char) < d + 1 {
                digit((b as u8) as char) as u8
            } else {
                INVALID
            }) by {
                let x = (b as u8) as char;
                if b != code && is_symbol(x) && digit(x) == d {
                    lemma_digit_symbol(x);
                }
            }
            d += 1;
        }
        ReverseTable { entries }
    }

    /// The digit value of `c`, or `None` when `c` is not a symbol (every
    /// character outside ASCII included).
    pub fn digit_of(&self, c: char) -> (r: Option<u8>)
        requires
            self.wf(),
        ensures
            r == (if is_symbol(c) {
                Some(digit(c) as u8)
            } else {
                None::<u8>
            }),
    {
        let code = c as u32;
        if code >= 128 {
            return None;
        }
        let v = self.entries[code as usize];
        assert((code as u8) as char == c);
        if v == INVALID {
            None
        } else {
            Some(v)
        }
    }
}

} // verus!
