//! Canonical UUID text (`xxxxxxxx-xxxx-xxxx-xxxx-xxxxxxxxxxxx`) to and from
//! Base58 text.
use vstd::prelude::*;
use crate::codec::{decode, decoded, encode, encoded};
use crate::error::{B58UUIDError, ErrorView};
use crate::text::{decimal, push_char, push_decimal};

verus! {

/// Number of hex digits in UUID text once its hyphens are gone.
pub const UUID_HEX_DIGITS: usize = 32;

/// The characters of `s` other than hyphens, in order.
pub open spec fn without_hyphens(s: Seq<char>) -> Seq<char>
    decreases s.len(),
{
    if s.len() == 0 {
        Seq::empty()
    } else if s.last() == '-' {
        without_hyphens(s.drop_last())
    } else {
        without_hyphens(s.drop_last()).push(s.last())
    }
}

/// Whether `c` is a hex digit, in either case.
pub open spec fn is_hex(c: char) -> bool {
    ||| '0' <= c <= '9'
    ||| 'a' <= c <= 'f'
    ||| 'A' <= c <= 'F'
}

/// The value of the hex digit `c`.
pub open spec fn hex_value(c: char) -> nat {
    if '0' <= c <= '9' {
        (c as int - '0' as int) as nat
    } else if 'a' <= c <= 'f' {
        (c as int - 'a' as int + 10) as nat
    } else if 'A' <= c <= 'F' {
        (c as int - 'A' as int + 10) as nat
    } else {
        0
    }
}

/// Whether the `i`-th two-digit group of `c` is made of hex digits.
pub open spec fn pair_ok(c: Seq<char>, i: int) -> bool {
    is_hex(c[2 * i]) && is_hex(c[2 * i + 1])
}

/// The first group at or after `from` (below 16) that is not hex, or 16.
pub open spec fn first_bad_pair(c: Seq<char>, from: nat) -> nat
    decreases 16 - from,
{
    if from >= 16 {
        16
    } else if !pair_ok(c, from as int) {
        from
    } else {
        first_bad_pair(c, from + 1)
    }
}

/// The 16 bytes that the 32 hex digits `c` spell.
pub open spec fn hex_bytes(c: Seq<char>) -> Seq<u8> {
    Seq::new(16, |i: int| (hex_value(c[2 * i]) * 16 + hex_value(c[2 * i + 1])) as u8)
}

/// Message for a group that is not hex, starting at digit position `pos`.
pub open spec fn bad_hex_message(pos: nat) -> Seq<char> {
    "Invalid hex at position "@ + decimal(pos)
}

/// What encoding the UUID text `s` gives: Base58 text, or the error.
pub open spec fn uuid_encoded(s: Seq<char>) -> Result<Seq<char>, ErrorView> {
    let c = without_hyphens(s);
    if c.len() != UUID_HEX_DIGITS {
        Err(ErrorView::InvalidLength { expected: UUID_HEX_DIGITS as nat, got: c.len() })
    } else if first_bad_pair(c, 0) < 16 {
        Err(ErrorView::InvalidUUID(bad_hex_message(2 * first_bad_pair(c, 0))))
    } else {
        Ok(encoded(hex_bytes(c)))
    }
}

/// The lowercase hex digit for `d` (0 <= d < 16).
pub open spec fn hex_char(d: nat) -> char {
    if d < 10 {
        ((d + 48) as u8) as char
    } else {
        ((d - 10 + 97) as u8) as char
    }
}

/// The two lowercase hex digits of `x`.
pub open spec fn hex_pair(x: u8) -> Seq<char> {
    seq![hex_char(x as nat / 16), hex_char(x as nat % 16)]
}

/// Whether a hyphen comes before byte `i` in UUID text.
pub open spec fn hyphen_before(i: nat) -> bool {
    i == 4 || i == 6 || i == 8 || i == 10
}

/// UUID text of the first `n` bytes of `b`.
pub open spec fn uuid_prefix(b: Seq<u8>, n: nat) -> Seq<char>
    decreases n,
{
    if n == 0 {
        Seq::empty()
    } else {
        let p = uuid_prefix(b, (n - 1) as nat);
        let p = if hyphen_before((n - 1) as nat) {
            p.push('-')
        } else {
            p
        };
        p + hex_pair(b[n - 1])
    }
}

/// Canonical UUID text of the 16 bytes `b`: lowercase, grouped 8-4-4-4-12.
pub open spec fn uuid_text(b: Seq<u8>) -> Seq<char> {
    uuid_prefix(b, 16)
}

/// The mathematical value of a result that carries text.
pub open spec fn text_outcome(r: Result<String, B58UUIDError>) -> Result<Seq<char>, ErrorView> {
    match r {
        Ok(t) => Ok(t@),
        Err(e) => Err(e@),
    }
}

/// The value of a hex digit, in either case, or `None`.
fn hex_digit(c: char) -> (r: Option<u8>)
    ensures
        r == (if is_hex(c) {
            Some(hex_value(c) as u8)
        } else {
            None::<u8>
        }),
{
    let code = c as u32;
    if '0' <= c && c <= '9' {
        Some((code - 48) as u8)
    } else if 'a' <= c && c <= 'f' {
        Some((code - 97 + 10) as u8)
    } else if 'A' <= c && c <= 'F' {
        Some((code - 65 + 10) as u8)
    } else {
        None
    }
}

/// The lowercase hex digit for `d`.
fn hex_digit_char(d: u8) -> (c: char)
    requires
        d < 16,
    ensures
        c == hex_char(d as nat),
{
    if d < 10 {
        (d + 48) as char
    } else {
        (d - 10 + 97) as char
    }
}

proof fn lemma_first_bad_pair(c: Seq<char>, from: nat, p: nat)
    requires
        from <= p <= 16,
        forall|t: int| from <= t < p ==> pair_ok(c, t),
        p == 16 || !pair_ok(c, p as int),
    ensures
        first_bad_pair(c, from) == p,
    decreases p - from,
{
    if from < p {
        lemma_first_bad_pair(c, from + 1, p);
    }
}

/// Encodes UUID text (with or without hyphens, hex digits in either case)
/// as Base58 text.
pub fn encode_uuid(uuid_str: &str) -> (r: Result<String, B58UUIDError>)
    ensures
        text_outcome(r) == uuid_encoded(uuid_str@),
{
    let ghost s = uuid_str@;
    let mut cleaned: Vec<char> = Vec::new();
    for ch in it: uuid_str.chars()
        invariant
            it.seq() == s,
            cleaned@ == without_hyphens(s.take(it.index() as int)),
    {
        assert(s.take(it.index() + 1).drop_last() =~= s.take(it.index() as int));
        if ch != '-' {
            cleaned.push(ch);
        }
    }
    assert(s.take(s.len() as int) =~= s);
    if cleaned.len() != UUID_HEX_DIGITS {
        return Err(B58UUIDError::InvalidLength { expected: UUID_HEX_DIGITS, got: cleaned.len() });
    }
    let ghost c = cleaned@;
    let mut bytes = [0u8; 16];
    let mut i: usize = 0;
    while i < 16
        invariant
            i <= 16,
            c == cleaned@,
            c == without_hyphens(uuid_str@),
            c.len() == 32,
            forall|t: int| 0 <= t < i ==> pair_ok(c, t),
            forall|t: int| 0 <= t < i ==> bytes[t] == hex_bytes(c)[t],
        decreases 16 - i,
    {
        let hi = hex_digit(cleaned[2 * i]);
        let lo = hex_digit(cleaned[2 * i + 1]);
        if hi.is_some() && lo.is_some() {
            bytes[i] = hi.unwrap() * 16 + lo.unwrap();
        } else {
            proof {
                lemma_first_bad_pair(c, 0, i as nat);
            }
            let mut msg = String::from_str("Invalid hex at position ");
            push_decimal(&mut msg, 2 * i);
            return Err(B58UUIDError::InvalidUUID(msg));
        }
        i += 1;
    }
    proof {
        lemma_first_bad_pair(c, 0, 16);
    }
    assert(bytes@ =~= hex_bytes(c));
    Ok(encode(&bytes))
}

/// Decodes Base58 text to canonical lowercase UUID text.
pub fn decode_to_uuid(b58: &str) -> (r: Result<String, B58UUIDError>)
    ensures
        text_outcome(r) == (match decoded(b58@) {
            Ok(b) => Ok(uuid_text(b)),
            Err(e) => Err::<Seq<char>, ErrorView>(e),
        }),
{
    let bytes = match decode(b58) {
        Ok(b) => b,
        Err(e) => return Err(e),
    };
    let mut out = String::new();
    let mut i: usize = 0;
    while i < 16
        invariant
            i <= 16,
            out@ == uuid_prefix(bytes@, i as nat),
        decreases 16 - i,
    {
        if i == 4 || i == 6 || i == 8 || i == 10 {
            push_char(&mut out, '-');
        }
        push_char(&mut out, hex_digit_char(bytes[i] / 16));
        push_char(&mut out, hex_digit_char(bytes[i] % 16));
        i += 1;
        assert(out@ =~= uuid_prefix(bytes@, i as nat));
    }
    Ok(out)
}

/// `c` with an ASCII capital letter made small.
pub open spec fn ascii_lower(c: char) -> char {
    if 'A' <= c <= 'Z' {
        ((c as u32 + 32) as u8) as char
    } else {
        c
    }
}

/// `s` with its ASCII capital letters made small.
pub open spec fn lowered(s: Seq<char>) -> Seq<char> {
    Seq::new(s.len(), |i: int| ascii_lower(s[i]))
}

/// Whether `c` is a lowercase hex digit.
pub open spec fn is_lower_hex(c: char) -> bool {
    '0' <= c <= '9' || 'a' <= c <= 'f'
}

/// Positions of the hyphens in canonical UUID text.
pub open spec fn is_hyphen_position(p: int) -> bool {
    p == 8 || p == 13 || p == 18 || p == 23
}

/// Length of the UUID text of the first `n` bytes.
spec fn prefix_len(n: nat) -> nat {
    2 * n + (if n > 4 {
        1nat
    } else {
        0
    }) + (if n > 6 {
        1nat
    } else {
        0
    }) + (if n > 8 {
        1nat
    } else {
        0
    }) + (if n > 10 {
        1nat
    } else {
        0
    })
}

proof fn lemma_hex_lower(c: char)
    ensures
        is_hex(ascii_lower(c)) == is_hex(c),
        hex_value(ascii_lower(c)) == hex_value(c),
{
}

proof fn lemma_first_bad_pair_same(c: Seq<char>, d: Seq<char>, from: nat)
    requires
        c.len() == 32,
        d.len() == 32,
        forall|t: int| 0 <= t < 16 ==> pair_ok(c, t) == pair_ok(d, t),
    ensures
        first_bad_pair(c, from) == first_bad_pair(d, from),
    decreases 16 - from,
{
    if from < 16 {
        lemma_first_bad_pair_same(c, d, from + 1);
    }
}

proof fn lemma_hex_char(d: nat)
    requires
        d < 16,
    ensures
        is_lower_hex(hex_char(d)),
{
}

proof fn lemma_uuid_prefix_shape(b: Seq<u8>, n: nat)
    requires
        n <= 16,
        b.len() == 16,
    ensures
        uuid_prefix(b, n).len() == prefix_len(n),
        forall|p: int|
            0 <= p < prefix_len(n) ==> (#[trigger] uuid_prefix(b, n)[p] == '-'
                <==> is_hyphen_position(p)),
        forall|p: int|
            0 <= p < prefix_len(n) && !is_hyphen_position(p) ==> is_lower_hex(
                #[trigger] uuid_prefix(b, n)[p],
            ),
    decreases n,
{
    if n > 0 {
        let m = (n - 1) as nat;
        lemma_uuid_prefix_shape(b, m);
        lemma_hex_char(b[m as int] as nat / 16);
        lemma_hex_char(b[m as int] as nat % 16);
        let q = uuid_prefix(b, m);
        let q2 = if hyphen_before(m) {
            q.push('-')
        } else {
            q
        };
        let t = uuid_prefix(b, n);
        assert(t == q2 + hex_pair(b[m as int]));
        assert forall|p: int| 0 <= p < prefix_len(n) implies (#[trigger] t[p] == '-'
            <==> is_hyphen_position(p)) && (!is_hyphen_position(p) ==> is_lower_hex(t[p])) by {
            if p < q.len() {
                assert(t[p] == q[p]);
            }
        }
    }
}

/// UUID text that differs only in hyphens and in the case of its letters
/// encodes to the same Base58 text, or fails in the same way.
pub proof fn lemma_uuid_case_and_hyphens(s: Seq<char>, t: Seq<char>)
    requires
        lowered(without_hyphens(s)) == lowered(without_hyphens(t)),
    ensures
        uuid_encoded(s) == uuid_encoded(t),
{
    let c = without_hyphens(s);
    let d = without_hyphens(t);
    assert(c.len() == lowered(c).len());
    if c.len() == 32 {
        assert forall|i: int| 0 <= i < 32 implies is_hex(#[trigger] c[i]) == is_hex(d[i])
            && hex_value(c[i]) == hex_value(d[i]) by {
            lemma_hex_lower(c[i]);
            lemma_hex_lower(d[i]);
            assert(lowered(c)[i] == lowered(d)[i]);
        }
        assert forall|i: int| 0 <= i < 16 implies pair_ok(c, i) == pair_ok(d, i) by {
            assert(is_hex(c[2 * i]) == is_hex(d[2 * i]));
            assert(is_hex(c[2 * i + 1]) == is_hex(d[2 * i + 1]));
        }
        lemma_first_bad_pair_same(c, d, 0);
        assert forall|i: int| 0 <= i < 16 implies hex_bytes(c)[i] == hex_bytes(d)[i] by {
            assert(hex_value(c[2 * i]) == hex_value(d[2 * i]));
            assert(hex_value(c[2 * i + 1]) == hex_value(d[2 * i + 1]));
        }
        assert(hex_bytes(c) =~= hex_bytes(d));
    }
}

/// Canonical UUID text is 36 characters: hyphens at positions 8, 13, 18
/// and 23, lowercase hex digits everywhere else.
pub proof fn lemma_uuid_text_shape(b: Seq<u8>)
    requires
        b.len() == 16,
    ensures
        uuid_text(b).len() == 36,
        forall|p: int| 0 <= p < 36 ==> (#[trigger] uuid_text(b)[p] == '-' <==> is_hyphen_position(p)),
        forall|p: int|
            0 <= p < 36 && !is_hyphen_position(p) ==> is_lower_hex(#[trigger] uuid_text(b)[p]),
{
    lemma_uuid_prefix_shape(b, 16);
}

proof fn lemma_first_bad_pair_at_most(c: Seq<char>, from: nat, p: nat)
    requires
        from <= p < 16,
        !pair_ok(c, p as int),
    ensures
        first_bad_pair(c, from) <= p,
    decreases p - from,
{
    if from < p {
        lemma_first_bad_pair_at_most(c, from + 1, p);
    }
}

/// UUID text of the wrong length (hyphens aside) is refused for its length;
/// text of the right length with a character that is not hex is refused as
/// malformed.
pub proof fn lemma_uuid_errors(s: Seq<char>, i: int)
    ensures
        without_hyphens(s).len() != UUID_HEX_DIGITS ==> uuid_encoded(s) == Err::<
            Seq<char>,
            ErrorView,
        >(
            ErrorView::InvalidLength {
                expected: UUID_HEX_DIGITS as nat,
                got: without_hyphens(s).len(),
            },
        ),
        without_hyphens(s).len() == UUID_HEX_DIGITS && 0 <= i < UUID_HEX_DIGITS && !is_hex(
            without_hyphens(s)[i],
        ) ==> uuid_encoded(s) matches Err(ErrorView::InvalidUUID(_)),
{
    let c = without_hyphens(s);
    if c.len() == UUID_HEX_DIGITS && 0 <= i < UUID_HEX_DIGITS && !is_hex(c[i]) {
        let p = i / 2;
        assert(!pair_ok(c, p)) by {
            if i % 2 == 0 {
                assert(c[2 * p] == c[i]);
            } else {
                assert(c[2 * p + 1] == c[i]);
            }
        }
        lemma_first_bad_pair_at_most(c, 0, p as nat);
    }
}

} // verus!
