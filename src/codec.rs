//! The Base58 conversion engine: 16 bytes to 22 symbols and back.
use vstd::prelude::*;
use crate::alphabet::{digit, is_symbol, lemma_digit_symbol, lemma_symbol_digit, symbol, symbol_of, ReverseTable};
use crate::error::{B58UUIDError, ErrorView};
use crate::text::{decimal, push_char, push_decimal};

verus! {

/// Number of symbols in the text of every identifier.
pub const WIDTH: usize = 22;

/// Number of bytes in an identifier.
pub const ID_BYTES: usize = 16;

/// The longest run of leading zero-symbols that decoding accepts.
pub const MAX_LEADING_ONES: usize = 22;

/// `58` to the power `e`.
pub open spec fn pow58(e: nat) -> nat
    decreases e,
{
    if e == 0 {
        1
    } else {
        58 * pow58((e - 1) as nat)
    }
}

/// `256` to the power `e`.
pub open spec fn pow256(e: nat) -> nat
    decreases e,
{
    if e == 0 {
        1
    } else {
        256 * pow256((e - 1) as nat)
    }
}

/// The unsigned integer that the bytes `b` spell, most significant first.
pub open spec fn be_value(b: Seq<u8>) -> nat
    decreases b.len(),
{
    if b.len() == 0 {
        0
    } else {
        be_value(b.drop_last()) * 256 + b.last() as nat
    }
}

/// The last `w` bytes of `v` in base 256, most significant first.
pub open spec fn be_bytes(v: nat, w: nat) -> Seq<u8>
    decreases w,
{
    if w == 0 {
        Seq::empty()
    } else {
        be_bytes(v / 256, (w - 1) as nat).push((v % 256) as u8)
    }
}

/// The integer that the symbols `s` spell in base 58, most significant first.
pub open spec fn value(s: Seq<char>) -> nat
    decreases s.len(),
{
    if s.len() == 0 {
        0
    } else {
        value(s.drop_last()) * 58 + digit(s.last())
    }
}

/// The last `w` digits of `n` in base 58, as symbols, most significant first.
pub open spec fn digits(n: nat, w: nat) -> Seq<char>
    decreases w,
{
    if w == 0 {
        Seq::empty()
    } else {
        digits(n / 58, (w - 1) as nat).push(symbol(n % 58))
    }
}

/// The Base58 text of the identifier `b`.
pub open spec fn encoded(b: Seq<u8>) -> Seq<char> {
    digits(be_value(b), WIDTH as nat)
}

/// `n` copies of the zero-symbol `'1'`.
pub open spec fn ones(n: nat) -> Seq<char> {
    Seq::new(n, |i: int| '1')
}

/// The largest value an identifier holds.
pub open spec fn max_id() -> nat {
    u128::MAX as nat
}

proof fn lemma_pow256_16()
    ensures
        pow256(16) == max_id() + 1,
{
    reveal_with_fuel(pow256, 17);
}

proof fn lemma_pow58_22()
    ensures
        pow58(22) > max_id(),
{
    reveal_with_fuel(pow58, 23);
}

proof fn lemma_pow256_mono(a: nat, b: nat)
    requires
        a <= b,
    ensures
        pow256(a) <= pow256(b),
    decreases b,
{
    if a < b {
        lemma_pow256_mono(a, (b - 1) as nat);
    }
}

/// The zero value has only zero-symbols as digits.
proof fn lemma_digits_zero(w: nat)
    ensures
        digits(0, w) == ones(w),
    decreases w,
{
    if w > 0 {
        lemma_digits_zero((w - 1) as nat);
        lemma_symbol_digit(0);
        assert(digits(0, w) =~= ones(w));
    }
}

/// Reading the bytes of an identifier as an integer.
fn from_be_bytes(data: &[u8; 16]) -> (n: u128)
    ensures
        n as nat == be_value(data@),
{
    let mut n: u128 = 0;
    let mut i: usize = 0;
    proof {
        lemma_pow256_16();
    }
    while i < ID_BYTES
        invariant
            i <= ID_BYTES,
            n as nat == be_value(data@.take(i as int)),
            n < pow256(i as nat),
            pow256(16) == max_id() + 1,
        decreases ID_BYTES - i,
    {
        assert(data@.take(i + 1).drop_last() =~= data@.take(i as int));
        proof {
            lemma_pow256_mono((i + 1) as nat, 16);
        }
        assert(n * 256 + data[i as int] < pow256((i + 1) as nat)) by (nonlinear_arith)
            requires
                n < pow256(i as nat),
                data[i as int] < 256,
                pow256((i + 1) as nat) == 256 * pow256(i as nat),
        ;
        n = n * 256 + data[i] as u128;
        i += 1;
    }
    assert(data@.take(16) =~= data@);
    n
}

/// Encodes a 16-byte identifier as exactly 22 Base58 symbols.
pub fn encode(data: &[u8; 16]) -> (r: String)
    ensures
        r@ == encoded(data@),
        r@.len() == WIDTH,
{
    proof {
        lemma_digits_len(be_value(data@), WIDTH as nat);
    }
    let mut leading_zeros: usize = 0;
    while leading_zeros < ID_BYTES && data[leading_zeros] == 0
        invariant
            leading_zeros <= ID_BYTES,
            forall|t: int| 0 <= t < leading_zeros ==> data[t] == 0,
        decreases ID_BYTES - leading_zeros,
    {
        leading_zeros += 1;
    }
    let mut out = String::new();
    if leading_zeros == ID_BYTES {
        proof {
            lemma_be_value_zero(data@);
            lemma_digits_zero(WIDTH as nat);
        }
        push_ones(&mut out, WIDTH);
        return out;
    }
    let mut num = from_be_bytes(data);
    let ghost n = num as nat;
    proof {
        lemma_pow58_22();
    }
    // Digits come out least significant first.
    let mut low_first: Vec<char> = Vec::new();
    while num > 0
        invariant
            low_first.len() <= WIDTH,
            digits(n, WIDTH as nat) == digits(num as nat, (WIDTH - low_first.len()) as nat)
                + low_first@.reverse(),
            num < pow58((WIDTH - low_first.len()) as nat),
        decreases num,
    {
        let ghost w = (WIDTH - low_first.len()) as nat;
        assert(w > 0) by {
            if w == 0 {
                assert(pow58(0) == 1);
            }
        }
        assert(num / 58 < pow58((w - 1) as nat)) by (nonlinear_arith)
            requires
                num < pow58(w),
                pow58(w) == 58 * pow58((w - 1) as nat),
        ;
        let d = (num % 58) as u8;
        let ghost before = low_first@;
        low_first.push(symbol_of(d));
        assert(low_first@.reverse() =~= seq![symbol((num % 58) as nat)] + before.reverse());
        assert(digits(num as nat, w) + before.reverse() =~= digits((num / 58) as nat, (w - 1) as nat)
            + low_first@.reverse());
        num = num / 58;
    }
    proof {
        lemma_digits_zero((WIDTH - low_first.len()) as nat);
    }
    // The zero-symbols of leading zero bytes come with the padding.
    push_ones(&mut out, WIDTH - low_first.len());
    let mut i: usize = low_first.len();
    while i > 0
        invariant
            i <= low_first.len(),
            low_first.len() <= WIDTH,
            out@ == ones((WIDTH - low_first.len()) as nat) + low_first@.reverse().take(
                (low_first.len() - i) as int,
            ),
        decreases i,
    {
        i -= 1;
        push_char(&mut out, low_first[i]);
        assert(low_first@.reverse().take((low_first.len() - i) as int) =~= low_first@.reverse().take(
            (low_first.len() - i - 1) as int,
        ).push(low_first@[i as int]));
    }
    assert(low_first@.reverse().take(low_first.len() as int) =~= low_first@.reverse());
    out
}

proof fn lemma_digits_len(n: nat, w: nat)
    ensures
        digits(n, w).len() == w,
    decreases w,
{
    if w > 0 {
        lemma_digits_len(n / 58, (w - 1) as nat);
    }
}

proof fn lemma_be_value_zero(b: Seq<u8>)
    requires
        forall|t: int| 0 <= t < b.len() ==> b[t] == 0,
    ensures
        be_value(b) == 0,
    decreases b.len(),
{
    if b.len() > 0 {
        lemma_be_value_zero(b.drop_last());
    }
}

/// Appends `n` zero-symbols.
fn push_ones(s: &mut String, n: usize)
    ensures
        final(s)@ == old(s)@ + ones(n as nat),
{
    let ghost start = s@;
    let mut i: usize = 0;
    while i < n
        invariant
            i <= n,
            s@ == start + ones(i as nat),
        decreases n - i,
    {
        push_char(s, '1');
        i += 1;
        assert(ones(i as nat) =~= ones((i - 1) as nat).push('1'));
    }
}

/// Count of the zero-symbols `'1'` that `s` begins with.
pub open spec fn leading_ones(s: Seq<char>) -> nat
    decreases s.len(),
{
    if s.len() > 0 && s[0] == '1' {
        1 + leading_ones(s.drop_first())
    } else {
        0
    }
}

/// Length of the longest prefix of `s` made of alphabet symbols.
pub open spec fn symbol_run(s: Seq<char>) -> nat
    decreases s.len(),
{
    if s.len() > 0 && is_symbol(s[0]) {
        1 + symbol_run(s.drop_first())
    } else {
        0
    }
}

/// Message for empty Base58 text.
pub open spec fn empty_input_message() -> Seq<char> {
    "Empty Base58 string"@
}

/// Message for Base58 text with too many leading zero-symbols.
pub open spec fn too_many_ones_message() -> Seq<char> {
    "Too many leading '1' characters"@
}

/// Message for a character outside the alphabet at character position `pos`.
pub open spec fn invalid_char_message(pos: nat, c: char) -> Seq<char> {
    "Invalid character at position "@ + decimal(pos) + ": "@ + seq![c]
}

/// What decoding the text `s` gives: the identifier's bytes, or the error.
///
/// Text is read left to right: the first event decides. A character outside
/// the alphabet ends the reading; so does a value that leaves 128 bits, which
/// can only grow as more symbols are read.
pub open spec fn decoded(s: Seq<char>) -> Result<Seq<u8>, ErrorView> {
    if s.len() == 0 {
        Err(ErrorView::InvalidBase58(empty_input_message()))
    } else if leading_ones(s) > MAX_LEADING_ONES {
        Err(ErrorView::InvalidBase58(too_many_ones_message()))
    } else {
        let j = symbol_run(s);
        if value(s.take(j as int)) > max_id() {
            Err(ErrorView::Overflow)
        } else if j < s.len() {
            Err(ErrorView::InvalidBase58(invalid_char_message(j, s[j as int])))
        } else {
            Ok(be_bytes(value(s), ID_BYTES as nat))
        }
    }
}

/// The mathematical value of a decoding result.
pub open spec fn outcome(r: Result<[u8; 16], B58UUIDError>) -> Result<Seq<u8>, ErrorView> {
    match r {
        Ok(b) => Ok(b@),
        Err(e) => Err(e@),
    }
}

/// A prefix of `k` zero-symbols gives at least `k` leading ones, and exactly
/// `k` where it cannot be extended.
proof fn lemma_leading_ones(s: Seq<char>, k: nat)
    requires
        k <= s.len(),
        forall|t: int| 0 <= t < k ==> s[t] == '1',
    ensures
        leading_ones(s) >= k,
        (k == s.len() || s[k as int] != '1') ==> leading_ones(s) == k,
    decreases k,
{
    if k > 0 {
        lemma_leading_ones(s.drop_first(), (k - 1) as nat);
    }
}

/// A prefix of `k` symbols gives a symbol run of at least `k`, and exactly
/// `k` where it cannot be extended.
proof fn lemma_symbol_run(s: Seq<char>, k: nat)
    requires
        k <= s.len(),
        forall|t: int| 0 <= t < k ==> is_symbol(s[t]),
    ensures
        symbol_run(s) >= k,
        symbol_run(s) <= s.len(),
        (k == s.len() || !is_symbol(s[k as int])) ==> symbol_run(s) == k,
    decreases s.len(),
{
    if s.len() > 0 {
        if k > 0 {
            lemma_symbol_run(s.drop_first(), (k - 1) as nat);
        } else if is_symbol(s[0]) {
            lemma_symbol_run(s.drop_first(), 0);
        }
    }
}

/// Reading more symbols never makes the value smaller.
proof fn lemma_value_mono(s: Seq<char>, a: nat, b: nat)
    requires
        a <= b <= s.len(),
    ensures
        value(s.take(a as int)) <= value(s.take(b as int)),
    decreases b,
{
    if a < b {
        lemma_value_mono(s, a, (b - 1) as nat);
        assert(s.take(b as int).drop_last() =~= s.take(b - 1));
    }
}

/// Writing an integer as 16 bytes, most significant first.
fn to_be_bytes(n: u128) -> (b: [u8; 16])
    ensures
        b@ == be_bytes(n as nat, ID_BYTES as nat),
{
    let mut b = [0u8; 16];
    let mut rest: u128 = n;
    let mut i: usize = ID_BYTES;
    while i > 0
        invariant
            i <= ID_BYTES,
            be_bytes(n as nat, ID_BYTES as nat) == be_bytes(rest as nat, i as nat) + b@.subrange(
                i as int,
                16,
            ),
        decreases i,
    {
        let ghost tail = b@.subrange(i as int, 16);
        i -= 1;
        b[i] = (rest % 256) as u8;
        assert(b@.subrange(i as int, 16) =~= seq![(rest % 256) as u8] + tail);
        assert(be_bytes(rest as nat, (i + 1) as nat) + tail =~= be_bytes(
            (rest / 256) as nat,
            i as nat,
        ) + b@.subrange(i as int, 16));
        rest = rest / 256;
    }
    assert(b@.subrange(0, 16) =~= b@);
    b
}

/// Decodes Base58 text to the 16 bytes of an identifier.
pub fn decode(b58: &str) -> (r: Result<[u8; 16], B58UUIDError>)
    ensures
        outcome(r) == decoded(b58@),
{
    if b58.is_empty() {
        return Err(B58UUIDError::InvalidBase58(String::from_str("Empty Base58 string")));
    }
    let len = b58.unicode_len();
    let table = ReverseTable::new();
    let ghost s = b58@;
    let mut leading: usize = 0;
    let mut in_run = true;
    let mut num: u128 = 0;
    let mut i: usize = 0;
    for ch in it: b58.chars()
        invariant
            it.seq() == s,
            s == b58@,
            len == s.len(),
            i == it.index(),
            i <= s.len(),
            s.len() > 0,
            leading <= MAX_LEADING_ONES,
            forall|t: int| 0 <= t < leading ==> s[t] == '1',
            in_run ==> leading == i,
            !in_run ==> leading < i && s[leading as int] != '1',
            forall|t: int| 0 <= t < i ==> is_symbol(s[t]),
            num as nat == value(s.take(i as int)),
            in_run ==> num == 0,
            table.wf(),
    {
        assert(ch == s[i as int]);
        assert(s.take(i + 1).drop_last() =~= s.take(i as int));
        if in_run && ch == '1' {
            // Zero-symbols of the leading run add nothing to the value.
            leading += 1;
            if leading > MAX_LEADING_ONES {
                proof {
                    lemma_leading_ones(s, leading as nat);
                }
                return Err(
                    B58UUIDError::InvalidBase58(String::from_str("Too many leading '1' characters")),
                );
            }
            proof {
                lemma_symbol_digit(0);
            }
        } else {
            in_run = false;
            proof {
                lemma_leading_ones(s, leading as nat);
            }
            match table.digit_of(ch) {
                None => {
                    proof {
                        lemma_symbol_run(s, i as nat);
                    }
                    let mut msg = String::from_str("Invalid character at position ");
                    push_decimal(&mut msg, i);
                    msg.append(": ");
                    push_char(&mut msg, ch);
                    assert(msg@ == invalid_char_message(i as nat, s[i as int]));
                    return Err(B58UUIDError::InvalidBase58(msg));
                },
                Some(d) => {
                    proof {
                        lemma_digit_symbol(ch);
                        lemma_symbol_run(s, (i + 1) as nat);
                    }
                    match num.checked_mul(58) {
                        None => {
                            proof {
                                lemma_value_mono(s, (i + 1) as nat, symbol_run(s));
                            }
                            return Err(B58UUIDError::Overflow);
                        },
                        Some(m) => match m.checked_add(d as u128) {
                            None => {
                                proof {
                                    lemma_value_mono(s, (i + 1) as nat, symbol_run(s));
                                }
                                return Err(B58UUIDError::Overflow);
                            },
                            Some(v) => {
                                num = v;
                            },
                        },
                    }
                },
            }
        }
        i += 1;
    }
    proof {
        lemma_leading_ones(s, leading as nat);
        lemma_symbol_run(s, i as nat);
        assert(s.take(i as int) =~= s);
    }
    Ok(to_be_bytes(num))
}

proof fn lemma_value_digits(n: nat, w: nat)
    requires
        n < pow58(w),
    ensures
        value(digits(n, w)) == n,
        forall|t: int| 0 <= t < w ==> is_symbol(#[trigger] digits(n, w)[t]),
    decreases w,
{
    lemma_digits_len(n, w);
    if w > 0 {
        assert(n / 58 < pow58((w - 1) as nat)) by (nonlinear_arith)
            requires
                n < pow58(w),
                pow58(w) == 58 * pow58((w - 1) as nat),
        ;
        lemma_value_digits(n / 58, (w - 1) as nat);
        lemma_digits_len(n / 58, (w - 1) as nat);
        lemma_symbol_digit(n % 58);
        let s = digits(n, w);
        assert(s.drop_last() =~= digits(n / 58, (w - 1) as nat));
        assert(n == (n / 58) * 58 + n % 58) by (nonlinear_arith);
        assert forall|t: int| 0 <= t < w implies is_symbol(#[trigger] s[t]) by {
            if t < w - 1 {
                assert(s[t] == digits(n / 58, (w - 1) as nat)[t]);
            }
        }
    }
}

proof fn lemma_be_value_bound(b: Seq<u8>)
    ensures
        be_value(b) < pow256(b.len()),
    decreases b.len(),
{
    if b.len() > 0 {
        let p = b.drop_last();
        lemma_be_value_bound(p);
        assert(be_value(p) * 256 + b.last() < pow256(b.len())) by (nonlinear_arith)
            requires
                be_value(p) < pow256(p.len()),
                b.last() < 256,
                pow256(b.len()) == 256 * pow256(p.len()),
        ;
    }
}

proof fn lemma_be_bytes_value(b: Seq<u8>)
    ensures
        be_bytes(be_value(b), b.len()) == b,
    decreases b.len(),
{
    if b.len() > 0 {
        let p = b.drop_last();
        let v = be_value(b);
        lemma_be_bytes_value(p);
        assert(v / 256 == be_value(p) && v % 256 == b.last()) by (nonlinear_arith)
            requires
                v == be_value(p) * 256 + b.last(),
                b.last() < 256,
        ;
        assert(be_bytes(v, b.len()) =~= b);
    }
}

proof fn lemma_leading_ones_len(s: Seq<char>)
    ensures
        leading_ones(s) <= s.len(),
    decreases s.len(),
{
    if s.len() > 0 {
        lemma_leading_ones_len(s.drop_first());
    }
}

proof fn lemma_symbol_run_stops(s: Seq<char>)
    ensures
        symbol_run(s) <= s.len(),
        forall|t: int| 0 <= t < symbol_run(s) ==> is_symbol(#[trigger] s[t]),
        symbol_run(s) < s.len() ==> !is_symbol(s[symbol_run(s) as int]),
    decreases s.len(),
{
    if s.len() > 0 && is_symbol(s[0]) {
        let r = s.drop_first();
        lemma_symbol_run_stops(r);
        assert forall|t: int| 0 <= t < symbol_run(s) implies is_symbol(#[trigger] s[t]) by {
            if t > 0 {
                assert(s[t] == r[t - 1]);
            }
        }
    }
}

/// Decoding the text of an identifier gives the identifier back.
pub proof fn lemma_round_trip(b: Seq<u8>)
    requires
        b.len() == ID_BYTES,
    ensures
        decoded(encoded(b)) == Ok::<Seq<u8>, ErrorView>(b),
{
    let n = be_value(b);
    let s = encoded(b);
    lemma_be_value_bound(b);
    lemma_pow256_16();
    lemma_pow58_22();
    lemma_value_digits(n, WIDTH as nat);
    lemma_digits_len(n, WIDTH as nat);
    lemma_leading_ones_len(s);
    lemma_symbol_run(s, WIDTH as nat);
    assert(s.take(WIDTH as int) =~= s);
    lemma_be_bytes_value(b);
}

/// Decoding refuses empty text, and text with a character outside the
/// alphabet, as malformed Base58, except where the value has already left
/// 128 bits before that character is reached.
pub proof fn lemma_rejection(s: Seq<char>, j: int)
    requires
        s.len() == 0 || (0 <= j < s.len() && !is_symbol(s[j]) && (leading_ones(s)
            > MAX_LEADING_ONES || value(s.take(symbol_run(s) as int)) <= max_id())),
    ensures
        decoded(s) matches Err(ErrorView::InvalidBase58(_)),
{
    lemma_symbol_run_stops(s);
}

/// More than 22 leading zero-symbols are refused outright; with exactly 22,
/// the text is judged by its symbols and its value alone.
pub proof fn lemma_leading_ones_cap(s: Seq<char>)
    ensures
        leading_ones(s) > MAX_LEADING_ONES ==> decoded(s) == Err::<Seq<u8>, ErrorView>(
            ErrorView::InvalidBase58(too_many_ones_message()),
        ),
        leading_ones(s) == MAX_LEADING_ONES ==> ({
            let j = symbol_run(s);
            ||| decoded(s) == Ok::<Seq<u8>, ErrorView>(be_bytes(value(s), ID_BYTES as nat))
            ||| decoded(s) == Err::<Seq<u8>, ErrorView>(ErrorView::Overflow)
            ||| decoded(s) == Err::<Seq<u8>, ErrorView>(
                ErrorView::InvalidBase58(invalid_char_message(j, s[j as int])),
            )
        }),
{
}

} // verus!
