//! Numbers written on the command line or in a register file: an optional
//! radix prefix (`0x`, `0X`, `0b`, `0B`, or a leading `0` for octal) followed
//! by digits in that radix.

use vstd::prelude::*;
use vstd::string::*;

use crate::error::{ConfigError, ErrorView, IntErrorKind};
use crate::text::{ascii_lower_char, ascii_lowercase, decimal, digit_char, numeral, numeral_digit};

verus! {

/// What `str::trim_start_matches` leaves of `s` for a non-empty pattern `p`:
/// every leading repetition of `p` is removed.
pub open spec fn trim_start_matches(s: Seq<char>, p: Seq<char>) -> Seq<char>
    decreases s.len(),
{
    if p.len() > 0 && p.is_prefix_of(s) {
        trim_start_matches(s.skip(p.len() as int), p)
    } else {
        s
    }
}

/// The digits that remain of `v` after its radix prefix, and that radix.
pub open spec fn spec_get_base(v: Seq<char>) -> (Seq<char>, u32) {
    if seq!['0', 'x'].is_prefix_of(v) {
        (trim_start_matches(v, seq!['0', 'x']), 16)
    } else if seq!['0', 'X'].is_prefix_of(v) {
        (trim_start_matches(v, seq!['0', 'X']), 16)
    } else if seq!['0', 'b'].is_prefix_of(v) {
        (trim_start_matches(v, seq!['0', 'b']), 2)
    } else if seq!['0', 'B'].is_prefix_of(v) {
        (trim_start_matches(v, seq!['0', 'B']), 2)
    } else if v.len() > 0 && v[0] == '0' && v.len() != 1 {
        (trim_start_matches(v, seq!['0']), 8)
    } else {
        (v, 10)
    }
}

/// Whether the two characters `a`, `b` stand at positions `i` and `i + 1` of `s`.
fn pair_at(s: &str, n: usize, i: usize, a: char, b: char) -> (res: bool)
    requires
        n == s@.len(),
        i <= n,
    ensures
        res == seq![a, b].is_prefix_of(s@.skip(i as int)),
{
    if n - i < 2 {
        return false;
    }
    let c0 = s.get_char(i);
    let c1 = s.get_char(i + 1);
    proof {
        let t = s@.skip(i as int);
        if c0 == a && c1 == b {
            assert(seq![a, b] =~= t.subrange(0, 2));
        } else {
            assert(t.subrange(0, 2)[0] == c0);
            assert(t.subrange(0, 2)[1] == c1);
        }
    }
    c0 == a && c1 == b
}

/// `s` with every leading repetition of the pattern `a b` removed.
fn trim_start_pair(s: &str, a: char, b: char) -> (res: &str)
    ensures
        res@ == trim_start_matches(s@, seq![a, b]),
{
    let n = s.unicode_len();
    let mut i: usize = 0;
    assert(s@.skip(0) =~= s@);
    while pair_at(s, n, i, a, b)
        invariant
            n == s@.len(),
            i <= n,
            trim_start_matches(s@.skip(i as int), seq![a, b]) == trim_start_matches(s@, seq![a, b]),
        decreases n - i,
    {
        assert(s@.skip(i as int).skip(2) =~= s@.skip(i + 2));
        i = i + 2;
    }
    assert(s@.skip(i as int) =~= s@.subrange(i as int, n as int));
    s.substring_char(i, n)
}

/// `s` with all leading copies of the character `c` removed.
fn trim_start_char(s: &str, c: char) -> (res: &str)
    ensures
        res@ == trim_start_matches(s@, seq![c]),
{
    let n = s.unicode_len();
    let mut i: usize = 0;
    assert(s@.skip(0) =~= s@);
    while i < n && s.get_char(i) == c
        invariant
            n == s@.len(),
            i <= n,
            trim_start_matches(s@.skip(i as int), seq![c]) == trim_start_matches(s@, seq![c]),
        decreases n - i,
    {
        assert(seq![c] =~= s@.skip(i as int).subrange(0, 1));
        assert(s@.skip(i as int).skip(1) =~= s@.skip(i + 1));
        i = i + 1;
    }
    if i < n {
        assert(s@.skip(i as int).subrange(0, 1)[0] == s@[i as int]);
    }
    assert(s@.skip(i as int) =~= s@.subrange(i as int, n as int));
    s.substring_char(i, n)
}

/// Splits a number into its digits and its radix: `0x`/`0X` select 16,
/// `0b`/`0B` select 2 (every leading repetition of the prefix is removed),
/// a leading `0` other than the whole text `"0"` selects 8 (all leading zeros
/// are removed), and anything else is decimal and kept as it is.
pub fn get_base(value: &str) -> (res: (&str, u32))
    ensures
        res.0@ == spec_get_base(value@).0,
        res.1 == spec_get_base(value@).1,
{
    let n = value.unicode_len();
    assert(value@.skip(0) =~= value@);
    if pair_at(value, n, 0, '0', 'x') {
        (trim_start_pair(value, '0', 'x'), 16)
    } else if pair_at(value, n, 0, '0', 'X') {
        (trim_start_pair(value, '0', 'X'), 16)
    } else if pair_at(value, n, 0, '0', 'b') {
        (trim_start_pair(value, '0', 'b'), 2)
    } else if pair_at(value, n, 0, '0', 'B') {
        (trim_start_pair(value, '0', 'B'), 2)
    } else if n > 0 && value.get_char(0) == '0' && n != 1 {
        (trim_start_char(value, '0'), 8)
    } else {
        (value, 10)
    }
}

/// The value of the digit `c` in `radix`, as `char::to_digit` gives it:
/// `0`-`9`, then `a`-`z` and `A`-`Z` from ten on, and no value at or above the radix.
pub open spec fn digit_value(c: char, radix: nat) -> Option<nat> {
    let u = c as u32;
    let d: int = if 0x30 <= u <= 0x39 {
        u - 0x30
    } else if 0x61 <= u <= 0x7a {
        u - 0x61 + 10
    } else if 0x41 <= u <= 0x5a {
        u - 0x41 + 10
    } else {
        radix as int
    };
    if d < radix {
        Some(d as nat)
    } else {
        None
    }
}

/// Every character of `d` is a digit of `radix`.
pub open spec fn digits_valid(d: Seq<char>, radix: nat) -> bool {
    forall|i: int| 0 <= i < d.len() ==> (#[trigger] digit_value(d[i], radix)) is Some
}

/// The number that the digits `d` denote in `radix`, most significant first.
pub open spec fn digits_value(d: Seq<char>, radix: nat) -> nat
    decreases d.len(),
{
    if d.len() == 0 {
        0
    } else {
        let last = match digit_value(d.last(), radix) {
            Some(x) => x,
            None => 0,
        };
        digits_value(d.drop_last(), radix) * radix + last
    }
}

/// The digits of an unsigned number: the text without one leading `+`.
pub open spec fn unsigned_digits(s: Seq<char>) -> Seq<char> {
    if s.len() > 0 && s[0] == '+' {
        s.drop_first()
    } else {
        s
    }
}

/// Reads the digits `d` left to right as `from_str_radix` does: at each
/// position a character that is no digit of `radix` is reported before a
/// value that passes `max`.
pub open spec fn scan_digits(d: Seq<char>, radix: nat, max: nat) -> Result<nat, IntErrorKind>
    decreases d.len(),
{
    if d.len() == 0 {
        Ok(0)
    } else {
        match scan_digits(d.drop_last(), radix, max) {
            Err(k) => Err(k),
            Ok(v) => match digit_value(d.last(), radix) {
                None => Err(IntErrorKind::InvalidDigit),
                Some(x) => if v * radix + x <= max {
                    Ok(v * radix + x)
                } else {
                    Err(IntErrorKind::PosOverflow)
                },
            },
        }
    }
}

/// What `from_str_radix` of an unsigned type whose largest value is `max`
/// gives for `s`: an empty text is `Empty`, a lone sign is an invalid digit,
/// and otherwise the digits after an optional `+` are read in order.
pub open spec fn radix_result(s: Seq<char>, radix: nat, max: nat) -> Result<nat, IntErrorKind> {
    if s.len() == 0 {
        Err(IntErrorKind::Empty)
    } else if s.len() == 1 && (s[0] == '+' || s[0] == '-') {
        Err(IntErrorKind::InvalidDigit)
    } else {
        scan_digits(unsigned_digits(s), radix, max)
    }
}

/// The value that `from_str_radix` gives for `s`, if it gives one.
pub open spec fn radix_value(s: Seq<char>, radix: nat, max: nat) -> Option<nat> {
    match radix_result(s, radix, max) {
        Ok(n) => Some(n),
        Err(_) => None,
    }
}

/// Reading digits succeeds exactly where all are digits and their value
/// does not pass `max`, and then gives that value.
proof fn lemma_scan_digits(d: Seq<char>, radix: nat, max: nat)
    requires
        radix >= 1,
    ensures
        scan_digits(d, radix, max) is Ok <==> (digits_valid(d, radix) && digits_value(d, radix) <= max),
        scan_digits(d, radix, max) matches Ok(v) ==> v == digits_value(d, radix),
    decreases d.len(),
{
    if d.len() > 0 {
        let p = d.drop_last();
        lemma_scan_digits(p, radix, max);
        let vp = digits_value(p, radix);
        assert(vp * radix >= vp) by (nonlinear_arith) requires radix >= 1;
        if !digits_valid(p, radix) {
            let i = choose|i: int| 0 <= i < p.len() && !(#[trigger] digit_value(p[i], radix) is Some);
            assert(d[i] == p[i]);
        }
        if digits_valid(p, radix) && digit_value(d.last(), radix) is Some {
            assert forall|i: int| 0 <= i < d.len() implies (#[trigger] digit_value(d[i], radix)) is Some by {
                if i < p.len() {
                    assert(d[i] == p[i]);
                }
            }
        }
    }
}

/// The value of a number text: its digits after an optional `+`, where there
/// is one at least, all are digits of `radix` and the value does not pass `max`.
proof fn lemma_radix_value(s: Seq<char>, radix: nat, max: nat)
    requires
        radix >= 1,
    ensures
        ({
            let d = unsigned_digits(s);
            radix_value(s, radix, max) == if d.len() > 0 && digits_valid(d, radix) && digits_value(d, radix) <= max {
                Some(digits_value(d, radix))
            } else {
                None
            }
        }),
{
    lemma_scan_digits(unsigned_digits(s), radix, max);
    if s.len() == 1 && s[0] == '-' {
        assert(digit_value(s[0], radix) is None);
    }
}

/// The number that `v` denotes with its radix prefix, if it is at most `max`.
pub open spec fn spec_parse_number(v: Seq<char>, max: nat) -> Option<nat> {
    radix_value(spec_get_base(v).0, spec_get_base(v).1 as nat, max)
}

/// The error for a number text `v` that does not parse into a type whose
/// largest value is `max`: the digits after the prefix, and why.
pub open spec fn number_error(v: Seq<char>, max: nat) -> ErrorView {
    let d = spec_get_base(v).0;
    ErrorView::NumberParse(d, radix_result(d, spec_get_base(v).1 as nat, max)->Err_0)
}

/// Once reading digits has failed, later digits change nothing.
proof fn lemma_scan_stops(d: Seq<char>, i: int, radix: nat, max: nat)
    requires
        0 <= i <= d.len(),
        scan_digits(d.take(i), radix, max) is Err,
    ensures
        scan_digits(d, radix, max) == scan_digits(d.take(i), radix, max),
    decreases d.len() - i,
{
    if i < d.len() {
        assert(d.take(i + 1).drop_last() =~= d.take(i));
        lemma_scan_stops(d, i + 1, radix, max);
    } else {
        assert(d.take(i) =~= d);
    }
}

/// The value of the character `c` as a digit of `radix`, as `char::to_digit` gives it.
fn digit_of(c: char, radix: u32) -> (res: Option<u32>)
    requires
        radix <= 36,
    ensures
        match res {
            Some(x) => digit_value(c, radix as nat) == Some(x as nat),
            None => digit_value(c, radix as nat) is None,
        },
{
    let u = c as u32;
    let d: u32 = if 0x30 <= u && u <= 0x39 {
        u - 0x30
    } else if 0x61 <= u && u <= 0x7a {
        u - 0x61 + 10
    } else if 0x41 <= u && u <= 0x5a {
        u - 0x41 + 10
    } else {
        radix
    };
    if d < radix {
        Some(d)
    } else {
        None
    }
}

/// Reads an unsigned number in `radix` whose largest value is `max`, as std's
/// `from_str_radix` does for an unsigned type: an optional `+`, then digits
/// read left to right; an empty text is `Empty`, a lone sign an invalid
/// digit, and at each position a character that is no digit is reported
/// before a value that passes `max`.
pub fn read_radix(src: &str, radix: u32, max: u32) -> (res: Result<u32, IntErrorKind>)
    requires
        2 <= radix <= 36,
    ensures
        match res {
            Ok(v) => radix_result(src@, radix as nat, max as nat) == Ok::<nat, IntErrorKind>(v as nat),
            Err(k) => radix_result(src@, radix as nat, max as nat) == Err::<nat, IntErrorKind>(k),
        },
{
    let n = src.unicode_len();
    if n == 0 {
        return Err(IntErrorKind::Empty);
    }
    let first = src.get_char(0);
    if n == 1 && (first == '+' || first == '-') {
        return Err(IntErrorKind::InvalidDigit);
    }
    let start: usize = if first == '+' { 1 } else { 0 };
    let ghost d = unsigned_digits(src@);
    assert(d =~= src@.skip(start as int));
    assert(radix_result(src@, radix as nat, max as nat) == scan_digits(d, radix as nat, max as nat));
    assert(d.take(0) =~= Seq::<char>::empty());
    let mut v: u32 = 0;
    let mut i: usize = start;
    while i < n
        invariant
            n == src@.len(),
            start <= i <= n,
            start <= 1,
            d == src@.skip(start as int),
            radix_result(src@, radix as nat, max as nat) == scan_digits(d, radix as nat, max as nat),
            2 <= radix <= 36,
            v <= max,
            scan_digits(d.take(i - start), radix as nat, max as nat) == Ok::<nat, IntErrorKind>(v as nat),
        decreases n - i,
    {
        let c = src.get_char(i);
        let ghost k = i - start;
        assert(d.take(k + 1).drop_last() =~= d.take(k));
        assert(d.take(k + 1).last() == c);
        match digit_of(c, radix) {
            None => {
                assert(scan_digits(d.take(k + 1), radix as nat, max as nat) == Err::<nat, IntErrorKind>(
                    IntErrorKind::InvalidDigit,
                ));
                proof { lemma_scan_stops(d, k + 1, radix as nat, max as nat); }
                return Err(IntErrorKind::InvalidDigit);
            },
            Some(x) => {
                assert((v as u64) * (radix as u64) <= 36 * 0xffff_ffffu64) by (nonlinear_arith)
                    requires
                        v <= 0xffff_ffffu32,
                        radix <= 36,
                ;
                let w: u64 = (v as u64) * (radix as u64) + (x as u64);
                assert(w == v * radix + x);
                if w > max as u64 {
                    assert(scan_digits(d.take(k + 1), radix as nat, max as nat) == Err::<nat, IntErrorKind>(
                        IntErrorKind::PosOverflow,
                    ));
                    proof { lemma_scan_stops(d, k + 1, radix as nat, max as nat); }
                    return Err(IntErrorKind::PosOverflow);
                }
                v = w as u32;
            },
        }
        i = i + 1;
    }
    assert(d.take(n - start) =~= d);
    Ok(v)
}

/// Parses an 8-bit number with an optional radix prefix.
pub fn parse_u8(value: &str) -> (res: Result<u8, ConfigError>)
    ensures
        res matches Ok(x) ==> spec_parse_number(value@, u8::MAX as nat) == Some(x as nat),
        res is Err <==> spec_parse_number(value@, u8::MAX as nat) is None,
        res matches Err(e) ==> e@ == number_error(value@, u8::MAX as nat),
{
    proof { law_get_base_suffix(value@); }
    let (value, base) = get_base(value);
    match read_radix(value, base, u8::MAX as u32) {
        Ok(o) => Ok(o as u8),
        Err(e) => Err(ConfigError::NumberParseError(value.to_owned(), e)),
    }
}

/// Parses a 16-bit number with an optional radix prefix.
pub fn parse_u16(value: &str) -> (res: Result<u16, ConfigError>)
    ensures
        res matches Ok(x) ==> spec_parse_number(value@, u16::MAX as nat) == Some(x as nat),
        res is Err <==> spec_parse_number(value@, u16::MAX as nat) is None,
        res matches Err(e) ==> e@ == number_error(value@, u16::MAX as nat),
{
    proof { law_get_base_suffix(value@); }
    let (value, base) = get_base(value);
    match read_radix(value, base, u16::MAX as u32) {
        Ok(o) => Ok(o as u16),
        Err(e) => Err(ConfigError::NumberParseError(value.to_owned(), e)),
    }
}

/// Parses a 32-bit number with an optional radix prefix.
pub fn parse_u32(value: &str) -> (res: Result<u32, ConfigError>)
    ensures
        res matches Ok(x) ==> spec_parse_number(value@, u32::MAX as nat) == Some(x as nat),
        res is Err <==> spec_parse_number(value@, u32::MAX as nat) is None,
        res matches Err(e) ==> e@ == number_error(value@, u32::MAX as nat),
{
    proof { law_get_base_suffix(value@); }
    let (value, base) = get_base(value);
    match read_radix(value, base, u32::MAX) {
        Ok(o) => Ok(o as u32),
        Err(e) => Err(ConfigError::NumberParseError(value.to_owned(), e)),
    }
}

/// The address `n - offset` that the number `n` stands for when a register
/// window starts at `offset`; nothing where `n` lies below the window.
pub open spec fn spec_address(n: nat, offset: u32) -> Option<u32> {
    if n >= offset {
        Some((n - offset) as u32)
    } else {
        None
    }
}

/// Parses a 32-bit address and makes it relative to `offset`: `Ok(None)`
/// where the address lies below `offset`.
pub fn parse_u32_address(value: &str, offset: u32) -> (res: Result<Option<u32>, ConfigError>)
    ensures
        match res {
            Ok(a) => spec_parse_number(value@, u32::MAX as nat) matches Some(n) && a == spec_address(n, offset),
            Err(e) => spec_parse_number(value@, u32::MAX as nat) is None
                && e@ == number_error(value@, u32::MAX as nat),
        },
{
    proof { law_get_base_suffix(value@); }
    let (value, base) = get_base(value);
    match read_radix(value, base, u32::MAX) {
        Ok(n) => Ok(if n >= offset { Some(n - offset) } else { None }),
        Err(e) => Err(ConfigError::NumberParseError(value.to_owned(), e)),
    }
}

/// A number parsed into a type is at most the type's largest value.
pub proof fn lemma_number_bound(v: Seq<char>, max: nat)
    ensures
        spec_parse_number(v, max) matches Some(n) ==> n <= max,
{
    law_get_base_suffix(v);
    lemma_radix_value(spec_get_base(v).0, spec_get_base(v).1 as nat, max);
}

/// Narrow and wide parses agree: a number parses into a narrower width
/// exactly when it parses into a wider one with a value that fits the
/// narrower, and then to that value (so `parse_u8` accepts what `parse_u32`
/// accepts below 256, with the same value).
pub proof fn law_narrow_parse_agrees(v: Seq<char>, narrow: nat, wide: nat)
    requires
        narrow <= wide,
    ensures
        spec_parse_number(v, narrow) == (match spec_parse_number(v, wide) {
            Some(n) => if n <= narrow { Some(n) } else { None },
            None => None,
        }),
{
    law_get_base_suffix(v);
    let d = spec_get_base(v).0;
    let b = spec_get_base(v).1 as nat;
    lemma_radix_value(d, b, narrow);
    lemma_radix_value(d, b, wide);
}

/// An address made relative to a window at `offset` lies `offset` below the
/// number it was read from, and there is one exactly when the number is not
/// below the window.
pub proof fn law_address_offset(n: nat, offset: u32)
    requires
        n <= u32::MAX,
    ensures
        spec_address(n, offset) is Some <==> n >= offset,
        spec_address(n, offset) matches Some(a) ==> a + offset == n,
{
}

/// Removing leading repetitions of a pattern leaves a suffix of the text.
proof fn lemma_trim_suffix(s: Seq<char>, p: Seq<char>)
    ensures
        exists|k: int| 0 <= k <= s.len() && trim_start_matches(s, p) == s.skip(k),
    decreases s.len(),
{
    if p.len() > 0 && p.is_prefix_of(s) {
        let t = s.skip(p.len() as int);
        lemma_trim_suffix(t, p);
        let k = choose|k: int| 0 <= k <= t.len() && trim_start_matches(t, p) == t.skip(k);
        assert(t.skip(k) =~= s.skip(p.len() + k));
    } else {
        assert(s.skip(0) =~= s);
    }
}

/// The digits that `get_base` leaves are a suffix of the number's text, and
/// the radix is 2, 8, 10 or 16; a decimal number is left as it is.
pub proof fn law_get_base_suffix(v: Seq<char>)
    ensures
        exists|k: int| 0 <= k <= v.len() && spec_get_base(v).0 == v.skip(k),
        spec_get_base(v).1 == 2 || spec_get_base(v).1 == 8 || spec_get_base(v).1 == 10 || spec_get_base(v).1 == 16,
        spec_get_base(v).1 == 10 ==> spec_get_base(v).0 == v,
{
    lemma_trim_suffix(v, seq!['0', 'x']);
    lemma_trim_suffix(v, seq!['0', 'X']);
    lemma_trim_suffix(v, seq!['0', 'b']);
    lemma_trim_suffix(v, seq!['0', 'B']);
    lemma_trim_suffix(v, seq!['0']);
    assert(v.skip(0) =~= v);
}

/// A `0x`, `0X`, `0b` or `0B` prefix selects hexadecimal or binary for the
/// digits after it, where they do not repeat the prefix.
pub proof fn law_prefix_selects_radix(d: Seq<char>, marker: char)
    requires
        marker == 'x' || marker == 'X' || marker == 'b' || marker == 'B',
        !seq!['0', marker].is_prefix_of(d),
    ensures
        spec_parse_number(seq!['0', marker] + d, u32::MAX as nat)
            == radix_value(d, if marker == 'x' || marker == 'X' { 16 } else { 2 }, u32::MAX as nat),
{
    let v = seq!['0', marker] + d;
    assert(seq!['0', marker] =~= v.subrange(0, 2));
    assert(v.skip(2) =~= d);
    assert(trim_start_matches(d, seq!['0', marker]) == d);
    assert(trim_start_matches(v, seq!['0', marker]) == d);
    if marker != 'x' {
        assert(!seq!['0', 'x'].is_prefix_of(v)) by {
            assert(v.subrange(0, 2)[1] == marker);
            assert(seq!['0', 'x'][1] == 'x');
        }
    }
    if marker != 'X' {
        assert(!seq!['0', 'X'].is_prefix_of(v)) by {
            assert(v.subrange(0, 2)[1] == marker);
            assert(seq!['0', 'X'][1] == 'X');
        }
    }
    if marker != 'b' {
        assert(!seq!['0', 'b'].is_prefix_of(v)) by {
            assert(v.subrange(0, 2)[1] == marker);
            assert(seq!['0', 'b'][1] == 'b');
        }
    }
}

/// A decimal digit's character has that value in base ten.
proof fn lemma_digit_char(d: nat)
    requires
        d < 10,
    ensures
        digit_value(digit_char(d), 10) == Some(d),
        digit_char(d) != '+',
        d != 0 ==> digit_char(d) != '0',
{
    assert(((0x30 + d) as char) as u32 == 0x30 + d);
}

/// The decimal numeral of `n`: its digits are decimal digits denoting `n`,
/// and it starts with `0` only for zero itself, written `0`.
proof fn lemma_decimal(n: nat)
    ensures
        decimal(n).len() > 0,
        digits_valid(decimal(n), 10),
        digits_value(decimal(n), 10) == n,
        decimal(n)[0] != '+',
        decimal(n)[0] == '0' ==> n == 0 && decimal(n).len() == 1,
    decreases n,
{
    if n < 10 {
        lemma_digit_char(n);
        let s = decimal(n);
        assert(s.drop_last() =~= Seq::<char>::empty());
        assert(digits_value(s, 10) == digits_value(s.drop_last(), 10) * 10 + n);
    } else {
        lemma_decimal(n / 10);
        lemma_digit_char(n % 10);
        let s = decimal(n);
        let p = decimal(n / 10);
        assert(s.drop_last() =~= p);
        assert(s[0] == p[0]);
        assert forall|i: int| 0 <= i < s.len() implies (#[trigger] digit_value(s[i], 10)) is Some by {
            if i < p.len() {
                assert(s[i] == p[i]);
            }
        }
        assert(s.last() == digit_char(n % 10));
        assert(digits_value(s, 10) == digits_value(p, 10) * 10 + n % 10);
        assert(n == (n / 10) * 10 + n % 10) by (nonlinear_arith);
    }
}

/// The decimal numeral of `n` denotes `n` in base ten.
pub proof fn lemma_decimal_value(n: nat)
    ensures
        digits_value(decimal(n), 10) == n,
{
    lemma_decimal(n);
}

/// A number written in decimal, as register names number their words, reads
/// back as that number.
pub proof fn law_decimal_round_trip(n: u32)
    ensures
        spec_parse_number(decimal(n as nat), u32::MAX as nat) == Some(n as nat),
{
    let s = decimal(n as nat);
    lemma_decimal(n as nat);
    assert(!seq!['0', 'x'].is_prefix_of(s) && !seq!['0', 'X'].is_prefix_of(s)
        && !seq!['0', 'b'].is_prefix_of(s) && !seq!['0', 'B'].is_prefix_of(s)) by {
        if s[0] == '0' {
            assert(s.len() == 1);
        }
    }
    assert(spec_get_base(s) == (s, 10u32));
    assert(unsigned_digits(s) == s);
    lemma_radix_value(s, 10, u32::MAX as nat);
}

/// A digit's character in a radix up to sixteen has that value.
proof fn lemma_numeral_digit(d: nat, radix: nat)
    requires
        d < radix <= 16,
    ensures
        digit_value(numeral_digit(d), radix) == Some(d),
        numeral_digit(d) != '+',
        d != 0 ==> numeral_digit(d) != '0',
        d < 10 ==> numeral_digit(d) != 'x' && numeral_digit(d) != 'X' && numeral_digit(d) != 'b' && numeral_digit(d) != 'B',
{
    if d < 10 {
        assert(((0x30 + d) as char) as u32 == 0x30 + d);
    } else {
        assert(((0x61 + d - 10) as char) as u32 == 0x61 + d - 10);
    }
}

/// The numeral of `n` in `radix`: its digits denote `n`, and it starts with
/// `0` only for zero itself, written `0`.
proof fn lemma_numeral(n: nat, radix: nat)
    requires
        2 <= radix <= 16,
    ensures
        numeral(n, radix).len() > 0,
        digits_valid(numeral(n, radix), radix),
        digits_value(numeral(n, radix), radix) == n,
        numeral(n, radix)[0] != '+',
        radix <= 10 ==> numeral(n, radix)[0] != 'x' && numeral(n, radix)[0] != 'X',
        radix <= 10 ==> numeral(n, radix)[0] != 'b' && numeral(n, radix)[0] != 'B',
        numeral(n, radix)[0] == '0' ==> n == 0 && numeral(n, radix).len() == 1,
    decreases n,
{
    let s = numeral(n, radix);
    if n < radix {
        lemma_numeral_digit(n, radix);
        assert(s == seq![numeral_digit(n)]);
        assert(s.drop_last() =~= Seq::<char>::empty());
        assert(s.last() == numeral_digit(n));
        assert(digits_value(s.drop_last(), radix) == 0);
        assert(digits_value(s, radix) == digits_value(s.drop_last(), radix) * radix + n);
        assert(0 * radix == 0) by (nonlinear_arith);
    } else {
        assert(n / radix < n) by (nonlinear_arith) requires radix >= 2, n >= radix;
        assert(n / radix >= 1) by (nonlinear_arith) requires radix >= 2, n >= radix;
        assert(n % radix < radix) by (nonlinear_arith) requires radix >= 2;
        lemma_numeral(n / radix, radix);
        lemma_numeral_digit(n % radix, radix);
        let p = numeral(n / radix, radix);
        assert(s == p.push(numeral_digit(n % radix)));
        assert(s.drop_last() =~= p);
        assert(s[0] == p[0]);
        assert forall|i: int| 0 <= i < s.len() implies (#[trigger] digit_value(s[i], radix)) is Some by {
            if i < p.len() {
                assert(s[i] == p[i]);
            }
        }
        assert(s.last() == numeral_digit(n % radix));
        assert(digits_value(s, radix) == digits_value(p, radix) * radix + n % radix);
        assert(digits_value(p, radix) == n / radix);
        assert(n == (n / radix) * radix + n % radix) by (nonlinear_arith) requires radix >= 2;
    }
}

/// Hexadecimal and binary numerals behind their prefixes, and octal numerals
/// of non-zero numbers behind a `0`, read back as their numbers.
pub proof fn law_numeral_round_trip(n: u32)
    ensures
        spec_parse_number(seq!['0', 'x'] + numeral(n as nat, 16), u32::MAX as nat) == Some(n as nat),
        spec_parse_number(seq!['0', 'X'] + numeral(n as nat, 16), u32::MAX as nat) == Some(n as nat),
        spec_parse_number(seq!['0', 'b'] + numeral(n as nat, 2), u32::MAX as nat) == Some(n as nat),
        spec_parse_number(seq!['0', 'B'] + numeral(n as nat, 2), u32::MAX as nat) == Some(n as nat),
        n > 0 ==> spec_parse_number(seq!['0'] + numeral(n as nat, 8), u32::MAX as nat) == Some(n as nat),
{
    let h = numeral(n as nat, 16);
    let b = numeral(n as nat, 2);
    lemma_numeral(n as nat, 16);
    lemma_numeral(n as nat, 2);
    lemma_radix_value(h, 16, u32::MAX as nat);
    lemma_radix_value(b, 2, u32::MAX as nat);
    assert(unsigned_digits(h) == h);
    assert(unsigned_digits(b) == b);
    assert(!seq!['0', 'x'].is_prefix_of(h) && !seq!['0', 'X'].is_prefix_of(h)) by {
        if h[0] == '0' {
            assert(h.len() == 1);
        }
    }
    assert(!seq!['0', 'b'].is_prefix_of(b) && !seq!['0', 'B'].is_prefix_of(b)) by {
        if b[0] == '0' {
            assert(b.len() == 1);
        }
    }
    law_prefix_selects_radix(h, 'x');
    law_prefix_selects_radix(h, 'X');
    law_prefix_selects_radix(b, 'b');
    law_prefix_selects_radix(b, 'B');
    if n > 0 {
        let o = numeral(n as nat, 8);
        lemma_numeral(n as nat, 8);
        lemma_radix_value(o, 8, u32::MAX as nat);
        let v = seq!['0'] + o;
        assert(v[1] == o[0]);
        assert(!seq!['0', 'x'].is_prefix_of(v) && !seq!['0', 'X'].is_prefix_of(v)
            && !seq!['0', 'b'].is_prefix_of(v) && !seq!['0', 'B'].is_prefix_of(v)) by {
            assert(v.subrange(0, 2)[1] == o[0]);
            assert(seq!['0', 'x'][1] == 'x' && seq!['0', 'X'][1] == 'X');
            assert(seq!['0', 'b'][1] == 'b' && seq!['0', 'B'][1] == 'B');
        }
        assert(seq!['0'] =~= v.subrange(0, 1));
        assert(v.skip(1) =~= o);
        assert(!seq!['0'].is_prefix_of(o)) by {
            assert(o.subrange(0, 1)[0] == o[0]);
        }
        assert(trim_start_matches(o, seq!['0']) == o);
        assert(trim_start_matches(v, seq!['0']) == o);
        assert(spec_get_base(v) == (o, 8u32));
        assert(unsigned_digits(o) == o);
    }
}

/// An address written in decimal as `a + offset` and read relative to a
/// window at `offset` is `a`.
pub proof fn law_address_of_offset_numeral(a: u32, offset: u32)
    requires
        a + offset <= u32::MAX,
    ensures
        spec_parse_number(decimal((a + offset) as nat), u32::MAX as nat) == Some((a + offset) as nat),
        spec_address((a + offset) as nat, offset) == Some(a),
{
    law_decimal_round_trip((a + offset) as u32);
}

/// The digits of every radix are `0`-`9` worth zero to nine, then the
/// letters worth ten to thirty-five by their place in the alphabet, upper
/// and lower case alike; a character worth the radix or more is no digit.
pub proof fn law_digit_values(i: nat, radix: nat)
    ensures
        i < 10 ==> digit_value((0x30 + i) as char, radix) == (if i < radix { Some(i) } else { None::<nat> }),
        i < 26 ==> digit_value((0x41 + i) as char, radix) == (if 10 + i < radix { Some(10 + i) } else { None::<nat> }),
        i < 26 ==> digit_value((0x61 + i) as char, radix) == (if 10 + i < radix { Some(10 + i) } else { None::<nat> }),
{
    if i < 10 {
        assert(((0x30 + i) as char) as u32 == 0x30 + i);
    }
    if i < 26 {
        assert(((0x41 + i) as char) as u32 == 0x41 + i);
        assert(((0x61 + i) as char) as u32 == 0x61 + i);
    }
}

/// Lowering the case of a character keeps its worth as a digit.
proof fn lemma_digit_case(c: char, radix: nat)
    ensures
        digit_value(ascii_lower_char(c), radix) == digit_value(c, radix),
        ascii_lower_char(c) == '+' <==> c == '+',
        ascii_lower_char(c) == '-' <==> c == '-',
{
    let u = c as u32;
    if 0x41 <= u <= 0x5a {
        assert(((u + 0x20) as char) as u32 == u + 0x20);
    }
}

/// Only `x` and `X` lower to `x`, and only `0` lowers to `0`.
proof fn lemma_lower_x(c: char)
    ensures
        ascii_lower_char(c) == 'x' ==> c == 'x' || c == 'X',
        ascii_lower_char(c) == '0' ==> c == '0',
{
    let u = c as u32;
    if 0x41 <= u <= 0x5a {
        assert(((u + 0x20) as char) as u32 == u + 0x20);
        assert('x' as u32 == 0x78);
        assert('0' as u32 == 0x30);
        if ascii_lower_char(c) == 'x' {
            assert(u == 0x58);
            assert('X' as u32 == 0x58);
        }
    }
}

/// Digits read the same in either case.
proof fn lemma_scan_case(d: Seq<char>, radix: nat, max: nat)
    ensures
        scan_digits(ascii_lowercase(d), radix, max) == scan_digits(d, radix, max),
    decreases d.len(),
{
    if d.len() > 0 {
        let l = ascii_lowercase(d);
        assert(l.drop_last() =~= ascii_lowercase(d.drop_last()));
        assert(l.last() == ascii_lower_char(d.last()));
        lemma_scan_case(d.drop_last(), radix, max);
        lemma_digit_case(d.last(), radix);
    }
}

/// A number reads the same with its letters in upper or lower case, in
/// every radix: the same value, or the same error.
pub proof fn law_digits_either_case(s: Seq<char>, radix: nat, max: nat)
    ensures
        radix_result(ascii_lowercase(s), radix, max) == radix_result(s, radix, max),
{
    let l = ascii_lowercase(s);
    if s.len() > 0 {
        lemma_digit_case(s[0], radix);
        assert(l[0] == ascii_lower_char(s[0]));
        if s[0] == '+' {
            assert(unsigned_digits(l) =~= ascii_lowercase(unsigned_digits(s)));
        } else {
            assert(unsigned_digits(l) == l);
        }
        lemma_scan_case(unsigned_digits(s), radix, max);
    }
}

/// A hexadecimal number after `0x` parses to the same value, or fails the
/// same way, whether its digits are written in upper or lower case.
pub proof fn law_hex_either_case(d: Seq<char>)
    requires
        !seq!['0', 'x'].is_prefix_of(d),
        !seq!['0', 'X'].is_prefix_of(d),
    ensures
        spec_parse_number(seq!['0', 'x'] + d, u32::MAX as nat)
            == spec_parse_number(seq!['0', 'x'] + ascii_lowercase(d), u32::MAX as nat),
{
    let l = ascii_lowercase(d);
    assert(!seq!['0', 'x'].is_prefix_of(l)) by {
        if seq!['0', 'x'].is_prefix_of(l) {
            assert(l.subrange(0, 2)[0] == '0' && l.subrange(0, 2)[1] == 'x');
            assert(l[0] == ascii_lower_char(d[0]) && l[1] == ascii_lower_char(d[1]));
            lemma_lower_x(d[0]);
            lemma_lower_x(d[1]);
            assert(d[0] == '0');
            assert(d[1] == 'x' || d[1] == 'X');
            assert(seq!['0', d[1]] =~= d.subrange(0, 2));
        }
    }
    law_prefix_selects_radix(d, 'x');
    law_prefix_selects_radix(l, 'x');
    law_digits_either_case(d, 16, u32::MAX as nat);
}

} // verus!
