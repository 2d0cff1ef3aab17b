//! Integer parsing with the rules of Rust's `from_str_radix`: an optional
//! sign (`-` only for signed types), at least one digit, no other characters,
//! and no value outside the target type.
use vstd::prelude::*;

use crate::text::{cased_digit_char, decimal_chars, digit_char, hex_chars, hex_text, zero_pad};

verus! {

/// The value of `c` as a digit: `0`-`9`, then `a`-`z` or `A`-`Z` for 10 to 35.
pub open spec fn digit_value(c: char) -> Option<nat> {
    if '0' <= c && c <= '9' {
        Some((c as nat - '0' as nat) as nat)
    } else if 'a' <= c && c <= 'z' {
        Some((c as nat - 'a' as nat + 10) as nat)
    } else if 'A' <= c && c <= 'Z' {
        Some((c as nat - 'A' as nat + 10) as nat)
    } else {
        None
    }
}

/// The number written by `s` in `radix`, most significant digit first, or
/// `None` if some character is not a digit below `radix`.
pub open spec fn digits_value(s: Seq<char>, radix: nat) -> Option<nat>
    decreases s.len(),
{
    if s.len() == 0 {
        Some(0)
    } else {
        match (digits_value(s.drop_last(), radix), digit_value(s.last())) {
            (Some(v), Some(d)) => if d < radix {
                Some(v * radix + d)
            } else {
                None
            },
            _ => None,
        }
    }
}

/// `c` is a digit of `radix`.
pub open spec fn is_radix_digit(c: char, radix: nat) -> bool {
    match digit_value(c) {
        Some(d) => d < radix,
        None => false,
    }
}

/// The value of an unsigned numeral: an optional `+`, then one or more digits.
pub open spec fn unsigned_numeral(s: Seq<char>, radix: nat) -> Option<nat> {
    let body = if s.len() > 0 && s[0] == '+' {
        s.drop_first()
    } else {
        s
    };
    if body.len() == 0 {
        None
    } else {
        digits_value(body, radix)
    }
}

/// What parsing `s` as an unsigned integer type with largest value `max` gives.
pub open spec fn parsed_unsigned(s: Seq<char>, radix: nat, max: nat) -> Option<nat> {
    match unsigned_numeral(s, radix) {
        Some(v) => if v <= max {
            Some(v)
        } else {
            None
        },
        None => None,
    }
}

/// What parsing `s` in decimal as an `i32` gives: an optional `+` or `-`, then digits.
pub open spec fn parsed_i32(s: Seq<char>) -> Option<int> {
    if s.len() > 0 && s[0] == '-' {
        let body = s.drop_first();
        if body.len() == 0 {
            None
        } else {
            match digits_value(body, 10) {
                Some(v) => if v <= 0x8000_0000 {
                    Some(-v)
                } else {
                    None
                },
                None => None,
            }
        }
    } else {
        match parsed_unsigned(s, 10, 0x7FFF_FFFF) {
            Some(v) => Some(v as int),
            None => None,
        }
    }
}

proof fn lemma_digits_value_grows(s: Seq<char>, n: int, radix: nat)
    requires
        0 <= n <= s.len(),
        radix >= 1,
        digits_value(s, radix) is Some,
    ensures
        digits_value(s.take(n), radix) is Some,
        digits_value(s.take(n), radix)->0 <= digits_value(s, radix)->0,
    decreases s.len() - n,
{
    if n == s.len() {
        assert(s.take(n) =~= s);
    } else {
        lemma_digits_value_grows(s, n + 1, radix);
        let t = s.take(n + 1);
        assert(t.drop_last() =~= s.take(n));
        let v = digits_value(s.take(n), radix)->0;
        let d = digit_value(t.last())->0;
        assert(v <= v * radix + d) by (nonlinear_arith)
            requires
                radix >= 1,
        ;
    }
}

/// Parses the digits `chars[start..]` in `radix`; `None` when a character is
/// not a digit or the value exceeds `limit`.
fn digits_up_to(chars: &Vec<char>, start: usize, radix: u64, limit: u64) -> (r: Option<u64>)
    requires
        start <= chars@.len(),
        radix == 10 || radix == 16,
    ensures
        r matches Some(v) ==> digits_value(chars@.skip(start as int), radix as nat) == Some(
            v as nat,
        ) && v <= limit,
        r is None ==> match digits_value(chars@.skip(start as int), radix as nat) {
            Some(v) => v > limit,
            None => true,
        },
{
    let ghost body = chars@.skip(start as int);
    let mut acc: u64 = 0;
    let mut i: usize = start;
    assert(body.take(0) =~= seq![]);
    while i < chars.len()
        invariant
            start <= i <= chars@.len(),
            body == chars@.skip(start as int),
            radix == 10 || radix == 16,
            digits_value(body.take(i - start), radix as nat) == Some(acc as nat),
            acc <= limit,
        decreases chars.len() - i,
    {
        let c = chars[i];
        let ghost prefix = body.take(i - start + 1);
        assert(prefix.drop_last() =~= body.take(i - start));
        assert(prefix.last() == c);
        let d: u64 = match char_digit(c) {
            Some(d) => d,
            None => {
                proof {
                    lemma_invalid_prefix(body, i - start + 1, radix as nat);
                }
                return None;
            },
        };
        if d >= radix {
            proof {
                lemma_invalid_prefix(body, i - start + 1, radix as nat);
            }
            return None;
        }
        if d > limit {
            proof {
                assert(acc * radix + d > limit) by (nonlinear_arith)
                    requires
                        d > limit,
                        acc >= 0,
                        radix > 0,
                ;
                if digits_value(body, radix as nat) is Some {
                    lemma_digits_value_grows(body, i - start + 1, radix as nat);
                }
            }
            return None;
        }
        let room: u64 = limit - d;
        let q: u64 = room / radix;
        if acc > q {
            proof {
                lemma_quotient_bound(acc as int, room as int, radix as int, q as int);
                if digits_value(body, radix as nat) is Some {
                    lemma_digits_value_grows(body, i - start + 1, radix as nat);
                }
            }
            return None;
        }
        proof {
            assert(acc * radix <= room) by (nonlinear_arith)
                requires
                    acc <= q,
                    q == room / radix,
                    radix > 0,
            ;
        }
        acc = acc * radix + d;
        i = i + 1;
    }
    assert(body.take(i - start) =~= body);
    Some(acc)
}

proof fn lemma_quotient_bound(acc: int, room: int, radix: int, q: int)
    requires
        acc > q,
        q == room / radix,
        room >= 0,
        radix > 0,
    ensures
        acc * radix > room,
{
    assert(acc * radix >= (q + 1) * radix) by (nonlinear_arith)
        requires
            acc >= q + 1,
            radix > 0,
    ;
    assert((q + 1) * radix > room) by (nonlinear_arith)
        requires
            q == room / radix,
            radix > 0,
            room >= 0,
    ;
}

proof fn lemma_invalid_prefix(body: Seq<char>, n: int, radix: nat)
    requires
        0 < n <= body.len(),
        radix >= 1,
        digits_value(body.take(n), radix) is None,
    ensures
        digits_value(body, radix) is None,
{
    if digits_value(body, radix) is Some {
        lemma_digits_value_grows(body, n, radix);
    }
}

/// The digit value of `c` (see `digit_value`).
fn char_digit(c: char) -> (d: Option<u64>)
    ensures
        d matches Some(v) ==> digit_value(c) == Some(v as nat),
        d is None ==> digit_value(c) is None,
{
    if '0' <= c && c <= '9' {
        Some((c as u32 - '0' as u32) as u64)
    } else if 'a' <= c && c <= 'z' {
        Some((c as u32 - 'a' as u32 + 10) as u64)
    } else if 'A' <= c && c <= 'Z' {
        Some((c as u32 - 'A' as u32 + 10) as u64)
    } else {
        None
    }
}

/// Parses an unsigned numeral in `radix` no greater than `max`.
pub fn parse_unsigned_chars(chars: &Vec<char>, radix: u64, max: u64) -> (r: Option<u64>)
    requires
        radix == 10 || radix == 16,
    ensures
        r matches Some(v) ==> parsed_unsigned(chars@, radix as nat, max as nat) == Some(v as nat),
        r is None ==> parsed_unsigned(chars@, radix as nat, max as nat) is None,
{
    let start: usize = if chars.len() > 0 && chars[0] == '+' {
        1
    } else {
        0
    };
    assert(chars@.skip(start as int) =~= if chars@.len() > 0 && chars@[0] == '+' {
        chars@.drop_first()
    } else {
        chars@
    });
    if start >= chars.len() {
        return None;
    }
    digits_up_to(chars, start, radix, max)
}

/// Parses a decimal `i32` numeral.
pub fn parse_i32_chars(chars: &Vec<char>) -> (r: Option<i32>)
    ensures
        r matches Some(v) ==> parsed_i32(chars@) == Some(v as int),
        r is None ==> parsed_i32(chars@) is None,
{
    if chars.len() > 0 && chars[0] == '-' {
        assert(chars@.skip(1) =~= chars@.drop_first());
        if chars.len() == 1 {
            return None;
        }
        match digits_up_to(chars, 1, 10, 0x8000_0000) {
            Some(v) => {
                let signed: i64 = -(v as i64);
                Some(signed as i32)
            },
            None => None,
        }
    } else {
        match parse_unsigned_chars(chars, 10, 0x7FFF_FFFF) {
            Some(v) => Some(v as i32),
            None => None,
        }
    }
}

} // verus!

verus! {

/// A numeral of zeros only is worth 0.
proof fn lemma_zeros_value(zeros: nat, radix: nat)
    requires
        radix >= 1,
    ensures
        digits_value(Seq::new(zeros, |i: int| '0'), radix) == Some(0nat),
    decreases zeros,
{
    let z = Seq::new(zeros, |i: int| '0');
    if zeros > 0 {
        lemma_zeros_value((zeros - 1) as nat, radix);
        assert(z.drop_last() =~= Seq::new((zeros - 1) as nat, |i: int| '0'));
        assert(z.last() == '0');
        assert(digit_value('0') == Some(0nat));
        assert(digits_value(z.drop_last(), radix) == Some(0nat));
        assert(0 * radix + 0 == 0) by (nonlinear_arith);
    } else {
        assert(z.len() == 0);
    }
}

/// Leading zeros do not change the value of a numeral.
pub proof fn lemma_leading_zeros(zeros: nat, s: Seq<char>, radix: nat)
    requires
        radix >= 1,
        s.len() > 0,
    ensures
        digits_value(Seq::new(zeros, |i: int| '0') + s, radix) == digits_value(s, radix),
    decreases s.len(),
{
    let z = Seq::new(zeros, |i: int| '0');
    if s.len() == 1 {
        lemma_zeros_value(zeros, radix);
        assert((z + s).drop_last() =~= z);
        assert(s.drop_last() =~= Seq::<char>::empty());
        assert(digits_value(Seq::<char>::empty(), radix) == Some(0nat));
        assert(digits_value(s.drop_last(), radix) == Some(0nat));
        assert(digits_value((z + s).drop_last(), radix) == Some(0nat));
        assert((z + s).last() == s.last());
    } else {
        lemma_leading_zeros(zeros, s.drop_last(), radix);
        assert((z + s).drop_last() =~= z + s.drop_last());
        assert((z + s).last() == s.last());
    }
}

proof fn lemma_digit_roundtrip(d: nat, upper: bool)
    requires
        d < 16,
    ensures
        digit_value(cased_digit_char(d, upper)) == Some(d),
{
    if d < 10 {
        assert(((d + 48) as char) as nat == d + 48);
    } else if upper {
        assert(((d + 55) as char) as nat == d + 55);
    } else {
        assert(((d + 87) as char) as nat == d + 87);
    }
}

/// The decimal digits of `n` read back as `n`.
pub proof fn lemma_decimal_roundtrip(n: nat)
    ensures
        digits_value(decimal_chars(n), 10) == Some(n),
        decimal_chars(n).len() > 0,
    decreases n,
{
    lemma_digit_roundtrip(n % 10, true);
    assert(cased_digit_char(n % 10, true) == digit_char(n % 10));
    assert((n / 10) * 10 + n % 10 == n) by (nonlinear_arith);
    if n < 10 {
        assert(decimal_chars(n).drop_last() =~= Seq::<char>::empty());
        assert(digits_value(Seq::<char>::empty(), 10) == Some(0nat));
        assert(decimal_chars(n).last() == digit_char(n));
    } else {
        lemma_decimal_roundtrip(n / 10);
        assert(decimal_chars(n).drop_last() =~= decimal_chars(n / 10));
        assert(decimal_chars(n).last() == digit_char(n % 10));
    }
}

/// The hexadecimal digits of `n`, in either case, read back as `n`.
pub proof fn lemma_hex_roundtrip(n: nat, upper: bool)
    ensures
        digits_value(hex_chars(n, upper), 16) == Some(n),
        hex_chars(n, upper).len() > 0,
    decreases n,
{
    lemma_digit_roundtrip(n % 16, upper);
    assert((n / 16) * 16 + n % 16 == n) by (nonlinear_arith);
    if n < 16 {
        assert(hex_chars(n, upper).drop_last() =~= Seq::<char>::empty());
        assert(digits_value(Seq::<char>::empty(), 16) == Some(0nat));
        assert(hex_chars(n, upper).last() == cased_digit_char(n, upper));
    } else {
        lemma_hex_roundtrip(n / 16, upper);
        assert(hex_chars(n, upper).drop_last() =~= hex_chars(n / 16, upper));
        assert(hex_chars(n, upper).last() == cased_digit_char(n % 16, upper));
    }
}

/// Zero padding does not change what a numeral is worth.
pub proof fn lemma_zero_pad_value(s: Seq<char>, width: nat, radix: nat)
    requires
        radix >= 1,
        s.len() > 0,
    ensures
        digits_value(zero_pad(s, width), radix) == digits_value(s, radix),
        zero_pad(s, width).len() > 0,
{
    if s.len() < width {
        lemma_leading_zeros((width - s.len()) as nat, s, radix);
    }
}

} // verus!

verus! {

/// Every character of a hexadecimal rendering is a digit below 16.
pub proof fn lemma_hex_chars_are_digits(n: nat, upper: bool)
    ensures
        forall|i: int|
            0 <= i < hex_chars(n, upper).len() ==> is_radix_digit(#[trigger] hex_chars(n, upper)[i], 16),
    decreases n,
{
    lemma_digit_roundtrip(n % 16, upper);
    if n >= 16 {
        lemma_hex_chars_are_digits(n / 16, upper);
        assert forall|i: int| 0 <= i < hex_chars(n, upper).len() implies is_radix_digit(
            #[trigger] hex_chars(n, upper)[i],
            16,
        ) by {
            if i < hex_chars(n, upper).len() - 1 {
                assert(hex_chars(n, upper)[i] == hex_chars(n / 16, upper)[i]);
            }
        }
    } else {
        lemma_digit_roundtrip(n, upper);
    }
}

/// Every character of a zero-padded hexadecimal rendering is a digit below 16.
pub proof fn lemma_hex_text_digits(n: nat, width: nat, upper: bool)
    ensures
        forall|i: int|
            0 <= i < hex_text(n, width, upper).len() ==> is_radix_digit(
                #[trigger] hex_text(n, width, upper)[i],
                16,
            ),
        digits_value(hex_text(n, width, upper), 16) == Some(n),
        hex_text(n, width, upper).len() > 0,
{
    lemma_hex_chars_are_digits(n, upper);
    lemma_hex_roundtrip(n, upper);
    lemma_zero_pad_value(hex_chars(n, upper), width, 16);
    let h = hex_chars(n, upper);
    let t = hex_text(n, width, upper);
    assert forall|i: int| 0 <= i < t.len() implies is_radix_digit(#[trigger] t[i], 16) by {
        if h.len() < width {
            let pad = (width - h.len()) as nat;
            if i < pad {
                assert(t[i] == '0');
            } else {
                assert(t[i] == h[i - pad]);
            }
        }
    }
}

/// Every character of a decimal rendering, zero padded or not, is a decimal digit.
pub proof fn lemma_decimal_digits(n: nat)
    ensures
        forall|i: int|
            0 <= i < decimal_chars(n).len() ==> is_radix_digit(#[trigger] decimal_chars(n)[i], 10),
        forall|w: nat, i: int|
            0 <= i < zero_pad(decimal_chars(n), w).len() ==> is_radix_digit(
                #[trigger] zero_pad(decimal_chars(n), w)[i],
                10,
            ),
    decreases n,
{
    lemma_digit_roundtrip(n % 10, true);
    assert(cased_digit_char(n % 10, true) == digit_char(n % 10));
    if n >= 10 {
        lemma_decimal_digits(n / 10);
        assert forall|i: int| 0 <= i < decimal_chars(n).len() implies is_radix_digit(
            #[trigger] decimal_chars(n)[i],
            10,
        ) by {
            if i < decimal_chars(n).len() - 1 {
                assert(decimal_chars(n)[i] == decimal_chars(n / 10)[i]);
            }
        }
    }
    let d = decimal_chars(n);
    assert forall|w: nat, i: int| 0 <= i < zero_pad(d, w).len() implies is_radix_digit(
        #[trigger] zero_pad(d, w)[i],
        10,
    ) by {
        if d.len() < w {
            let pad = (w - d.len()) as nat;
            if i < pad {
                assert(zero_pad(d, w)[i] == '0');
                assert(digit_value('0') == Some(0nat));
            } else {
                assert(zero_pad(d, w)[i] == d[i - pad]);
            }
        }
    }
}

} // verus!
