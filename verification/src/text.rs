//! Text building blocks: decimal and hexadecimal renderings of integers,
//! zero padding, and conversions between strings and character vectors.
use vstd::prelude::*;

verus! {

/// The upper-case digit that stands for `d` in any radix up to 16.
pub open spec fn digit_char(d: nat) -> char {
    if d < 10 {
        (d + 48) as char
    } else {
        (d + 55) as char
    }
}

/// The decimal digits of `n`, most significant first, without leading zeros.
pub open spec fn decimal_chars(n: nat) -> Seq<char>
    decreases n,
{
    if n < 10 {
        seq![digit_char(n)]
    } else {
        decimal_chars(n / 10).push(digit_char(n % 10))
    }
}

/// The digit that stands for `d`, in upper or lower case.
pub open spec fn cased_digit_char(d: nat, upper: bool) -> char {
    if d < 10 || upper {
        digit_char(d)
    } else {
        (d + 87) as char
    }
}

/// The hexadecimal digits of `n`, most significant first, without leading
/// zeros, in upper or lower case.
pub open spec fn hex_chars(n: nat, upper: bool) -> Seq<char>
    decreases n,
{
    if n < 16 {
        seq![cased_digit_char(n, upper)]
    } else {
        hex_chars(n / 16, upper).push(cased_digit_char(n % 16, upper))
    }
}

/// `s` with zeros in front until it is at least `width` characters long.
pub open spec fn zero_pad(s: Seq<char>, width: nat) -> Seq<char> {
    if s.len() >= width {
        s
    } else {
        Seq::new((width - s.len()) as nat, |i: int| '0') + s
    }
}

/// Hexadecimal rendering of `n`, zero padded to `width` digits.
pub open spec fn hex_text(n: nat, width: nat, upper: bool) -> Seq<char> {
    zero_pad(hex_chars(n, upper), width)
}

/// Decimal rendering of a signed integer, with a leading `-` when negative.
pub open spec fn signed_decimal_chars(i: int) -> Seq<char> {
    if i < 0 {
        seq!['-'] + decimal_chars((-i) as nat)
    } else {
        decimal_chars(i as nat)
    }
}

fn cased_digit(d: u8, upper: bool) -> (c: char)
    requires
        d < 16,
    ensures
        c == cased_digit_char(d as nat, upper),
{
    if d < 10 || upper {
        digit_to_char(d)
    } else {
        (d + 87) as char
    }
}

pub fn digit_to_char(d: u8) -> (c: char)
    requires
        d < 16,
    ensures
        c == digit_char(d as nat),
{
    if d < 10 {
        (d + 48) as char
    } else {
        (d + 55) as char
    }
}

/// Appends one character by calling std's `String::push`. Its contract is
/// trusted, not proved: std documents `push` as appending the given `char` to
/// the end of the string, so the characters afterwards are those before,
/// followed by `c`.
#[verifier::external_body]
pub(crate) fn push_char(s: &mut String, c: char)
    ensures
        final(s)@ == old(s)@.push(c),
{
    s.push(c);
}

/// Appends the decimal digits of `n`.
pub fn push_decimal(s: &mut String, n: u128)
    ensures
        final(s)@ == old(s)@ + decimal_chars(n as nat),
    decreases n,
{
    let ghost before = s@;
    if n >= 10 {
        push_decimal(s, n / 10);
    }
    let d: u8 = (n % 10) as u8;
    push_char(s, digit_to_char(d));
    proof {
        if n >= 10 {
            assert((before + decimal_chars((n / 10) as nat)).push(digit_char(d as nat)) =~= before
                + decimal_chars((n / 10) as nat).push(digit_char(d as nat)));
        } else {
            assert(before.push(digit_char(d as nat)) =~= before + seq![digit_char(n as nat)]);
        }
    }
}

/// Appends the decimal rendering of a signed integer.
pub fn push_signed_decimal(s: &mut String, i: i64)
    ensures
        final(s)@ == old(s)@ + signed_decimal_chars(i as int),
{
    let ghost before = s@;
    if i < 0 {
        push_char(s, '-');
        let magnitude: u64 = if i == i64::MIN {
            9223372036854775808u64
        } else {
            (-i) as u64
        };
        push_decimal(s, magnitude as u128);
        assert(before.push('-') + decimal_chars(magnitude as nat) =~= before + (seq!['-']
            + decimal_chars(magnitude as nat)));
    } else {
        push_decimal(s, i as u128);
    }
}

/// Appends the hexadecimal digits of `n`, without padding.
pub fn push_hex_digits(s: &mut String, n: u64, upper: bool)
    ensures
        final(s)@ == old(s)@ + hex_chars(n as nat, upper),
    decreases n,
{
    let ghost before = s@;
    if n >= 16 {
        push_hex_digits(s, n / 16, upper);
    }
    let d: u8 = (n % 16) as u8;
    push_char(s, cased_digit(d, upper));
    proof {
        if n >= 16 {
            assert((before + hex_chars((n / 16) as nat, upper)).push(
                cased_digit_char(d as nat, upper),
            ) =~= before + hex_chars((n / 16) as nat, upper).push(
                cased_digit_char(d as nat, upper),
            ));
        } else {
            assert(before.push(cased_digit_char(d as nat, upper)) =~= before + seq![
                cased_digit_char(n as nat, upper),
            ]);
        }
    }
}

/// Appends the hexadecimal rendering of `n`, zero padded to `width` digits.
pub fn push_hex(s: &mut String, n: u64, width: usize, upper: bool)
    ensures
        final(s)@ == old(s)@ + hex_text(n as nat, width as nat, upper),
{
    let len = hex_len(n, upper);
    let ghost before = s@;
    if len < width {
        let pad: usize = width - len;
        let mut i: usize = 0;
        while i < pad
            invariant
                i <= pad,
                s@ =~= before + Seq::new(i as nat, |j: int| '0'),
            decreases pad - i,
        {
            push_char(s, '0');
            i = i + 1;
            assert(s@ =~= before + Seq::new(i as nat, |j: int| '0'));
        }
        push_hex_digits(s, n, upper);
        assert(s@ =~= before + hex_text(n as nat, width as nat, upper));
    } else {
        push_hex_digits(s, n, upper);
    }
}

/// Number of hexadecimal digits of `n`.
pub fn hex_len(n: u64, upper: bool) -> (len: usize)
    ensures
        len == hex_chars(n as nat, upper).len(),
        1 <= len <= 16,
    decreases n,
{
    if n < 16 {
        1
    } else {
        proof {
            lemma_hex_len_bound(n as nat, upper);
        }
        1 + hex_len(n / 16, upper)
    }
}

proof fn lemma_hex_len_bound(n: nat, upper: bool)
    requires
        n < 0x1_0000_0000_0000_0000,
    ensures
        1 <= hex_chars(n, upper).len() <= 16,
{
    reveal_with_fuel(pow16, 17);
    assert(pow16(16) == 0x1_0000_0000_0000_0000);
    lemma_hex_len_small_k(n, 15, upper);
    lemma_hex_len_positive(n, upper);
}

proof fn lemma_hex_len_positive(n: nat, upper: bool)
    ensures
        1 <= hex_chars(n, upper).len(),
    decreases n,
{
    if n >= 16 {
        lemma_hex_len_positive(n / 16, upper);
    }
}

/// `n < 16^(k+1)` bounds the digit count by `k + 1`.
pub proof fn lemma_hex_len_small_k(n: nat, k: nat, upper: bool)
    requires
        n < pow16(k + 1),
    ensures
        hex_chars(n, upper).len() <= k + 1,
    decreases n,
{
    if n >= 16 {
        if k == 0 {
            assert(pow16(1) == 16 * pow16(0));
        } else {
            assert(pow16(k + 1) == 16 * pow16(k));
            assert(n / 16 < pow16(k));
            lemma_hex_len_small_k(n / 16, (k - 1) as nat, upper);
        }
    }
}

pub open spec fn pow16(k: nat) -> nat
    decreases k,
{
    if k == 0 {
        1
    } else {
        16 * pow16((k - 1) as nat)
    }
}

} // verus!

verus! {

/// The characters of `s`, in order.
pub fn str_chars(s: &str) -> (chars: Vec<char>)
    ensures
        chars@ == s@,
{
    broadcast use vstd::string::group_string_axioms;

    let mut chars: Vec<char> = Vec::new();
    for c in it: s.chars()
        invariant
            chars@ == it.seq().take(it.index() as int),
            it.seq() == s@,
    {
        chars.push(c);
    }
    chars
}

} // verus!

verus! {

/// Appends the decimal digits of `n`, zero padded to `width` digits.
pub fn push_decimal_padded(s: &mut String, n: u128, width: usize)
    ensures
        final(s)@ == old(s)@ + zero_pad(decimal_chars(n as nat), width as nat),
{
    let mut digits = String::new();
    push_decimal(&mut digits, n);
    assert(digits@ =~= decimal_chars(n as nat));
    let len = digits.as_str().unicode_len();
    let ghost before = s@;
    if len < width {
        let pad: usize = width - len;
        let mut i: usize = 0;
        while i < pad
            invariant
                i <= pad,
                s@ =~= before + Seq::new(i as nat, |j: int| '0'),
            decreases pad - i,
        {
            push_char(s, '0');
            i = i + 1;
            assert(s@ =~= before + Seq::new(i as nat, |j: int| '0'));
        }
    }
    s.append(digits.as_str());
    assert(s@ =~= before + zero_pad(decimal_chars(n as nat), width as nat));
}

} // verus!
