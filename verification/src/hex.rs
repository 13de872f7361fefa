//! Upper-case hexadecimal literals (`0x1A2B3C`) and the proof that they
//! read back as the number they were written from.
use vstd::prelude::*;

verus! {

/// The upper-case hexadecimal digit that stands for `d`, for `d < 16`.
pub open spec fn digit_char(d: nat) -> char {
    if d == 0 {
        '0'
    } else if d == 1 {
        '1'
    } else if d == 2 {
        '2'
    } else if d == 3 {
        '3'
    } else if d == 4 {
        '4'
    } else if d == 5 {
        '5'
    } else if d == 6 {
        '6'
    } else if d == 7 {
        '7'
    } else if d == 8 {
        '8'
    } else if d == 9 {
        '9'
    } else if d == 10 {
        'A'
    } else if d == 11 {
        'B'
    } else if d == 12 {
        'C'
    } else if d == 13 {
        'D'
    } else if d == 14 {
        'E'
    } else {
        'F'
    }
}

/// The value of an upper-case hexadecimal digit, `None` for any other
/// character.
pub open spec fn digit_value(c: char) -> Option<nat> {
    if c == '0' {
        Some(0)
    } else if c == '1' {
        Some(1)
    } else if c == '2' {
        Some(2)
    } else if c == '3' {
        Some(3)
    } else if c == '4' {
        Some(4)
    } else if c == '5' {
        Some(5)
    } else if c == '6' {
        Some(6)
    } else if c == '7' {
        Some(7)
    } else if c == '8' {
        Some(8)
    } else if c == '9' {
        Some(9)
    } else if c == 'A' {
        Some(10)
    } else if c == 'B' {
        Some(11)
    } else if c == 'C' {
        Some(12)
    } else if c == 'D' {
        Some(13)
    } else if c == 'E' {
        Some(14)
    } else if c == 'F' {
        Some(15)
    } else {
        None
    }
}

/// The digits of `n` in base sixteen, most significant first, without
/// leading zeros; zero is the single digit `0`.
pub open spec fn hex_digits(n: nat) -> Seq<char>
    decreases n,
{
    if n < 16 {
        seq![digit_char(n)]
    } else {
        hex_digits(n / 16).push(digit_char(n % 16))
    }
}

/// The literal for `n`: the prefix `0x`, then its digits.
pub open spec fn hex_literal(n: nat) -> Seq<char> {
    seq!['0', 'x'] + hex_digits(n)
}

/// Whether every character of `s` is an upper-case hexadecimal digit.
pub open spec fn all_digits(s: Seq<char>) -> bool {
    forall|i: int| 0 <= i < s.len() ==> (#[trigger] digit_value(s[i])) is Some
}

/// The number that a run of hexadecimal digits denotes, most significant
/// digit first. A character that is no digit counts as zero.
pub open spec fn digits_value(s: Seq<char>) -> nat
    decreases s.len(),
{
    if s.len() == 0 {
        0
    } else {
        let last = match digit_value(s.last()) {
            Some(v) => v,
            None => 0,
        };
        digits_value(s.drop_last()) * 16 + last
    }
}

/// Reads a literal back: `Some` of its value where `s` is `0x` followed by
/// at least one upper-case hexadecimal digit and nothing else.
pub open spec fn parse_hex_literal(s: Seq<char>) -> Option<nat> {
    if s.len() > 2 && s[0] == '0' && s[1] == 'x' && all_digits(s.skip(2)) {
        Some(digits_value(s.skip(2)))
    } else {
        None
    }
}

/// The digits of any number are digits, and denote that number.
pub proof fn lemma_digits_round_trip(n: nat)
    ensures
        hex_digits(n).len() >= 1,
        all_digits(hex_digits(n)),
        digits_value(hex_digits(n)) == n,
    decreases n,
{
    if n < 16 {
        let s = hex_digits(n);
        assert(s.len() == 1);
        assert(s[0] == digit_char(n));
        assert(s.last() == digit_char(n));
        assert(s.drop_last().len() == 0);
        assert(digits_value(s.drop_last()) == 0);
    } else {
        lemma_digits_round_trip(n / 16);
        let head = hex_digits(n / 16);
        let s = head.push(digit_char(n % 16));
        assert(s == hex_digits(n));
        assert(s.last() == digit_char(n % 16));
        assert(s.drop_last() == head);
        assert forall|i: int| 0 <= i < s.len() implies (#[trigger] digit_value(s[i])) is Some by {
            if i < head.len() {
                assert(s[i] == head[i]);
            }
        }
    }
}

/// Every literal reads back as the number it was written from.
pub proof fn lemma_hex_literal_round_trip(n: nat)
    ensures
        parse_hex_literal(hex_literal(n)) == Some(n),
{
    lemma_digits_round_trip(n);
    let s = hex_literal(n);
    assert(s.skip(2) == hex_digits(n));
}

/// Two numbers with the same literal are the same number.
pub proof fn lemma_hex_literal_injective(a: nat, b: nat)
    requires
        hex_literal(a) == hex_literal(b),
    ensures
        a == b,
{
    lemma_hex_literal_round_trip(a);
    lemma_hex_literal_round_trip(b);
}

fn digit(d: usize) -> (c: char)
    requires
        d < 16,
    ensures
        c == digit_char(d as nat),
{
    if d == 0 {
        '0'
    } else if d == 1 {
        '1'
    } else if d == 2 {
        '2'
    } else if d == 3 {
        '3'
    } else if d == 4 {
        '4'
    } else if d == 5 {
        '5'
    } else if d == 6 {
        '6'
    } else if d == 7 {
        '7'
    } else if d == 8 {
        '8'
    } else if d == 9 {
        '9'
    } else if d == 10 {
        'A'
    } else if d == 11 {
        'B'
    } else if d == 12 {
        'C'
    } else if d == 13 {
        'D'
    } else if d == 14 {
        'E'
    } else {
        'F'
    }
}

/// The digits of `n`, least significant first.
spec fn digits_reversed(n: nat) -> Seq<char>
    decreases n,
{
    if n < 16 {
        seq![digit_char(n)]
    } else {
        seq![digit_char(n % 16)] + digits_reversed(n / 16)
    }
}

proof fn lemma_digits_reversed(n: nat)
    ensures
        digits_reversed(n).reverse() == hex_digits(n),
    decreases n,
{
    if n >= 16 {
        lemma_digits_reversed(n / 16);
        let tail = digits_reversed(n / 16);
        let all = seq![digit_char(n % 16)] + tail;
        assert(all.reverse() =~= tail.reverse().push(digit_char(n % 16)));
    } else {
        assert(seq![digit_char(n)].reverse() =~= seq![digit_char(n)]);
    }
}

/// Appends the literal for `value` to `out`.
pub fn push_hex(out: &mut String, value: usize)
    ensures
        final(out)@ == old(out)@ + hex_literal(value as nat),
{
    let mut low_first: Vec<char> = Vec::new();
    let mut rest: usize = value;
    while rest >= 16
        invariant
            low_first@ + digits_reversed(rest as nat) == digits_reversed(value as nat),
        decreases rest,
    {
        low_first.push(digit(rest % 16));
        assert(low_first@ + digits_reversed((rest / 16) as nat) =~= low_first@.drop_last()
            + digits_reversed(rest as nat));
        rest = rest / 16;
    }
    low_first.push(digit(rest));
    assert(low_first@ =~= low_first@.drop_last() + digits_reversed(rest as nat));
    out.push('0');
    out.push('x');
    let ghost before = out@;
    let mut i: usize = low_first.len();
    while i > 0
        invariant
            i <= low_first.len(),
            out@ == before + low_first@.skip(i as int).reverse(),
        decreases i,
    {
        i -= 1;
        out.push(low_first[i]);
        assert(low_first@.skip(i as int).reverse() =~= low_first@.skip(i + 1).reverse().push(
            low_first@[i as int],
        ));
    }
    proof {
        assert(low_first@.skip(0) == low_first@);
        lemma_digits_reversed(value as nat);
        assert(out@ =~= old(out)@ + hex_literal(value as nat));
    }
}

/// The literal for `value` as a string of its own.
pub fn hex_upper(value: usize) -> (r: String)
    ensures
        r@ == hex_literal(value as nat),
{
    let mut out = String::new();
    push_hex(&mut out, value);
    out
}

} // verus!
