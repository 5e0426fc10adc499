//! ASCII text on the wire: literal fragments, decimal numbers, and comparisons.
use vstd::prelude::*;

verus! {

/// The bytes of an ASCII text.
pub open spec fn ascii(text: Seq<char>) -> Seq<u8> {
    text.map_values(|c: char| c as u8)
}

/// The decimal digits of `n`, most significant first and without leading zeros.
pub open spec fn decimal(n: nat) -> Seq<u8>
    decreases n,
{
    if n < 10 {
        seq![('0' as u8 + n) as u8]
    } else {
        decimal(n / 10).push(('0' as u8 + n % 10) as u8)
    }
}

/// Whether `b` is one of the characters `0` to `9`.
pub open spec fn is_digit(b: u8) -> bool {
    '0' as u8 <= b <= '9' as u8
}

/// Whether every byte is a decimal digit.
pub open spec fn all_digits(s: Seq<u8>) -> bool {
    forall|i: int| 0 <= i < s.len() ==> is_digit(#[trigger] s[i])
}

/// The number that a string of decimal digits denotes.
pub open spec fn digits_value(s: Seq<u8>) -> nat
    decreases s.len(),
{
    if s.len() == 0 {
        0
    } else {
        digits_value(s.drop_last()) * 10 + (s.last() - '0' as u8) as nat
    }
}

/// Reads an unsigned decimal number of at most `max`: an optional `+`, then one
/// or more digits and nothing else. Leading zeros do not count.
pub open spec fn number(s: Seq<u8>, max: nat) -> Option<nat> {
    let digits = if s.len() > 0 && s[0] == '+' as u8 {
        s.skip(1)
    } else {
        s
    };
    if digits.len() > 0 && all_digits(digits) && digits_value(digits) <= max {
        Some(digits_value(digits))
    } else {
        None
    }
}

proof fn lemma_digits_value_prefix(s: Seq<u8>, n: int)
    requires
        0 <= n <= s.len(),
        all_digits(s),
    ensures
        digits_value(s.take(n)) <= digits_value(s),
    decreases s.len() - n,
{
    if n == s.len() {
        assert(s.take(n) =~= s);
    } else {
        lemma_digits_value_prefix(s, n + 1);
        assert(s.take(n + 1).drop_last() =~= s.take(n));
    }
}

/// Appends the bytes of an ASCII text.
pub(crate) fn push_text(out: &mut Vec<u8>, text: &str)
    requires
        text.is_ascii(),
    ensures
        final(out)@ == old(out)@ + ascii(text@),
{
    let bytes = text.as_bytes();
    assert(bytes@ =~= ascii(text@));
    push_bytes(out, bytes);
}

/// Appends bytes.
pub(crate) fn push_bytes(out: &mut Vec<u8>, bytes: &[u8])
    ensures
        final(out)@ == old(out)@ + bytes@,
{
    out.extend_from_slice(bytes);
    assert(out@ =~= old(out)@ + bytes@);
}

/// Appends `n` in decimal.
pub(crate) fn push_decimal(out: &mut Vec<u8>, n: u64)
    ensures
        final(out)@ == old(out)@ + decimal(n as nat),
    decreases n,
{
    if n >= 10 {
        push_decimal(out, n / 10);
    }
    out.push('0' as u8 + (n % 10) as u8);
    assert(out@ =~= old(out)@ + decimal(n as nat));
}

/// Whether `bytes` spell the ASCII text `text`.
pub(crate) fn is_text(bytes: &[u8], text: &str) -> (r: bool)
    requires
        text.is_ascii(),
    ensures
        r == (bytes@ == ascii(text@)),
{
    let wanted = text.as_bytes();
    assert(wanted@ =~= ascii(text@));
    if bytes.len() != wanted.len() {
        return false;
    }
    for i in 0..bytes.len()
        invariant
            bytes@.len() == wanted@.len(),
            wanted@ == ascii(text@),
            forall|j: int| 0 <= j < i ==> bytes@[j] == wanted@[j],
    {
        if bytes[i] != wanted[i] {
            return false;
        }
    }
    assert(bytes@ =~= wanted@);
    true
}

/// Reads an unsigned decimal number of at most `max`, as [`number`] says.
pub(crate) fn read_number(bytes: &[u8], max: u32) -> (r: Option<u32>)
    ensures
        match r {
            Some(n) => number(bytes@, max as nat) == Some(n as nat),
            None => number(bytes@, max as nat) is None,
        },
{
    let start: usize = if bytes.len() > 0 && bytes[0] == '+' as u8 {
        1
    } else {
        0
    };
    let ghost digits = bytes@.skip(start as int);
    assert(start == 0 ==> digits =~= bytes@);
    if start == bytes.len() {
        return None;
    }
    let mut value: u64 = 0;
    for i in start..bytes.len()
        invariant
            start <= bytes@.len(),
            digits == bytes@.skip(start as int),
            value <= max,
            all_digits(digits.take(i - start)),
            value == digits_value(digits.take(i - start)),
            number(bytes@, max as nat) == (if digits.len() > 0 && all_digits(digits)
                && digits_value(digits) <= max {
                Some(digits_value(digits))
            } else {
                None
            }),
    {
        let b = bytes[i];
        assert(b == digits[i - start]);
        if b < '0' as u8 || b > '9' as u8 {
            return None;
        }
        proof {
            let next = digits.take(i - start + 1);
            assert(next.drop_last() =~= digits.take(i - start));
            assert(next.last() == b);
        }
        value = value * 10 + (b - '0' as u8) as u64;
        if value > max as u64 {
            proof {
                if all_digits(digits) {
                    lemma_digits_value_prefix(digits, i - start + 1);
                }
            }
            return None;
        }
    }
    assert(digits.take(bytes@.len() - start) =~= digits);
    Some(value as u32)
}

} // verus!
