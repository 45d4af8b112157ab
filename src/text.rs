//! Decimal text and small string-building helpers.
use vstd::prelude::*;

verus! {

/// The character of a decimal digit `d` (0 to 9).
pub open spec fn digit_char(d: int) -> char {
    seq!['0', '1', '2', '3', '4', '5', '6', '7', '8', '9'][d]
}

/// Canonical decimal text of `n`: no sign, no leading zeros.
pub open spec fn decimal_text(n: nat) -> Seq<char>
    decreases n,
{
    if n < 10 {
        seq![digit_char(n as int)]
    } else {
        decimal_text(n / 10).push(digit_char((n % 10) as int))
    }
}

/// Whether `c` is an ASCII decimal digit.
pub open spec fn is_digit(c: char) -> bool {
    '0' <= c && c <= '9'
}

/// The value of the digit character `c`.
pub open spec fn digit_value(c: char) -> int {
    c as int - '0' as int
}

/// Whether `s` is a non-empty run of ASCII digits.
pub open spec fn is_digits(s: Seq<char>) -> bool {
    s.len() > 0 && forall|i: int| 0 <= i < s.len() ==> is_digit(#[trigger] s[i])
}

/// The number written by the digit run `s` (leading zeros allowed).
pub open spec fn digits_value(s: Seq<char>) -> nat
    decreases s.len(),
{
    if s.len() == 0 {
        0
    } else {
        (digits_value(s.drop_last()) * 10 + digit_value(s.last())) as nat
    }
}

/// Relies on String::push: appends one character.
#[verifier::external_body]
pub(crate) fn push_char(s: &mut String, c: char)
    ensures
        final(s)@ == old(s)@.push(c),
{
    s.push(c);
}

/// The digit character for `d`.
pub fn digit_to_char(d: u64) -> (c: char)
    requires
        d < 10,
    ensures
        c == digit_char(d as int),
        is_digit(c),
        digit_value(c) == d,
{
    if d == 0 { '0' }
    else if d == 1 { '1' }
    else if d == 2 { '2' }
    else if d == 3 { '3' }
    else if d == 4 { '4' }
    else if d == 5 { '5' }
    else if d == 6 { '6' }
    else if d == 7 { '7' }
    else if d == 8 { '8' }
    else { '9' }
}

/// Appends the canonical decimal text of `n` to `s`.
pub fn push_decimal(s: &mut String, n: u64)
    ensures
        final(s)@ == old(s)@ + decimal_text(n as nat),
    decreases n,
{
    if n >= 10 {
        push_decimal(s, n / 10);
    }
    push_char(s, digit_to_char(n % 10));
    assert(final(s)@ =~= old(s)@ + decimal_text(n as nat));
}

/// Canonical decimal text of `n`.
pub fn decimal_string(n: u64) -> (r: String)
    ensures
        r@ == decimal_text(n as nat),
{
    let mut s = String::new();
    push_decimal(&mut s, n);
    assert(s@ =~= decimal_text(n as nat));
    s
}

proof fn lemma_digits_value_prefix_bound(s: Seq<char>, k: int)
    requires
        is_digits(s),
        0 < k <= s.len(),
    ensures
        digits_value(s.subrange(0, k)) <= digits_value(s),
    decreases s.len() - k,
{
    if k < s.len() {
        let t = s.subrange(0, k + 1);
        assert(t.drop_last() =~= s.subrange(0, k));
        assert(is_digit(t.last()));
        lemma_digits_value_prefix_bound(s, k + 1);
    } else {
        assert(s.subrange(0, k) =~= s);
    }
}

/// The canonical decimal text of `n` is a digit run whose value is `n`.
pub proof fn lemma_decimal_text_value(n: nat)
    ensures
        is_digits(decimal_text(n)),
        digits_value(decimal_text(n)) == n,
    decreases n,
{
    assert(forall|i: int| 0 <= i < 10 ==> (#[trigger] digit_char(i)) as int == '0' as int + i);
    if n >= 10 {
        lemma_decimal_text_value(n / 10);
        let t = decimal_text(n);
        assert(t.drop_last() =~= decimal_text(n / 10));
        assert(t.last() == digit_char((n % 10) as int));
        assert(digits_value(t) == digits_value(decimal_text(n / 10)) * 10 + digit_value(t.last()));
        assert((n / 10) * 10 + n % 10 == n) by (nonlinear_arith);
        assert forall|i: int| 0 <= i < t.len() implies is_digit(#[trigger] t[i]) by {
            if i < t.len() - 1 {
                assert(t[i] == decimal_text(n / 10)[i]);
            }
        }
    } else {
        let t = decimal_text(n);
        assert(t.drop_last() =~= Seq::<char>::empty());
        assert(digits_value(t.drop_last()) == 0);
        assert(digit_value(t.last()) == n);
    }
}

/// Distinct numbers have distinct canonical decimal texts.
pub proof fn lemma_decimal_text_injective(a: nat, b: nat)
    requires
        decimal_text(a) == decimal_text(b),
    ensures
        a == b,
{
    lemma_decimal_text_value(a);
    lemma_decimal_text_value(b);
}

/// Reads a non-empty run of ASCII digits as a `u64`; `None` for any other
/// text, or for a value that does not fit.
pub fn parse_decimal(s: &str) -> (r: Option<u64>)
    ensures
        r is Some <==> is_digits(s@) && digits_value(s@) <= u64::MAX,
        r matches Some(n) ==> n == digits_value(s@),
{
    let len = s.unicode_len();
    if len == 0 {
        return None;
    }
    let mut v: u64 = 0;
    let mut i: usize = 0;
    while i < len
        invariant
            len == s@.len(),
            i <= len,
            forall|j: int| 0 <= j < i ==> is_digit(#[trigger] s@[j]),
            v == digits_value(s@.subrange(0, i as int)),
        decreases len - i,
    {
        let c = s.get_char(i);
        assert(s@.subrange(0, i + 1).drop_last() =~= s@.subrange(0, i as int));
        if c < '0' || c > '9' {
            return None;
        }
        let d = (c as u32 - '0' as u32) as u64;
        if v > (u64::MAX - d) / 10 {
            proof {
                assert(is_digits(s@.subrange(0, i + 1)) ==> digits_value(s@.subrange(0, i + 1)) > u64::MAX);
                if is_digits(s@) {
                    lemma_digits_value_prefix_bound(s@, i + 1);
                }
            }
            return None;
        }
        v = v * 10 + d;
        i = i + 1;
    }
    assert(s@.subrange(0, len as int) =~= s@);
    Some(v)
}

} // verus!
