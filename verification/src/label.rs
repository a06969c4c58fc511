use vstd::prelude::*;

verus! {

/// The character of the decimal digit `d` (`0 <= d < 10`).
pub open spec fn digit_char(d: nat) -> char {
    (48 + d) as char
}

/// Whether `c` is one of the characters `'0'` to `'9'`.
pub open spec fn is_digit(c: char) -> bool {
    48 <= c as int <= 57
}

/// The decimal notation of `n`: its digits, most significant first, with no
/// leading zero (zero itself is written `"0"`).
pub open spec fn decimal(n: nat) -> Seq<char>
    decreases n,
{
    if n < 10 {
        seq![digit_char(n)]
    } else {
        decimal(n / 10).push(digit_char(n % 10))
    }
}

/// The number that a string of decimal digits denotes.
pub open spec fn decimal_value(s: Seq<char>) -> nat
    decreases s.len(),
{
    if s.len() == 0 {
        0
    } else {
        decimal_value(s.drop_last()) * 10 + (s.last() as nat - 48) as nat
    }
}

/// The decimal notation of a number consists of digits only, starts with a
/// non-zero digit unless the number is zero, and reads back as the number.
pub proof fn lemma_decimal_round_trip(n: nat)
    ensures
        decimal(n).len() >= 1,
        forall|i: int| 0 <= i < decimal(n).len() ==> is_digit(#[trigger] decimal(n)[i]),
        n > 0 ==> decimal(n)[0] != '0',
        decimal_value(decimal(n)) == n,
    decreases n,
{
    let d = n % 10;
    assert(digit_char(d) as int == 48 + d);
    if n >= 10 {
        lemma_decimal_round_trip(n / 10);
        let prefix = decimal(n / 10);
        assert(decimal(n).drop_last() =~= prefix);
        assert(decimal(n)[0] == prefix[0]);
        assert(decimal_value(decimal(n)) == decimal_value(prefix) * 10 + d);
    } else {
        assert(decimal(n).drop_last() =~= Seq::<char>::empty());
        assert(decimal_value(decimal(n)) == decimal_value(Seq::<char>::empty()) * 10 + d);
    }
}

/// A number below ten is written as its single digit, `'0'` to `'9'`;
/// appending a digit `d` to the notation of a positive `n` gives the
/// notation of `10 * n + d`.
pub proof fn lemma_decimal_digits(n: nat, d: nat)
    requires
        d < 10,
    ensures
        decimal(d) =~= seq![digit_char(d)],
        digit_char(d) as int == 48 + d,
        n > 0 ==> decimal(10 * n + d) =~= decimal(n).push(digit_char(d)),
{
    if n > 0 {
        let m = 10 * n + d;
        assert(m / 10 == n && m % 10 == d) by (nonlinear_arith)
            requires
                m == 10 * n + d,
                d < 10,
        ;
    }
}

/// Two different numbers never get the same label.
pub proof fn lemma_decimal_injective(a: nat, b: nat)
    requires
        decimal(a) == decimal(b),
    ensures
        a == b,
{
    lemma_decimal_round_trip(a);
    lemma_decimal_round_trip(b);
}

/// `String::push` appends one character at the end of the string.
#[verifier::external_body]
fn push_char(s: &mut String, c: char)
    ensures
        final(s)@ == old(s)@.push(c),
{
    s.push(c);
}

fn push_decimal(s: &mut String, n: u64)
    ensures
        final(s)@ == old(s)@ + decimal(n as nat),
    decreases n,
{
    if n >= 10 {
        push_decimal(s, n / 10);
    }
    let d: u8 = (n % 10) as u8;
    let c: char = (48u8 + d) as char;
    assert(c == digit_char((n % 10) as nat));
    push_char(s, c);
    assert(decimal(n as nat) == if n < 10 {
        seq![digit_char(n as nat)]
    } else {
        decimal((n / 10) as nat).push(digit_char((n % 10) as nat))
    });
}

/// The text the counter program shows for `counter`: its decimal notation.
pub fn counter_label(counter: u64) -> (label: String)
    ensures
        label@ == decimal(counter as nat),
{
    let mut label = String::new();
    push_decimal(&mut label, counter);
    assert(label@ =~= decimal(counter as nat));
    label
}

} // verus!
