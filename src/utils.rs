use vstd::prelude::*;

verus! {

/// `10^n`.
pub open spec fn pow10(n: nat) -> nat
    decreases n,
{
    if n == 0 {
        1
    } else {
        10 * pow10((n - 1) as nat)
    }
}

/// The decimal digit character for `d` in `0..10`.
pub open spec fn digit_char(d: nat) -> char {
    if d == 0 {
        '0'
    } else if d == 1 {
        '1'
    } else if d == 2 {
        '2'
    } else if d == 3 {
        '3'
    } else if d == 4 {
        '4'
    } else if d == 5 {
        '5'
    } else if d == 6 {
        '6'
    } else if d == 7 {
        '7'
    } else if d == 8 {
        '8'
    } else {
        '9'
    }
}

/// The decimal representation of `n`, without leading zeros ("0" for zero).
pub open spec fn decimal_digits(n: nat) -> Seq<char>
    decreases n,
{
    if n < 10 {
        seq![digit_char(n)]
    } else {
        decimal_digits(n / 10).push(digit_char(n % 10))
    }
}

/// `s` preceded by as many '0' as it takes to reach `width` characters.
pub open spec fn pad_zeros(s: Seq<char>, width: nat) -> Seq<char> {
    if s.len() >= width {
        s
    } else {
        Seq::new((width - s.len()) as nat, |i: int| '0') + s
    }
}

/// `s` without its trailing '0' characters.
pub open spec fn trim_zeros(s: Seq<char>) -> Seq<char>
    decreases s.len(),
{
    if s.len() > 0 && s.last() == '0' {
        trim_zeros(s.drop_last())
    } else {
        s
    }
}

/// `value` smallest units written in whole tokens of `10^decimals` units:
/// the integer part, then a point and the fraction digits without trailing
/// zeros, the point left out where no fraction digit remains.
pub open spec fn human_amount(value: nat, decimals: nat) -> Seq<char> {
    if decimals == 0 {
        decimal_digits(value)
    } else {
        let integer = decimal_digits(value / pow10(decimals));
        let fraction = trim_zeros(pad_zeros(decimal_digits(value % pow10(decimals)), decimals));
        if fraction.len() == 0 {
            integer
        } else {
            integer + seq!['.'] + fraction
        }
    }
}

proof fn lemma_pow10_positive(n: nat)
    ensures
        pow10(n) >= 1,
    decreases n,
{
    if n > 0 {
        lemma_pow10_positive((n - 1) as nat);
    }
}

proof fn lemma_pow10_monotone(a: nat, b: nat)
    requires
        a <= b,
    ensures
        pow10(a) <= pow10(b),
    decreases b - a,
{
    if a < b {
        lemma_pow10_monotone(a, (b - 1) as nat);
        lemma_pow10_positive((b - 1) as nat);
    }
}

/// Every `u128` is below `10^39`.
proof fn lemma_pow10_exceeds_u128(n: nat)
    requires
        n >= 39,
    ensures
        pow10(n) > u128::MAX,
{
    reveal_with_fuel(pow10, 40);
    assert(pow10(39) == 1_000_000_000_000_000_000_000_000_000_000_000_000_000nat);
    lemma_pow10_monotone(39, n);
}

proof fn lemma_pow10_u128_bound()
    ensures
        pow10(38) <= u128::MAX,
{
    reveal_with_fuel(pow10, 40);
    assert(pow10(38) == 100_000_000_000_000_000_000_000_000_000_000_000_000nat);
}

fn digit(d: u128) -> (c: char)
    requires
        d < 10,
    ensures
        c == digit_char(d as nat),
{
    if d == 0 {
        '0'
    } else if d == 1 {
        '1'
    } else if d == 2 {
        '2'
    } else if d == 3 {
        '3'
    } else if d == 4 {
        '4'
    } else if d == 5 {
        '5'
    } else if d == 6 {
        '6'
    } else if d == 7 {
        '7'
    } else if d == 8 {
        '8'
    } else {
        '9'
    }
}

/// Appends the decimal digits of `n` to `out`.
fn push_decimal(out: &mut Vec<char>, n: u128)
    ensures
        final(out)@ == old(out)@ + decimal_digits(n as nat),
    decreases n,
{
    if n >= 10 {
        push_decimal(out, n / 10);
    }
    out.push(digit(n % 10));
    assert(out@ =~= old(out)@ + decimal_digits(n as nat));
}

/// The one-character string of a digit or a point.
fn char_str(c: char) -> (s: &'static str)
    requires
        c == '.' || exists|d: nat| d < 10 && c == digit_char(d),
    ensures
        s@ == seq![c],
{
    proof {
        reveal_strlit(".");
        reveal_strlit("0");
        reveal_strlit("1");
        reveal_strlit("2");
        reveal_strlit("3");
        reveal_strlit("4");
        reveal_strlit("5");
        reveal_strlit("6");
        reveal_strlit("7");
        reveal_strlit("8");
        reveal_strlit("9");
    }
    if c == '.' {
        "."
    } else if c == '0' {
        "0"
    } else if c == '1' {
        "1"
    } else if c == '2' {
        "2"
    } else if c == '3' {
        "3"
    } else if c == '4' {
        "4"
    } else if c == '5' {
        "5"
    } else if c == '6' {
        "6"
    } else if c == '7' {
        "7"
    } else if c == '8' {
        "8"
    } else {
        "9"
    }
}

/// A character that `char_str` can write: a decimal digit or a point.
pub open spec fn is_number_char(c: char) -> bool {
    c == '.' || exists|d: nat| d < 10 && c == digit_char(d)
}

proof fn lemma_decimal_digits_chars(n: nat)
    ensures
        forall|i: int| 0 <= i < decimal_digits(n).len() ==> is_number_char(#[trigger] decimal_digits(n)[i]),
    decreases n,
{
    if n >= 10 {
        lemma_decimal_digits_chars(n / 10);
        assert(is_number_char(digit_char(n % 10)));
        let prefix = decimal_digits(n / 10);
        assert forall|i: int| 0 <= i < decimal_digits(n).len() implies is_number_char(
            #[trigger] decimal_digits(n)[i],
        ) by {
            if i < prefix.len() {
                assert(decimal_digits(n)[i] == prefix[i]);
            }
        }
    } else {
        assert(is_number_char(digit_char(n)));
    }
}

/// The string holding exactly the characters of `chars`.
fn string_of(chars: &Vec<char>) -> (s: String)
    requires
        forall|i: int| 0 <= i < chars@.len() ==> is_number_char(#[trigger] chars@[i]),
    ensures
        s@ == chars@,
{
    let mut s = String::new();
    let mut i: usize = 0;
    while i < chars.len()
        invariant
            0 <= i <= chars@.len(),
            s@ == chars@.subrange(0, i as int),
            forall|j: int| 0 <= j < chars@.len() ==> is_number_char(#[trigger] chars@[j]),
        decreases chars@.len() - i,
    {
        s.append(char_str(chars[i]));
        i = i + 1;
        assert(s@ =~= chars@.subrange(0, i as int));
    }
    assert(chars@.subrange(0, chars@.len() as int) =~= chars@);
    s
}

/// Writes `value` smallest units as a decimal number of whole tokens, each of
/// `10^decimals` units, without floating point: no rounding, no trailing
/// zeros in the fraction, no point for a whole amount.
pub fn u256_to_human(value: u128, decimals: u8) -> (r: String)
    ensures
        r@ == human_amount(value as nat, decimals as nat),
{
    let mut out: Vec<char> = Vec::new();
    if decimals == 0 {
        push_decimal(&mut out, value);
        proof {
            lemma_decimal_digits_chars(value as nat);
            assert(out@ =~= decimal_digits(value as nat));
        }
        return string_of(&out);
    }
    let ghost d = decimals as nat;
    // integer and fraction parts of value / 10^decimals
    let integer: u128;
    let fraction: u128;
    if decimals <= 38 {
        let mut divisor: u128 = 1;
        let mut i: u8 = 0;
        while i < decimals
            invariant
                0 <= i <= decimals <= 38,
                divisor == pow10(i as nat),
                divisor >= 1,
            decreases decimals - i,
        {
            proof {
                lemma_pow10_monotone((i + 1) as nat, 38);
                lemma_pow10_u128_bound();
                assert(pow10((i + 1) as nat) == 10 * pow10(i as nat));
            }
            divisor = divisor * 10;
            i = i + 1;
        }
        integer = value / divisor;
        fraction = value % divisor;
    } else {
        proof {
            lemma_pow10_exceeds_u128(d);
            vstd::arithmetic::div_mod::lemma_small_mod(value as nat, pow10(d));
            vstd::arithmetic::div_mod::lemma_basic_div(value as int, pow10(d) as int);
        }
        integer = 0;
        fraction = value;
    }
    assert(integer == value as nat / pow10(d) && fraction == value as nat % pow10(d));
    // fraction digits, left-padded with zeros to `decimals` places
    let mut digits: Vec<char> = Vec::new();
    push_decimal(&mut digits, fraction);
    let mut frac: Vec<char> = Vec::new();
    let pad: usize = if digits.len() < decimals as usize {
        decimals as usize - digits.len()
    } else {
        0
    };
    let mut k: usize = 0;
    proof {
        assert(is_number_char(digit_char(0)));
    }
    while k < pad
        invariant
            0 <= k <= pad,
            frac@ == Seq::new(k as nat, |i: int| '0'),
            is_number_char('0'),
        decreases pad - k,
    {
        frac.push('0');
        k = k + 1;
        assert(frac@ =~= Seq::new(k as nat, |i: int| '0'));
    }
    proof {
        lemma_decimal_digits_chars(fraction as nat);
    }
    let mut j: usize = 0;
    while j < digits.len()
        invariant
            0 <= j <= digits@.len(),
            digits@ == decimal_digits(fraction as nat),
            frac@ == Seq::new(pad as nat, |i: int| '0') + digits@.subrange(0, j as int),
            is_number_char('0'),
            forall|i: int| 0 <= i < digits@.len() ==> is_number_char(#[trigger] digits@[i]),
        decreases digits@.len() - j,
    {
        frac.push(digits[j]);
        j = j + 1;
        assert(frac@ =~= Seq::new(pad as nat, |i: int| '0') + digits@.subrange(0, j as int));
    }
    proof {
        assert(digits@.subrange(0, digits@.len() as int) =~= digits@);
        assert(frac@ =~= pad_zeros(digits@, d));
    }
    let ghost padded = frac@;
    proof {
        assert forall|i: int| 0 <= i < frac@.len() implies is_number_char(#[trigger] frac@[i]) by {
            if i >= pad {
                assert(frac@[i] == digits@[i - pad]);
            }
        }
    }
    // drop trailing zeros
    while frac.len() > 0 && frac[frac.len() - 1] == '0'
        invariant
            trim_zeros(frac@) == trim_zeros(padded),
            forall|i: int| 0 <= i < frac@.len() ==> is_number_char(#[trigger] frac@[i]),
        decreases frac@.len(),
    {
        let ghost before = frac@;
        frac.pop();
        proof {
            assert(frac@ =~= before.drop_last());
        }
    }
    proof {
        lemma_decimal_digits_chars(integer as nat);
        assert(frac@ == trim_zeros(padded));
    }
    push_decimal(&mut out, integer);
    if frac.len() > 0 {
        out.push('.');
        let mut m: usize = 0;
        let ghost head = out@;
        proof {
            assert(is_number_char('.'));
        }
        while m < frac.len()
            invariant
                0 <= m <= frac@.len(),
                out@ == head + frac@.subrange(0, m as int),
                forall|i: int| 0 <= i < frac@.len() ==> is_number_char(#[trigger] frac@[i]),
                forall|i: int| 0 <= i < head.len() ==> is_number_char(#[trigger] head[i]),
            decreases frac@.len() - m,
        {
            out.push(frac[m]);
            m = m + 1;
            assert(out@ =~= head + frac@.subrange(0, m as int));
        }
        assert(frac@.subrange(0, frac@.len() as int) =~= frac@);
        assert(out@ =~= decimal_digits(integer as nat) + seq!['.'] + frac@);
    } else {
        assert(out@ =~= decimal_digits(integer as nat));
    }
    string_of(&out)
}

} // verus!
