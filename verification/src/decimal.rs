//! Decimal digit strings: printing an unsigned number without leading
//! zeros, fixed-width zero-padded fields, and the facts a parser needs
//! to read such strings back.

use vstd::prelude::*;

verus! {

pub open spec fn digit_char(d: int) -> char {
    if d == 0 {
        '0'
    } else if d == 1 {
        '1'
    } else if d == 2 {
        '2'
    } else if d == 3 {
        '3'
    } else if d == 4 {
        '4'
    } else if d == 5 {
        '5'
    } else if d == 6 {
        '6'
    } else if d == 7 {
        '7'
    } else if d == 8 {
        '8'
    } else {
        '9'
    }
}

pub open spec fn digit_val(c: char) -> int {
    if c == '0' {
        0
    } else if c == '1' {
        1
    } else if c == '2' {
        2
    } else if c == '3' {
        3
    } else if c == '4' {
        4
    } else if c == '5' {
        5
    } else if c == '6' {
        6
    } else if c == '7' {
        7
    } else if c == '8' {
        8
    } else if c == '9' {
        9
    } else {
        -1
    }
}

pub open spec fn is_digit(c: char) -> bool {
    digit_val(c) >= 0
}

pub proof fn lemma_digit_roundtrip(d: int)
    requires
        0 <= d <= 9,
    ensures
        digit_val(digit_char(d)) == d,
        is_digit(digit_char(d)),
        digit_char(d) == '0' <==> d == 0,
{
}

/// The decimal digits of `n`, most significant first, with no leading
/// zeros (`0` itself is the single digit `0`).
pub open spec fn spec_nat_digits(n: nat) -> Seq<char>
    decreases n,
{
    if n < 10 {
        seq![digit_char(n as int)]
    } else {
        spec_nat_digits(n / 10).push(digit_char((n % 10) as int))
    }
}

/// The number a digit string denotes, read left to right.
pub open spec fn seq_value(ds: Seq<char>) -> int
    decreases ds.len(),
{
    if ds.len() == 0 {
        0
    } else {
        seq_value(ds.drop_last()) * 10 + digit_val(ds.last())
    }
}

pub open spec fn all_digits(ds: Seq<char>) -> bool {
    forall|i: int| 0 <= i < ds.len() ==> is_digit(#[trigger] ds[i])
}

pub proof fn lemma_nat_digits_props(n: nat)
    ensures
        spec_nat_digits(n).len() >= 1,
        all_digits(spec_nat_digits(n)),
        seq_value(spec_nat_digits(n)) == n,
        spec_nat_digits(n)[0] == '0' <==> n == 0,
    decreases n,
{
    if n < 10 {
        lemma_digit_roundtrip(n as int);
        let ds = spec_nat_digits(n);
        assert(ds == seq![digit_char(n as int)]);
        assert(ds.drop_last() =~= Seq::<char>::empty());
        assert(ds.last() == digit_char(n as int));
        assert(seq_value(Seq::<char>::empty()) == 0);
        assert(seq_value(ds) == digit_val(digit_char(n as int)));
    } else {
        lemma_nat_digits_props(n / 10);
        lemma_digit_roundtrip((n % 10) as int);
        let prev = spec_nat_digits(n / 10);
        let ds = spec_nat_digits(n);
        assert(ds == prev.push(digit_char((n % 10) as int)));
        assert(ds.drop_last() =~= prev);
        assert(ds.last() == digit_char((n % 10) as int));
        assert(seq_value(ds) == seq_value(prev) * 10 + (n % 10));
        assert(n / 10 * 10 + n % 10 == n) by {
            vstd::arithmetic::div_mod::lemma_fundamental_div_mod(n as int, 10);
        }
        assert(ds[0] == prev[0]);
        assert(n / 10 >= 1);
    }
}

pub proof fn lemma_seq_value_nonneg(ds: Seq<char>)
    requires
        all_digits(ds),
    ensures
        seq_value(ds) >= 0,
    decreases ds.len(),
{
    if ds.len() > 0 {
        assert(all_digits(ds.drop_last())) by {
            assert(forall|i: int|
                0 <= i < ds.len() - 1 ==> ds.drop_last()[i] == #[trigger] ds[i]);
        }
        lemma_seq_value_nonneg(ds.drop_last());
        assert(digit_val(ds.last()) >= 0);
    }
}

/// Extending a digit string to the right can only grow its value.
pub proof fn lemma_seq_value_take(ds: Seq<char>, k: int)
    requires
        all_digits(ds),
        0 <= k <= ds.len(),
    ensures
        seq_value(ds.take(k)) <= seq_value(ds),
    decreases ds.len() - k,
{
    if k == ds.len() {
        assert(ds.take(k) =~= ds);
    } else {
        let t = ds.take(k + 1);
        assert(t.drop_last() =~= ds.take(k));
        assert(t.last() == ds[k]);
        assert(all_digits(ds.take(k))) by {
            assert(forall|i: int| 0 <= i < k ==> ds.take(k)[i] == #[trigger] ds[i]);
        }
        lemma_seq_value_nonneg(ds.take(k));
        assert(seq_value(t) == seq_value(ds.take(k)) * 10 + digit_val(ds[k]));
        lemma_seq_value_take(ds, k + 1);
    }
}

/// The position just past the run of digits starting at `i`.
pub open spec fn digits_end(s: Seq<char>, i: int) -> int
    decreases s.len() - i,
    when 0 <= i <= s.len()
{
    if i < s.len() && is_digit(s[i]) {
        digits_end(s, i + 1)
    } else {
        i
    }
}

/// The digit run starting at `i` ends exactly where the digits placed
/// there end.
pub proof fn lemma_digits_end_of(s: Seq<char>, i: int, k: int)
    requires
        0 <= i,
        i + k <= s.len(),
        0 <= k,
        forall|j: int| i <= j < i + k ==> is_digit(#[trigger] s[j]),
        i + k == s.len() || !is_digit(s[i + k]),
    ensures
        digits_end(s, i) == i + k,
    decreases k,
{
    if k == 0 {
    } else {
        lemma_digits_end_of(s, i + 1, k - 1);
    }
}

/// Fixed-width fields: two and four digits, zero padded.
pub open spec fn pad2(v: int) -> Seq<char> {
    seq![digit_char(v / 10), digit_char(v % 10)]
}

pub open spec fn pad4(v: int) -> Seq<char> {
    seq![
        digit_char(v / 1000),
        digit_char(v / 100 % 10),
        digit_char(v / 10 % 10),
        digit_char(v % 10),
    ]
}

pub proof fn lemma_pad2_recompose(v: int)
    requires
        0 <= v < 100,
    ensures
        all_digits(pad2(v)),
        digit_val(pad2(v)[0]) * 10 + digit_val(pad2(v)[1]) == v,
{
    lemma_digit_roundtrip(v / 10);
    lemma_digit_roundtrip(v % 10);
    vstd::arithmetic::div_mod::lemma_fundamental_div_mod(v, 10);
    assert(forall|i: int| 0 <= i < 2 ==> is_digit(#[trigger] pad2(v)[i]));
}

pub proof fn lemma_pad4_recompose(v: int)
    requires
        0 <= v < 10000,
    ensures
        all_digits(pad4(v)),
        ((digit_val(pad4(v)[0]) * 10 + digit_val(pad4(v)[1])) * 10 + digit_val(pad4(v)[2])) * 10
            + digit_val(pad4(v)[3]) == v,
{
    lemma_digit_roundtrip(v / 1000);
    lemma_digit_roundtrip(v / 100 % 10);
    lemma_digit_roundtrip(v / 10 % 10);
    lemma_digit_roundtrip(v % 10);
    vstd::arithmetic::div_mod::lemma_fundamental_div_mod(v, 10);
    vstd::arithmetic::div_mod::lemma_fundamental_div_mod(v / 10, 10);
    vstd::arithmetic::div_mod::lemma_fundamental_div_mod(v / 100, 10);
    assert(v / 10 / 10 == v / 100) by {
        vstd::arithmetic::div_mod::lemma_div_denominator(v, 10, 10);
    }
    assert(v / 100 / 10 == v / 1000) by {
        vstd::arithmetic::div_mod::lemma_div_denominator(v, 100, 10);
        vstd::arithmetic::div_mod::lemma_div_denominator(v, 10, 10);
    }
    assert(v / 1000 < 10);
    assert(forall|i: int| 0 <= i < 4 ==> is_digit(#[trigger] pad4(v)[i]));
}

/// Relies on std's String::push: it appends exactly the given character.
#[verifier::external_body]
pub fn push_char(s: &mut String, c: char)
    ensures
        final(s)@ == old(s)@.push(c),
{
    s.push(c);
}

pub fn digit_to_char(d: u8) -> (c: char)
    requires
        d <= 9,
    ensures
        c == digit_char(d as int),
{
    match d {
        0 => '0',
        1 => '1',
        2 => '2',
        3 => '3',
        4 => '4',
        5 => '5',
        6 => '6',
        7 => '7',
        8 => '8',
        _ => '9',
    }
}

pub fn char_to_digit(c: char) -> (r: Option<u8>)
    ensures
        match r {
            Some(d) => is_digit(c) && d == digit_val(c) && d <= 9,
            None => !is_digit(c),
        },
{
    match c {
        '0' => Some(0),
        '1' => Some(1),
        '2' => Some(2),
        '3' => Some(3),
        '4' => Some(4),
        '5' => Some(5),
        '6' => Some(6),
        '7' => Some(7),
        '8' => Some(8),
        '9' => Some(9),
        _ => None,
    }
}

/// Appends the decimal digits of `n`, without leading zeros.
pub fn append_u64_digits(s: &mut String, n: u64)
    ensures
        final(s)@ == old(s)@ + spec_nat_digits(n as nat),
    decreases n,
{
    if n < 10 {
        push_char(s, digit_to_char(n as u8));
        assert(final(s)@ =~= old(s)@ + spec_nat_digits(n as nat));
    } else {
        append_u64_digits(s, n / 10);
        push_char(s, digit_to_char((n % 10) as u8));
        assert(final(s)@ =~= old(s)@ + spec_nat_digits(n as nat));
    }
}

/// The decimal digits of `n` as a fresh string.
pub fn u64_to_string(n: u64) -> (r: String)
    ensures
        r@ == spec_nat_digits(n as nat),
{
    let mut s = String::new();
    append_u64_digits(&mut s, n);
    proof {
        assert(s@ =~= spec_nat_digits(n as nat));
    }
    s
}

} // verus!
