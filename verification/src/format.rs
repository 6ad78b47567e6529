//! Pure text formatting: milliseconds to a clock string, and integers to
//! thousands-grouped decimal strings.
//!
//! Each executable function is specified against a spec-level description of
//! the exact character sequence it produces.

use vstd::prelude::*;

verus! {

/// The decimal digit character for `d` (meaningful for `0 <= d <= 9`).
pub open spec fn digit_char(d: int) -> char {
    if d == 0 {
        '0'
    } else if d == 1 {
        '1'
    } else if d == 2 {
        '2'
    } else if d == 3 {
        '3'
    } else if d == 4 {
        '4'
    } else if d == 5 {
        '5'
    } else if d == 6 {
        '6'
    } else if d == 7 {
        '7'
    } else if d == 8 {
        '8'
    } else {
        '9'
    }
}

/// The numeric value of a decimal digit character (`-1` for any other char).
pub open spec fn digit_val(c: char) -> int {
    if c == '0' {
        0
    } else if c == '1' {
        1
    } else if c == '2' {
        2
    } else if c == '3' {
        3
    } else if c == '4' {
        4
    } else if c == '5' {
        5
    } else if c == '6' {
        6
    } else if c == '7' {
        7
    } else if c == '8' {
        8
    } else if c == '9' {
        9
    } else {
        -1
    }
}

/// Whether `c` is a decimal digit character.
pub open spec fn is_digit(c: char) -> bool {
    0 <= digit_val(c) <= 9
}

/// The decimal digits of `n`, most significant first (`0` renders as "0").
pub open spec fn dec_digits(n: nat) -> Seq<char>
    decreases n,
{
    if n < 10 {
        seq![digit_char(n as int)]
    } else {
        dec_digits(n / 10).push(digit_char((n % 10) as int))
    }
}

/// The decimal rendering of a signed integer: a minus sign for negative
/// values, then the digits of the magnitude.
pub open spec fn signed_dec(n: int) -> Seq<char> {
    if n < 0 {
        seq!['-'] + dec_digits((-n) as nat)
    } else {
        dec_digits(n as nat)
    }
}

/// The value denoted by a sequence of digit characters (most significant
/// first); the empty sequence denotes `0`.
pub open spec fn dec_val(ds: Seq<char>) -> int
    decreases ds.len(),
{
    if ds.len() == 0 {
        0
    } else {
        dec_val(ds.drop_last()) * 10 + digit_val(ds.last())
    }
}

/// `n` rendered in decimal, zero-padded on the left to at least two digits.
pub open spec fn pad2(n: nat) -> Seq<char> {
    if n < 10 {
        seq!['0'] + dec_digits(n)
    } else {
        dec_digits(n)
    }
}

/// `n` rendered in decimal, zero-padded on the left to at least three digits.
pub open spec fn pad3(n: nat) -> Seq<char> {
    if n < 100 {
        seq!['0'] + pad2(n)
    } else {
        dec_digits(n)
    }
}

/// Hour component of a millisecond count.
pub open spec fn clock_hours(ms: nat) -> nat {
    ms / 3600000
}

/// Minute component of a millisecond count.
pub open spec fn clock_minutes(ms: nat) -> nat {
    (ms % 3600000) / 60000
}

/// Second component of a millisecond count.
pub open spec fn clock_seconds(ms: nat) -> nat {
    (ms % 60000) / 1000
}

/// Millisecond component of a millisecond count.
pub open spec fn clock_millis(ms: nat) -> nat {
    ms % 1000
}

/// The clock rendering of a millisecond count: `HHh MMm SSs .MMMms`, with
/// the hour field left out entirely when the hour component is zero.
pub open spec fn clock_spec(ms: nat) -> Seq<char> {
    let tail = pad2(clock_minutes(ms)) + "m "@ + pad2(clock_seconds(ms)) + "s ."@ + pad3(
        clock_millis(ms),
    ) + "ms"@;
    if clock_hours(ms) > 0 {
        pad2(clock_hours(ms)) + "h "@ + tail
    } else {
        tail
    }
}

/// Digit characters with a separator inserted after every third digit,
/// counted from the right-hand (least significant) end.
pub open spec fn grouped_digits(ds: Seq<char>) -> Seq<char>
    decreases ds.len(),
{
    if ds.len() <= 3 {
        ds
    } else {
        grouped_digits(ds.take(ds.len() - 3)) + ","@ + ds.skip(ds.len() - 3)
    }
}

/// The thousands-grouped rendering of a signed integer: the grouped digits
/// of the magnitude, preceded by a minus sign for negative values.
pub open spec fn grouped_spec(n: int) -> Seq<char> {
    if n < 0 {
        "-"@ + grouped_digits(dec_digits((-n) as nat))
    } else {
        grouped_digits(dec_digits(n as nat))
    }
}

/// The one-character string for the decimal digit `d`.
fn digit_str(d: u64) -> (s: &'static str)
    requires
        d < 10,
    ensures
        s@ == seq![digit_char(d as int)],
{
    proof {
        reveal_strlit("0");
        reveal_strlit("1");
        reveal_strlit("2");
        reveal_strlit("3");
        reveal_strlit("4");
        reveal_strlit("5");
        reveal_strlit("6");
        reveal_strlit("7");
        reveal_strlit("8");
        reveal_strlit("9");
    }
    let s: &'static str = if d == 0 {
        "0"
    } else if d == 1 {
        "1"
    } else if d == 2 {
        "2"
    } else if d == 3 {
        "3"
    } else if d == 4 {
        "4"
    } else if d == 5 {
        "5"
    } else if d == 6 {
        "6"
    } else if d == 7 {
        "7"
    } else if d == 8 {
        "8"
    } else {
        "9"
    };
    proof {
        assert(s@ =~= seq![digit_char(d as int)]);
    }
    s
}

/// Appends the decimal digits of `n` to `s`.
fn push_u64(s: &mut String, n: u64)
    ensures
        final(s)@ == old(s)@ + dec_digits(n as nat),
    decreases n,
{
    if n < 10 {
        s.append(digit_str(n));
        proof {
            assert(s@ =~= old(s)@ + dec_digits(n as nat));
        }
    } else {
        push_u64(s, n / 10);
        s.append(digit_str(n % 10));
        proof {
            assert(s@ =~= old(s)@ + dec_digits(n as nat));
        }
    }
}

/// Appends the decimal rendering of a signed integer to `s`.
pub(crate) fn push_i64(s: &mut String, n: i64)
    ensures
        final(s)@ == old(s)@ + signed_dec(n as int),
{
    if n < 0 {
        s.append("-");
        let mag: u64 = (-(n as i128)) as u64;
        proof {
            reveal_strlit("-");
            assert(mag == -(n as int));
        }
        push_u64(s, mag);
        proof {
            assert(s@ =~= old(s)@ + signed_dec(n as int));
        }
    } else {
        push_u64(s, n as u64);
    }
}

/// Appends `n` zero-padded to at least two digits.
fn push_pad2(s: &mut String, n: u64)
    ensures
        final(s)@ == old(s)@ + pad2(n as nat),
{
    if n < 10 {
        s.append("0");
        proof {
            reveal_strlit("0");
        }
    }
    push_u64(s, n);
    proof {
        assert(s@ =~= old(s)@ + pad2(n as nat));
    }
}

/// Appends `n` zero-padded to at least three digits.
fn push_pad3(s: &mut String, n: u64)
    ensures
        final(s)@ == old(s)@ + pad3(n as nat),
{
    if n < 100 {
        s.append("0");
        proof {
            reveal_strlit("0");
        }
    }
    push_pad2(s, n);
    proof {
        assert(s@ =~= old(s)@ + pad3(n as nat));
    }
}

/// How many digit characters a number renders to.
proof fn lemma_dec_digits_len(n: nat)
    ensures
        dec_digits(n).len() >= 1,
        n < 10 <==> dec_digits(n).len() == 1,
        n < 100 <==> dec_digits(n).len() <= 2,
        n < 1000 <==> dec_digits(n).len() <= 3,
    decreases n,
{
    if n >= 10 {
        lemma_dec_digits_len(n / 10);
        assert(n < 100 <==> n / 10 < 10) by (nonlinear_arith);
        assert(n < 1000 <==> n / 10 < 100) by (nonlinear_arith);
    }
}

/// Padded renderings have exactly their padded width for values in range.
proof fn lemma_pad_lens(n: nat)
    ensures
        pad2(n).len() >= 2,
        n < 100 ==> pad2(n).len() == 2,
        pad3(n).len() >= 3,
        n < 1000 ==> pad3(n).len() == 3,
{
    lemma_dec_digits_len(n);
}

/// Splitting off the last three digits of `n >= 1000` splits its decimal
/// rendering into the rendering of `n / 1000` and the zero-padded rendering
/// of `n % 1000`.
proof fn lemma_dec_split3(n: nat)
    requires
        n >= 1000,
    ensures
        dec_digits(n) == dec_digits(n / 1000) + pad3(n % 1000),
{
    let k = n / 1000;
    let r = n % 1000;
    vstd::arithmetic::div_mod::lemma_fundamental_div_mod(n as int, 1000);
    assert(n == 1000 * k + r);
    // The three low digits of n, read off its quotients.
    vstd::arithmetic::div_mod::lemma_div_denominator(n as int, 10, 10);
    vstd::arithmetic::div_mod::lemma_div_denominator(n as int, 100, 10);
    assert(n / 10 / 10 == n / 100);
    assert(n / 100 / 10 == n / 1000);
    vstd::arithmetic::div_mod::lemma_div_is_ordered(1000, n as int, 10);
    vstd::arithmetic::div_mod::lemma_div_is_ordered(1000, n as int, 100);
    assert(n / 10 >= 100);
    assert(n / 100 >= 10);
    assert(dec_digits(n) == dec_digits(n / 10).push(digit_char((n % 10) as int)));
    assert(dec_digits(n / 10) == dec_digits(n / 100).push(digit_char(((n / 10) % 10) as int)));
    assert(dec_digits(n / 100) == dec_digits(k).push(digit_char(((n / 100) % 10) as int)));
    assert(dec_digits(n) =~= dec_digits(k) + seq![
        digit_char(((n / 100) % 10) as int),
        digit_char(((n / 10) % 10) as int),
        digit_char((n % 10) as int),
    ]);
    // The same three digits, read off the remainder r.
    vstd::arithmetic::div_mod::lemma_mod_multiples_vanish(100 * k as int, r as int, 10);
    assert(10 * (100 * k as int) == 1000 * k) by (nonlinear_arith);
    assert(n % 10 == r % 10);
    vstd::arithmetic::div_mod::lemma_hoist_over_denominator(r as int, 100 * k as int, 10);
    assert((100 * k as int) * 10 == 1000 * k) by (nonlinear_arith);
    assert(n / 10 == 100 * (k as int) + r / 10);
    vstd::arithmetic::div_mod::lemma_mod_multiples_vanish(10 * k as int, r as int / 10, 10);
    assert(10 * (10 * k as int) == 100 * k) by (nonlinear_arith);
    assert((n / 10) % 10 == (r / 10) % 10);
    vstd::arithmetic::div_mod::lemma_hoist_over_denominator(r as int, 10 * k as int, 100);
    assert((10 * k as int) * 100 == 1000 * k) by (nonlinear_arith);
    assert(n / 100 == 10 * (k as int) + r / 100);
    vstd::arithmetic::div_mod::lemma_mod_multiples_vanish(k as int, r as int / 100, 10);
    vstd::arithmetic::div_mod::lemma_small_mod((r / 100) as nat, 10);
    assert((n / 100) % 10 == r / 100);
    // pad3(r) spells out those digits.
    reveal_strlit("0");
    if r < 10 {
        vstd::arithmetic::div_mod::lemma_small_mod(r, 10);
        assert(pad3(r) =~= seq![digit_char((r / 100) as int), digit_char(((r / 10) % 10) as int), digit_char((r % 10) as int)]);
    } else if r < 100 {
        vstd::arithmetic::div_mod::lemma_small_mod((r / 10) as nat, 10);
        assert(dec_digits(r) == dec_digits(r / 10).push(digit_char((r % 10) as int)));
        assert(dec_digits(r / 10) == seq![digit_char((r / 10) as int)]);
        assert(pad3(r) =~= seq![digit_char((r / 100) as int), digit_char(((r / 10) % 10) as int), digit_char((r % 10) as int)]);
    } else {
        assert(r / 100 >= 1 && r / 100 < 10);
        assert(r / 10 >= 10);
        assert(r / 10 / 10 == r / 100) by {
            vstd::arithmetic::div_mod::lemma_div_denominator(r as int, 10, 10);
        }
        assert(dec_digits(r) == dec_digits(r / 10).push(digit_char((r % 10) as int)));
        assert(dec_digits(r / 10) == dec_digits(r / 100).push(digit_char(((r / 10) % 10) as int)));
        assert(dec_digits(r / 100) == seq![digit_char((r / 100) as int)]);
        assert(dec_digits(r) =~= seq![digit_char((r / 100) as int), digit_char(((r / 10) % 10) as int), digit_char((r % 10) as int)]);
        assert(pad3(r) == dec_digits(r));
    }
    assert(dec_digits(n) =~= dec_digits(k) + pad3(r));
}

/// Appends the thousands-grouped digits of `n` to `s`.
fn push_grouped_u64(s: &mut String, n: u64)
    ensures
        final(s)@ == old(s)@ + grouped_digits(dec_digits(n as nat)),
    decreases n,
{
    if n < 1000 {
        push_u64(s, n);
        proof {
            lemma_dec_digits_len(n as nat);
        }
    } else {
        push_grouped_u64(s, n / 1000);
        s.append(",");
        push_pad3(s, n % 1000);
        proof {
            let ds = dec_digits(n as nat);
            lemma_dec_digits_len(n as nat);
            lemma_dec_split3(n as nat);
            lemma_pad_lens((n % 1000) as nat);
            assert(ds.take(ds.len() - 3) =~= dec_digits((n / 1000) as nat));
            assert(ds.skip(ds.len() - 3) =~= pad3((n % 1000) as nat));
            assert(s@ =~= old(s)@ + grouped_digits(ds));
        }
    }
}

/// Formats a signed integer with a separator after every third decimal
/// digit, counted from the right; negative values keep their minus sign in
/// front of the grouped digits.
pub fn format_with_commas(num: i64) -> (s: String)
    ensures
        s@ == grouped_spec(num as int),
{
    let mut s = String::new();
    if num < 0 {
        s.append("-");
        let mag: u64 = (-(num as i128)) as u64;
        proof {
            assert(mag == -(num as int));
        }
        push_grouped_u64(&mut s, mag);
    } else {
        push_grouped_u64(&mut s, num as u64);
    }
    proof {
        assert(s@ =~= grouped_spec(num as int));
    }
    s
}

/// Formats a millisecond count as a clock string, `MMm SSs .MMMms`, with an
/// `HHh ` field in front exactly when the hour component is nonzero.
pub fn millis_to_clock_format(ms: u64) -> (s: String)
    ensures
        s@ == clock_spec(ms as nat),
{
    let hours: u64 = ms / 3600000;
    let mins: u64 = (ms % 3600000) / 60000;
    let secs: u64 = (ms % 60000) / 1000;
    let millis: u64 = ms % 1000;
    let mut s = String::new();
    if hours > 0 {
        push_pad2(&mut s, hours);
        s.append("h ");
    }
    push_pad2(&mut s, mins);
    s.append("m ");
    push_pad2(&mut s, secs);
    s.append("s .");
    push_pad3(&mut s, millis);
    s.append("ms");
    proof {
        assert(s@ =~= clock_spec(ms as nat));
    }
    s
}

/// Reading the rendered digits of `n` back as a number gives `n`.
pub proof fn lemma_dec_val_of_digits(n: nat)
    ensures
        dec_val(dec_digits(n)) == n,
    decreases n,
{
    if n < 10 {
        assert(dec_digits(n).drop_last() =~= Seq::<char>::empty());
        assert(dec_val(Seq::<char>::empty()) == 0);
        assert(dec_val(dec_digits(n)) == digit_val(digit_char(n as int)));
        assert(digit_val(digit_char(n as int)) == n);
    } else {
        lemma_dec_val_of_digits(n / 10);
        assert(dec_digits(n).drop_last() =~= dec_digits(n / 10));
        assert(dec_digits(n).last() == digit_char((n % 10) as int));
        assert(dec_val(dec_digits(n)) == dec_val(dec_digits(n / 10)) * 10 + digit_val(
            digit_char((n % 10) as int),
        ));
        assert(digit_val(digit_char((n % 10) as int)) == n % 10);
        vstd::arithmetic::div_mod::lemma_fundamental_div_mod(n as int, 10);
    }
}

/// A leading zero does not change the value a digit string denotes.
pub proof fn lemma_dec_val_leading_zero(ds: Seq<char>)
    ensures
        dec_val(seq!['0'] + ds) == dec_val(ds),
    decreases ds.len(),
{
    if ds.len() == 0 {
        assert(seq!['0'] + ds =~= seq!['0']);
        assert((seq!['0']).drop_last() =~= Seq::<char>::empty());
        assert(dec_val(Seq::<char>::empty()) == 0);
        assert(dec_val(seq!['0']) == digit_val('0'));
    } else {
        lemma_dec_val_leading_zero(ds.drop_last());
        assert((seq!['0'] + ds).drop_last() =~= seq!['0'] + ds.drop_last());
        assert((seq!['0'] + ds).last() == ds.last());
        assert(dec_val(seq!['0'] + ds) == dec_val(seq!['0'] + ds.drop_last()) * 10 + digit_val(
            ds.last(),
        ));
        assert(dec_val(ds) == dec_val(ds.drop_last()) * 10 + digit_val(ds.last()));
    }
}

/// The zero-padded renderings denote the value they render.
pub proof fn lemma_dec_val_pads(n: nat)
    ensures
        dec_val(pad2(n)) == n,
        dec_val(pad3(n)) == n,
{
    lemma_dec_val_of_digits(n);
    if n < 10 {
        lemma_dec_val_leading_zero(dec_digits(n));
    }
    if n < 100 {
        lemma_dec_val_leading_zero(pad2(n));
    }
}

/// Every character a number renders to is a decimal digit.
pub proof fn lemma_dec_digits_are_digits(n: nat)
    ensures
        forall|i: int| 0 <= i < dec_digits(n).len() ==> is_digit(#[trigger] dec_digits(n)[i]),
    decreases n,
{
    if n >= 10 {
        lemma_dec_digits_are_digits(n / 10);
        assert(dec_digits(n) == dec_digits(n / 10).push(digit_char((n % 10) as int)));
    }
}

/// Every character of a padded rendering is a decimal digit.
pub proof fn lemma_pads_are_digits(n: nat)
    ensures
        forall|i: int| 0 <= i < pad2(n).len() ==> is_digit(#[trigger] pad2(n)[i]),
        forall|i: int| 0 <= i < pad3(n).len() ==> is_digit(#[trigger] pad3(n)[i]),
{
    lemma_dec_digits_are_digits(n);
}

/// A clock rendering can be read back: naive division recovers the very
/// tuple the string was built from. The hour field appears exactly when the
/// hour component is nonzero; minutes, seconds and milliseconds sit at
/// fixed offsets from the right-hand end, and the hour digits fill whatever
/// is left on the left.
pub proof fn lemma_clock_format_round_trip(ms: nat)
    ensures
        ({
            let cs = clock_spec(ms);
            let n = cs.len() as int;
            &&& (clock_hours(ms) == 0 ==> n == 14)
            &&& (clock_hours(ms) > 0 ==> n >= 18)
            &&& (cs.contains('h') <==> clock_hours(ms) > 0)
            &&& dec_val(cs.subrange(n - 14, n - 12)) == clock_minutes(ms)
            &&& dec_val(cs.subrange(n - 10, n - 8)) == clock_seconds(ms)
            &&& dec_val(cs.subrange(n - 5, n - 2)) == clock_millis(ms)
            &&& (clock_hours(ms) > 0 ==> dec_val(cs.subrange(0, n - 16)) == clock_hours(ms))
        }),
{
    reveal_strlit("m ");
    reveal_strlit("s .");
    reveal_strlit("ms");
    reveal_strlit("h ");
    let h = clock_hours(ms);
    let mi = clock_minutes(ms);
    let se = clock_seconds(ms);
    let mil = clock_millis(ms);
    vstd::arithmetic::div_mod::lemma_mod_division_less_than_divisor(ms as int, 3600000);
    vstd::arithmetic::div_mod::lemma_mod_division_less_than_divisor(ms as int, 60000);
    vstd::arithmetic::div_mod::lemma_mod_division_less_than_divisor(ms as int, 1000);
    vstd::arithmetic::div_mod::lemma_multiply_divide_lt((ms % 3600000) as int, 60000, 60);
    vstd::arithmetic::div_mod::lemma_multiply_divide_lt((ms % 60000) as int, 1000, 60);
    assert(mi < 60 && se < 60 && mil < 1000);
    lemma_pad_lens(mi);
    lemma_pad_lens(se);
    lemma_pad_lens(mil);
    lemma_pad_lens(h);
    lemma_dec_val_pads(mi);
    lemma_dec_val_pads(se);
    lemma_dec_val_pads(mil);
    lemma_pads_are_digits(mi);
    lemma_pads_are_digits(se);
    lemma_pads_are_digits(mil);
    let tail = pad2(mi) + "m "@ + pad2(se) + "s ."@ + pad3(mil) + "ms"@;
    assert(tail.len() == 14);
    let cs = clock_spec(ms);
    let n = cs.len() as int;
    if h == 0 {
        assert(cs == tail);
        assert(cs.subrange(0, 2) =~= pad2(mi));
        assert(cs.subrange(4, 6) =~= pad2(se));
        assert(cs.subrange(9, 12) =~= pad3(mil));
        assert forall|i: int| 0 <= i < 14 implies cs[i] != 'h' by {
            if i < 2 {
                assert(cs[i] == pad2(mi)[i]);
                assert(is_digit(cs[i]));
            } else if i < 4 {
                assert(cs[i] == "m "@[i - 2]);
            } else if i < 6 {
                assert(cs[i] == pad2(se)[i - 4]);
                assert(is_digit(cs[i]));
            } else if i < 9 {
                assert(cs[i] == "s ."@[i - 6]);
            } else if i < 12 {
                assert(cs[i] == pad3(mil)[i - 9]);
                assert(is_digit(cs[i]));
            } else {
                assert(cs[i] == "ms"@[i - 12]);
            }
        }
        assert(!cs.contains('h'));
    } else {
        let hl = pad2(h).len() as int;
        assert(cs == pad2(h) + "h "@ + tail);
        assert(n == hl + 16);
        assert(cs.subrange(0, n - 16) =~= pad2(h));
        lemma_dec_val_pads(h);
        assert(cs.subrange(n - 14, n - 12) =~= pad2(mi));
        assert(cs.subrange(n - 10, n - 8) =~= pad2(se));
        assert(cs.subrange(n - 5, n - 2) =~= pad3(mil));
        assert(cs[hl] == 'h');
        assert(cs.contains('h'));
    }
}

/// The characters of a rendering that are not grouping separators, in
/// order.
pub open spec fn non_separators(s: Seq<char>) -> Seq<char>
    decreases s.len(),
{
    if s.len() == 0 {
        s
    } else if s.last() == ',' {
        non_separators(s.drop_last())
    } else {
        non_separators(s.drop_last()).push(s.last())
    }
}

/// Striking separators out of a concatenation strikes them out of each
/// part.
proof fn lemma_non_separators_distributes(a: Seq<char>, b: Seq<char>)
    ensures
        non_separators(a + b) == non_separators(a) + non_separators(b),
    decreases b.len(),
{
    if b.len() == 0 {
        assert(a + b =~= a);
        assert(non_separators(a) + non_separators(b) =~= non_separators(a));
    } else {
        lemma_non_separators_distributes(a, b.drop_last());
        assert((a + b).drop_last() =~= a + b.drop_last());
        assert((a + b).last() == b.last());
        if b.last() == ',' {
            assert(non_separators(a + b) =~= non_separators(a) + non_separators(b));
        } else {
            assert(non_separators(a) + non_separators(b.drop_last()).push(b.last())
                =~= (non_separators(a) + non_separators(b.drop_last())).push(b.last()));
            assert(non_separators(a + b) =~= non_separators(a) + non_separators(b));
        }
    }
}

/// A sequence without separators is untouched by striking them out.
proof fn lemma_non_separators_all(s: Seq<char>)
    requires
        forall|i: int| 0 <= i < s.len() ==> #[trigger] s[i] != ',',
    ensures
        non_separators(s) == s,
    decreases s.len(),
{
    if s.len() > 0 {
        lemma_non_separators_all(s.drop_last());
        assert(non_separators(s.drop_last()).push(s.last()) =~= s);
    }
}

/// Grouping inserts separators and nothing else: striking them out gives
/// back exactly the digits that were grouped.
pub proof fn lemma_grouped_digits_exact(ds: Seq<char>)
    requires
        forall|i: int| 0 <= i < ds.len() ==> #[trigger] ds[i] != ',',
    ensures
        non_separators(grouped_digits(ds)) == ds,
    decreases ds.len(),
{
    reveal_strlit(",");
    if ds.len() <= 3 {
        lemma_non_separators_all(ds);
    } else {
        let head = ds.take(ds.len() - 3);
        let tail = ds.skip(ds.len() - 3);
        lemma_grouped_digits_exact(head);
        lemma_non_separators_all(tail);
        assert((","@).drop_last() =~= Seq::<char>::empty());
        assert(non_separators(Seq::<char>::empty()) == Seq::<char>::empty());
        assert(non_separators(","@) =~= Seq::<char>::empty());
        lemma_non_separators_distributes(grouped_digits(head), ","@);
        lemma_non_separators_distributes(grouped_digits(head) + ","@, tail);
        assert(non_separators(grouped_digits(ds)) =~= ds);
    }
}

/// The grouped rendering of a signed integer carries exactly the decimal
/// digits of the magnitude, in order, with the sign kept in front: striking
/// the separators out of `grouped_spec(n)` gives `signed_dec(n)`.
pub proof fn lemma_grouped_exact(n: int)
    ensures
        non_separators(grouped_spec(n)) == signed_dec(n),
{
    reveal_strlit("-");
    let mag: nat = if n < 0 {
        (-n) as nat
    } else {
        n as nat
    };
    lemma_dec_digits_are_digits(mag);
    assert(forall|i: int| 0 <= i < dec_digits(mag).len() ==> #[trigger] dec_digits(mag)[i] != ',');
    lemma_grouped_digits_exact(dec_digits(mag));
    if n < 0 {
        lemma_non_separators_distributes("-"@, grouped_digits(dec_digits(mag)));
        assert(("-"@).drop_last() =~= Seq::<char>::empty());
        assert(non_separators(Seq::<char>::empty()) == Seq::<char>::empty());
        assert(non_separators("-"@) =~= "-"@);
        assert(non_separators(grouped_spec(n)) =~= signed_dec(n));
    } else {
        assert(non_separators(grouped_spec(n)) =~= signed_dec(n));
    }
}

} // verus!
