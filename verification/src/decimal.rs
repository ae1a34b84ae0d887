//! Fixed-point numbers and their decimal text. A coordinate counts billionths of a
//! world unit in an `i64`; on the wire it is a JSON number in world units.

use vstd::prelude::*;
use vstd::std_specs::iter::IteratorSpec;

verus! {

/// How many steps of a coordinate make one world unit.
pub const UNIT: u64 = 1_000_000_000;

/// The number of decimal places that a coordinate carries.
pub const PLACES: usize = 9;

/// The character of one decimal digit.
pub open spec fn digit_char(d: int) -> char {
    ((48 + d) as u8) as char
}

/// The digits of `n`, most significant first, without leading zeros.
pub open spec fn nat_digits(n: nat) -> Seq<char>
    decreases n,
{
    if n < 10 {
        seq![digit_char(n as int)]
    } else {
        nat_digits(n / 10).push(digit_char((n % 10) as int))
    }
}

/// The last `width` digits of `n`, most significant first, with leading zeros.
pub open spec fn padded_digits(n: nat, width: nat) -> Seq<char>
    decreases width,
{
    if width == 0 {
        Seq::empty()
    } else {
        padded_digits(n / 10, (width - 1) as nat).push(digit_char((n % 10) as int))
    }
}

/// `digits` without its trailing zeros, but never shorter than one digit.
pub open spec fn trimmed(digits: Seq<char>) -> Seq<char>
    decreases digits.len(),
{
    if digits.len() > 1 && digits.last() == '0' {
        trimmed(digits.drop_last())
    } else {
        digits
    }
}

/// The decimal text of a coordinate: an optional minus sign, the whole units, a
/// point, and the billionths without trailing zeros. Zero is `0.0`.
pub open spec fn decimal_text(v: int) -> Seq<char> {
    let magnitude = if v < 0 { -v } else { v } as nat;
    let sign = if v < 0 { seq!['-'] } else { Seq::<char>::empty() };
    sign + nat_digits(magnitude / (UNIT as nat)) + seq!['.'] + trimmed(
        padded_digits(magnitude % (UNIT as nat), PLACES as nat),
    )
}

/// Appends one character with `String::push`.
#[verifier::external_body]
fn push_char(text: &mut String, c: char)
    ensures
        final(text)@ == old(text)@.push(c),
{
    text.push(c)
}

fn digit_of(d: u64) -> (c: char)
    requires
        d < 10,
    ensures
        c == digit_char(d as int),
{
    (48u8 + d as u8) as char
}

fn push_nat(text: &mut String, n: u64)
    ensures
        final(text)@ == old(text)@ + nat_digits(n as nat),
    decreases n,
{
    if n >= 10 {
        push_nat(text, n / 10);
    }
    push_char(text, digit_of(n % 10));
    proof {
        assert(text@ =~= old(text)@ + nat_digits(n as nat));
    }
}

fn push_padded(text: &mut String, n: u64, width: usize)
    ensures
        final(text)@ == old(text)@ + padded_digits(n as nat, width as nat),
    decreases width,
{
    if width > 0 {
        push_padded(text, n / 10, width - 1);
        push_char(text, digit_of(n % 10));
    }
    proof {
        assert(text@ =~= old(text)@ + padded_digits(n as nat, width as nat));
    }
}

/// Writes a count in decimal digits.
pub fn format_count(n: u64) -> (text: String)
    ensures
        text@ == nat_digits(n as nat),
{
    let mut text = String::new();
    push_nat(&mut text, n);
    text
}

/// Writes a coordinate as decimal text.
pub fn format_decimal(v: i64) -> (text: String)
    ensures
        text@ == decimal_text(v as int),
{
    let mut text = String::new();
    let magnitude: u64 = if v < 0 {
        push_char(&mut text, '-');
        ((-(v + 1)) as u64) + 1
    } else {
        v as u64
    };
    push_nat(&mut text, magnitude / UNIT);
    push_char(&mut text, '.');
    let mut fraction: u64 = magnitude % UNIT;
    let mut width: usize = PLACES;
    while width > 1 && fraction % 10 == 0
        invariant
            1 <= width <= PLACES,
            trimmed(padded_digits(fraction as nat, width as nat)) == trimmed(
                padded_digits((magnitude % UNIT) as nat, PLACES as nat),
            ),
        decreases width,
    {
        proof {
            let longer = padded_digits(fraction as nat, width as nat);
            assert(longer.last() == '0');
            assert(longer.drop_last() =~= padded_digits((fraction / 10) as nat, (width - 1) as nat));
            assert(longer.len() == width) by {
                padded_len(fraction as nat, width as nat);
            }
        }
        fraction = fraction / 10;
        width = width - 1;
    }
    push_padded(&mut text, fraction, width);
    proof {
        let digits = padded_digits(fraction as nat, width as nat);
        padded_len(fraction as nat, width as nat);
        assert(trimmed(digits) == digits) by {
            if width > 1 {
                assert(digits.last() == digit_char((fraction % 10) as int));
            }
        }
        assert(text@ =~= decimal_text(v as int));
    }
    text
}

/// `padded_digits` gives exactly `width` digits.
pub proof fn padded_len(n: nat, width: nat)
    ensures
        padded_digits(n, width).len() == width,
    decreases width,
{
    if width > 0 {
        padded_len(n / 10, (width - 1) as nat);
    }
}

/// `v` brought into the range of a coordinate.
pub open spec fn bounded(v: int) -> int {
    if v < i64::MIN {
        i64::MIN as int
    } else if v > i64::MAX {
        i64::MAX as int
    } else {
        v
    }
}

/// Whether `c` is a decimal digit.
pub open spec fn is_digit(c: char) -> bool {
    '0' <= c <= '9'
}

/// Whether `digits` holds decimal digits only.
pub open spec fn all_digits(digits: Seq<char>) -> bool {
    forall|i: int| 0 <= i < digits.len() ==> is_digit(#[trigger] digits[i])
}

/// The number that a digit stands for.
pub open spec fn digit_value(c: char) -> nat {
    (c as int - 48) as nat
}

/// The number that a run of digits stands for, most significant first.
pub open spec fn digits_value(digits: Seq<char>) -> nat
    decreases digits.len(),
{
    if digits.len() == 0 {
        0
    } else {
        digits_value(digits.drop_last()) * 10 + digit_value(digits.last())
    }
}

/// Ten to the power `n`.
pub open spec fn pow10(n: nat) -> nat
    decreases n,
{
    if n == 0 {
        1
    } else {
        10 * pow10((n - 1) as nat)
    }
}

/// `m` times ten to the power `k`, rounded toward zero where `k` is negative.
pub open spec fn scaled(m: nat, k: int) -> nat {
    if k >= 0 {
        m * pow10(k as nat)
    } else {
        m / pow10((-k) as nat)
    }
}

/// Where the run of digits that starts at `from` ends: the first place at or after
/// `from` that holds no digit.
pub open spec fn run_end(s: Seq<char>, from: int) -> int
    decreases s.len() - from,
{
    if 0 <= from < s.len() && is_digit(s[from]) {
        run_end(s, from + 1)
    } else {
        from
    }
}

/// A number's text taken apart: its sign, all its digits before and after the point,
/// how many of them stand after the point, and its exponent.
pub struct Parts {
    pub negative: bool,
    pub digits: Seq<char>,
    pub places: nat,
    pub exponent: int,
}

/// Takes a number's text apart. The text is an optional `-`, digits, optionally a
/// point and digits, and optionally `e` or `E`, an optional sign and digits; nothing
/// may follow. Other text gives `None`.
pub open spec fn parts_of(s: Seq<char>) -> Option<Parts> {
    let negative = s.len() > 0 && s[0] == '-';
    let a = if negative { 1int } else { 0int };
    let b = run_end(s, a);
    let pointed = b < s.len() && s[b] == '.';
    let c = if pointed { run_end(s, b + 1) } else { b };
    let whole = s.subrange(a, b);
    let fraction = if pointed { s.subrange(b + 1, c) } else { Seq::<char>::empty() };
    if b == a || (pointed && c == b + 1) {
        None
    } else if c == s.len() {
        Some(Parts { negative, digits: whole + fraction, places: fraction.len(), exponent: 0 })
    } else if s[c] == 'e' || s[c] == 'E' {
        let down = c + 1 < s.len() && s[c + 1] == '-';
        let d = if c + 1 < s.len() && (s[c + 1] == '-' || s[c + 1] == '+') { c + 2 } else { c + 1 };
        let e = run_end(s, d);
        if e == d || e != s.len() {
            None
        } else {
            let size = digits_value(s.subrange(d, e)) as int;
            Some(
                Parts { negative, digits: whole + fraction, places: fraction.len(), exponent: if down { -size } else { size } },
            )
        }
    } else {
        None
    }
}

/// The size of a number in billionths, rounded toward zero.
pub open spec fn magnitude(parts: Parts) -> nat {
    scaled(digits_value(parts.digits), parts.exponent - parts.places + PLACES)
}

/// The coordinate that a number's text stands for: its value in billionths, rounded
/// toward zero and brought into the range of a coordinate. `None` where the text is
/// not a number.
pub open spec fn decimal_value(s: Seq<char>) -> Option<int> {
    match parts_of(s) {
        Some(parts) => Some(bounded(if parts.negative { -(magnitude(parts) as int) } else { magnitude(parts) as int })),
        None => None,
    }
}

/// The number made of the first `p` digits of `digits`, which is padded with zeros
/// where `p` is beyond its end.
pub open spec fn prefix_value(digits: Seq<char>, p: int) -> nat {
    if p <= 0 {
        0
    } else if p <= digits.len() {
        digits_value(digits.take(p))
    } else {
        digits_value(digits) * pow10((p - digits.len()) as nat)
    }
}

/// One more digit multiplies the value by ten and adds the digit.
pub proof fn value_step(digits: Seq<char>, i: int)
    requires
        0 <= i < digits.len(),
    ensures
        digits_value(digits.take(i + 1)) == digits_value(digits.take(i)) * 10 + digit_value(digits[i]),
{
    assert(digits.take(i + 1).drop_last() =~= digits.take(i));
}

/// A run of `n` digits stands for a number below ten to the `n`.
pub proof fn value_below_power(digits: Seq<char>)
    requires
        all_digits(digits),
    ensures
        digits_value(digits) < pow10(digits.len()),
    decreases digits.len(),
{
    if digits.len() > 0 {
        value_below_power(digits.drop_last());
        assert(is_digit(digits.last()));
    }
}

/// Powers of ten are positive and grow with the exponent.
pub proof fn pow10_grows(a: nat, b: nat)
    requires
        a <= b,
    ensures
        1 <= pow10(a) <= pow10(b),
    decreases b,
{
    if b == 0 {
    } else if a == b {
        pow10_grows(0, (b - 1) as nat);
    } else {
        pow10_grows(a, (b - 1) as nat);
    }
}

/// Cutting digits off the end divides the value by a power of ten.
pub proof fn prefix_divides(digits: Seq<char>, p: int)
    requires
        all_digits(digits),
        0 <= p <= digits.len(),
    ensures
        digits_value(digits.take(p)) == digits_value(digits) / pow10((digits.len() - p) as nat),
    decreases digits.len() - p,
{
    let n = digits.len() as int;
    let m = digits_value(digits) as int;
    if p == n {
        assert(digits.take(p) =~= digits);
        assert(pow10(0) == 1);
        assert(m / 1 == m);
    } else {
        prefix_divides(digits, p + 1);
        value_step(digits, p);
        assert(is_digit(digits[p]));
        let longer = digits_value(digits.take(p + 1)) as int;
        let shorter = digits_value(digits.take(p)) as int;
        let last = digit_value(digits[p]) as int;
        let rest = pow10((n - p - 1) as nat) as int;
        pow10_grows(0, (n - p - 1) as nat);
        assert(0 <= last < 10);
        assert(longer == shorter * 10 + last);
        assert(longer / 10 == shorter);
        assert(longer == m / rest);
        vstd::arithmetic::div_mod::lemma_div_denominator(m, rest, 10);
        assert(pow10((n - p) as nat) == 10 * rest);
        assert(rest * 10 == 10 * rest);
        assert((m / rest) / 10 == m / (rest * 10));
    }
}

/// A longer prefix never stands for a smaller number.
pub proof fn prefix_grows(digits: Seq<char>, p: int, q: int)
    requires
        p <= q,
    ensures
        prefix_value(digits, p) <= prefix_value(digits, q),
    decreases q - p,
{
    let n = digits.len() as int;
    if p < q {
        prefix_grows(digits, p, q - 1);
        if q - 1 <= 0 {
        } else if q <= n {
            value_step(digits, q - 1);
        } else {
            let m = digits_value(digits) as int;
            let less = pow10((q - 1 - n) as nat) as int;
            if q - 1 == n {
                assert(digits.take(n) =~= digits);
            }
            assert(m * (10 * less) >= m * less) by (nonlinear_arith)
                requires
                    m >= 0,
                    less >= 0,
            ;
        }
    }
}

/// The first `n + k` digits of an `n`-digit number are the number scaled by ten to
/// the `k`.
pub proof fn prefix_is_scaled(digits: Seq<char>, k: int)
    requires
        all_digits(digits),
    ensures
        prefix_value(digits, digits.len() + k) == scaled(digits_value(digits), k),
{
    let n = digits.len() as int;
    let m = digits_value(digits);
    if k >= 0 {
        assert(pow10(0) == 1);
        if k == 0 {
            assert(digits.take(n) =~= digits);
            assert(m * 1 == m);
        }
    } else if n + k <= 0 {
        value_below_power(digits);
        pow10_grows(digits.len(), (-k) as nat);
        vstd::arithmetic::div_mod::lemma_basic_div(m as int, pow10((-k) as nat) as int);
    } else {
        prefix_divides(digits, n + k);
    }
}

/// Where the run of digits that starts at `from` ends.
fn scan_digits(chars: &Vec<char>, from: usize) -> (end: usize)
    requires
        from <= chars@.len(),
    ensures
        end == run_end(chars@, from as int),
        from <= end <= chars@.len(),
        all_digits(chars@.subrange(from as int, end as int)),
{
    let mut end = from;
    while end < chars.len() && chars[end] >= '0' && chars[end] <= '9'
        invariant
            from <= end <= chars@.len(),
            run_end(chars@, from as int) == run_end(chars@, end as int),
            forall|i: int| from <= i < end ==> is_digit(#[trigger] chars@[i]),
        decreases chars@.len() - end,
    {
        end += 1;
    }
    end
}

/// The largest size that matters: beyond it a coordinate is out of range either way.
const LIMIT: u128 = 9_223_372_036_854_775_808;

/// Exponents of this size or more shift every number out of range or to zero.
const HUGE: u128 = 1_000_000_000_000_000_000_000_000_000_000;

fn digit_number(c: char) -> (d: u128)
    requires
        is_digit(c),
    ensures
        d == digit_value(c),
        d < 10,
{
    (c as u32 - 48) as u128
}

/// The first `p` digits of `digits` as a number, or `None` where that number is
/// above `LIMIT`.
fn prefix_number(digits: &Vec<char>, p: i128) -> (r: Option<u128>)
    requires
        all_digits(digits@),
    ensures
        r matches Some(v) ==> v == prefix_value(digits@, p as int) && v <= LIMIT,
        r is None ==> prefix_value(digits@, p as int) > LIMIT,
{
    if p <= 0 {
        return Some(0);
    }
    let n = digits.len();
    let count: usize = if p <= n as i128 { p as usize } else { n };
    let mut acc: u128 = 0;
    let mut i: usize = 0;
    while i < count
        invariant
            i <= count <= n,
            n == digits@.len(),
            count <= p,
            all_digits(digits@),
            acc == prefix_value(digits@, i as int),
            acc <= LIMIT,
        decreases count - i,
    {
        let d = digit_number(digits[i]);
        proof {
            value_step(digits@, i as int);
            assert(digits@.take(0) =~= Seq::<char>::empty());
        }
        acc = acc * 10 + d;
        i += 1;
        if acc > LIMIT {
            proof {
                prefix_grows(digits@, i as int, p as int);
            }
            return None;
        }
    }
    if p <= n as i128 {
        return Some(acc);
    }
    proof {
        assert(digits@.take(n as int) =~= digits@);
        assert(acc == digits_value(digits@));
    }
    if acc == 0 {
        proof {
            assert(0 * pow10((p - n) as nat) == 0) by (nonlinear_arith);
        }
        return Some(0);
    }
    let mut left: i128 = p - n as i128;
    let ghost total = prefix_value(digits@, p as int) as int;
    while left > 0
        invariant
            0 <= left,
            1 <= acc <= LIMIT,
            acc * pow10(left as nat) == total,
            total == prefix_value(digits@, p as int),
        decreases left,
    {
        proof {
            let rest = pow10((left - 1) as nat) as int;
            pow10_grows(0, (left - 1) as nat);
            assert(pow10(left as nat) == 10 * rest);
            assert(acc * (10 * rest) == (acc * 10) * rest) by (nonlinear_arith);
            assert((acc * 10) * rest >= acc * 10) by (nonlinear_arith)
                requires
                    rest >= 1,
                    acc >= 0,
            ;
        }
        acc = acc * 10;
        left = left - 1;
        if acc > LIMIT {
            return None;
        }
    }
    proof {
        assert(acc * 1 == acc) by (nonlinear_arith);
    }
    Some(acc)
}

/// The number that the digits `chars[from..to]` stand for, or `None` where it is
/// `HUGE` or more.
fn run_number(chars: &Vec<char>, from: usize, to: usize) -> (r: Option<u128>)
    requires
        from <= to <= chars@.len(),
        all_digits(chars@.subrange(from as int, to as int)),
    ensures
        r matches Some(v) ==> v == digits_value(chars@.subrange(from as int, to as int)) && v < HUGE,
        r is None ==> digits_value(chars@.subrange(from as int, to as int)) >= HUGE,
{
    let ghost run = chars@.subrange(from as int, to as int);
    let mut acc: u128 = 0;
    let mut i: usize = from;
    proof {
        assert(run.take(0) =~= Seq::<char>::empty());
    }
    while i < to
        invariant
            from <= i <= to <= chars@.len(),
            run == chars@.subrange(from as int, to as int),
            all_digits(run),
            acc == digits_value(run.take(i - from)),
            acc < HUGE,
        decreases to - i,
    {
        proof {
            value_step(run, i - from);
            assert(is_digit(run[i - from]));
        }
        acc = acc * 10 + digit_number(chars[i]);
        i += 1;
        if acc >= HUGE {
            proof {
                prefix_grows(run, i - from, run.len() as int);
                assert(run.take(run.len() as int) =~= run);
            }
            return None;
        }
    }
    proof {
        assert(run.take(run.len() as int) =~= run);
    }
    Some(acc)
}

fn copy_run(digits: &mut Vec<char>, chars: &Vec<char>, from: usize, to: usize)
    requires
        from <= to <= chars@.len(),
    ensures
        final(digits)@ == old(digits)@ + chars@.subrange(from as int, to as int),
{
    let mut i: usize = from;
    while i < to
        invariant
            from <= i <= to <= chars@.len(),
            digits@ == old(digits)@ + chars@.subrange(from as int, i as int),
        decreases to - i,
    {
        digits.push(chars[i]);
        i += 1;
        proof {
            assert(digits@ =~= old(digits)@ + chars@.subrange(from as int, i as int));
        }
    }
}

/// A number's text taken apart, as the parser holds it. The exponent's size is
/// `None` where it is `HUGE` or more.
struct Layout {
    negative: bool,
    digits: Vec<char>,
    places: usize,
    down: bool,
    size: Option<u128>,
}

impl Layout {
    /// Whether this layout holds what `parts` holds.
    spec fn holds(self, parts: Parts) -> bool {
        &&& self.negative == parts.negative
        &&& self.digits@ == parts.digits
        &&& all_digits(self.digits@)
        &&& self.places == parts.places
        &&& self.places < self.digits@.len()
        &&& match self.size {
            Some(size) => size < HUGE && parts.exponent == if self.down { -(size as int) } else { size as int },
            None => if self.down { parts.exponent <= -HUGE } else { parts.exponent >= HUGE },
        }
    }
}

/// Reads the exponent that starts at `c`, after the digits of the number.
fn take_exponent(chars: &Vec<char>, c: usize) -> (r: Option<(bool, Option<u128>)>)
    requires
        c < chars@.len(),
    ensures
        ({
            let s = chars@;
            let down = c + 1 < s.len() && s[c + 1] == '-';
            let d = if c + 1 < s.len() && (s[c + 1] == '-' || s[c + 1] == '+') { c + 2 } else { c + 1 };
            let e = run_end(s, d);
            let fine = (s[c as int] == 'e' || s[c as int] == 'E') && e != d && e == s.len();
            &&& r is Some == fine
            &&& r matches Some((went_down, size)) ==> went_down == down && match size {
                Some(v) => v == digits_value(s.subrange(d, e)) && v < HUGE,
                None => digits_value(s.subrange(d, e)) >= HUGE,
            }
        }),
{
    let n = chars.len();
    if chars[c] != 'e' && chars[c] != 'E' {
        return None;
    }
    let down = c + 1 < n && chars[c + 1] == '-';
    let d: usize = if c + 1 < n && (chars[c + 1] == '-' || chars[c + 1] == '+') { c + 2 } else { c + 1 };
    let e = scan_digits(chars, d);
    if e == d || e != n {
        return None;
    }
    Some((down, run_number(chars, d, e)))
}

/// Takes a number's text apart.
fn take_apart(chars: &Vec<char>) -> (r: Option<Layout>)
    ensures
        r is Some == parts_of(chars@) is Some,
        r matches Some(layout) ==> layout.holds(parts_of(chars@)->0),
{
    let n = chars.len();
    let negative = n > 0 && chars[0] == '-';
    let a: usize = if negative { 1 } else { 0 };
    let b = scan_digits(chars, a);
    if b == a {
        return None;
    }
    let pointed = b < n && chars[b] == '.';
    let c = if pointed { scan_digits(chars, b + 1) } else { b };
    if pointed && c == b + 1 {
        return None;
    }
    let mut digits: Vec<char> = Vec::new();
    copy_run(&mut digits, chars, a, b);
    if pointed {
        copy_run(&mut digits, chars, b + 1, c);
    }
    let places: usize = if pointed { c - (b + 1) } else { 0 };
    proof {
        let whole = chars@.subrange(a as int, b as int);
        let fraction = if pointed { chars@.subrange(b + 1, c as int) } else { Seq::<char>::empty() };
        assert(digits@ =~= whole + fraction);
        assert forall|i: int| 0 <= i < digits@.len() implies is_digit(#[trigger] digits@[i]) by {
            if i < whole.len() {
                assert(digits@[i] == whole[i]);
            } else {
                assert(digits@[i] == fraction[i - whole.len()]);
            }
        }
    }
    if c == n {
        return Some(Layout { negative, digits, places, down: false, size: Some(0) });
    }
    match take_exponent(chars, c) {
        Some((down, size)) => Some(Layout { negative, digits, places, down, size }),
        None => None,
    }
}

/// The size in billionths of the number in `layout`, or `None` where it is above
/// `LIMIT`.
fn layout_size(layout: &Layout, Ghost(parts): Ghost<Parts>) -> (size: Option<u128>)
    requires
        layout.holds(parts),
    ensures
        size matches Some(m) ==> m == magnitude(parts) && m <= LIMIT,
        size is None ==> magnitude(parts) > LIMIT,
{
    let ghost k = parts.exponent - parts.places + PLACES;
    let ghost m = digits_value(layout.digits@) as int;
    let count = layout.digits.len();
    proof {
        prefix_is_scaled(layout.digits@, k);
        assert(layout.digits@.take(count as int) =~= layout.digits@);
    }
    match layout.size {
        Some(size) => {
            let exponent: i128 = if layout.down { -(size as i128) } else { size as i128 };
            prefix_number(&layout.digits, (count - layout.places) as i128 + PLACES as i128 + exponent)
        },
        None => {
            if layout.down {
                Some(0)
            } else {
                match prefix_number(&layout.digits, count as i128) {
                    Some(0) => {
                        proof {
                            assert(0 * pow10(k as nat) == 0) by (nonlinear_arith);
                        }
                        Some(0)
                    },
                    _ => {
                        proof {
                            assert(m >= 1);
                            pow10_grows(19, k as nat);
                            assert(pow10(19) == 10_000_000_000_000_000_000) by {
                                reveal_with_fuel(pow10, 20);
                            }
                            assert(m * pow10(k as nat) >= pow10(k as nat)) by (nonlinear_arith)
                                requires
                                    m >= 1,
                            ;
                        }
                        None
                    },
                }
            }
        },
    }
}

/// Reads a number's text as a coordinate.
pub fn parse_decimal(text: &str) -> (v: Option<i64>)
    ensures
        v is Some == decimal_value(text@) is Some,
        v matches Some(x) ==> decimal_value(text@) == Some(x as int),
{
    let chars = chars_of(text);
    match take_apart(&chars) {
        None => None,
        Some(layout) => {
            let size = layout_size(&layout, Ghost(parts_of(text@)->0));
            Some(
                match size {
                    None => if layout.negative { i64::MIN } else { i64::MAX },
                    Some(m) => if layout.negative {
                        if m >= LIMIT { i64::MIN } else { -(m as i64) }
                    } else {
                        if m > i64::MAX as u128 { i64::MAX } else { m as i64 }
                    },
                },
            )
        },
    }
}

/// The characters of `text`, one by one.
pub fn chars_of(text: &str) -> (chars: Vec<char>)
    ensures
        chars@ == text@,
{
    let mut chars: Vec<char> = Vec::new();
    for c in it: text.chars()
        invariant
            it.seq() == text@,
            chars@ == it.seq().take(it.index()),
    {
        chars.push(c);
        proof {
            assert(chars@ =~= text@.take(it.index() + 1));
        }
    }
    proof {
        assert(text@.take(text@.len() as int) =~= text@);
    }
    chars
}

/// A digit's character is a digit, and stands for that digit.
pub proof fn digit_char_is_digit(d: int)
    requires
        0 <= d < 10,
    ensures
        is_digit(digit_char(d)),
        digit_value(digit_char(d)) == d,
        digit_char(d) == '0' <==> d == 0,
{
}

/// The digits of a number are digits, and stand for the number.
pub proof fn nat_digits_value(n: nat)
    ensures
        all_digits(nat_digits(n)),
        nat_digits(n).len() >= 1,
        digits_value(nat_digits(n)) == n,
    decreases n,
{
    let digits = nat_digits(n);
    digit_char_is_digit((n % 10) as int);
    if n < 10 {
        assert(digits.drop_last() =~= Seq::<char>::empty());
        assert(digits_value(digits.drop_last()) == 0);
    } else {
        nat_digits_value(n / 10);
        assert(digits.drop_last() =~= nat_digits(n / 10));
    }
}

/// Padded digits are digits, and stand for the number below ten to their width.
pub proof fn padded_digits_value(n: nat, width: nat)
    ensures
        all_digits(padded_digits(n, width)),
        padded_digits(n, width).len() == width,
        digits_value(padded_digits(n, width)) == n % pow10(width),
    decreases width,
{
    let digits = padded_digits(n, width);
    if width == 0 {
        assert(n % 1 == 0);
    } else {
        let less = (width - 1) as nat;
        padded_digits_value(n / 10, less);
        digit_char_is_digit((n % 10) as int);
        assert(digits.drop_last() =~= padded_digits(n / 10, less));
        pow10_grows(0, less);
        let p = pow10(less) as int;
        assert(pow10(width) == 10 * p);
        vstd::arithmetic::div_mod::lemma_breakdown(n as int, 10, p);
        assert(10 * p == p * 10) by (nonlinear_arith);
        assert(10 * ((n as int / 10) % p) == ((n as int / 10) % p) * 10) by (nonlinear_arith);
    }
}

/// Trimming keeps a prefix: what is cut off are zeros, so the value only loses a
/// power of ten.
pub proof fn trimmed_value(digits: Seq<char>)
    requires
        all_digits(digits),
        digits.len() >= 1,
    ensures
        all_digits(trimmed(digits)),
        1 <= trimmed(digits).len() <= digits.len(),
        digits_value(trimmed(digits)) * pow10((digits.len() - trimmed(digits).len()) as nat) == digits_value(digits),
    decreases digits.len(),
{
    if digits.len() > 1 && digits.last() == '0' {
        let shorter = digits.drop_last();
        assert(all_digits(shorter)) by {
            assert forall|i: int| 0 <= i < shorter.len() implies is_digit(#[trigger] shorter[i]) by {
                assert(shorter[i] == digits[i]);
            }
        }
        trimmed_value(shorter);
        let cut = (shorter.len() - trimmed(digits).len()) as nat;
        let t = digits_value(trimmed(digits)) as int;
        let p = pow10(cut) as int;
        assert(pow10(cut + 1) == 10 * p);
        assert(t * (10 * p) == (t * p) * 10) by (nonlinear_arith);
    } else {
        assert(pow10(0) == 1);
        assert(digits_value(digits) * 1 == digits_value(digits)) by (nonlinear_arith);
    }
}

/// Powers of ten multiply as their exponents add.
pub proof fn pow10_adds(a: nat, b: nat)
    ensures
        pow10(a + b) == pow10(a) * pow10(b),
    decreases b,
{
    if b == 0 {
        assert(pow10(a) * 1 == pow10(a)) by (nonlinear_arith);
    } else {
        pow10_adds(a, (b - 1) as nat);
        let x = pow10(a) as int;
        let y = pow10((b - 1) as nat) as int;
        assert(pow10(a + b) == 10 * pow10((a + b - 1) as nat));
        assert(10 * (x * y) == x * (10 * y)) by (nonlinear_arith);
    }
}

/// Digits written one run after another: the first run counts ten to the length of
/// the second times as much.
pub proof fn joined_value(front: Seq<char>, back: Seq<char>)
    ensures
        digits_value(front + back) == digits_value(front) * pow10(back.len()) + digits_value(back),
    decreases back.len(),
{
    if back.len() == 0 {
        assert(front + back =~= front);
        assert(digits_value(front) * 1 == digits_value(front)) by (nonlinear_arith);
    } else {
        let shorter = back.drop_last();
        joined_value(front, shorter);
        assert((front + back).drop_last() =~= front + shorter);
        assert((front + back).last() == back.last());
        let f = digits_value(front) as int;
        let p = pow10(shorter.len()) as int;
        assert(pow10(back.len()) == 10 * p);
        assert((f * p + digits_value(shorter)) * 10 == f * (10 * p) + digits_value(shorter) * 10) by (nonlinear_arith);
    }
}

/// A run of digits that is followed by the end of the text, or by something that is
/// no digit, ends there.
pub proof fn run_ends_after(s: Seq<char>, from: int, to: int)
    requires
        0 <= from <= to <= s.len(),
        forall|i: int| from <= i < to ==> is_digit(#[trigger] s[i]),
        to == s.len() || !is_digit(s[to]),
    ensures
        run_end(s, from) == to,
    decreases to - from,
{
    if from < to {
        run_ends_after(s, from + 1, to);
    }
}

/// Reading what was written gives the coordinate back.
pub proof fn decimal_round_trip(v: i64)
    ensures
        decimal_value(decimal_text(v as int)) == Some(v as int),
{
    let size = (if v < 0 { -v } else { v as int }) as nat;
    let units = size / (UNIT as nat);
    let rest = size % (UNIT as nat);
    let sign = if v < 0 { seq!['-'] } else { Seq::<char>::empty() };
    let whole = nat_digits(units);
    let full = padded_digits(rest, PLACES as nat);
    let fraction = trimmed(full);
    let s = decimal_text(v as int);
    nat_digits_value(units);
    padded_digits_value(rest, PLACES as nat);
    trimmed_value(full);
    assert(pow10(9) == 1_000_000_000) by {
        reveal_with_fuel(pow10, 10);
    }
    assert(rest < 1_000_000_000);
    vstd::arithmetic::div_mod::lemma_small_mod(rest, 1_000_000_000);
    assert(digits_value(full) == rest);
    let a = sign.len() as int;
    let b = a + whole.len();
    let c = b + 1 + fraction.len();
    assert(s =~= sign + whole + seq!['.'] + fraction);
    assert(s.len() == c);
    assert forall|i: int| a <= i < b implies is_digit(#[trigger] s[i]) by {
        assert(s[i] == whole[i - a]);
    }
    assert forall|i: int| b + 1 <= i < c implies is_digit(#[trigger] s[i]) by {
        assert(s[i] == fraction[i - b - 1]);
    }
    assert(s[b] == '.');
    assert(is_digit(whole[0]));
    assert(s[a] == whole[0]);
    assert((s.len() > 0 && s[0] == '-') == (v < 0)) by {
        if v < 0 {
            assert(s[0] == '-');
        }
    }
    run_ends_after(s, a, b);
    run_ends_after(s, b + 1, c);
    assert(s.subrange(a, b) =~= whole);
    assert(s.subrange(b + 1, c) =~= fraction);
    let parts = parts_of(s)->0;
    assert(parts_of(s) is Some);
    assert(parts.digits == whole + fraction);
    assert(parts.places == fraction.len());
    assert(parts.exponent == 0);
    assert(parts.negative == (v < 0));
    joined_value(whole, fraction);
    let gap = (PLACES - fraction.len()) as nat;
    pow10_adds(fraction.len(), gap);
    let w = digits_value(whole) as int;
    let f = digits_value(fraction) as int;
    let pf = pow10(fraction.len()) as int;
    let pg = pow10(gap) as int;
    assert(magnitude(parts) == (w * pf + f) * pg);
    assert((w * pf + f) * pg == w * (pf * pg) + f * pg) by (nonlinear_arith);
    assert(f * pg == rest);
    assert(pf * pg == UNIT);
    assert(size == units * UNIT + rest) by {
        vstd::arithmetic::div_mod::lemma_fundamental_div_mod(size as int, UNIT as int);
        assert(UNIT * (size as int / (UNIT as int)) == units * UNIT) by (nonlinear_arith)
            requires
                units == size as int / (UNIT as int),
        ;
    }
    assert(magnitude(parts) == size);
}

} // verus!
