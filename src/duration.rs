use vstd::prelude::*;

verus! {

/// The duration used when no usable one is given: one minute.
pub const DEFAULT_DURATION_MS: u64 = 60_000;

/// An exponent at least this large moves every digit past any place that
/// matters: the result is then zero, one, or the largest duration.
pub const EXPONENT_CAP: u128 = 1_000_000_000_000_000_000_000;

pub open spec fn is_digit(c: char) -> bool {
    '0' <= c && c <= '9'
}

pub open spec fn digit_value(c: char) -> nat {
    (c as int - '0' as int) as nat
}

pub open spec fn all_digits(s: Seq<char>) -> bool {
    forall|i: int| 0 <= i < s.len() ==> is_digit(#[trigger] s[i])
}

/// The decimal number written by the first `n` characters of `s`, where a
/// position past the end of `s` reads as the digit zero.
pub open spec fn leading_value(s: Seq<char>, n: nat) -> nat
    decreases n,
{
    if n == 0 {
        0
    } else {
        let d: nat = if n - 1 < s.len() { digit_value(s[n - 1]) } else { 0 };
        leading_value(s, (n - 1) as nat) * 10 + d
    }
}

/// The end of the run of digits in `t` that starts at `i`.
pub open spec fn digit_run(t: Seq<char>, i: nat) -> nat
    decreases t.len() - i,
{
    if i < t.len() && is_digit(t[i as int]) {
        digit_run(t, i + 1)
    } else {
        i
    }
}

/// The digits `d`, with the decimal point placed after the first `point`
/// of them (zeros are read past the end, and before the start when
/// `point` is negative), rounded up to a whole number: the digits before
/// the point, plus one when a digit after it is not zero.
pub open spec fn ceil_at(d: Seq<char>, point: int) -> nat {
    let whole: nat = if point > 0 { leading_value(d, point as nat) } else { 0 };
    let rest: nat = if exists|i: int| 0 <= i && point <= i && i < d.len() && d[i] != '0' {
        1
    } else {
        0
    };
    whole + rest
}

/// A natural number, or the largest `u64` where it does not fit.
pub open spec fn saturate(m: nat) -> u64 {
    if m <= u64::MAX { m as u64 } else { u64::MAX }
}

/// The milliseconds, rounded up, in an unsigned decimal count of seconds:
/// digits with at most one decimal point and at least one digit in all
/// (`"30"`, `"1.5"`, `"2."`, `".25"`), then optionally an exponent: `e` or
/// `E`, an optional sign and at least one digit (`"1e3"`, `"2.5E-1"`).
/// `None` for any other text.
pub open spec fn unsigned_millis(t: Seq<char>) -> Option<nat> {
    let b = digit_run(t, 0);
    let c: nat = if b < t.len() && t[b as int] == '.' { b + 1 } else { b };
    let d = digit_run(t, c);
    let mantissa = t.subrange(0, b as int) + t.subrange(c as int, d as int);
    if mantissa.len() == 0 {
        None
    } else if d == t.len() {
        Some(ceil_at(mantissa, b + 3int))
    } else if t[d as int] == 'e' || t[d as int] == 'E' {
        let g0: nat = d + 1;
        let signed = g0 < t.len() && (t[g0 as int] == '+' || t[g0 as int] == '-');
        let g: nat = if signed { g0 + 1 } else { g0 };
        let h = digit_run(t, g);
        if g < h && h == t.len() {
            let e = leading_value(t.subrange(g as int, h as int), (h - g) as nat);
            let point: int = if signed && t[g0 as int] == '-' { b - e + 3 } else { (b + e + 3) as int };
            Some(ceil_at(mantissa, point))
        } else {
            None
        }
    } else {
        None
    }
}

/// The letters of the word for an infinite count.
pub open spec fn infinity_word() -> Seq<char> {
    seq!['i', 'n', 'f', 'i', 'n', 'i', 't', 'y']
}

/// `c` is the lower-case letter `l` in either case.
pub open spec fn same_letter(c: char, l: char) -> bool {
    c == l || c as int + 32 == l as int
}

/// `t` is `inf` or `infinity`, in any mix of cases.
pub open spec fn is_infinity_text(t: Seq<char>) -> bool {
    &&& (t.len() == 3 || t.len() == 8)
    &&& forall|i: int| 0 <= i < t.len() ==> same_letter(#[trigger] t[i], infinity_word()[i])
}

/// The milliseconds, rounded up and saturated at the largest `u64`, of a
/// positive count of seconds written as text: an optional `+`, then an
/// unsigned decimal count (see `unsigned_millis`) or `inf` / `infinity`
/// (the largest `u64`). `None` for text that writes no number, for zero and
/// for text that starts with `-`.
pub open spec fn text_millis(s: Seq<char>) -> Option<u64> {
    if s.len() > 0 && s[0] == '-' {
        None
    } else {
        let t = if s.len() > 0 && s[0] == '+' { s.skip(1) } else { s };
        if is_infinity_text(t) {
            Some(u64::MAX)
        } else {
            match unsigned_millis(t) {
                Some(m) => if m > 0 { Some(saturate(m)) } else { None },
                None => None,
            }
        }
    }
}

/// The timer's duration for an optional argument: the milliseconds that
/// the argument writes where it is a positive count of seconds, else the
/// default.
pub open spec fn duration_for(arg: Option<Seq<char>>) -> u64 {
    match arg {
        Some(s) => match text_millis(s) {
            Some(v) => v,
            None => DEFAULT_DURATION_MS,
        },
        None => DEFAULT_DURATION_MS,
    }
}

pub open spec fn pow10(n: nat) -> nat
    decreases n,
{
    if n == 0 { 1 } else { 10 * pow10((n - 1) as nat) }
}

proof fn lemma_leading_value_monotone(s: Seq<char>, i: nat, j: nat)
    requires
        i <= j,
    ensures
        leading_value(s, i) <= leading_value(s, j),
    decreases j,
{
    if i < j {
        lemma_leading_value_monotone(s, i, (j - 1) as nat);
        let v = leading_value(s, (j - 1) as nat);
        let d: nat = if j - 1 < s.len() { digit_value(s[j - 1]) } else { 0 };
        assert(v <= v * 10 + d) by (nonlinear_arith);
    }
}

proof fn lemma_leading_value_zeros(s: Seq<char>, n: nat)
    requires
        forall|i: int| 0 <= i < s.len() ==> #[trigger] s[i] == '0',
    ensures
        leading_value(s, n) == 0,
    decreases n,
{
    if n > 0 {
        lemma_leading_value_zeros(s, (n - 1) as nat);
    }
}

/// Past a digit that is not zero, each further place multiplies the value
/// by ten at least.
proof fn lemma_leading_value_past_nonzero(s: Seq<char>, p: nat, j: nat)
    requires
        p < s.len(),
        is_digit(s[p as int]),
        s[p as int] != '0',
    ensures
        leading_value(s, p + 1 + j) >= pow10(j),
    decreases j,
{
    if j > 0 {
        lemma_leading_value_past_nonzero(s, p, (j - 1) as nat);
        let v = leading_value(s, p + j);
        let k: nat = p + 1 + j;
        let d: nat = if k - 1 < s.len() { digit_value(s[k - 1]) } else { 0 };
        assert(leading_value(s, k) == v * 10 + d);
        assert(v * 10 + d >= pow10((j - 1) as nat) * 10) by (nonlinear_arith)
            requires
                v >= pow10((j - 1) as nat),
        ;
    }
}

/// Where two placements of the point both lie before every digit, or both
/// far past the last one, the saturated rounded results agree.
proof fn lemma_far_points(d: Seq<char>, p1: int, p2: int)
    requires
        all_digits(d),
        (p1 <= 0 && p2 <= 0) || (p1 >= d.len() + 21 && p2 >= d.len() + 21),
    ensures
        saturate(ceil_at(d, p1)) == saturate(ceil_at(d, p2)),
{
    if p1 > 0 {
        if exists|i: int| 0 <= i < d.len() && d[i] != '0' {
            let p = choose|i: int| 0 <= i < d.len() && d[i] != '0';
            reveal_with_fuel(pow10, 21);
            assert(pow10(20) == 100_000_000_000_000_000_000nat);
            lemma_leading_value_past_nonzero(d, p as nat, 20);
            lemma_leading_value_monotone(d, (p + 21) as nat, p1 as nat);
            lemma_leading_value_monotone(d, (p + 21) as nat, p2 as nat);
        } else {
            assert forall|i: int| 0 <= i < d.len() implies #[trigger] d[i] == '0' by {}
            lemma_leading_value_zeros(d, p1 as nat);
            lemma_leading_value_zeros(d, p2 as nat);
        }
    }
}

fn digit_of(c: char) -> (r: Option<u64>)
    ensures
        r is Some <==> is_digit(c),
        r is Some ==> r->0 == digit_value(c),
{
    if '0' <= c && c <= '9' {
        Some((c as u32 - '0' as u32) as u64)
    } else {
        None
    }
}

/// The characters of `s` from position `start` on.
fn chars_from(s: &str, start: usize) -> (r: Vec<char>)
    requires
        start <= s@.len(),
    ensures
        r@ == s@.skip(start as int),
{
    let n = s.unicode_len();
    let mut r: Vec<char> = Vec::new();
    let mut i: usize = start;
    while i < n
        invariant
            n == s@.len(),
            start <= i <= n,
            r@ == s@.subrange(start as int, i as int),
        decreases n - i,
    {
        r.push(s.get_char(i));
        i = i + 1;
    }
    r
}

/// The end of the run of digits in `t` that starts at `start`.
fn digit_run_from(t: &Vec<char>, start: usize) -> (r: usize)
    requires
        start <= t@.len(),
    ensures
        r == digit_run(t@, start as nat),
        start <= r <= t@.len(),
        forall|i: int| start <= i < r ==> is_digit(#[trigger] t@[i]),
        r < t@.len() ==> !is_digit(t@[r as int]),
{
    let mut j: usize = start;
    while j < t.len() && digit_of(t[j]).is_some()
        invariant
            start <= j <= t@.len(),
            digit_run(t@, start as nat) == digit_run(t@, j as nat),
            forall|i: int| start <= i < j ==> is_digit(#[trigger] t@[i]),
        decreases t@.len() - j,
    {
        j = j + 1;
    }
    j
}

/// Appends `t[from..to]` to `v`.
fn push_range(v: &mut Vec<char>, t: &Vec<char>, from: usize, to: usize)
    requires
        from <= to <= t@.len(),
    ensures
        final(v)@ == old(v)@ + t@.subrange(from as int, to as int),
{
    let mut i: usize = from;
    while i < to
        invariant
            from <= i <= to <= t@.len(),
            v@ == old(v)@ + t@.subrange(from as int, i as int),
        decreases to - i,
    {
        v.push(t[i]);
        i = i + 1;
    }
}

fn infinity_letter(i: usize) -> (c: char)
    requires
        i < 8,
    ensures
        c == infinity_word()[i as int],
{
    match i {
        0 => 'i',
        1 => 'n',
        2 => 'f',
        3 => 'i',
        4 => 'n',
        5 => 'i',
        6 => 't',
        _ => 'y',
    }
}

fn infinity_capital(i: usize) -> (c: char)
    requires
        i < 8,
    ensures
        c as int + 32 == infinity_word()[i as int] as int,
{
    match i {
        0 => 'I',
        1 => 'N',
        2 => 'F',
        3 => 'I',
        4 => 'N',
        5 => 'I',
        6 => 'T',
        _ => 'Y',
    }
}

fn is_infinity(t: &Vec<char>) -> (r: bool)
    ensures
        r == is_infinity_text(t@),
{
    if t.len() != 3 && t.len() != 8 {
        return false;
    }
    let mut i: usize = 0;
    while i < t.len()
        invariant
            t@.len() == 3 || t@.len() == 8,
            i <= t@.len(),
            forall|k: int| 0 <= k < i ==> same_letter(#[trigger] t@[k], infinity_word()[k]),
        decreases t@.len() - i,
    {
        let c = t[i];
        let l = infinity_letter(i);
        let u = infinity_capital(i);
        assert(c as int + 32 == l as int <==> c == u);
        if !(c == l || c == u) {
            return false;
        }
        i = i + 1;
    }
    true
}

/// `saturate(ceil_at(d, point))`.
fn ceil_at_saturated(d: &Vec<char>, point: i128) -> (r: u64)
    requires
        all_digits(d@),
    ensures
        r == saturate(ceil_at(d@, point as int)),
{
    let n = d.len();
    let mut p: usize = 0;
    while p < n && d[p] == '0'
        invariant
            n == d@.len(),
            p <= n,
            forall|i: int| 0 <= i < p ==> #[trigger] d@[i] == '0',
        decreases n - p,
    {
        p = p + 1;
    }
    if p == n {
        proof {
            if point > 0 {
                lemma_leading_value_zeros(d@, point as nat);
            }
        }
        return 0;
    }
    let mut whole: u64 = 0;
    let mut saturated = false;
    let mut i: i128 = 0;
    if point > 0 {
        while i < point && !saturated
            invariant
                n == d@.len(),
                all_digits(d@),
                0 <= i <= point,
                !saturated ==> whole == leading_value(d@, i as nat),
                saturated ==> leading_value(d@, i as nat) > u64::MAX,
            decreases point - i,
        {
            let dig: u64 = if i < n as i128 {
                digit_of(d[i as usize]).unwrap()
            } else {
                0
            };
            proof {
                lemma_leading_value_monotone(d@, i as nat, (i + 1) as nat);
            }
            if !saturated {
                let next: u128 = whole as u128 * 10 + dig as u128;
                if next > u64::MAX as u128 {
                    saturated = true;
                } else {
                    whole = next as u64;
                }
            }
            i = i + 1;
        }
    }
    if saturated {
        proof {
            lemma_leading_value_monotone(d@, i as nat, point as nat);
        }
        return u64::MAX;
    }
    let start: usize = if point <= 0 {
        0
    } else if point >= n as i128 {
        n
    } else {
        point as usize
    };
    let mut k: usize = start;
    let mut rest = false;
    while k < n
        invariant
            n == d@.len(),
            start <= k <= n,
            rest <==> exists|j: int| start <= j < k && d@[j] != '0',
        decreases n - k,
    {
        if d[k] != '0' {
            rest = true;
        }
        k = k + 1;
    }
    assert(rest <==> exists|j: int| 0 <= j && point <= j && j < d@.len() && d@[j] != '0') by {
        if rest {
            let j = choose|j: int| start <= j < n && d@[j] != '0';
            assert(0 <= j && point <= j && j < d@.len() && d@[j] != '0');
        }
        if exists|j: int| 0 <= j && point <= j && j < d@.len() && d@[j] != '0' {
            let j = choose|j: int| 0 <= j && point <= j && j < d@.len() && d@[j] != '0';
            assert(start <= j < k && d@[j] != '0');
        }
    }
    let total: u128 = whole as u128 + if rest { 1u128 } else { 0u128 };
    if total > u64::MAX as u128 {
        u64::MAX
    } else {
        total as u64
    }
}

/// `unsigned_millis(t@)`, saturated at the largest `u64`.
fn unsigned_millis_saturated(t: &Vec<char>) -> (r: Option<u64>)
    ensures
        r == match unsigned_millis(t@) {
            Some(m) => Some(saturate(m)),
            None => None::<u64>,
        },
{
    let len = t.len();
    let b = digit_run_from(t, 0);
    let c: usize = if b < len && t[b] == '.' { b + 1 } else { b };
    let d = digit_run_from(t, c);
    let mut mantissa: Vec<char> = Vec::new();
    push_range(&mut mantissa, t, 0, b);
    push_range(&mut mantissa, t, c, d);
    let ghost m = t@.subrange(0, b as int) + t@.subrange(c as int, d as int);
    assert(mantissa@ == m);
    assert(all_digits(m)) by {
        assert forall|i: int| 0 <= i < m.len() implies is_digit(#[trigger] m[i]) by {
            if i < b {
                assert(m[i] == t@[i]);
            } else {
                assert(m[i] == t@[c + (i - b)]);
            }
        }
    }
    if mantissa.len() == 0 {
        return None;
    }
    if d == len {
        return Some(ceil_at_saturated(&mantissa, b as i128 + 3));
    }
    if t[d] != 'e' && t[d] != 'E' {
        return None;
    }
    let g0 = d + 1;
    let signed = g0 < len && (t[g0] == '+' || t[g0] == '-');
    let negative = signed && t[g0] == '-';
    let g: usize = if signed { g0 + 1 } else { g0 };
    let h = digit_run_from(t, g);
    if !(g < h && h == len) {
        return None;
    }
    let ghost digits = t@.subrange(g as int, h as int);
    let mut magnitude: u128 = 0;
    let mut big = false;
    let mut k: usize = g;
    while k < h
        invariant
            g <= k <= h == t@.len(),
            digits == t@.subrange(g as int, h as int),
            forall|i: int| g <= i < h ==> is_digit(#[trigger] t@[i]),
            !big ==> magnitude == leading_value(digits, (k - g) as nat),
            !big ==> magnitude <= EXPONENT_CAP,
            big ==> magnitude == EXPONENT_CAP,
            big ==> leading_value(digits, (k - g) as nat) > EXPONENT_CAP,
        decreases h - k,
    {
        assert(digits[k - g] == t@[k as int]);
        let dig = digit_of(t[k]).unwrap();
        proof {
            lemma_leading_value_monotone(digits, (k - g) as nat, (k + 1 - g) as nat);
        }
        if !big {
            let next: u128 = magnitude * 10 + dig as u128;
            if next > EXPONENT_CAP {
                big = true;
                magnitude = EXPONENT_CAP;
            } else {
                magnitude = next;
            }
        }
        k = k + 1;
    }
    let point: i128 = if negative {
        b as i128 + 3 - magnitude as i128
    } else {
        b as i128 + 3 + magnitude as i128
    };
    proof {
        let e = leading_value(digits, (h - g) as nat);
        let exact: int = if negative { b - e + 3 } else { (b + e + 3) as int };
        if big {
            lemma_far_points(m, point as int, exact);
        }
    }
    Some(ceil_at_saturated(&mantissa, point))
}

/// Reads a positive count of seconds written as text, in milliseconds,
/// rounded up and saturated at the largest `u64` (see `text_millis`).
pub fn parse_seconds(s: &str) -> (r: Option<u64>)
    ensures
        r == text_millis(s@),
{
    let n = s.unicode_len();
    if n > 0 && s.get_char(0) == '-' {
        return None;
    }
    let start: usize = if n > 0 && s.get_char(0) == '+' { 1 } else { 0 };
    let t = chars_from(s, start);
    assert(start == 0 ==> t@ == s@);
    if is_infinity(&t) {
        return Some(u64::MAX);
    }
    match unsigned_millis_saturated(&t) {
        Some(m) => if m > 0 { Some(m) } else { None },
        None => None,
    }
}

/// The characters of an optional argument.
pub open spec fn arg_view(arg: Option<&str>) -> Option<Seq<char>> {
    match arg {
        Some(s) => Some(s@),
        None => None,
    }
}

/// The timer's duration in milliseconds for its optional argument, a
/// count of seconds: the default where the argument is absent or does not
/// write a positive number.
pub fn duration_from_arg(arg: Option<&str>) -> (r: u64)
    ensures
        r == duration_for(arg_view(arg)),
        r > 0,
{
    match arg {
        Some(s) => match parse_seconds(s) {
            Some(v) => v,
            None => DEFAULT_DURATION_MS,
        },
        None => DEFAULT_DURATION_MS,
    }
}

} // verus!
