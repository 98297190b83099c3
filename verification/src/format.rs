//! Turning byte counts and durations into the short texts shown on screen.
use vstd::prelude::*;
use vstd::string::StringExecFns;
use vstd::string::StrSliceExecFns;
use vstd::arithmetic::power2::{pow2, lemma_pow2_unfold, lemma_pow2_pos};
use vstd::arithmetic::div_mod::{lemma_div_denominator, lemma_fundamental_div_mod};

verus! {

/// The decimal digit `d` (`d < 10`) as a character.
pub open spec fn digit_char(d: nat) -> char {
    if d == 0 { '0' }
    else if d == 1 { '1' }
    else if d == 2 { '2' }
    else if d == 3 { '3' }
    else if d == 4 { '4' }
    else if d == 5 { '5' }
    else if d == 6 { '6' }
    else if d == 7 { '7' }
    else if d == 8 { '8' }
    else { '9' }
}

/// The decimal notation of `n`, without leading zeros ("0" for zero).
pub open spec fn decimal(n: nat) -> Seq<char>
    decreases n,
{
    if n < 10 {
        seq![digit_char(n)]
    } else {
        decimal(n / 10).push(digit_char(n % 10))
    }
}

fn digit_str(d: u64) -> (r: &'static str)
    requires
        d < 10,
    ensures
        r@ == seq![digit_char(d as nat)],
{
    proof {
        reveal_strlit("0");
        reveal_strlit("1");
        reveal_strlit("2");
        reveal_strlit("3");
        reveal_strlit("4");
        reveal_strlit("5");
        reveal_strlit("6");
        reveal_strlit("7");
        reveal_strlit("8");
        reveal_strlit("9");
    }
    if d == 0 {
        "0"
    } else if d == 1 {
        "1"
    } else if d == 2 {
        "2"
    } else if d == 3 {
        "3"
    } else if d == 4 {
        "4"
    } else if d == 5 {
        "5"
    } else if d == 6 {
        "6"
    } else if d == 7 {
        "7"
    } else if d == 8 {
        "8"
    } else {
        "9"
    }
}

/// Appends the decimal notation of `n` to `out`.
pub fn push_decimal(out: &mut String, n: u64)
    ensures
        final(out)@ == old(out)@ + decimal(n as nat),
    decreases n,
{
    if n >= 10 {
        push_decimal(out, n / 10);
    }
    out.append(digit_str(n % 10));
    proof {
        if n >= 10 {
            assert(decimal(n as nat) == decimal((n / 10) as nat).push(digit_char((n % 10) as nat)));
        }
    }
}

/// What `format_uptime` shows for `seconds`: whole days, hours and minutes, leaving out
/// leading units that are zero ("1d 1h 1m", "1h 0m", "0m").
pub open spec fn uptime_text(seconds: nat) -> Seq<char> {
    let days = seconds / 86400;
    let hours = (seconds % 86400) / 3600;
    let minutes = (seconds % 3600) / 60;
    if days > 0 {
        decimal(days) + seq!['d', ' '] + decimal(hours) + seq!['h', ' '] + decimal(minutes) + seq!['m']
    } else if hours > 0 {
        decimal(hours) + seq!['h', ' '] + decimal(minutes) + seq!['m']
    } else {
        decimal(minutes) + seq!['m']
    }
}

/// Format seconds to human-readable uptime string
pub fn format_uptime(seconds: u64) -> (text: String)
    ensures
        text@ == uptime_text(seconds as nat),
{
    let days: u64 = seconds / 86400;
    let hours: u64 = (seconds % 86400) / 3600;
    let minutes: u64 = (seconds % 3600) / 60;
    let mut out = String::new();
    proof {
        reveal_strlit("d ");
        reveal_strlit("h ");
        reveal_strlit("m");
    }
    if days > 0 {
        push_decimal(&mut out, days);
        out.append("d ");
    }
    if days > 0 || hours > 0 {
        push_decimal(&mut out, hours);
        out.append("h ");
    }
    push_decimal(&mut out, minutes);
    out.append("m");
    out
}


/// Smallest integer that a 64-bit float cannot step through one by one: 2^53.
pub open spec fn f64_exact_limit() -> nat {
    0x20_0000_0000_0000
}

/// How many low bits of `n` a 64-bit float (53 significant bits) cannot hold.
pub open spec fn f64_dropped_bits(n: nat) -> nat
    decreases n,
{
    if n < f64_exact_limit() {
        0
    } else {
        1 + f64_dropped_bits(n / 2)
    }
}

/// `n / d` rounded to the nearest integer, ties to the even one.
pub open spec fn div_round_half_even(n: nat, d: nat) -> nat
    recommends
        d > 0,
{
    let q = n / d;
    let r = n % d;
    if 2 * r > d || (2 * r == d && q % 2 == 1) {
        q + 1
    } else {
        q
    }
}

/// The value of `n as f64`: the nearest number with at most 53 significant bits, ties to
/// the one whose last kept bit is zero.
pub open spec fn nearest_f64(n: nat) -> nat {
    let p = pow2(f64_dropped_bits(n));
    div_round_half_even(n, p) * p
}

/// Index into B, KB, MB, GB, TB of the unit in which `value` is shown: the largest whose
/// size is at most `value`, TB at most.
pub open spec fn unit_index(value: nat) -> nat {
    if value >= 0x100_0000_0000 {
        4
    } else if value >= 0x4000_0000 {
        3
    } else if value >= 0x10_0000 {
        2
    } else if value >= 0x400 {
        1
    } else {
        0
    }
}

/// Size in bytes of the unit with index `k`: 1024 to the power `k`.
pub open spec fn unit_size(k: nat) -> nat {
    if k == 0 {
        1
    } else if k == 1 {
        0x400
    } else if k == 2 {
        0x10_0000
    } else if k == 3 {
        0x4000_0000
    } else {
        0x100_0000_0000
    }
}

/// Name of the unit with index `k`.
pub open spec fn unit_name(k: nat) -> Seq<char> {
    if k == 0 {
        seq!['B']
    } else if k == 1 {
        seq!['K', 'B']
    } else if k == 2 {
        seq!['M', 'B']
    } else if k == 3 {
        seq!['G', 'B']
    } else {
        seq!['T', 'B']
    }
}

/// A number of hundredths written with two decimals: "1.05" for 105.
pub open spec fn two_decimals(hundredths: nat) -> Seq<char> {
    decimal(hundredths / 100) + seq!['.', digit_char((hundredths / 10) % 10), digit_char(hundredths % 10)]
}

/// What `format_bytes` shows for `bytes`: the count as a 64-bit float, divided by the
/// largest unit not above it, with two decimals rounded half to even, a space and the unit.
pub open spec fn bytes_text(bytes: nat) -> Seq<char> {
    let value = nearest_f64(bytes);
    let k = unit_index(value);
    two_decimals(div_round_half_even(value * 100, unit_size(k))) + seq![' '] + unit_name(k)
}

/// `n / d` rounded half to even, for a divisor `d > 0`.
fn u128_div_round_half_even(n: u128, d: u128) -> (r: u128)
    requires
        d > 0,
        n < u128::MAX,
    ensures
        r == div_round_half_even(n as nat, d as nat),
{
    let q: u128 = n / d;
    let rem: u128 = n % d;
    assert(q <= n) by {
        vstd::arithmetic::div_mod::lemma_div_is_ordered_by_denominator(n as int, 1, d as int);
    }
    if rem > d - rem || (rem == d - rem && q % 2 == 1) {
        q + 1
    } else {
        q
    }
}

/// The value that `n as f64` holds, as an integer.
fn nearest_f64_value(n: u64) -> (v: u128)
    ensures
        v == nearest_f64(n as nat),
        v <= 0x1_0000_0000_0000_0000,
{
    let mut t: u64 = n;
    let mut p: u64 = 1;
    let ghost mut e: nat = 0;
    proof {
        vstd::arithmetic::power2::lemma2_to64();
    }
    while t >= 0x20_0000_0000_0000
        invariant
            p == pow2(e),
            t as nat == (n as nat) / (p as nat),
            f64_dropped_bits(n as nat) == e + f64_dropped_bits(t as nat),
            p <= 0x800,
        decreases t,
    {
        proof {
            lemma_pow2_pos(e);
            lemma_pow2_unfold(e + 1);
            lemma_div_denominator(n as int, p as int, 2);
            lemma_fundamental_div_mod(n as int, p as int);
            assert((p as nat) * 0x20_0000_0000_0000 <= (p as nat) * (t as nat)) by (nonlinear_arith)
                requires t >= 0x20_0000_0000_0000;
            assert(p < 0x800) by (nonlinear_arith)
                requires
                    (p as nat) * 0x20_0000_0000_0000 <= (p as nat) * (t as nat),
                    (n as int) == (p as int) * (t as int) + (n as int) % (p as int),
                    (n as int) % (p as int) < p,
                    n < 0x1_0000_0000_0000_0000,
                    t >= 0x20_0000_0000_0000;
            vstd::arithmetic::power2::lemma2_to64();
            if e > 11 {
                vstd::arithmetic::power2::lemma_pow2_strictly_increases(11, e);
            }
            if e + 1 < 11 {
                vstd::arithmetic::power2::lemma_pow2_strictly_increases(e + 1, 11);
            }
        }
        t = t / 2;
        p = p * 2;
        proof {
            e = e + 1;
        }
    }
    proof {
        lemma_pow2_pos(e);
        lemma_fundamental_div_mod(n as int, p as int);
    }
    let rounded: u128 = u128_div_round_half_even(n as u128, p as u128);
    assert(rounded <= 0x20_0000_0000_0000) by {
        assert(t < 0x20_0000_0000_0000);
    }
    assert(rounded * (p as u128) <= 0x1_0000_0000_0000_0000) by (nonlinear_arith)
        requires
            rounded <= (t as int) + 1,
            (p as int) * (t as int) <= n,
            n < 0x1_0000_0000_0000_0000,
            t < 0x20_0000_0000_0000 || p == 1,
            p <= 0x800,
            rounded <= 0x20_0000_0000_0000;
    rounded * (p as u128)
}


/// Format bytes to human-readable string
pub fn format_bytes(bytes: u64) -> (text: String)
    ensures
        text@ == bytes_text(bytes as nat),
{
    let value: u128 = nearest_f64_value(bytes);
    let ghost k: nat = unit_index(value as nat);
    let (unit_bytes, unit): (u128, &str) = if value >= 0x100_0000_0000 {
        (0x100_0000_0000u128, "TB")
    } else if value >= 0x4000_0000 {
        (0x4000_0000u128, "GB")
    } else if value >= 0x10_0000 {
        (0x10_0000u128, "MB")
    } else if value >= 0x400 {
        (0x400u128, "KB")
    } else {
        (1u128, "B")
    };
    proof {
        reveal_strlit("TB");
        reveal_strlit("GB");
        reveal_strlit("MB");
        reveal_strlit("KB");
        reveal_strlit("B");
        reveal_strlit(" ");
        reveal_strlit(".");
    }
    assert(unit_bytes == unit_size(k) && unit@ == unit_name(k));
    let hundredths: u128 = u128_div_round_half_even(value * 100, unit_bytes);
    assert(hundredths <= 0x100_0000_0000_0000_0000) by (nonlinear_arith)
        requires
            hundredths <= (value * 100) / (unit_bytes as int) + 1,
            value <= 0x1_0000_0000_0000_0000,
            unit_bytes >= 1,
            value >= 0x400 ==> unit_bytes >= 0x400,
            value < 0x400 ==> unit_bytes == 1;
    let whole: u64 = (hundredths / 100) as u64;
    let tenths: u64 = ((hundredths / 10) % 10) as u64;
    let last: u64 = (hundredths % 10) as u64;
    let mut out = String::new();
    push_decimal(&mut out, whole);
    out.append(".");
    out.append(digit_str(tenths));
    out.append(digit_str(last));
    out.append(" ");
    out.append(unit);
    out
}


/// What `truncate_string` returns for a text with the characters `chars`: the text itself
/// when it has at most `max_len` characters, else its first `max_len - 1` characters
/// followed by an ellipsis.
pub open spec fn truncated_text(chars: Seq<char>, max_len: nat) -> Seq<char> {
    if chars.len() > max_len {
        chars.take(max_len - 1) + seq!['\u{2026}']
    } else {
        chars
    }
}

/// Truncate a string to a maximum length
///
/// Lengths count characters. A text that is too long keeps `max_len - 1` characters and
/// ends in an ellipsis, so that it is `max_len` characters long.
pub fn truncate_string(s: &str, max_len: usize) -> (text: String)
    requires
        s@.len() > max_len ==> max_len >= 1,
    ensures
        text@ == truncated_text(s@, max_len as nat),
{
    broadcast use vstd::string::group_string_axioms;
    if s.unicode_len() > max_len {
        let head = s.substring_char(0, max_len - 1);
        let mut out = head.to_string();
        proof {
            reveal_strlit("\u{2026}");
        }
        out.append("\u{2026}");
        assert(out@ =~= truncated_text(s@, max_len as nat));
        out
    } else {
        s.to_string()
    }
}

/// A whole number `n` of some unit, from one up to 1023 of it (or any count below 1024 of
/// plain bytes), is shown as `n` with two zero decimals and that unit: 1024 bytes as
/// "1.00 KB", 1048576 as "1.00 MB".
pub proof fn lemma_whole_units_shown_exactly(n: nat, k: nat)
    requires
        k <= 4,
        n < 1024,
        k == 0 || 1 <= n,
    ensures
        bytes_text(n * unit_size(k)) == decimal(n) + seq!['.', '0', '0', ' '] + unit_name(k),
{
    let x = n * unit_size(k);
    assert(x < f64_exact_limit()) by (nonlinear_arith)
        requires
            n < 1024,
            unit_size(k) <= 0x100_0000_0000,
            x == n * unit_size(k);
    vstd::arithmetic::power2::lemma2_to64();
    assert(f64_dropped_bits(x) == 0);
    assert(nearest_f64(x) == x);
    assert(unit_index(x) == k) by {
        if k == 1 {
            assert(x == n * 0x400);
        } else if k == 2 {
            assert(x == n * 0x10_0000);
        } else if k == 3 {
            assert(x == n * 0x4000_0000);
        } else if k == 4 {
            assert(x == n * 0x100_0000_0000);
        }
    }
    let h = div_round_half_even(x * 100, unit_size(k));
    assert(h == n * 100) by {
        let u = unit_size(k);
        assert(x * 100 == (n * 100) * u) by (nonlinear_arith)
            requires
                x == n * u;
        vstd::arithmetic::div_mod::lemma_div_by_multiple((n * 100) as int, u as int);
        vstd::arithmetic::div_mod::lemma_mod_multiples_basic((n * 100) as int, u as int);
    }
    assert(h / 100 == n);
    assert((h / 10) % 10 == 0);
    assert(h % 10 == 0);
    assert(two_decimals(h) =~= decimal(n) + seq!['.', '0', '0']);
    assert(bytes_text(x) =~= decimal(n) + seq!['.', '0', '0', ' '] + unit_name(k));
}

/// A truncated text never has more than `max_len` characters, and one that was cut has
/// exactly `max_len`.
pub proof fn lemma_truncated_text_fits(chars: Seq<char>, max_len: nat)
    requires
        chars.len() > max_len ==> max_len >= 1,
    ensures
        truncated_text(chars, max_len).len() <= max_len,
        chars.len() > max_len ==> truncated_text(chars, max_len).len() == max_len,
        chars.len() <= max_len ==> truncated_text(chars, max_len) == chars,
{
}

/// `s` split into whole units of `unit` (a multiple of a minute) and the minutes and
/// seconds below: `s / unit` and `(s % unit) / 60` depend only on the whole minutes of `s`.
proof fn lemma_whole_minutes_split(s: nat, units_per_minute: nat)
    requires
        units_per_minute > 0,
    ensures
        s / (60 * units_per_minute) == (s / 60 * 60) / (60 * units_per_minute),
        (s % (60 * units_per_minute)) / 60 == ((s / 60 * 60) % (60 * units_per_minute)) / 60,
{
    let x = s as int;
    let u = units_per_minute as int;
    let m = x / 60;
    let t = m * 60;
    vstd::arithmetic::div_mod::lemma_div_by_multiple(m, 60);
    assert(t / 60 == m);
    vstd::arithmetic::div_mod::lemma_div_denominator(x, 60, u);
    vstd::arithmetic::div_mod::lemma_div_denominator(t, 60, u);
    vstd::arithmetic::div_mod::lemma_mod_breakdown(x, 60, u);
    vstd::arithmetic::div_mod::lemma_mod_breakdown(t, 60, u);
    vstd::arithmetic::div_mod::lemma_mod_multiples_basic(m, 60);
    assert(t % 60 == 0);
    let a = m % u;
    assert(x % (60 * u) == 60 * a + x % 60);
    assert(t % (60 * u) == 60 * a);
    vstd::arithmetic::div_mod::lemma_fundamental_div_mod_converse(x % (60 * u), 60, a, x % 60);
    vstd::arithmetic::div_mod::lemma_fundamental_div_mod_converse(t % (60 * u), 60, a, 0);
}

/// The uptime text counts whole minutes: the seconds below a minute never show, so
/// `s` and `s` rounded down to its minute give the same text.
pub proof fn lemma_uptime_ignores_seconds(s: nat)
    ensures
        uptime_text(s) == uptime_text(s / 60 * 60),
{
    let t = s / 60 * 60;
    lemma_whole_minutes_split(s, 1440);
    lemma_whole_minutes_split(s, 60);
    lemma_whole_minutes_split(s, 1);
    assert(s / 86400 == t / 86400);
    assert((s % 3600) / 60 == (t % 3600) / 60);
    // hours: (x % 86400) / 3600 == (x / 3600) % 24, and x / 3600 agrees for s and t.
    let x = s as int;
    let y = t as int;
    vstd::arithmetic::div_mod::lemma_mod_breakdown(x, 3600, 24);
    vstd::arithmetic::div_mod::lemma_mod_breakdown(y, 3600, 24);
    assert(x / 3600 == y / 3600);
    let h = (x / 3600) % 24;
    vstd::arithmetic::div_mod::lemma_fundamental_div_mod_converse(x % 86400, 3600, h, x % 3600);
    vstd::arithmetic::div_mod::lemma_fundamental_div_mod_converse(y % 86400, 3600, h, y % 3600);
}

/// The units shown add back up to the uptime: whenever `days`, `hours` (below 24) and
/// `minutes` (below 60) make up the whole minutes of `seconds`, the text shows exactly these
/// three, leaving out leading units that are zero.
pub proof fn lemma_uptime_text_shows_its_units(seconds: nat, days: nat, hours: nat, minutes: nat)
    requires
        hours < 24,
        minutes < 60,
        days * 86400 + hours * 3600 + minutes * 60 == seconds / 60 * 60,
    ensures
        uptime_text(seconds) == if days > 0 {
            decimal(days) + seq!['d', ' '] + decimal(hours) + seq!['h', ' '] + decimal(minutes) + seq!['m']
        } else if hours > 0 {
            decimal(hours) + seq!['h', ' '] + decimal(minutes) + seq!['m']
        } else {
            decimal(minutes) + seq!['m']
        },
{
    let x = seconds as int;
    let q = x / 60;
    let r = x % 60;
    vstd::arithmetic::div_mod::lemma_fundamental_div_mod(x, 60);
    let d = days as int;
    let h = hours as int;
    let m = minutes as int;
    // The whole minutes split into days, hours and minutes.
    assert(q == d * 1440 + h * 60 + m);
    vstd::arithmetic::div_mod::lemma_fundamental_div_mod_converse(q, 1440, d, h * 60 + m);
    vstd::arithmetic::div_mod::lemma_fundamental_div_mod_converse(h * 60 + m, 60, h, m);
    vstd::arithmetic::div_mod::lemma_fundamental_div_mod_converse(q, 60, d * 24 + h, m);
    assert(q / 1440 == d && q % 1440 == h * 60 + m);
    assert(q % 60 == m);
    // Days: seconds / 86400 == (seconds / 60) / 1440.
    vstd::arithmetic::div_mod::lemma_div_denominator(x, 60, 1440);
    assert(x / 86400 == d);
    // Hours: seconds % 86400 == 60 * ((seconds / 60) % 1440) + seconds % 60.
    vstd::arithmetic::div_mod::lemma_mod_breakdown(x, 60, 1440);
    assert(x % 86400 == 60 * (h * 60 + m) + r);
    vstd::arithmetic::div_mod::lemma_fundamental_div_mod_converse(x % 86400, 3600, h, m * 60 + r);
    // Minutes: seconds % 3600 == 60 * ((seconds / 60) % 60) + seconds % 60.
    vstd::arithmetic::div_mod::lemma_mod_breakdown(x, 60, 60);
    assert(x % 3600 == 60 * m + r);
    vstd::arithmetic::div_mod::lemma_fundamental_div_mod_converse(x % 3600, 60, m, r);
}

} // verus!
