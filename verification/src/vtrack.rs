//! Virtual tracks: `sgr_` ids, catalog metadata, and UTC timestamps.
//!
//! A virtual id is `sgr_` + 22-char base62 of a random 128-bit value.
use vstd::prelude::*;

use crate::text::{
    chars_of, decimal, is_ascii_alnum, extend_chars, padded_decimal, starts_with, starts_with_exec, string_of,
    zero_pad,
};

verus! {

pub const ID_PREFIX: &'static str = "sgr_";

#[derive(Debug, Clone)]
pub struct VirtualTrack {
    pub id: String,
    pub provider: String,
    pub provider_track_id: String,
    pub artist: String,
    pub title: String,
    pub album: Option<String>,
    pub duration_ms: Option<i64>,
    pub isrc: Option<String>,
    pub artwork_url: Option<String>,
    pub status: String,
    pub real_subsonic_id: Option<String>,
    pub resolved_url: Option<String>,
    pub resolved_score: Option<i64>,
    pub resolved_title: Option<String>,
    pub resolved_at_epoch: Option<i64>,
}

/// Metadata from a catalog provider, ready to become a virtual track.
#[derive(Debug, Clone)]
pub struct CatalogTrack {
    pub provider: &'static str,
    pub provider_track_id: String,
    pub artist: String,
    pub title: String,
    pub album: Option<String>,
    pub duration_ms: Option<i64>,
    pub isrc: Option<String>,
    pub artwork_url: Option<String>,
}

pub fn is_virtual_id(id: &str) -> (r: bool)
    ensures
        r == starts_with(id@, "sgr_"@),
{
    let c = chars_of(id);
    let p = chars_of("sgr_");
    starts_with_exec(c.as_slice(), p.as_slice())
}

// ---------------------------------------------------------------- base62

pub open spec fn pow62(k: nat) -> nat
    decreases k,
{
    if k == 0 {
        1
    } else {
        62 * pow62((k - 1) as nat)
    }
}

/// `0-9A-Za-z`.
pub open spec fn base62_char(d: nat) -> char {
    if d < 10 {
        (48 + d) as char
    } else if d < 36 {
        (65 + d - 10) as char
    } else {
        (97 + d - 36) as char
    }
}

/// Fixed-width 22-char base62, most significant digit first, zero-padded.
pub open spec fn base62_spec(n: nat) -> Seq<char> {
    Seq::new(22, |i: int| base62_char((n / pow62((21 - i) as nat)) % 62))
}

proof fn lemma_pow62_pos(k: nat)
    ensures
        pow62(k) >= 1,
    decreases k,
{
    if k > 0 {
        lemma_pow62_pos((k - 1) as nat);
    }
}

fn base62_char_exec(d: u128) -> (c: char)
    requires
        d < 62,
    ensures
        c == base62_char(d as nat),
{
    if d < 10 {
        crate::text::digit_char(d as u32)
    } else if d < 36 {
        crate::text::char_from_ascii((65 + d - 10) as u32)
    } else {
        crate::text::char_from_ascii((97 + d - 36) as u32)
    }
}

/// `char::from_u32` on an ASCII code point.
pub fn base62_22(n: u128) -> (r: String)
    ensures
        r@ == base62_spec(n as nat),
{
    let mut cur: u128 = n;
    assert(pow62(0) == 1);
    assert((n as nat) / 1 == n as nat);
    let mut k: usize = 0;
    let mut digits: Vec<char> = Vec::new();
    while k < 22
        invariant
            k <= 22,
            cur == (n as nat) / pow62(k as nat),
            digits@.len() == k,
            forall|j: int| 0 <= j < k ==> digits@[j] == base62_char(
                ((n as nat) / pow62(j as nat)) % 62,
            ),
        decreases 22 - k,
    {
        let d = cur % 62;
        digits.push(base62_char_exec(d));
        proof {
            lemma_pow62_pos(k as nat);
            vstd::arithmetic::div_mod::lemma_div_denominator(n as int, pow62(k as nat) as int, 62);
            assert(pow62((k + 1) as nat) == pow62(k as nat) * 62) by (nonlinear_arith)
                requires
                    pow62((k + 1) as nat) == 62 * pow62(k as nat),
            ;
        }
        cur = cur / 62;
        k += 1;
    }
    let mut rev: Vec<char> = Vec::new();
    let mut i: usize = 0;
    while i < 22
        invariant
            i <= 22,
            digits@.len() == 22,
            rev@.len() == i,
            forall|j: int| 0 <= j < i ==> rev@[j] == digits@[21 - j],
        decreases 22 - i,
    {
        rev.push(digits[21 - i]);
        i += 1;
    }
    assert(rev@ =~= base62_spec(n as nat));
    string_of(rev.as_slice())
}

/// Every base62 digit is an ASCII letter or digit.
proof fn lemma_base62_char_alnum(d: nat)
    requires
        d < 62,
    ensures
        is_ascii_alnum(base62_char(d)),
{
}

/// Virtual ids have one shape: for any value, `sgr_` and 22 base62 digits
/// make a 26-character id that `is_virtual_id` recognizes and whose digits
/// are ASCII letters and digits.
pub proof fn law_virtual_id_shape(n: nat)
    ensures
        ("sgr_"@ + base62_spec(n)).len() == 26,
        starts_with("sgr_"@ + base62_spec(n), "sgr_"@),
        forall|i: int| 0 <= i < 22 ==> is_ascii_alnum(#[trigger] base62_spec(n)[i]),
{
    reveal_strlit("sgr_");
    let id = "sgr_"@ + base62_spec(n);
    assert(id.subrange(0, 4) =~= "sgr_"@);
    assert forall|i: int| 0 <= i < 22 implies is_ascii_alnum(#[trigger] base62_spec(n)[i]) by {
        lemma_pow62_pos((21 - i) as nat);
        lemma_base62_char_alnum((n / pow62((21 - i) as nat)) % 62);
    }
}

/// The value of a base62 digit character (`0-9A-Za-z`).
pub open spec fn base62_digit(c: char) -> int {
    let v = c as int;
    if 48 <= v < 58 {
        v - 48
    } else if 65 <= v < 91 {
        v - 65 + 10
    } else {
        v - 97 + 36
    }
}

/// A string of base62 digits read as a numeral, most significant first.
pub open spec fn base62_value(s: Seq<char>) -> int
    decreases s.len(),
{
    if s.len() == 0 {
        0
    } else {
        base62_value(s.drop_last()) * 62 + base62_digit(s.last())
    }
}

/// `a` comes before `b` in character order: they agree up to some place,
/// where `a` has the smaller character.
pub open spec fn lex_less(a: Seq<char>, b: Seq<char>) -> bool {
    exists|k: int|
        0 <= k < a.len() && k < b.len() && a.take(k) == b.take(k) && (#[trigger] a[k] as u32) < (b[k] as u32)
}

proof fn lemma_base62_char_digit(d: nat)
    requires
        d < 62,
    ensures
        base62_digit(base62_char(d)) == d,
        (base62_char(d) as u32) as int == if d < 10 {
            48 + d
        } else if d < 36 {
            55 + d
        } else {
            61 + d
        },
{
}

proof fn lemma_pow62_22()
    ensures
        pow62(22) == 2707803647802660400290261537185326956544nat,
{
    reveal_with_fuel(pow62, 23);
}

proof fn lemma_pow62_step(k: nat)
    ensures
        pow62(k + 1) == pow62(k) * 62,
{
    assert(pow62(k + 1) == 62 * pow62(k));
    assert(62 * pow62(k) == pow62(k) * 62) by (nonlinear_arith);
}

/// The first `k` digits of `base62_spec(n)` read as a numeral are
/// `n / 62^(22 - k)`.
proof fn lemma_base62_prefix_value(n: nat, k: nat)
    requires
        n < pow62(22),
        k <= 22,
    ensures
        base62_value(base62_spec(n).take(k as int)) == n / pow62((22 - k) as nat),
    decreases k,
{
    lemma_pow62_pos((22 - k) as nat);
    if k == 0 {
        assert(base62_spec(n).take(0) =~= Seq::<char>::empty());
        vstd::arithmetic::div_mod::lemma_basic_div(n as int, pow62(22) as int);
    } else {
        lemma_base62_prefix_value(n, (k - 1) as nat);
        let s = base62_spec(n).take(k as int);
        assert(s.drop_last() =~= base62_spec(n).take(k - 1));
        let p = pow62((22 - k) as nat);
        let q = n / p;
        lemma_pow62_pos((22 - k) as nat);
        assert(s.last() == base62_char(q % 62));
        lemma_base62_char_digit(q % 62);
        lemma_pow62_step((22 - k) as nat);
        vstd::arithmetic::div_mod::lemma_div_denominator(n as int, p as int, 62);
        assert(n / pow62((22 - (k - 1)) as nat) == q / 62);
        vstd::arithmetic::div_mod::lemma_fundamental_div_mod(q as int, 62);
    }
}

/// Virtual ids decode back: for any `u128` value, its 22 base62 digits
/// read as a numeral give the value back, so different values never share
/// an id.
pub proof fn law_base62_round_trip(n: u128)
    ensures
        base62_spec(n as nat).len() == 22,
        base62_value(base62_spec(n as nat)) == n,
{
    lemma_pow62_22();
    lemma_base62_prefix_value(n as nat, 22);
    assert(base62_spec(n as nat).take(22) =~= base62_spec(n as nat));
    assert(pow62(0) == 1);
    assert((n as nat) / 1 == n);
}

pub open spec fn lead(x: nat, j: int) -> nat {
    x / pow62((21 - j) as nat)
}

proof fn lemma_base62_char_mono(d: nat, e: nat)
    requires
        d < e < 62,
    ensures
        (base62_char(d) as u32) < (base62_char(e) as u32),
{
    lemma_base62_char_digit(d);
    lemma_base62_char_digit(e);
}

proof fn lemma_order_from(n: nat, m: nat, k: int)
    requires
        n < m < pow62(22),
        0 <= k <= 21,
        forall|j: int| 0 <= j < k ==> lead(n, j) == lead(m, j),
    ensures
        lex_less(base62_spec(n), base62_spec(m)),
    decreases 21 - k,
{
    let a = base62_spec(n);
    let b = base62_spec(m);
    let p = pow62((21 - k) as nat);
    lemma_pow62_pos((21 - k) as nat);
    if lead(n, k) != lead(m, k) {
        vstd::arithmetic::div_mod::lemma_div_is_ordered(n as int, m as int, p as int);
        let qn = lead(n, k);
        let qm = lead(m, k);
        assert(qn < qm);
        // The digits before `k` agree.
        assert forall|j: int| 0 <= j < k implies a.take(k)[j] == b.take(k)[j] by {
            assert(lead(n, j) == lead(m, j));
        }
        assert(a.take(k) =~= b.take(k));
        // The places above `k` agree as well, so the digit at `k` decides.
        lemma_pow62_step((21 - k) as nat);
        vstd::arithmetic::div_mod::lemma_div_denominator(n as int, p as int, 62);
        vstd::arithmetic::div_mod::lemma_div_denominator(m as int, p as int, 62);
        if k == 0 {
            assert(pow62((21 - k + 1) as nat) == pow62(22));
            vstd::arithmetic::div_mod::lemma_basic_div(n as int, pow62(22) as int);
            vstd::arithmetic::div_mod::lemma_basic_div(m as int, pow62(22) as int);
        } else {
            assert(lead(n, k - 1) == lead(m, k - 1));
            assert((21 - (k - 1)) as nat == (21 - k + 1) as nat);
        }
        assert(qn / 62 == qm / 62);
        vstd::arithmetic::div_mod::lemma_fundamental_div_mod(qn as int, 62);
        vstd::arithmetic::div_mod::lemma_fundamental_div_mod(qm as int, 62);
        assert(qn % 62 < qm % 62);
        lemma_base62_char_mono(qn % 62, qm % 62);
        assert(a[k] == base62_char(qn % 62));
        assert(b[k] == base62_char(qm % 62));
        assert((a[k] as u32) < (b[k] as u32));
    } else {
        if k == 21 {
            assert(pow62(0) == 1);
            assert(((21 - k) as nat) == 0);
            assert(n / 1 == n);
            assert(m / 1 == m);
            assert(lead(n, k) == n);
            assert(lead(m, k) == m);
        }
        lemma_order_from(n, m, k + 1);
    }
}

/// Virtual ids sort as their values: for any `u128` values `n < m`, the
/// base62 digits of `n` come before those of `m` in character order.
pub proof fn law_base62_ordered(n: u128, m: u128)
    requires
        n < m,
    ensures
        lex_less(base62_spec(n as nat), base62_spec(m as nat)),
{
    lemma_pow62_22();
    lemma_order_from(n as nat, m as nat, 0);
}

/// A fresh random 128-bit value (`uuid::Uuid::new_v4().as_u128()`).
/// Nothing is promised of the value.
#[verifier::external_body]
pub(crate) fn random_u128() -> u128 {
    uuid::Uuid::new_v4().as_u128()
}

/// A fresh virtual id: `sgr_` and 22 base62 digits of a random value.
pub fn new_virtual_id() -> (r: String)
    ensures
        exists|n: nat| r@ == "sgr_"@ + base62_spec(n),
{
    let n = random_u128();
    let b = base62_22(n);
    let mut v = chars_of(ID_PREFIX);
    let bc = chars_of(b.as_str());
    extend_chars(&mut v, bc.as_slice());
    string_of(v.as_slice())
}

// ----------------------------------------------------------- timestamps

/// Day count to proleptic Gregorian (year, month, day), Howard Hinnant's
/// days-to-civil formula (day 0 is 1970-01-01).
pub open spec fn civil_spec(z0: int) -> (int, int, int) {
    let z = z0 + 719468;
    let era = z / 146097;
    let doe = z % 146097;
    let yoe = (doe - doe / 1460 + doe / 36524 - doe / 146096) / 365;
    let y = yoe + era * 400;
    let doy = doe - (365 * yoe + yoe / 4 - yoe / 100);
    let mp = (5 * doy + 2) / 153;
    let d = doy - (153 * mp + 2) / 5 + 1;
    let m = if mp < 10 {
        mp + 3
    } else {
        mp - 9
    };
    (
        if m <= 2 {
            y + 1
        } else {
            y
        },
        m,
        d,
    )
}

pub fn civil_from_days(z: i64) -> (r: (i64, u32, u32))
    requires
        z <= i64::MAX - 719468,
    ensures
        (r.0 as int, r.1 as int, r.2 as int) == civil_spec(z as int),
        1 <= r.1 <= 12,
        1 <= r.2 <= 31,
{
    let zz = z + 719468;
    let era = match zz.checked_div_euclid(146097) {
        Some(e) => e,
        None => 0,
    };
    let doe = match zz.checked_rem_euclid(146097) {
        Some(e) => e,
        None => 0,
    };
    assert(era == zz as int / 146097);
    assert(doe == zz as int % 146097);
    assert(0 <= doe < 146097);
    assert(era * 146097 <= zz < era * 146097 + 146097) by (nonlinear_arith)
        requires
            era == zz as int / 146097,
    ;
    assert(-63131837319418 <= era <= 63131837319417);
    let yoe = (doe - doe / 1460 + doe / 36524 - doe / 146096) / 365;
    assert(0 <= yoe <= 400) by (nonlinear_arith)
        requires
            0 <= doe < 146097,
            yoe == (doe - doe / 1460 + doe / 36524 - doe / 146096) / 365,
    ;
    let y = yoe + era * 400;
    let doy = doe - (365 * yoe + yoe / 4 - yoe / 100);
    proof {
        lemma_doy_range(doe as int);
    }
    let mp = (5 * doy + 2) / 153;
    assert(0 <= mp <= 11) by (nonlinear_arith)
        requires
            0 <= doy <= 365,
            mp == (5 * doy + 2) / 153,
    ;
    let d = doy - (153 * mp + 2) / 5 + 1;
    proof {
        lemma_day_range(doy as int, mp as int);
    }
    let m = if mp < 10 {
        mp + 3
    } else {
        mp - 9
    };
    let year = if m <= 2 {
        y + 1
    } else {
        y
    };
    (year, m as u32, d as u32)
}

proof fn lemma_doy_range(doe: int)
    requires
        0 <= doe < 146097,
    ensures
        ({
            let yoe = (doe - doe / 1460 + doe / 36524 - doe / 146096) / 365;
            let doy = doe - (365 * yoe + yoe / 4 - yoe / 100);
            0 <= doy <= 365
        }),
{
    let yoe = (doe - doe / 1460 + doe / 36524 - doe / 146096) / 365;
    let a = doe / 1460;
    let b = doe / 36524;
    let c = doe / 146096;
    let q = doe - a + b - c;
    assert(0 <= q) by (nonlinear_arith)
        requires
            0 <= doe < 146097,
            a == doe / 1460,
            b == doe / 36524,
            c == doe / 146096,
            q == doe - a + b - c,
    ;
    assert(365 * yoe <= q < 365 * yoe + 365) by (nonlinear_arith)
        requires
            yoe == q / 365,
            q >= 0,
    ;
    assert(0 <= doe - (365 * yoe + yoe / 4 - yoe / 100) <= 365) by (nonlinear_arith)
        requires
            0 <= doe < 146097,
            a == doe / 1460,
            b == doe / 36524,
            c == doe / 146096,
            q == doe - a + b - c,
            365 * yoe <= q < 365 * yoe + 365,
            yoe >= 0,
    ;
}

proof fn lemma_day_range(doy: int, mp: int)
    requires
        0 <= doy <= 365,
        mp == (5 * doy + 2) / 153,
    ensures
        1 <= doy - (153 * mp + 2) / 5 + 1 <= 31,
        0 <= mp <= 11,
{
    assert(153 * mp <= 5 * doy + 2 < 153 * mp + 153) by (nonlinear_arith)
        requires
            mp == (5 * doy + 2) / 153,
            doy >= 0,
    ;
    assert(0 <= mp <= 11);
    assert(1 <= doy - (153 * mp + 2) / 5 + 1 <= 31) by (nonlinear_arith)
        requires
            153 * mp <= 5 * doy + 2,
            5 * doy + 2 < 153 * mp + 153,
            0 <= mp <= 11,
    ;
}

/// `YYYY-MM-DDTHH:MM:SSZ` for a second count since the Unix epoch.
pub open spec fn timestamp_text(secs: nat) -> Seq<char> {
    let days = secs / 86400;
    let (y, m, d) = civil_spec(days as int);
    zero_pad(decimal(y as nat), 4) + seq!['-'] + zero_pad(decimal(m as nat), 2) + seq!['-']
        + zero_pad(decimal(d as nat), 2) + seq!['T'] + zero_pad(decimal((secs % 86400) / 3600), 2)
        + seq![':'] + zero_pad(decimal((secs % 3600) / 60), 2) + seq![':'] + zero_pad(
        decimal(secs % 60),
        2,
    ) + seq!['Z']
}

pub fn format_timestamp(secs: u64) -> (r: String)
    ensures
        r@ == timestamp_text(secs as nat),
{
    let days = secs / 86400;
    let (year, month, day) = civil_from_days(days as i64);
    proof {
        lemma_civil_year_nonneg(days as int);
    }
    let mut v = padded_decimal(year as u64, 4);
    v.push('-');
    extend_chars(&mut v, padded_decimal(month as u64, 2).as_slice());
    v.push('-');
    extend_chars(&mut v, padded_decimal(day as u64, 2).as_slice());
    v.push('T');
    extend_chars(&mut v, padded_decimal((secs % 86400) / 3600, 2).as_slice());
    v.push(':');
    extend_chars(&mut v, padded_decimal((secs % 3600) / 60, 2).as_slice());
    v.push(':');
    extend_chars(&mut v, padded_decimal(secs % 60, 2).as_slice());
    v.push('Z');
    string_of(v.as_slice())
}

proof fn lemma_civil_year_nonneg(z: int)
    requires
        0 <= z <= i64::MAX - 719468,
    ensures
        civil_spec(z).0 >= 0,
{
    let zz = z + 719468;
    let doe = zz % 146097;
    assert(zz / 146097 >= 0) by (nonlinear_arith)
        requires
            zz >= 0,
    ;
    assert(0 <= (doe - doe / 1460 + doe / 36524 - doe / 146096) / 365) by (nonlinear_arith)
        requires
            0 <= doe < 146097,
    ;
}

/// Seconds since the Unix epoch from the system clock
/// (`SystemTime::now().duration_since(UNIX_EPOCH)`); a clock before 1970
/// reads as 0. Nothing else is promised of the value.
#[verifier::external_body]
pub(crate) fn unix_now_secs() -> u64 {
    match std::time::SystemTime::now().duration_since(std::time::UNIX_EPOCH) {
        Ok(d) => d.as_secs(),
        Err(_) => 0,
    }
}

/// Milliseconds since the Unix epoch from the system clock; a clock before
/// 1970 reads as 0. Nothing else is promised of the value.
#[verifier::external_body]
pub(crate) fn unix_now_millis() -> u128 {
    match std::time::SystemTime::now().duration_since(std::time::UNIX_EPOCH) {
        Ok(d) => d.as_millis(),
        Err(_) => 0,
    }
}

/// A clock reading in seconds as the database stores it: the reading
/// itself, or the largest `i64` for a reading beyond it.
pub open spec fn epoch_secs_spec(clock_secs: u64) -> i64 {
    if clock_secs > i64::MAX as u64 {
        i64::MAX
    } else {
        clock_secs as i64
    }
}

/// Store a clock reading (see `epoch_secs_spec`).
pub fn epoch_secs_of(clock_secs: u64) -> (r: i64)
    ensures
        r == epoch_secs_spec(clock_secs),
        r >= 0,
{
    if clock_secs > i64::MAX as u64 {
        i64::MAX
    } else {
        clock_secs as i64
    }
}

/// Current Unix time in seconds, as the database stores it: the system
/// clock's reading (whatever it is) through `epoch_secs_of`.
pub fn epoch_secs() -> (r: i64)
    ensures
        r >= 0,
        exists|clock_secs: u64| r == epoch_secs_spec(clock_secs),
{
    let s = unix_now_secs();
    epoch_secs_of(s)
}

/// ISO-8601 UTC timestamp of the current time, without subseconds.
pub fn now_utc() -> (r: String)
    ensures
        exists|secs: nat| r@ == timestamp_text(secs),
{
    format_timestamp(unix_now_secs())
}

} // verus!
