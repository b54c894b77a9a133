//! Wall-clock reads and the integer fields of the analytics records:
//! ISO-8601 UTC timestamps, hour of day, day of week and epoch boundaries.

use vstd::prelude::*;
use crate::calendar::{
    civil_date, civil_from_days, day_number, lemma_civil_date_exists, lemma_day_number_order,
    lemma_four_digit_year,
};
use crate::text::{
    lemma_lex_le_concat, lemma_lex_le_refl, lemma_zero_padded_four, lemma_zero_padded_injective,
    lemma_zero_padded_order, lemma_zero_padded_two, lex_le, push_char, push_zero_padded,
    zero_padded,
};

verus! {

#[verifier::external_type_specification]
#[verifier::external_body]
pub struct ExSystemTime(std::time::SystemTime);

#[verifier::external_type_specification]
#[verifier::external_body]
pub struct ExSystemTimeError(std::time::SystemTimeError);

/// `SystemTime::now`: the current wall-clock time; nothing is known of its value.
#[verifier::external_body]
fn system_time_now() -> std::time::SystemTime {
    std::time::SystemTime::now()
}

/// `SystemTime::duration_since(UNIX_EPOCH)`: fails when the clock reads
/// before 1970; nothing is known of the duration it returns.
#[verifier::external_body]
fn since_unix_epoch(t: &std::time::SystemTime) -> Result<
    std::time::Duration,
    std::time::SystemTimeError,
> {
    t.duration_since(std::time::UNIX_EPOCH)
}

/// `Duration::as_secs`: the whole seconds of a duration.
#[verifier::external_body]
fn duration_secs(d: &std::time::Duration) -> u64 {
    d.as_secs()
}

/// `Duration::subsec_nanos`: the nanoseconds past the whole seconds, which
/// std documents as less than one billion.
#[verifier::external_body]
fn duration_subsec_nanos(d: &std::time::Duration) -> (nanos: u32)
    ensures
        nanos < 1_000_000_000,
{
    d.subsec_nanos()
}

/// Whole milliseconds of a duration of `secs` seconds and `nanos` nanoseconds.
pub open spec fn whole_millis(secs: u64, nanos: u32) -> nat {
    secs as nat * 1000 + nanos as nat / 1_000_000
}

/// Whole microseconds of a duration of `secs` seconds and `nanos` nanoseconds.
pub open spec fn whole_micros(secs: u64, nanos: u32) -> nat {
    secs as nat * 1_000_000 + nanos as nat / 1000
}

/// Whole milliseconds of a duration given as seconds and nanoseconds.
pub fn millis_of_duration(secs: u64, nanos: u32) -> (ms: u128)
    ensures
        ms == whole_millis(secs, nanos),
{
    secs as u128 * 1000 + (nanos / 1_000_000) as u128
}

/// Whole microseconds of a duration given as seconds and nanoseconds.
pub fn micros_of_duration(secs: u64, nanos: u32) -> (us: u128)
    ensures
        us == whole_micros(secs, nanos),
{
    secs as u128 * 1_000_000 + (nanos / 1000) as u128
}

/// A clock count as a `u64`: 0 when the clock read before 1970 (`None`),
/// else the count truncated to its low 64 bits.
pub open spec fn clock_count_u64(since: Option<u128>) -> u64 {
    match since {
        None => 0,
        Some(v) => (v % 0x1_0000_0000_0000_0000) as u64,
    }
}

/// Turns a count of time units since the Unix epoch (`None` when the clock
/// read before 1970) into a `u64`: 0 for `None`, else the count truncated
/// to 64 bits.
pub fn epoch_count_to_u64(since: Option<u128>) -> (count: u64)
    ensures
        count == clock_count_u64(since),
{
    match since {
        None => 0,
        Some(v) => {
            let low = (v % 0x1_0000_0000_0000_0000u128) as u64;
            low
        },
    }
}

/// A clock reading as seconds and nanoseconds since the Unix epoch, or
/// `None` when the clock reads before 1970.
fn read_clock() -> (reading: Option<(u64, u32)>)
    ensures
        reading matches Some((secs, nanos)) ==> nanos < 1_000_000_000,
{
    let now = system_time_now();
    match since_unix_epoch(&now) {
        Ok(d) => Some((duration_secs(&d), duration_subsec_nanos(&d))),
        Err(_) => None,
    }
}

/// Milliseconds on the clock for a reading of seconds and nanoseconds:
/// 0 before 1970, else the whole milliseconds truncated to 64 bits.
pub open spec fn reading_millis(reading: Option<(u64, u32)>) -> u64 {
    match reading {
        None => 0,
        Some((secs, nanos)) => (whole_millis(secs, nanos) % 0x1_0000_0000_0000_0000) as u64,
    }
}

/// Microseconds on the clock for a reading of seconds and nanoseconds:
/// 0 before 1970, else the whole microseconds truncated to 64 bits.
pub open spec fn reading_micros(reading: Option<(u64, u32)>) -> u64 {
    match reading {
        None => 0,
        Some((secs, nanos)) => (whole_micros(secs, nanos) % 0x1_0000_0000_0000_0000) as u64,
    }
}

/// Milliseconds since the Unix epoch (0 when the clock reads before 1970),
/// truncated to 64 bits. Which reading the clock gives is not known to the
/// contract.
pub fn now_ms() -> (ms: u64)
    ensures
        exists|reading: Option<(u64, u32)>|
            (reading matches Some((s, n)) ==> n < 1_000_000_000) && ms == reading_millis(reading),
{
    let reading = read_clock();
    let since = match reading {
        Some((secs, nanos)) => Some(millis_of_duration(secs, nanos)),
        None => None,
    };
    let ms = epoch_count_to_u64(since);
    assert(ms == reading_millis(reading));
    ms
}

/// Microseconds since the Unix epoch (0 when the clock reads before 1970),
/// truncated to 64 bits. Which reading the clock gives is not known to the
/// contract.
pub fn now_us() -> (us: u64)
    ensures
        exists|reading: Option<(u64, u32)>|
            (reading matches Some((s, n)) ==> n < 1_000_000_000) && us == reading_micros(reading),
{
    let reading = read_clock();
    let since = match reading {
        Some((secs, nanos)) => Some(micros_of_duration(secs, nanos)),
        None => None,
    };
    let us = epoch_count_to_u64(since);
    assert(us == reading_micros(reading));
    us
}

/// `YYYY-MM-DDTHH:MM:SSZ`, each field zero-padded (the year to at least four digits).
pub open spec fn iso_text(y: nat, m: nat, d: nat, hh: nat, mm: nat, ss: nat) -> Seq<char> {
    zero_padded(y, 4) + seq!['-'] + zero_padded(m, 2) + seq!['-'] + zero_padded(d, 2) + seq!['T']
        + zero_padded(hh, 2) + seq![':'] + zero_padded(mm, 2) + seq![':'] + zero_padded(ss, 2)
        + seq!['Z']
}

/// The UTC date and time of `ts_ms` milliseconds after the Unix epoch, to the second.
pub open spec fn utc_timestamp_text(ts_ms: nat) -> Seq<char> {
    let t = ts_ms / 1000;
    let date = civil_date((t / 86400) as int);
    let secs = t % 86400;
    iso_text(
        date.0 as nat,
        date.1 as nat,
        date.2 as nat,
        secs / 3600,
        (secs % 3600) / 60,
        secs % 60,
    )
}

/// Formats a millisecond Unix timestamp as an ISO-8601 UTC time with second precision.
pub fn utc_timestamp_from_ms(ts_ms: u64) -> (s: String)
    ensures
        s@ == utc_timestamp_text(ts_ms as nat),
{
    let t = ts_ms / 1000;
    let secs = t % 86400;
    let (yr, m, d) = civil_from_days(t / 86400);
    let hh = secs / 3600;
    let mm = (secs % 3600) / 60;
    let ss = secs % 60;
    let mut s = String::new();
    push_zero_padded(&mut s, yr, 4);
    push_char(&mut s, '-');
    push_zero_padded(&mut s, m, 2);
    push_char(&mut s, '-');
    push_zero_padded(&mut s, d, 2);
    push_char(&mut s, 'T');
    push_zero_padded(&mut s, hh, 2);
    push_char(&mut s, ':');
    push_zero_padded(&mut s, mm, 2);
    push_char(&mut s, ':');
    push_zero_padded(&mut s, ss, 2);
    push_char(&mut s, 'Z');
    assert(s@ == iso_text(yr as nat, m as nat, d as nat, hh as nat, mm as nat, ss as nat));
    s
}

/// Where each field of a timestamp text sits: the year first, then the
/// two-character fields at fixed offsets from its end.
proof fn lemma_iso_text_fields(y: nat, m: nat, d: nat, h: nat, i: nat, s: nat)
    requires
        m < 100 && d < 100 && h < 100 && i < 100 && s < 100,
    ensures
        ({
            let t = iso_text(y, m, d, h, i, s);
            let l = zero_padded(y, 4).len() as int;
            &&& t.len() == l + 16
            &&& t.take(l) == zero_padded(y, 4)
            &&& t.subrange(l + 1, l + 3) == zero_padded(m, 2)
            &&& t.subrange(l + 4, l + 6) == zero_padded(d, 2)
            &&& t.subrange(l + 7, l + 9) == zero_padded(h, 2)
            &&& t.subrange(l + 10, l + 12) == zero_padded(i, 2)
            &&& t.subrange(l + 13, l + 15) == zero_padded(s, 2)
        }),
{
    lemma_zero_padded_two(m);
    lemma_zero_padded_two(d);
    lemma_zero_padded_two(h);
    lemma_zero_padded_two(i);
    lemma_zero_padded_two(s);
    let yy = zero_padded(y, 4);
    let l = yy.len() as int;
    let p1 = yy + seq!['-'];
    let p2 = p1 + zero_padded(m, 2);
    let p3 = p2 + seq!['-'];
    let p4 = p3 + zero_padded(d, 2);
    let p5 = p4 + seq!['T'];
    let p6 = p5 + zero_padded(h, 2);
    let p7 = p6 + seq![':'];
    let p8 = p7 + zero_padded(i, 2);
    let p9 = p8 + seq![':'];
    let p10 = p9 + zero_padded(s, 2);
    let t = p10 + seq!['Z'];
    assert(t == iso_text(y, m, d, h, i, s));
    assert(t.take(l) =~= yy) by {
        lemma_take_of_concat(yy, t);
    }
    assert(t.subrange(l + 1, l + 3) =~= zero_padded(m, 2));
    assert(t.subrange(l + 4, l + 6) =~= zero_padded(d, 2));
    assert(t.subrange(l + 7, l + 9) =~= zero_padded(h, 2));
    assert(t.subrange(l + 10, l + 12) =~= zero_padded(i, 2));
    assert(t.subrange(l + 13, l + 15) =~= zero_padded(s, 2));
}

proof fn lemma_take_of_concat(a: Seq<char>, t: Seq<char>)
    requires
        t.len() >= a.len(),
        forall|k: int| 0 <= k < a.len() ==> t[k] == a[k],
    ensures
        t.take(a.len() as int) == a,
{
    assert(t.take(a.len() as int) =~= a);
}

/// Timestamp texts whose two-digit fields are below 100 determine all their fields.
#[verifier::rlimit(60)]
pub proof fn lemma_iso_text_injective(
    y1: nat,
    m1: nat,
    d1: nat,
    h1: nat,
    i1: nat,
    s1: nat,
    y2: nat,
    m2: nat,
    d2: nat,
    h2: nat,
    i2: nat,
    s2: nat,
)
    requires
        m1 < 100 && d1 < 100 && h1 < 100 && i1 < 100 && s1 < 100,
        m2 < 100 && d2 < 100 && h2 < 100 && i2 < 100 && s2 < 100,
        iso_text(y1, m1, d1, h1, i1, s1) == iso_text(y2, m2, d2, h2, i2, s2),
    ensures
        y1 == y2 && m1 == m2 && d1 == d2 && h1 == h2 && i1 == i2 && s1 == s2,
{
    lemma_iso_text_fields(y1, m1, d1, h1, i1, s1);
    lemma_iso_text_fields(y2, m2, d2, h2, i2, s2);
    lemma_zero_padded_injective(y1, y2, 4);
    lemma_zero_padded_injective(m1, m2, 2);
    lemma_zero_padded_injective(d1, d2, 2);
    lemma_zero_padded_injective(h1, h2, 2);
    lemma_zero_padded_injective(i1, i2, 2);
    lemma_zero_padded_injective(s1, s2, 2);
}

/// Timestamps in different whole seconds have different texts.
pub proof fn lemma_utc_timestamp_injective(a: nat, b: nat)
    requires
        a / 1000 != b / 1000,
    ensures
        utc_timestamp_text(a) != utc_timestamp_text(b),
{
    let ta = a / 1000;
    let tb = b / 1000;
    let da = civil_date((ta / 86400) as int);
    let db = civil_date((tb / 86400) as int);
    lemma_civil_date_exists((ta / 86400) as int);
    lemma_civil_date_exists((tb / 86400) as int);
    let sa = ta % 86400;
    let sb = tb % 86400;
    if utc_timestamp_text(a) == utc_timestamp_text(b) {
        lemma_iso_text_injective(
            da.0 as nat,
            da.1 as nat,
            da.2 as nat,
            sa / 3600,
            (sa % 3600) / 60,
            sa % 60,
            db.0 as nat,
            db.1 as nat,
            db.2 as nat,
            sb / 3600,
            (sb % 3600) / 60,
            sb % 60,
        );
        assert(da == db);
        assert(ta / 86400 == tb / 86400);
        assert(sa == (sa / 3600) * 3600 + ((sa % 3600) / 60) * 60 + sa % 60);
        assert(sb == (sb / 3600) * 3600 + ((sb % 3600) / 60) * 60 + sb % 60);
        assert(sa == sb);
        assert(ta == tb);
    }
}

/// The text after the year, nested from the right.
spec fn iso_tail(m: nat, d: nat, h: nat, i: nat, s: nat) -> Seq<char> {
    seq!['-'] + (zero_padded(m, 2) + (seq!['-'] + (zero_padded(d, 2) + (seq!['T'] + (zero_padded(
        h,
        2,
    ) + (seq![':'] + (zero_padded(i, 2) + (seq![':'] + (zero_padded(s, 2) + seq!['Z'])))))))))
}

#[verifier::rlimit(60)]
proof fn lemma_iso_text_split(y: nat, m: nat, d: nat, h: nat, i: nat, s: nat)
    ensures
        iso_text(y, m, d, h, i, s) == zero_padded(y, 4) + iso_tail(m, d, h, i, s),
{
    let yy = zero_padded(y, 4);
    let mm = zero_padded(m, 2);
    let dd = zero_padded(d, 2);
    let hh = zero_padded(h, 2);
    let ii = zero_padded(i, 2);
    let ss = zero_padded(s, 2);
    assert(iso_text(y, m, d, h, i, s) =~= yy + iso_tail(m, d, h, i, s));
}

/// One two-digit field followed by the rest: a smaller field settles the
/// order, an equal one leaves it to the rest.
proof fn lemma_field_then(x1: nat, x2: nat, r1: Seq<char>, r2: Seq<char>)
    requires
        x1 <= x2 < 100,
        x1 == x2 ==> lex_le(r1, r2),
    ensures
        lex_le(zero_padded(x1, 2) + r1, zero_padded(x2, 2) + r2),
{
    lemma_zero_padded_two(x1);
    lemma_zero_padded_two(x2);
    lemma_zero_padded_order(x1, x2, 2);
    lemma_lex_le_concat(zero_padded(x1, 2), r1, zero_padded(x2, 2), r2);
}

proof fn lemma_char_then(c: char, r1: Seq<char>, r2: Seq<char>)
    requires
        lex_le(r1, r2),
    ensures
        lex_le(seq![c] + r1, seq![c] + r2),
{
    lemma_lex_le_concat(seq![c], r1, seq![c], r2);
}

/// Timestamps before the year 10000 sort as text in time order.
#[verifier::rlimit(60)]
pub proof fn lemma_utc_timestamp_order(a: nat, b: nat)
    requires
        a <= b < 253_402_300_800_000,
    ensures
        lex_le(utc_timestamp_text(a), utc_timestamp_text(b)),
{
    let ta = a / 1000;
    let tb = b / 1000;
    let da = civil_date((ta / 86400) as int);
    let db = civil_date((tb / 86400) as int);
    lemma_civil_date_exists((ta / 86400) as int);
    lemma_civil_date_exists((tb / 86400) as int);
    lemma_day_number_order(da.0, da.1, da.2, db.0, db.1, db.2);
    lemma_four_digit_year(db.0, db.1, db.2);
    lemma_four_digit_year(da.0, da.1, da.2);
    let sa = ta % 86400;
    let sb = tb % 86400;
    let (y1, m1, d1) = (da.0 as nat, da.1 as nat, da.2 as nat);
    let (y2, m2, d2) = (db.0 as nat, db.1 as nat, db.2 as nat);
    let (h1, i1, s1) = (sa / 3600, (sa % 3600) / 60, sa % 60);
    let (h2, i2, s2) = (sb / 3600, (sb % 3600) / 60, sb % 60);
    lemma_iso_text_split(y1, m1, d1, h1, i1, s1);
    lemma_iso_text_split(y2, m2, d2, h2, i2, s2);
    let same_day = y1 == y2 && m1 == m2 && d1 == d2;
    if same_day {
        assert(ta / 86400 == tb / 86400) by {
            crate::calendar::lemma_day_number_injective(da.0, da.1, da.2, db.0, db.1, db.2);
        }
        assert(sa <= sb);
    }
    // Build the order from the right.
    let z = seq!['Z'];
    lemma_lex_le_refl(z);
    let t5a = zero_padded(s1, 2) + z;
    let t5b = zero_padded(s2, 2) + z;
    let t4a = seq![':'] + t5a;
    let t4b = seq![':'] + t5b;
    if same_day && h1 == h2 && i1 == i2 {
        assert(s1 <= s2);
        lemma_field_then(s1, s2, z, z);
        lemma_char_then(':', t5a, t5b);
    }
    let t3a = zero_padded(i1, 2) + t4a;
    let t3b = zero_padded(i2, 2) + t4b;
    if same_day && h1 == h2 {
        assert(i1 <= i2);
        lemma_field_then(i1, i2, t4a, t4b);
    }
    let t2a = seq![':'] + t3a;
    let t2b = seq![':'] + t3b;
    if same_day && h1 == h2 {
        lemma_char_then(':', t3a, t3b);
    }
    let t1a = zero_padded(h1, 2) + t2a;
    let t1b = zero_padded(h2, 2) + t2b;
    if same_day {
        assert(h1 <= h2);
        lemma_field_then(h1, h2, t2a, t2b);
    }
    let u3a = seq!['T'] + t1a;
    let u3b = seq!['T'] + t1b;
    if same_day {
        lemma_char_then('T', t1a, t1b);
    }
    let u2a = zero_padded(d1, 2) + u3a;
    let u2b = zero_padded(d2, 2) + u3b;
    if y1 == y2 && m1 == m2 {
        lemma_field_then(d1, d2, u3a, u3b);
    }
    let u1a = seq!['-'] + u2a;
    let u1b = seq!['-'] + u2b;
    if y1 == y2 && m1 == m2 {
        lemma_char_then('-', u2a, u2b);
    }
    let v2a = zero_padded(m1, 2) + u1a;
    let v2b = zero_padded(m2, 2) + u1b;
    if y1 == y2 {
        lemma_field_then(m1, m2, u1a, u1b);
    }
    let tail_a = seq!['-'] + v2a;
    let tail_b = seq!['-'] + v2b;
    if y1 == y2 {
        lemma_char_then('-', v2a, v2b);
    }
    assert(tail_a == iso_tail(m1, d1, h1, i1, s1));
    assert(tail_b == iso_tail(m2, d2, h2, i2, s2));
    lemma_zero_padded_four(y1);
    lemma_zero_padded_four(y2);
    lemma_zero_padded_order(y1, y2, 4);
    lemma_lex_le_concat(zero_padded(y1, 4), tail_a, zero_padded(y2, 4), tail_b);
}

/// Hour of the UTC day (0..=23) at `now_ms`.
pub open spec fn hour_of_day(now_ms: nat) -> nat {
    (now_ms / 3_600_000) % 24
}

/// Day of the week at `now_ms`, 0 = Sunday; 1970-01-01 was a Thursday (4).
pub open spec fn weekday(now_ms: nat) -> nat {
    (now_ms / 86_400_000 + 4) % 7
}

/// Hour of the UTC day at `now_ms`.
pub fn hour_utc(now_ms: u64) -> (h: u8)
    ensures
        h == hour_of_day(now_ms as nat),
        h < 24,
{
    ((now_ms / 3_600_000) % 24) as u8
}

/// Day of the week at `now_ms` (0 = Sunday).
pub fn day_of_week(now_ms: u64) -> (dow: u8)
    ensures
        dow == weekday(now_ms as nat),
        dow < 7,
{
    ((now_ms / 86_400_000 + 4) % 7) as u8
}

/// The end of the epoch of length `epoch_ms` that `now_ms` lies in: the
/// first multiple of `epoch_ms` after `now_ms`.
pub fn epoch_close_ms(now_ms: u64, epoch_ms: u64) -> (close: u64)
    requires
        epoch_ms > 0,
        (now_ms / epoch_ms + 1) * epoch_ms <= u64::MAX,
    ensures
        close % epoch_ms == 0,
        now_ms < close <= now_ms + epoch_ms,
        close == (now_ms / epoch_ms + 1) * epoch_ms,
{
    let q = now_ms / epoch_ms;
    proof {
        vstd::arithmetic::div_mod::lemma_fundamental_div_mod(now_ms as int, epoch_ms as int);
        vstd::arithmetic::div_mod::lemma_mod_multiples_basic((q + 1) as int, epoch_ms as int);
        vstd::arithmetic::div_mod::lemma_mod_pos_bound(now_ms as int, epoch_ms as int);
        assert((q + 1) * epoch_ms == epoch_ms * q + epoch_ms) by (nonlinear_arith);
        assert(q + 1 <= (q + 1) * epoch_ms) by (nonlinear_arith)
            requires
                epoch_ms >= 1,
                q >= 0,
        ;
    }
    (q + 1) * epoch_ms
}

/// The hour that `hour_utc` reports is the hour field of the timestamp text.
pub proof fn lemma_hour_matches_timestamp(now_ms: nat)
    ensures
        hour_of_day(now_ms) == ((now_ms / 1000) % 86400) / 3600,
{
    let t = now_ms / 1000;
    vstd::arithmetic::div_mod::lemma_div_denominator(now_ms as int, 1000, 3600);
    vstd::arithmetic::div_mod::lemma_div_denominator(t as int, 3600, 24);
    vstd::arithmetic::div_mod::lemma_fundamental_div_mod(t as int, 86400);
    vstd::arithmetic::div_mod::lemma_fundamental_div_mod((t / 3600) as int, 24);
    assert(t / 3600 == (t / 86400) * 24 + (t % 86400) / 3600);
}

/// Consecutive days have consecutive weekdays.
pub proof fn lemma_weekday_next_day(now_ms: nat)
    ensures
        weekday(now_ms + 86_400_000) == (weekday(now_ms) + 1) % 7,
{
    assert((now_ms + 86_400_000) / 86_400_000 == now_ms / 86_400_000 + 1);
}

/// The weekday of a timestamp depends only on its date.
pub proof fn lemma_weekday_of_date(now_ms: nat)
    ensures
        weekday(now_ms) == ((now_ms / 1000) / 86400 + 4) % 7,
{
    vstd::arithmetic::div_mod::lemma_div_denominator(now_ms as int, 1000, 86400);
}

} // verus!
