//! How fast a download goes.
use std::collections::VecDeque;

use vstd::prelude::*;
use vstd::std_specs::vecdeque::*;
use vstd::string::*;

use crate::numbers;
use crate::numbers::decimal;
use crate::text::{concat2, concat3};
use crate::time;
use crate::time::{Duration, Instant};

verus! {

/// The length of the window, in seconds, where no other is asked for.
pub const DEFAULT_WINDOW_SECONDS: u64 = 10;

/// The nanoseconds between two snapshots: half a second.
pub const SAMPLE_INTERVAL: u128 = 500_000_000;

/// The nanoseconds that a measurement has to span: a second.
pub const MIN_MEASUREMENT_DURATION: u128 = 1_000_000_000;

/// `std::time::Instant`.
#[verifier::external_type_specification]
#[verifier::external_body]
pub struct ExStdInstant(std::time::Instant);

/// `std::time::Instant::now`: the current time. Nothing is claimed of it.
#[verifier::external_body]
fn clock() -> (r: std::time::Instant) {
    std::time::Instant::now()
}

/// `std::time::Instant::elapsed`: the time since then. Nothing is claimed of it.
#[verifier::external_body]
fn since(start: &std::time::Instant) -> (r: Instant) {
    Instant { nanos: start.elapsed().as_nanos() }
}

/// Measures the speed of a download over a window of time.
///
/// It keeps snapshots of the number of bytes so far: the speed is that of the bytes since
/// the oldest of them, over the time since then. Bytes and time so come from the same two
/// points, and one large write does not look like a high speed.
#[derive(Debug)]
pub struct SpeedCalculator {
    start: std::time::Instant,
    samples: VecDeque<(Instant, u64)>,
    window_size: Duration,
    total_bytes: u64,
}

/// What a `SpeedCalculator` holds.
#[verifier::ext_equal]
pub struct SpeedState {
    /// Points in time, and the number of bytes at each.
    pub samples: Seq<(Instant, u64)>,
    pub window: u128,
    pub total: u64,
}

impl View for SpeedCalculator {
    type V = SpeedState;

    closed spec fn view(&self) -> SpeedState {
        SpeedState {
            samples: self.samples@,
            window: self.window_size.nanos,
            total: self.total_bytes,
        }
    }
}

/// The snapshots without those that are too old. The one before the window stays: it is
/// what the window is measured against.
pub open spec fn cleaned(samples: Seq<(Instant, u64)>, now: Instant, window: u128) -> Seq<
    (Instant, u64),
>
    decreases samples.len(),
{
    if samples.len() > 1 && time::span(samples[1].0, now).nanos > window {
        cleaned(samples.skip(1), now, window)
    } else {
        samples
    }
}

/// The snapshots with one of now, unless the last was a moment ago.
pub open spec fn recorded(s: SpeedState, now: Instant) -> SpeedState {
    let samples = if s.samples.len() == 0 || time::span(s.samples.last().0, now).nanos
        >= SAMPLE_INTERVAL {
        s.samples.push((now, s.total))
    } else {
        s.samples
    };
    SpeedState { samples: cleaned(samples, now, s.window), ..s }
}

/// The sum, or the largest number where it does not fit.
pub open spec fn capped_sum(a: u64, b: u64) -> u64 {
    if a + b > u64::MAX {
        u64::MAX
    } else {
        (a + b) as u64
    }
}

/// The state with more bytes.
pub open spec fn with_bytes(s: SpeedState, bytes: u64, now: Instant) -> SpeedState {
    recorded(SpeedState { total: capped_sum(s.total, bytes), ..s }, now)
}

/// The bytes per second since the oldest snapshot; zero where it was less than a second
/// ago.
pub open spec fn speed_of(s: SpeedState, now: Instant) -> nat {
    if s.samples.len() == 0 {
        0
    } else {
        let passed = time::span(s.samples[0].0, now).nanos;
        if passed < MIN_MEASUREMENT_DURATION || s.total <= s.samples[0].1 {
            0
        } else {
            ((s.total - s.samples[0].1) as nat * 1_000_000_000) / passed as nat
        }
    }
}

/// A calculator that has seen nothing.
pub open spec fn fresh_state(window_seconds: u64) -> SpeedState {
    SpeedState {
        samples: Seq::empty(),
        window: (if window_seconds == 0 {
            1
        } else {
            window_seconds as nat
        } * 1_000_000_000) as u128,
        total: 0,
    }
}

proof fn lemma_speed_fits(bytes: nat, passed: nat)
    requires
        passed >= 1_000_000_000,
    ensures
        (bytes * 1_000_000_000) / passed <= bytes,
{
    assert((bytes * 1_000_000_000) / passed <= bytes) by (nonlinear_arith)
        requires
            passed >= 1_000_000_000,
    ;
}

impl SpeedCalculator {
    /// A calculator with a window of so many seconds, at least one.
    pub fn new(window_seconds: u64) -> (r: SpeedCalculator)
        ensures
            r@ == fresh_state(window_seconds),
    {
        let secs: u64 = if window_seconds == 0 {
            1
        } else {
            window_seconds
        };
        let samples: VecDeque<(Instant, u64)> = VecDeque::new();
        assert(samples@ =~= Seq::<(Instant, u64)>::empty());
        SpeedCalculator {
            start: clock(),
            samples,
            window_size: Duration::from_secs(secs),
            total_bytes: 0,
        }
    }

    /// A calculator with the usual window.
    pub fn with_default_window() -> (r: SpeedCalculator)
        ensures
            r@ == fresh_state(DEFAULT_WINDOW_SECONDS),
    {
        SpeedCalculator::new(DEFAULT_WINDOW_SECONDS)
    }

    /// Counts bytes that came in now.
    pub fn add_sample(&mut self, bytes: u64)
        ensures
            exists|now: Instant| final(self)@ == #[trigger] with_bytes(old(self)@, bytes, now),
    {
        let now = since(&self.start);
        self.add_sample_at(bytes, now);
        assert(self@ == with_bytes(old(self)@, bytes, now));
    }

    /// Takes a snapshot of now, also where no bytes came in, and gives the speed.
    pub fn refresh(&mut self) -> (r: u64)
        ensures
            exists|now: Instant|
                final(self)@ == #[trigger] recorded(old(self)@, now) && r == speed_of(
                    final(self)@,
                    now,
                ),
    {
        let now = since(&self.start);
        let r = self.refresh_at(now);
        assert(self@ == recorded(old(self)@, now));
        r
    }

    /// Counts bytes that came in at a time.
    pub fn add_sample_at(&mut self, bytes: u64, now: Instant)
        ensures
            final(self)@ == with_bytes(old(self)@, bytes, now),
    {
        self.total_bytes = if bytes > u64::MAX - self.total_bytes {
            u64::MAX
        } else {
            self.total_bytes + bytes
        };
        self.record_snapshot(now);
    }

    /// Takes a snapshot of a time and gives the speed.
    pub fn refresh_at(&mut self, now: Instant) -> (r: u64)
        ensures
            final(self)@ == recorded(old(self)@, now),
            r == speed_of(final(self)@, now),
    {
        self.record_snapshot(now);
        self.speed_at(now)
    }

    fn record_snapshot(&mut self, now: Instant)
        ensures
            final(self)@ == recorded(old(self)@, now),
    {
        let n: usize = self.samples.len();
        let wanted = if n == 0 {
            true
        } else {
            now.duration_since(self.samples[n - 1].0).nanos >= SAMPLE_INTERVAL
        };
        if wanted {
            self.samples.push_back((now, self.total_bytes));
        }
        self.cleanup_old_samples(now);
    }

    fn cleanup_old_samples(&mut self, now: Instant)
        ensures
            final(self)@ == (SpeedState {
                samples: cleaned(old(self)@.samples, now, old(self)@.window),
                ..old(self)@
            }),
    {
        let window = self.window_size.nanos;
        while self.samples.len() > 1 && now.duration_since(self.samples[1].0).nanos > window
            invariant
                window == self.window_size.nanos,
                self.window_size == old(self).window_size,
                self.total_bytes == old(self).total_bytes,
                cleaned(self.samples@, now, window) == cleaned(old(self).samples@, now, window),
            decreases self.samples@.len(),
        {
            let ghost before = self.samples@;
            self.samples.pop_front();
            assert(self.samples@ =~= before.skip(1));
        }
    }

    /// The bytes per second now.
    pub fn speed(&self) -> (r: u64)
        ensures
            exists|now: Instant| r == #[trigger] speed_of(self@, now),
    {
        let now = since(&self.start);
        self.speed_at(now)
    }

    /// The bytes per second at a time.
    pub fn speed_at(&self, now: Instant) -> (r: u64)
        ensures
            r == speed_of(self@, now),
    {
        if self.samples.len() == 0 {
            return 0;
        }
        let first = self.samples[0];
        let passed: u128 = now.duration_since(first.0).nanos;
        if passed < MIN_MEASUREMENT_DURATION || self.total_bytes <= first.1 {
            return 0;
        }
        let bytes: u64 = self.total_bytes - first.1;
        proof {
            lemma_speed_fits(bytes as nat, passed as nat);
        }
        let r: u128 = (bytes as u128) * 1_000_000_000 / passed;
        r as u64
    }

    /// The bytes so far.
    pub fn total_bytes(&self) -> (r: u64)
        ensures
            r == self@.total,
    {
        self.total_bytes
    }

    /// How many snapshots are kept.
    pub fn sample_count(&self) -> (r: usize)
        ensures
            r == self@.samples.len(),
    {
        self.samples.len()
    }

    /// The speed now, for people to read.
    pub fn format_speed(&self) -> (r: String)
        ensures
            exists|now: Instant| r@ == shown_speed(#[trigger] speed_of(self@, now)),
    {
        let speed = self.speed();
        format_bytes_per_second(speed)
    }

    /// Begins anew. A download that goes on after a pause must not be measured against what
    /// was before.
    pub fn reset(&mut self)
        ensures
            final(self)@ == (SpeedState {
                samples: Seq::empty(),
                total: 0,
                ..old(self)@
            }),
    {
        self.samples.clear();
        self.total_bytes = 0;
    }
}

// ---------------------------------------------------------------------------
// Laws
// ---------------------------------------------------------------------------
/// The snapshots are in order, at least half a second apart.
pub open spec fn spaced(samples: Seq<(Instant, u64)>) -> bool {
    forall|i: int, j: int|
        0 <= i < j < samples.len() ==> (#[trigger] samples[j]).0.nanos >= (#[trigger] samples[i]).0.nanos
            + (j - i) * SAMPLE_INTERVAL
}

proof fn lemma_cleaned(samples: Seq<(Instant, u64)>, now: Instant, window: u128)
    requires
        spaced(samples),
    ensures
        spaced(cleaned(samples, now, window)),
        cleaned(samples, now, window).len() > 1 ==> time::span(
            cleaned(samples, now, window)[1].0,
            now,
        ).nanos <= window,
        samples.len() > 0 ==> cleaned(samples, now, window).len() > 0 && cleaned(
            samples,
            now,
            window,
        ).last() == samples.last(),
    decreases samples.len(),
{
    if samples.len() > 1 && time::span(samples[1].0, now).nanos > window {
        let rest = samples.skip(1);
        assert forall|i: int, j: int| 0 <= i < j < rest.len() implies (#[trigger] rest[j]).0.nanos
            >= (#[trigger] rest[i]).0.nanos + (j - i) * SAMPLE_INTERVAL by {
            assert(rest[j] == samples[j + 1] && rest[i] == samples[i + 1]);
        }
        lemma_cleaned(rest, now, window);
    }
}

/// The number of snapshots is bounded: over time that does not run backwards they stay
/// spaced, and there are no more of them than half seconds in the window, and two.
pub proof fn law_snapshot_count_is_bounded(s: SpeedState, bytes: u64, now: Instant)
    requires
        spaced(s.samples),
        s.samples.len() > 0 ==> s.samples.last().0.nanos <= now.nanos,
    ensures
        spaced(with_bytes(s, bytes, now).samples),
        with_bytes(s, bytes, now).samples.last().0.nanos <= now.nanos,
        with_bytes(s, bytes, now).samples.len() <= s.window / SAMPLE_INTERVAL + 2,
{
    let t = SpeedState { total: capped_sum(s.total, bytes), ..s };
    let grown = if t.samples.len() == 0 || time::span(t.samples.last().0, now).nanos
        >= SAMPLE_INTERVAL {
        t.samples.push((now, t.total))
    } else {
        t.samples
    };
    assert forall|i: int, j: int| 0 <= i < j < grown.len() implies (#[trigger] grown[j]).0.nanos
        >= (#[trigger] grown[i]).0.nanos + (j - i) * SAMPLE_INTERVAL by {
        let n = t.samples.len() as int;
        if j == n && i < n {
            if i < n - 1 {
                assert(t.samples[n - 1].0.nanos >= t.samples[i].0.nanos + (n - 1 - i)
                    * SAMPLE_INTERVAL);
            }
            assert((n - i) * SAMPLE_INTERVAL == (n - 1 - i) * SAMPLE_INTERVAL + SAMPLE_INTERVAL)
                by (nonlinear_arith);
        } else {
            assert(grown[j] == t.samples[j] && grown[i] == t.samples[i]);
        }
    }
    lemma_cleaned(grown, now, t.window);
    let kept = cleaned(grown, now, t.window);
    let m = kept.len() as int;
    if m > 2 {
        assert(kept[m - 1].0.nanos >= kept[1].0.nanos + (m - 1 - 1) * SAMPLE_INTERVAL);
        assert((m - 2) * SAMPLE_INTERVAL <= t.window);
        assert(m - 2 <= t.window / SAMPLE_INTERVAL) by (nonlinear_arith)
            requires
                (m - 2) * SAMPLE_INTERVAL <= t.window,
        ;
    }
}

/// The speed of a download that stands still falls, though nobody takes a snapshot.
pub proof fn law_speed_decays(s: SpeedState, earlier: Instant, later: Instant)
    requires
        s.samples.len() > 0,
        time::span(s.samples[0].0, earlier).nanos >= MIN_MEASUREMENT_DURATION,
        earlier.nanos <= later.nanos,
    ensures
        speed_of(s, later) <= speed_of(s, earlier),
{
    if s.total > s.samples[0].1 {
        let b = (s.total - s.samples[0].1) as nat * 1_000_000_000;
        let x = time::span(s.samples[0].0, earlier).nanos as nat;
        let y = time::span(s.samples[0].0, later).nanos as nat;
        assert(b / y <= b / x) by (nonlinear_arith)
            requires
                0 < x <= y,
                b >= 0,
        ;
    }
}

/// The speed goes by the oldest snapshot and the bytes so far alone, however many
/// snapshots lie between.
pub proof fn law_speed_is_insensitive_to_density(a: SpeedState, b: SpeedState, now: Instant)
    requires
        a.samples.len() > 0,
        b.samples.len() > 0,
        a.samples[0] == b.samples[0],
        a.total == b.total,
    ensures
        speed_of(a, now) == speed_of(b, now),
{
}

// ---------------------------------------------------------------------------
// For people to read
// ---------------------------------------------------------------------------
/// So many units in hundredths, rounded to the nearest, a half to the even one.
pub open spec fn hundredths(n: nat, unit: nat) -> nat {
    let q = n * 100 / unit;
    let rest = n * 100 % unit;
    if 2 * rest > unit || (2 * rest == unit && q % 2 == 1) {
        q + 1
    } else {
        q
    }
}

/// A number in hundredths, with two digits after the point.
pub open spec fn two_places(h: nat) -> Seq<char> {
    numbers::decimal_of(h / 100) + "."@ + numbers::decimal_of(h % 100 / 10) + numbers::decimal_of(
        h % 10,
    )
}

/// A speed for people to read.
pub open spec fn shown_speed(n: nat) -> Seq<char> {
    if n >= 1_073_741_824 {
        two_places(hundredths(n, 1_073_741_824)) + " GB/s"@
    } else if n >= 1_048_576 {
        two_places(hundredths(n, 1_048_576)) + " MB/s"@
    } else if n >= 1024 {
        two_places(hundredths(n, 1024)) + " KB/s"@
    } else {
        numbers::decimal_of(n) + " B/s"@
    }
}

fn in_units(n: u64, unit: u64, name: &str) -> (r: String)
    requires
        unit >= 1024,
    ensures
        r@ == two_places(hundredths(n as nat, unit as nat)) + name@,
{
    let scaled: u128 = (n as u128) * 100;
    let q: u128 = scaled / (unit as u128);
    let rest: u128 = scaled % (unit as u128);
    proof {
        assert(q <= scaled) by (nonlinear_arith)
            requires
                q == scaled / (unit as u128),
                unit >= 1024,
                scaled >= 0,
        ;
        assert(q < u64::MAX) by (nonlinear_arith)
            requires
                q == scaled / (unit as u128),
                unit >= 1024,
                scaled == n * 100,
                n <= u64::MAX,
        ;
        assert(rest < unit);
    }
    let h: u128 = if 2 * rest > unit as u128 || (2 * rest == unit as u128 && q % 2 == 1) {
        q + 1
    } else {
        q
    };
    let whole = decimal((h / 100) as u64);
    let tens = decimal((h % 100 / 10) as u64);
    let ones = decimal((h % 10) as u64);
    let mut r = concat3(whole.as_str(), ".", tens.as_str());
    r.append(ones.as_str());
    r.append(name);
    r
}

/// A speed for people to read.
pub fn format_bytes_per_second(bytes_per_sec: u64) -> (r: String)
    ensures
        r@ == shown_speed(bytes_per_sec as nat),
{
    if bytes_per_sec >= 1_073_741_824 {
        in_units(bytes_per_sec, 1_073_741_824, " GB/s")
    } else if bytes_per_sec >= 1_048_576 {
        in_units(bytes_per_sec, 1_048_576, " MB/s")
    } else if bytes_per_sec >= 1024 {
        in_units(bytes_per_sec, 1024, " KB/s")
    } else {
        let n = decimal(bytes_per_sec);
        concat2(n.as_str(), " B/s")
    }
}

/// The time that is left, for people to read.
pub open spec fn shown_eta(seconds: nat) -> Seq<char> {
    let hours = seconds / 3600;
    let minutes = seconds % 3600 / 60;
    let secs = seconds % 60;
    if seconds == 0 {
        "即将完成"@
    } else if hours > 0 {
        numbers::decimal_of(hours) + "小时"@ + numbers::decimal_of(minutes) + "分钟"@
    } else if minutes > 0 {
        numbers::decimal_of(minutes) + "分钟"@ + numbers::decimal_of(secs) + "秒"@
    } else {
        numbers::decimal_of(secs) + "秒"@
    }
}

/// The time that is left, for people to read.
pub fn format_eta(seconds: u64) -> (r: String)
    ensures
        r@ == shown_eta(seconds as nat),
{
    if seconds == 0 {
        return "即将完成".to_owned();
    }
    let hours: u64 = seconds / 3600;
    let minutes: u64 = (seconds % 3600) / 60;
    let secs: u64 = seconds % 60;
    if hours > 0 {
        let a = decimal(hours);
        let b = decimal(minutes);
        let mut r = concat3(a.as_str(), "小时", b.as_str());
        r.append("分钟");
        r
    } else if minutes > 0 {
        let a = decimal(minutes);
        let b = decimal(secs);
        let mut r = concat3(a.as_str(), "分钟", b.as_str());
        r.append("秒");
        r
    } else {
        let a = decimal(secs);
        concat2(a.as_str(), "秒")
    }
}

/// The speed is what came since the first sample, divided by the time since then, whole bytes per
/// second of it; none before a second has passed.
pub proof fn law_speed_is_bytes_by_time(s: SpeedState, now: Instant)
    requires
        s.samples.len() > 0,
        s.samples[0].0.nanos <= now.nanos,
        s.samples[0].1 <= s.total,
    ensures
        now.nanos - s.samples[0].0.nanos < 1_000_000_000 ==> speed_of(s, now) == 0,
        now.nanos - s.samples[0].0.nanos >= 1_000_000_000 ==> {
            let passed = now.nanos - s.samples[0].0.nanos;
            let bytes = s.total - s.samples[0].1;
            speed_of(s, now) * passed <= bytes * 1_000_000_000 < (speed_of(s, now) + 1) * passed
        },
{
    let passed = now.nanos - s.samples[0].0.nanos;
    let bytes = s.total - s.samples[0].1;
    if passed >= 1_000_000_000 {
        let b = bytes * 1_000_000_000;
        let v = speed_of(s, now) as int;
        assert(v == b / passed) by {
            if bytes == 0 {
                vstd::arithmetic::div_mod::lemma_basic_div(0, passed);
            }
        }
        vstd::arithmetic::div_mod::lemma_fundamental_div_mod(b, passed);
        vstd::arithmetic::div_mod::lemma_mod_bound(b, passed);
        assert(v * passed <= b < (v + 1) * passed) by (nonlinear_arith)
            requires
                b == passed * v + b % passed,
                0 <= b % passed < passed,
        ;
    }
}

/// Bytes are added up; a sample is taken where the last one is half a second old. Of the samples
/// that are older than the window one stays, the last of them.
pub proof fn law_samples_span_the_window(s: SpeedState, bytes: u64, now: Instant)
    requires
        s.total + bytes <= u64::MAX,
    ensures
        with_bytes(s, bytes, now).total == s.total + bytes,
        with_bytes(s, bytes, now).window == s.window,
        recorded(s, now).total == s.total,
        recorded(s, now).samples.len() > 0,
        s.samples.len() == 0 || now.nanos >= s.samples.last().0.nanos + 500_000_000 ==> recorded(
            s,
            now,
        ).samples.last() == (now, s.total),
        s.samples.len() > 0 && s.samples.last().0.nanos <= now.nanos
            < s.samples.last().0.nanos + 500_000_000 ==> recorded(s, now).samples.last()
            == s.samples.last(),
        recorded(s, now).samples.len() > 1 ==> now.nanos <= recorded(s, now).samples[1].0.nanos
            + s.window,
{
    let t = SpeedState { total: capped_sum(s.total, bytes), ..s };
    let grown = if s.samples.len() == 0 || time::span(s.samples.last().0, now).nanos
        >= SAMPLE_INTERVAL {
        s.samples.push((now, s.total))
    } else {
        s.samples
    };
    lemma_cleaned_end(grown, now, s.window);
}

proof fn lemma_cleaned_end(samples: Seq<(Instant, u64)>, now: Instant, window: u128)
    requires
        samples.len() > 0,
    ensures
        cleaned(samples, now, window).len() > 0,
        cleaned(samples, now, window).last() == samples.last(),
        cleaned(samples, now, window).len() > 1 ==> time::span(
            cleaned(samples, now, window)[1].0,
            now,
        ).nanos <= window,
    decreases samples.len(),
{
    if samples.len() > 1 && time::span(samples[1].0, now).nanos > window {
        lemma_cleaned_end(samples.skip(1), now, window);
        assert(samples.skip(1).last() == samples.last());
    }
}

/// A speed is shown in the largest unit that it reaches, in hundredths of it: none is further from
/// the exact number than half a hundredth.
pub proof fn law_speed_is_shown_rounded(n: nat, unit: nat)
    requires
        unit > 0,
    ensures
        2 * (hundredths(n, unit) * unit) <= 200 * n + unit,
        200 * n <= 2 * (hundredths(n, unit) * unit) + unit,
        n < 1024 ==> shown_speed(n) == numbers::decimal_of(n) + " B/s"@,
        1024 <= n < 1024 * 1024 ==> shown_speed(n) == two_places(hundredths(n, 1024)) + " KB/s"@,
        1024 * 1024 <= n < 1024 * 1024 * 1024 ==> shown_speed(n) == two_places(
            hundredths(n, 1024 * 1024),
        ) + " MB/s"@,
        n >= 1024 * 1024 * 1024 ==> shown_speed(n) == two_places(
            hundredths(n, 1024 * 1024 * 1024),
        ) + " GB/s"@,
{
    let a = (n * 100) as int;
    let u = unit as int;
    let q = a / u;
    let rest = a % u;
    vstd::arithmetic::div_mod::lemma_fundamental_div_mod(a, u);
    vstd::arithmetic::div_mod::lemma_mod_bound(a, u);
    let h = hundredths(n, unit) as int;
    assert(h == q || h == q + 1);
    assert(q * u == a - rest) by (nonlinear_arith)
        requires
            a == u * q + rest,
    ;
    assert((q + 1) * u == a - rest + u) by (nonlinear_arith)
        requires
            a == u * q + rest,
    ;
}

/// A time left is shown in hours and minutes, minutes and seconds, or seconds.
pub proof fn law_time_left_is_shown_in_parts(hours: nat, minutes: nat, secs: nat)
    requires
        minutes < 60,
        secs < 60,
        hours + minutes + secs > 0,
    ensures
        hours > 0 ==> shown_eta(hours * 3600 + minutes * 60 + secs) == numbers::decimal_of(hours)
            + "小时"@ + numbers::decimal_of(minutes) + "分钟"@,
        hours == 0 && minutes > 0 ==> shown_eta(minutes * 60 + secs) == numbers::decimal_of(minutes)
            + "分钟"@ + numbers::decimal_of(secs) + "秒"@,
        hours == 0 && minutes == 0 ==> shown_eta(secs) == numbers::decimal_of(secs) + "秒"@,
{
}

} // verus!
