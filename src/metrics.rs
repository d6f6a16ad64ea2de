//! The numbers derived from one reading of the system's counters.

use vstd::prelude::*;
use vstd::math::abs;

verus! {

/// Bytes in one hundredth of a decimal megabyte.
pub const BYTES_PER_CENTI_MB: u128 = 10_000;

/// RAM use as a whole percentage, rounded down; 0 when the total is unknown (0).
pub open spec fn ram_percent_of(used: nat, total: nat) -> nat {
    if total == 0 {
        0
    } else {
        used * 100 / total
    }
}

/// Sum of the transmitted counters (first component) of every interface.
pub open spec fn sum_transmitted(s: Seq<(u64, u64)>) -> nat
    decreases s.len(),
{
    if s.len() == 0 {
        0
    } else {
        sum_transmitted(s.drop_last()) + s.last().0 as nat
    }
}

/// Sum of the received counters (second component) of every interface.
pub open spec fn sum_received(s: Seq<(u64, u64)>) -> nat
    decreases s.len(),
{
    if s.len() == 0 {
        0
    } else {
        sum_received(s.drop_last()) + s.last().1 as nat
    }
}

/// `x / d` rounded to the nearest whole number, a tie going to the even one.
pub open spec fn round_half_even(x: nat, d: nat) -> nat {
    let q = x / d;
    let r = x % d;
    if 2 * r > d || (2 * r == d && q % 2 == 1) {
        q + 1
    } else {
        q
    }
}

/// `bytes` in hundredths of a megabyte, rounded to the nearest hundredth,
/// ties to the even hundredth.
pub open spec fn centi_mb_of(bytes: nat) -> nat {
    round_half_even(bytes, 10_000)
}

/// `round_half_even(x, d)` is a nearest whole number to `x / d`: no integer
/// `k` has `k * d` closer to `x`, the distance is at most half of `d`, and
/// when another `k` is just as close the result is the even one of the two.
pub proof fn lemma_round_half_even_is_nearest(x: nat, d: nat, k: int)
    requires
        d > 0,
    ensures
        ({
            let c = round_half_even(x, d) as int;
            &&& 2 * abs(c * d - x) <= d
            &&& abs(c * d - x) <= abs(k * d - x)
            &&& (abs(c * d - x) == abs(k * d - x) && k != c ==> c % 2 == 0)
        }),
{
    let q = (x / d) as int;
    let r = (x % d) as int;
    assert(x == q * d + r && 0 <= r < d) by (nonlinear_arith)
        requires
            d > 0,
            q == x / d,
            r == x % d,
    ;
    let c = round_half_even(x, d) as int;
    if k <= q {
        assert((k - q) * d <= 0) by (nonlinear_arith)
            requires
                k <= q,
                d > 0,
        ;
    } else {
        assert((k - q) * d >= d) by (nonlinear_arith)
            requires
                k >= q + 1,
                d > 0,
        ;
    }
    if k <= q - 1 {
        assert((k - q) * d <= -d) by (nonlinear_arith)
            requires
                k <= q - 1,
                d > 0,
        ;
    }
    if k >= q + 2 {
        assert((k - q) * d >= 2 * d) by (nonlinear_arith)
            requires
                k >= q + 2,
                d > 0,
        ;
    }
    assert(k * d - x == (k - q) * d - r) by (nonlinear_arith)
        requires
            x == q * d + r,
    ;
    assert(c * d - x == (c - q) * d - r) by (nonlinear_arith)
        requires
            x == q * d + r,
    ;
    assert((q + 1 - q) * d == d) by (nonlinear_arith);
}

/// The network figure is the nearest hundredth of a megabyte, ties to the
/// even hundredth: within 5000 bytes of the byte count, and no count `k` of
/// hundredths is closer.
pub proof fn lemma_centi_mb_is_nearest(bytes: nat, k: int)
    ensures
        ({
            let c = centi_mb_of(bytes) as int;
            &&& abs(c * 10_000 - bytes) <= 5_000
            &&& abs(c * 10_000 - bytes) <= abs(k * 10_000 - bytes)
            &&& (abs(c * 10_000 - bytes) == abs(k * 10_000 - bytes) && k != c ==> c % 2 == 0)
        }),
{
    lemma_round_half_even_is_nearest(bytes, 10_000, k);
}

/// More bytes never show as fewer megabytes: the rounded volume grows with
/// the byte count.
pub proof fn lemma_centi_mb_monotonic(a: nat, b: nat)
    requires
        a <= b,
    ensures
        centi_mb_of(a) <= centi_mb_of(b),
{
    let qa = a / 10_000;
    let qb = b / 10_000;
    assert(qa <= qb) by (nonlinear_arith)
        requires
            a <= b,
            qa == a / 10_000,
            qb == b / 10_000,
    ;
    if qa == qb {
        assert(a % 10_000 <= b % 10_000);
    }
}

/// Percentage of RAM in use: `used * 100 / total`, rounded down, and 0 when
/// `total` is 0 rather than a division by zero.
pub fn ram_percent(used: u64, total: u64) -> (r: u128)
    ensures
        r == ram_percent_of(used as nat, total as nat),
        used <= total ==> r <= 100,
{
    if total == 0 {
        0
    } else {
        let scaled: u128 = (used as u128) * 100;
        assert(used <= total ==> scaled / (total as u128) <= 100) by (nonlinear_arith)
            requires
                scaled == used * 100,
                total > 0,
        ;
        scaled / (total as u128)
    }
}

proof fn lemma_sums_bounded(s: Seq<(u64, u64)>)
    ensures
        sum_transmitted(s) <= s.len() * (u64::MAX as nat),
        sum_received(s) <= s.len() * (u64::MAX as nat),
    decreases s.len(),
{
    if s.len() > 0 {
        lemma_sums_bounded(s.drop_last());
        assert((s.len() - 1) * (u64::MAX as nat) + (u64::MAX as nat) == s.len() * (u64::MAX as nat))
            by (nonlinear_arith);
    }
}

/// Totals over all interfaces of the bytes moved since the previous refresh:
/// `(transmitted, received)`.
pub fn sum_traffic(interfaces: &Vec<(u64, u64)>) -> (r: (u128, u128))
    ensures
        r.0 == sum_transmitted(interfaces@),
        r.1 == sum_received(interfaces@),
{
    let mut upload: u128 = 0;
    let mut download: u128 = 0;
    let mut i: usize = 0;
    while i < interfaces.len()
        invariant
            i <= interfaces@.len(),
            upload == sum_transmitted(interfaces@.subrange(0, i as int)),
            download == sum_received(interfaces@.subrange(0, i as int)),
        decreases interfaces@.len() - i,
    {
        let (tx, rx) = interfaces[i];
        proof {
            let prefix = interfaces@.subrange(0, i as int);
            let next = interfaces@.subrange(0, i + 1);
            assert(next.drop_last() =~= prefix);
            lemma_sums_bounded(prefix);
            assert((i as nat) * (u64::MAX as nat) + (u64::MAX as nat) < u128::MAX) by (nonlinear_arith)
                requires
                    i < usize::MAX,
            ;
        }
        upload = upload + tx as u128;
        download = download + rx as u128;
        i = i + 1;
    }
    assert(interfaces@.subrange(0, interfaces@.len() as int) =~= interfaces@);
    (upload, download)
}

/// `bytes` in hundredths of a decimal megabyte, rounded to the nearest
/// hundredth, a tie going to the even hundredth.
pub fn centi_mb(bytes: u128) -> (r: u128)
    ensures
        r == centi_mb_of(bytes as nat),
        r * 10_000 <= bytes + 5_000,
        bytes <= r * 10_000 + 5_000,
{
    let q = bytes / BYTES_PER_CENTI_MB;
    let rem = bytes % BYTES_PER_CENTI_MB;
    if rem > 5_000 || (rem == 5_000 && q % 2 == 1) {
        q + 1
    } else {
        q
    }
}

/// The raw values that one tick reads from the system.
#[derive(Debug, Clone)]
pub struct Reading {
    /// Global CPU usage in percent, as the bit pattern of an IEEE-754 single.
    pub cpu_usage_bits: u32,
    /// RAM in use, in bytes.
    pub used_memory: u64,
    /// RAM installed, in bytes.
    pub total_memory: u64,
    /// `(transmitted, received)` bytes of each interface since the previous refresh.
    pub interfaces: Vec<(u64, u64)>,
}

/// The values shown to the user: they come from the latest reading only.
#[derive(Debug, Clone, Copy, PartialEq, Eq, Structural)]
pub struct MetricsSnapshot {
    /// Global CPU usage in percent, as the bit pattern of an IEEE-754 single.
    pub cpu_usage_bits: u32,
    /// RAM in use, in whole percent, rounded down.
    pub ram_usage: u128,
    /// Bytes received over all interfaces since the previous refresh.
    pub download_bytes: u128,
    /// Bytes transmitted over all interfaces since the previous refresh.
    pub upload_bytes: u128,
}

/// The snapshot that a reading yields.
pub open spec fn snapshot_of(
    cpu_usage_bits: u32,
    used_memory: u64,
    total_memory: u64,
    interfaces: Seq<(u64, u64)>,
) -> MetricsSnapshot {
    MetricsSnapshot {
        cpu_usage_bits,
        ram_usage: ram_percent_of(used_memory as nat, total_memory as nat) as u128,
        download_bytes: sum_received(interfaces) as u128,
        upload_bytes: sum_transmitted(interfaces) as u128,
    }
}

impl Reading {
    pub open spec fn snapshot(&self) -> MetricsSnapshot {
        snapshot_of(self.cpu_usage_bits, self.used_memory, self.total_memory, self.interfaces@)
    }
}

impl MetricsSnapshot {
    pub open spec fn zero_spec() -> MetricsSnapshot {
        MetricsSnapshot { cpu_usage_bits: 0, ram_usage: 0, download_bytes: 0, upload_bytes: 0 }
    }

    /// The snapshot before the first tick: every value is zero.
    pub fn zero() -> (r: MetricsSnapshot)
        ensures
            r == MetricsSnapshot::zero_spec(),
    {
        MetricsSnapshot { cpu_usage_bits: 0, ram_usage: 0, download_bytes: 0, upload_bytes: 0 }
    }

    /// Derives the shown values from one reading.
    pub fn from_reading(reading: &Reading) -> (r: MetricsSnapshot)
        ensures
            r == reading.snapshot(),
            r.ram_usage == ram_percent_of(reading.used_memory as nat, reading.total_memory as nat),
            r.download_bytes == sum_received(reading.interfaces@),
            r.upload_bytes == sum_transmitted(reading.interfaces@),
    {
        let (upload, download) = sum_traffic(&reading.interfaces);
        MetricsSnapshot {
            cpu_usage_bits: reading.cpu_usage_bits,
            ram_usage: ram_percent(reading.used_memory, reading.total_memory),
            download_bytes: download,
            upload_bytes: upload,
        }
    }

    /// Overwrites this snapshot with the values of a new reading; nothing of
    /// the earlier values is kept.
    pub fn record(&mut self, reading: &Reading)
        ensures
            *final(self) == reading.snapshot(),
    {
        *self = MetricsSnapshot::from_reading(reading);
    }

    /// Download volume in hundredths of a megabyte, rounded to the nearest, ties to even.
    pub fn download_centi_mb(&self) -> (r: u128)
        ensures
            r == centi_mb_of(self.download_bytes as nat),
    {
        centi_mb(self.download_bytes)
    }

    /// Upload volume in hundredths of a megabyte, rounded to the nearest, ties to even.
    pub fn upload_centi_mb(&self) -> (r: u128)
        ensures
            r == centi_mb_of(self.upload_bytes as nat),
    {
        centi_mb(self.upload_bytes)
    }
}

proof fn lemma_sum_remove(s: Seq<(u64, u64)>, j: int)
    requires
        0 <= j < s.len(),
    ensures
        sum_transmitted(s) == sum_transmitted(s.remove(j)) + s[j].0 as nat,
        sum_received(s) == sum_received(s.remove(j)) + s[j].1 as nat,
    decreases s.len(),
{
    if j == s.len() - 1 {
        assert(s.remove(j) =~= s.drop_last());
    } else {
        lemma_sum_remove(s.drop_last(), j);
        assert(s.remove(j).drop_last() =~= s.drop_last().remove(j));
        assert(s.remove(j).last() == s.last());
    }
}

/// The interface totals do not depend on the order in which the interfaces
/// are listed: any two listings of the same interface counters give the same
/// sums.
pub proof fn lemma_sums_ignore_order(a: Seq<(u64, u64)>, b: Seq<(u64, u64)>)
    requires
        a.to_multiset() == b.to_multiset(),
    ensures
        sum_transmitted(a) == sum_transmitted(b),
        sum_received(a) == sum_received(b),
    decreases a.len(),
{
    broadcast use vstd::seq_lib::group_to_multiset_ensures;
    if a.len() == 0 {
        assert(b.to_multiset().len() == 0);
        assert(b.len() == 0);
    } else {
        let x = a.last();
        assert(a.drop_last().push(x) =~= a);
        assert(a.to_multiset().count(x) > 0) by {
            assert(a.contains(x)) by {
                assert(a[a.len() - 1] == x);
            }
        }
        assert(b.contains(x));
        let j = choose|j: int| 0 <= j < b.len() && b[j] == x;
        let b2 = b.remove(j);
        assert(b2.to_multiset() =~= b.to_multiset().remove(x));
        assert(a.drop_last().to_multiset().insert(x) =~= a.to_multiset());
        assert(a.drop_last().to_multiset() =~= a.to_multiset().remove(x));
        lemma_sums_ignore_order(a.drop_last(), b2);
        lemma_sum_remove(b, j);
    }
}

/// Sampling again when nothing has changed shows the same snapshot, even when
/// the interfaces come back in another order: a snapshot is a function of the
/// latest reading's values alone, whatever was shown before.
pub proof fn lemma_sampling_is_stable(first: Reading, second: Reading)
    requires
        first.cpu_usage_bits == second.cpu_usage_bits,
        first.used_memory == second.used_memory,
        first.total_memory == second.total_memory,
        first.interfaces@.to_multiset() == second.interfaces@.to_multiset(),
    ensures
        first.snapshot() == second.snapshot(),
{
    lemma_sums_ignore_order(first.interfaces@, second.interfaces@);
}

} // verus!
