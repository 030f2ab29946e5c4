//! Packet capture files: the timestamp arithmetic of classic pcap and of
//! pcapng, whose interfaces declare their own clock resolution.

use crate::pattern::{utc_micros, utc_timestamp_micros};
use crate::text::pow10;
use vstd::prelude::*;

verus! {

/// The pcapng option that declares an interface's timestamp resolution.
pub const IF_TSRESOL_OPTION: u16 = 9;

/// Timestamp units per second when an interface declares none.
pub const DEFAULT_TSRESOL: u64 = 1_000_000;

/// `2^k`.
pub open spec fn pow2(k: nat) -> nat
    decreases k,
{
    if k == 0 { 1 } else { 2 * pow2((k - 1) as nat) }
}

/// The units per second that an `if_tsresol` byte declares: a power of two
/// when its high bit is set, a power of ten otherwise.
pub open spec fn tsresol_of(resol: u8) -> nat {
    if resol & 0x80 != 0 { pow2((resol & 0x7F) as nat) } else { pow10(resol as nat) }
}

/// The byte declares a resolution that fits in 64 bits.
pub open spec fn tsresol_in_range(resol: u8) -> bool {
    if resol & 0x80 != 0 { (resol & 0x7F) < 64 } else { resol < 20 }
}

proof fn lemma_pow2_bound(k: nat)
    requires
        k < 64,
    ensures
        1 <= pow2(k) <= 0x8000_0000_0000_0000,
    decreases k,
{
    if k > 0 {
        lemma_pow2_bound((k - 1) as nat);
        assert(pow2((k - 1) as nat) <= 0x4000_0000_0000_0000) by {
            lemma_pow2_monotone((k - 1) as nat, 62);
            lemma_pow2_62();
        }
    }
}

proof fn lemma_pow2_monotone(a: nat, b: nat)
    requires
        a <= b,
    ensures
        pow2(a) <= pow2(b),
    decreases b,
{
    if a < b {
        lemma_pow2_monotone(a, (b - 1) as nat);
    }
}

proof fn lemma_pow2_62()
    ensures
        pow2(62) == 0x4000_0000_0000_0000,
{
    reveal_with_fuel(pow2, 63);
}

proof fn lemma_pow10_bound(k: nat)
    requires
        k < 20,
    ensures
        1 <= pow10(k) <= 10_000_000_000_000_000_000,
    decreases k,
{
    if k > 0 {
        lemma_pow10_bound((k - 1) as nat);
        lemma_pow10_monotone((k - 1) as nat, 18);
        lemma_pow10_18();
    }
}

proof fn lemma_pow10_monotone(a: nat, b: nat)
    requires
        a <= b,
    ensures
        pow10(a) <= pow10(b),
    decreases b,
{
    if a < b {
        lemma_pow10_monotone(a, (b - 1) as nat);
    }
}

proof fn lemma_pow10_18()
    ensures
        pow10(18) == 1_000_000_000_000_000_000,
{
    reveal_with_fuel(pow10, 19);
}

/// Timestamp units per second of an interface, from its `if_tsresol` byte.
pub fn interface_ts_resolution(resol: u8) -> (r: u64)
    requires
        tsresol_in_range(resol),
    ensures
        r as nat == tsresol_of(resol),
{
    if resol & 0x80 != 0 {
        let k = resol & 0x7F;
        proof {
            lemma_pow2_bound(k as nat);
        }
        let mut r: u64 = 1;
        let mut i: u8 = 0;
        while i < k
            invariant
                i <= k < 64,
                r as nat == pow2(i as nat),
                pow2(k as nat) <= 0x8000_0000_0000_0000,
            decreases k - i,
        {
            proof {
                lemma_pow2_monotone((i + 1) as nat, k as nat);
            }
            r = r * 2;
            i = i + 1;
        }
        r
    } else {
        proof {
            lemma_pow10_bound(resol as nat);
        }
        let mut r: u64 = 1;
        let mut i: u8 = 0;
        while i < resol
            invariant
                i <= resol < 20,
                r as nat == pow10(i as nat),
                pow10(resol as nat) <= 10_000_000_000_000_000_000,
            decreases resol - i,
        {
            proof {
                lemma_pow10_monotone((i + 1) as nat, resol as nat);
            }
            r = r * 10;
            i = i + 1;
        }
        r
    }
}

/// The resolution after an interface's options: each `if_tsresol` option
/// with a value replaces it, the last one winning.
pub open spec fn resolution_after(options: Seq<(u16, Option<u8>)>, start: nat) -> nat
    decreases options.len(),
{
    if options.len() == 0 {
        start
    } else {
        let last = options.last();
        if last.0 == IF_TSRESOL_OPTION && last.1 is Some {
            tsresol_of(last.1->0)
        } else {
            resolution_after(options.drop_last(), start)
        }
    }
}

/// The timestamp resolution an interface description block sets: its
/// options as (code, first value byte), the resolution in force before.
pub fn resolution_from_options(options: &[(u16, Option<u8>)], current: u64) -> (r: u64)
    requires
        forall|i: int| 0 <= i < options@.len() ==> (#[trigger] options@[i]).0 == IF_TSRESOL_OPTION
            && options@[i].1 is Some ==> tsresol_in_range(options@[i].1->0),
    ensures
        r as nat == resolution_after(options@, current as nat),
{
    let mut r = current;
    let mut i: usize = 0;
    while i < options.len()
        invariant
            i <= options@.len(),
            forall|j: int| 0 <= j < options@.len() ==> (#[trigger] options@[j]).0 == IF_TSRESOL_OPTION
                && options@[j].1 is Some ==> tsresol_in_range(options@[j].1->0),
            r as nat == resolution_after(options@.take(i as int), current as nat),
        decreases options.len() - i,
    {
        let (code, value) = options[i];
        assert(options@.take(i + 1).drop_last() =~= options@.take(i as int));
        if code == IF_TSRESOL_OPTION {
            if let Some(v) = value {
                r = interface_ts_resolution(v);
            }
        }
        i += 1;
    }
    assert(options@.take(options@.len() as int) =~= options@);
    r
}

/// Seconds and nanoseconds of a pcapng timestamp of `units` at `tsresol`
/// units per second.
pub open spec fn pcapng_split(units: nat, tsresol: nat) -> (nat, nat) {
    (units / tsresol, ((units % tsresol) * 1_000_000_000) / tsresol)
}

/// The capture time of an enhanced packet block, in microseconds since
/// the Unix epoch (`None` when out of range).
pub fn pcapng_packet_micros(ts_high: u32, ts_low: u32, tsresol: u64) -> (r: Option<i64>)
    requires
        tsresol > 0,
        ((ts_high as nat * 0x1_0000_0000 + ts_low as nat) % (tsresol as nat)) * 1_000_000_000 <= u64::MAX,
    ensures
        ({
            let (sec, nsec) = pcapng_split(ts_high as nat * 0x1_0000_0000 + ts_low as nat, tsresol as nat);
            r == utc_micros(sec as i64, nsec as u32)
        }),
{
    let units: u64 = ((ts_high as u64) << 32) | (ts_low as u64);
    assert(units == ts_high as nat * 0x1_0000_0000 + ts_low as nat) by (bit_vector)
        requires
            units == ((ts_high as u64) << 32) | (ts_low as u64),
    ;
    let sec = units / tsresol;
    let rem = units % tsresol;
    let nsec = (rem * 1_000_000_000) / tsresol;
    assert(nsec < 1_000_000_000) by (nonlinear_arith)
        requires
            rem < tsresol,
            nsec == (rem * 1_000_000_000) / tsresol as int,
            tsresol > 0,
    {
    }
    utc_timestamp_micros(sec as i64, nsec as u32)
}

/// The capture time of a classic pcap record, in microseconds since the
/// Unix epoch (`None` when out of range).
pub fn legacy_packet_micros(ts_sec: u32, ts_usec: u32) -> (r: Option<i64>)
    requires
        ts_usec as nat * 1000 <= u32::MAX,
    ensures
        r == utc_micros(ts_sec as i64, (ts_usec * 1000) as u32),
        ts_usec < 1_000_000 ==> (r matches Some(v) && v == ts_sec * 1_000_000 + ts_usec),
{
    utc_timestamp_micros(ts_sec as i64, ts_usec * 1000)
}

} // verus!
