//! The two non-deterministic collaborators of record construction: a random
//! identifier source and the wall clock. Each is reached through one trusted
//! call; everything downstream works on the plain values they hand back.

use vstd::prelude::*;
use chrono::Datelike;
use chrono::Timelike;
use rand::Rng;
use crate::timestamp::Timestamp;

verus! {

/// Relies on rand's `Rng::gen_range` (via `thread_rng`): a sample drawn from
/// the non-empty range `0..=1000` lies within that range.
#[verifier::external_body]
fn draw_record_id() -> (r: u16)
    ensures
        r <= 1000,
{
    rand::thread_rng().gen_range(0..=1000u16)
}

/// Relies on chrono's `Utc::now` together with the `Datelike` / `Timelike`
/// accessors, whose documented ranges are: month 1..=12, day 1..=31,
/// hour 0..=23, minute 0..=59, second 0..=59. The year is an unbounded `i32`.
#[verifier::external_body]
fn utc_now_parts() -> (r: (i32, u32, u32, u32, u32, u32))
    ensures
        1 <= r.1 <= 12,
        1 <= r.2 <= 31,
        r.3 <= 23,
        r.4 <= 59,
        r.5 <= 59,
{
    let now = chrono::Utc::now();
    (now.year(), now.month(), now.day(), now.hour(), now.minute(), now.second())
}

/// Returns a fresh random record identifier in `[0, 1000]`.
pub fn random_record_id() -> (r: u16)
    ensures
        r <= 1000,
{
    draw_record_id()
}

/// Reads the wall clock as a civil timestamp. A clock year outside
/// `1..=9999` is clamped to that range, so the result is always
/// well formed (and hence renderable at a fixed four-digit width).
pub fn now_timestamp() -> (r: Timestamp)
    ensures
        r.wf(),
{
    let (y, mo, d, h, mi, s) = utc_now_parts();
    let year: u16 = if y < 1 {
        1
    } else if y > 9999 {
        9999
    } else {
        y as u16
    };
    Timestamp {
        year,
        month: mo as u8,
        day: d as u8,
        hour: h as u8,
        minute: mi as u8,
        second: s as u8,
    }
}

} // verus!
