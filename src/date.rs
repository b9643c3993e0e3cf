use vstd::prelude::*;
use vstd::string::StringExecFns;

use crate::decimal::{digits, push_digits};

verus! {

/// A calendar date in the proleptic Gregorian calendar.
#[derive(Clone, Copy, Debug, PartialEq, Eq, Structural)]
pub struct CivilDate {
    pub year: i32,
    pub month: u32,
    pub day: u32,
}

impl CivilDate {
    pub open spec fn wf(self) -> bool {
        1 <= self.month <= 12 && 1 <= self.day <= 31
    }
}

/// The year as `%Y` writes it: four digits, zero-padded, for years 0 to
/// 9999; a leading sign otherwise, with at least four digits after it.
pub open spec fn year_text(y: int) -> Seq<char> {
    if 0 <= y <= 9999 {
        digits(y as nat, 4)
    } else if y > 9999 {
        seq!['+'] + digits(y as nat, 4)
    } else {
        seq!['-'] + digits((-y) as nat, 4)
    }
}

/// The name of the conversation tree of a day: `YYYY-MM-DD`.
pub open spec fn day_name(d: CivilDate) -> Seq<char> {
    year_text(d.year as int) + seq!['-'] + digits(d.month as nat, 2) + seq!['-'] + digits(
        d.day as nat,
        2,
    )
}

/// Formats the name of the conversation tree of a day.
pub fn tree_name(d: CivilDate) -> (r: String)
    ensures
        r@ == day_name(d),
{
    proof {
        reveal_strlit("+");
        reveal_strlit("-");
    }
    let mut s = String::new();
    if d.year >= 0 && d.year <= 9999 {
        push_digits(&mut s, d.year as u64, 4);
    } else if d.year > 9999 {
        s.append("+");
        push_digits(&mut s, d.year as u64, 4);
    } else {
        s.append("-");
        let magnitude: u64 = (0i64 - d.year as i64) as u64;
        push_digits(&mut s, magnitude, 4);
    }
    s.append("-");
    push_digits(&mut s, d.month as u64, 2);
    s.append("-");
    push_digits(&mut s, d.day as u64, 2);
    assert(s@ =~= day_name(d));
    s
}

/// Relies on std::time::SystemTime::now and SystemTime::duration_since: the
/// time since the Unix epoch as whole seconds and the nanoseconds past them
/// (fewer than a billion, as Duration::subsec_nanos documents); `None` when
/// the clock reads before the epoch.
#[verifier::external_body]
fn time_since_epoch() -> (r: Option<(u64, u32)>)
    ensures
        r matches Some((_, nanos)) ==> nanos < 1_000_000_000,
{
    match std::time::SystemTime::now().duration_since(std::time::UNIX_EPOCH) {
        Ok(d) => Some((d.as_secs(), d.subsec_nanos())),
        Err(_) => None,
    }
}

/// Relies on chrono::DateTime::from_timestamp (`None` out of chrono's range),
/// DateTime::with_timezone(&chrono::Local) and chrono::Datelike: the local
/// calendar date of an instant, whose month lies in 1..=12 and day in 1..=31.
/// The local conversion reads the machine's time-zone data.
#[verifier::external_body]
fn local_date_at(secs: i64, nanos: u32) -> (r: Option<CivilDate>)
    ensures
        r matches Some(d) ==> d.wf(),
{
    chrono::DateTime::from_timestamp(secs, nanos).map(|utc| {
        let local = utc.with_timezone(&chrono::Local);
        CivilDate {
            year: chrono::Datelike::year(&local),
            month: chrono::Datelike::month(&local),
            day: chrono::Datelike::day(&local),
        }
    })
}

/// Today's local date, when the clock can be read.
pub fn today() -> (r: Option<CivilDate>)
    ensures
        r matches Some(d) ==> d.wf(),
{
    match time_since_epoch() {
        Some((secs, nanos)) => {
            if secs > i64::MAX as u64 {
                None
            } else {
                local_date_at(secs as i64, nanos)
            }
        },
        None => None,
    }
}

/// The name of today's conversation tree, when the clock can be read.
pub fn today_tree_name() -> (r: Option<String>)
    ensures
        r matches Some(s) ==> exists|d: CivilDate| d.wf() && s@ == #[trigger] day_name(d),
{
    match today() {
        Some(d) => Some(tree_name(d)),
        None => None,
    }
}

/// The largest whole-second count whose microseconds fit a `u64`.
pub const MAX_STAMP_SECS: u64 = 18446744073708;

/// The stamp of a clock reading, in microseconds since the epoch: zero when
/// the clock could not be read or the reading does not fit.
pub open spec fn stamp_of_time_spec(t: Option<(u64, u32)>) -> u64 {
    match t {
        Some((secs, nanos)) => if secs <= MAX_STAMP_SECS && nanos < 1_000_000_000 {
            (secs * 1_000_000 + nanos / 1000) as u64
        } else {
            0
        },
        None => 0,
    }
}

/// Turns a clock reading into a stamp.
pub fn stamp_of_time(t: Option<(u64, u32)>) -> (r: u64)
    ensures
        r == stamp_of_time_spec(t),
{
    match t {
        Some((secs, nanos)) => {
            if secs <= MAX_STAMP_SECS && nanos < 1_000_000_000 {
                assert(secs * 1_000_000 + nanos / 1000 <= u64::MAX) by (nonlinear_arith)
                    requires
                        secs <= MAX_STAMP_SECS,
                        nanos < 1_000_000_000,
                ;
                secs * 1_000_000 + (nanos / 1000) as u64
            } else {
                0
            }
        },
        None => 0,
    }
}

/// The stamp for turns written now: zero when the clock cannot be read.
pub fn current_stamp() -> (r: u64) {
    stamp_of_time(time_since_epoch())
}

} // verus!
