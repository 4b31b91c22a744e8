//! The system clock, behind a single trusted call: overdue status and
//! creation dates are judged against the day it reports, read anew at
//! every use, never cached.

use vstd::prelude::*;
use crate::date::Date;

verus! {

/// Relies on `chrono::Local::now` and the `Datelike` year/month/day
/// accessors: the current local calendar day as plain numbers. Nothing is
/// promised of the clock's reading.
#[verifier::external_body]
fn now_ymd() -> (r: (i32, u32, u32)) {
    let d = chrono::Local::now().date_naive();
    (chrono::Datelike::year(&d), chrono::Datelike::month(&d), chrono::Datelike::day(&d))
}

/// The date for a clock reading: the reading itself when it is a
/// representable calendar day, else a fixed valid fallback.
pub fn date_from_clock(y: i32, m: u32, d: u32) -> (r: Date)
    ensures
        r.valid(),
        (0 <= y <= 9999 && (Date { year: y as u32, month: m, day: d }).valid()) ==> r == (Date {
            year: y as u32,
            month: m,
            day: d,
        }),
{
    if 0 <= y && y <= 9999 {
        let c = Date { year: y as u32, month: m, day: d };
        if c.is_valid() {
            return c;
        }
    }
    Date { year: 2000, month: 1, day: 1 }
}

/// Today according to the system clock, always a valid date.
pub fn today() -> (r: Date)
    ensures
        r.valid(),
{
    let (y, m, d) = now_ymd();
    date_from_clock(y, m, d)
}

} // verus!
