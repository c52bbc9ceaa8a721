//! Local wall-clock time and the run identity written from it.

use vstd::prelude::*;
use chrono::{Datelike, Timelike};
use crate::text::{padded, push_char, push_padded};

verus! {

/// A local date and time, to the second.
#[derive(Debug, Clone, Copy, PartialEq, Eq, Structural)]
pub struct LocalTime {
    pub year: i32,
    pub month: u32,
    pub day: u32,
    pub hour: u32,
    pub minute: u32,
    pub second: u32,
}

impl LocalTime {
    pub open spec fn wf(&self) -> bool {
        &&& 1 <= self.month <= 12
        &&& 1 <= self.day <= 31
        &&& self.hour <= 23
        &&& self.minute <= 59
        &&& self.second <= 59
    }
}

/// Relies on chrono::Local::now, read through chrono's Datelike and
/// Timelike accessors, which document these ranges. chrono panics where
/// the system clock is set before 1970.
#[verifier::external_body]
fn local_now() -> (t: LocalTime)
    ensures
        t.wf(),
{
    let now = chrono::Local::now();
    LocalTime {
        year: now.year(),
        month: now.month(),
        day: now.day(),
        hour: now.hour(),
        minute: now.minute(),
        second: now.second(),
    }
}

pub open spec fn abs(y: int) -> nat {
    if y < 0 {
        (-y) as nat
    } else {
        y as nat
    }
}

/// The year in at least four digits; a sign in front where it is negative
/// or above 9999.
pub open spec fn year_text(y: int) -> Seq<char> {
    let sign = if y < 0 {
        seq!['-']
    } else if y > 9999 {
        seq!['+']
    } else {
        Seq::empty()
    };
    sign + padded(abs(y), 4)
}

/// Year, month, day, hour, minute and second, without separators.
pub open spec fn run_id_text(t: LocalTime) -> Seq<char> {
    year_text(t.year as int) + padded(t.month as nat, 2) + padded(t.day as nat, 2) + padded(
        t.hour as nat,
        2,
    ) + padded(t.minute as nat, 2) + padded(t.second as nat, 2)
}

/// Writes the run identity of a moment: year, month, day, hour, minute
/// and second, without separators.
pub fn run_identity(t: &LocalTime) -> (r: String)
    ensures
        r@ == run_id_text(*t),
{
    let mut r = String::new();
    let y: i64 = t.year as i64;
    if y < 0 {
        push_char(&mut r, '-');
    } else if y > 9999 {
        push_char(&mut r, '+');
    }
    let a: u64 = if y < 0 {
        (-y) as u64
    } else {
        y as u64
    };
    push_padded(&mut r, a, 4);
    push_padded(&mut r, t.month as u64, 2);
    push_padded(&mut r, t.day as u64, 2);
    push_padded(&mut r, t.hour as u64, 2);
    push_padded(&mut r, t.minute as u64, 2);
    push_padded(&mut r, t.second as u64, 2);
    assert(r@ =~= run_id_text(*t));
    r
}

/// The run identity of the present moment, on the local clock.
pub fn current_run_identity() -> (r: String)
    ensures
        exists|t: LocalTime| t.wf() && r@ == run_id_text(t),
{
    let t = local_now();
    run_identity(&t)
}

} // verus!
