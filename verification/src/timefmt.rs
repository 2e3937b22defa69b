//! Timestamps as text.

use crate::calendar::{
    date_text, lemma_days_in_range, lemma_days_injective, push_date, utc_stamp, UtcStamp,
};
use crate::text::{push_str, push_two_digits, string_of, two_digits};
use vstd::prelude::*;

verus! {

/// A UTC reading as text: `2025-03-15 14:05:09`.
pub open spec fn stamp_text(stamp: UtcStamp) -> Seq<char> {
    date_text(stamp.date) + seq![' '] + two_digits(stamp.hour as nat) + seq![':'] + two_digits(
        stamp.minute as nat,
    ) + seq![':'] + two_digits(stamp.second as nat)
}

/// Whether `text` is the instant `ts_millis` as text: its UTC reading to
/// the second, or `invalid timestamp` for an instant that has none.
pub open spec fn is_timestamp_text(ts_millis: i64, text: Seq<char>) -> bool {
    if exists|stamp: UtcStamp| stamp.reads(ts_millis as int) {
        exists|stamp: UtcStamp| stamp.reads(ts_millis as int) && text == #[trigger] stamp_text(stamp)
    } else {
        text == "invalid timestamp"@
    }
}

/// An instant has at most one UTC reading.
pub proof fn lemma_one_reading(ts_millis: int, a: UtcStamp, b: UtcStamp)
    requires
        a.reads(ts_millis),
        b.reads(ts_millis),
    ensures
        a == b,
{
    lemma_days_injective(a.date, b.date);
}

/// The characters of a UTC reading.
pub fn push_stamp(out: &mut Vec<char>, stamp: &UtcStamp)
    requires
        stamp.date.valid(),
        stamp.hour < 100,
        stamp.minute < 100,
        stamp.second < 100,
    ensures
        final(out)@ == old(out)@ + stamp_text(*stamp),
{
    push_date(out, stamp.date);
    out.push(' ');
    push_two_digits(out, stamp.hour);
    out.push(':');
    push_two_digits(out, stamp.minute);
    out.push(':');
    push_two_digits(out, stamp.second);
    assert(out@ =~= old(out)@ + stamp_text(*stamp));
}

/// The instant `ts_millis`, in milliseconds since 1970-01-01 00:00:00 UTC,
/// as text in UTC.
pub fn format_timestamp(ts_millis: i64) -> (text: String)
    ensures
        is_timestamp_text(ts_millis, text@),
{
    match utc_stamp(ts_millis) {
        Some(stamp) => {
            let mut out: Vec<char> = Vec::new();
            push_stamp(&mut out, &stamp);
            assert(out@ =~= stamp_text(stamp));
            string_of(&out)
        },
        None => {
            proof {
                if exists|stamp: UtcStamp| stamp.reads(ts_millis as int) {
                    let stamp = choose|stamp: UtcStamp| stamp.reads(ts_millis as int);
                    lemma_days_in_range(stamp.date);
                }
            }
            let mut out: Vec<char> = Vec::new();
            push_str(&mut out, "invalid timestamp");
            assert(out@ =~= "invalid timestamp"@);
            string_of(&out)
        },
    }
}

/// An optional instant as text: `-` for none.
pub fn format_timestamp_opt(ts: Option<i64>) -> (text: String)
    ensures
        match ts {
            Some(ts_millis) => is_timestamp_text(ts_millis, text@),
            None => text@ == "-"@,
        },
{
    match ts {
        Some(ts_millis) => format_timestamp(ts_millis),
        None => {
            let mut out: Vec<char> = Vec::new();
            push_str(&mut out, "-");
            assert(out@ =~= "-"@);
            string_of(&out)
        },
    }
}

} // verus!
