//! Time estimates: how long a text takes at a rate, and how a duration is
//! shown.

use crate::text::{decimal, push_decimal};
use std::time::Duration;
use vstd::prelude::*;
use vstd::string::StringExecFns;

verus! {

/// The whole seconds of a duration: what `Duration::as_secs` returns.
pub uninterp spec fn whole_seconds(duration: Duration) -> u64;

/// `Duration::from_secs`, the duration of so many whole seconds.
pub assume_specification[ Duration::from_secs ](secs: u64) -> (duration: Duration)
    ensures
        whole_seconds(duration) == secs,
;

/// `Duration::as_secs`, the whole seconds of a duration.
pub assume_specification[ Duration::as_secs ](duration: &Duration) -> (secs: u64)
    ensures
        secs == whole_seconds(*duration),
;

/// The seconds that `words` words take at `rate` words per minute, a
/// started second not counted. At the rate 0 nothing can be estimated, and
/// the estimate is 0.
pub open spec fn estimated_seconds(words: nat, rate: nat) -> nat {
    if rate == 0 {
        0
    } else {
        words * 60 / rate
    }
}

/// The estimate as far as 64 bits hold it.
pub open spec fn capped_seconds(words: nat, rate: nat) -> nat {
    if estimated_seconds(words, rate) > u64::MAX {
        u64::MAX as nat
    } else {
        estimated_seconds(words, rate)
    }
}

/// The seconds that `word_count` words take at `rate` words per minute, a
/// started second dropped; 0 at the rate 0. What 64 bits cannot hold
/// counts as the largest number they can.
pub fn duration_seconds(word_count: usize, rate: usize) -> (secs: u64)
    ensures
        secs == capped_seconds(word_count as nat, rate as nat),
{
    if rate == 0 {
        return 0;
    }
    let scaled: u128 = (word_count as u128) * 60;
    let secs: u128 = scaled / (rate as u128);
    if secs > u64::MAX as u128 {
        u64::MAX
    } else {
        secs as u64
    }
}

/// The time that `word_count` words take at `words_per_minute`, in whole
/// seconds.
pub fn calculate_duration(word_count: usize, words_per_minute: u32) -> (duration: Duration)
    ensures
        whole_seconds(duration) == capped_seconds(word_count as nat, words_per_minute as nat),
{
    Duration::from_secs(duration_seconds(word_count, words_per_minute as usize))
}

/// A unit of time as a duration is shown in.
#[derive(Clone, Copy, Debug, PartialEq, Eq, Structural)]
pub enum Unit {
    Hour,
    Minute,
    Second,
}

/// A number of seconds split into the units it is shown in.
#[derive(Clone, Copy, Debug, PartialEq, Eq, Structural)]
pub enum Breakdown {
    /// Less than a minute.
    Seconds { seconds: u64 },
    /// A minute or more, up to sixty minutes.
    Minutes { minutes: u64, seconds: u64 },
    /// More than sixty minutes.
    Hours { hours: u64, minutes: u64, seconds: u64 },
}

/// The units that `total` seconds are shown in: hours only above sixty
/// minutes, minutes only from one minute on.
pub open spec fn breakdown_of(total: u64) -> Breakdown {
    let minutes = total / 60;
    let seconds = total % 60;
    if minutes > 60 {
        Breakdown::Hours {
            hours: (minutes / 60) as u64,
            minutes: (minutes % 60) as u64,
            seconds: seconds as u64,
        }
    } else if minutes > 0 {
        Breakdown::Minutes { minutes: minutes as u64, seconds: seconds as u64 }
    } else {
        Breakdown::Seconds { seconds: seconds as u64 }
    }
}

/// The label of `value` units: the singular for 1, the plural for every
/// other number, 0 included.
pub open spec fn label_of(unit: Unit, value: u64) -> Seq<char> {
    match unit {
        Unit::Hour => if value == 1 {
            "hr"@
        } else {
            "hrs"@
        },
        Unit::Minute => if value == 1 {
            "min"@
        } else {
            "mins"@
        },
        Unit::Second => if value == 1 {
            "sec"@
        } else {
            "secs"@
        },
    }
}

/// A value with the label of its unit: the digits, a space, the label.
pub open spec fn part_text(unit: Unit, value: u64) -> Seq<char> {
    decimal(value as nat) + seq![' '] + label_of(unit, value)
}

/// A breakdown as text: its parts from the largest unit down, a space
/// between them.
pub open spec fn breakdown_text(parts: Breakdown) -> Seq<char> {
    match parts {
        Breakdown::Seconds { seconds } => part_text(Unit::Second, seconds),
        Breakdown::Minutes { minutes, seconds } => part_text(Unit::Minute, minutes) + seq![' ']
            + part_text(Unit::Second, seconds),
        Breakdown::Hours { hours, minutes, seconds } => part_text(Unit::Hour, hours) + seq![' ']
            + part_text(Unit::Minute, minutes) + seq![' '] + part_text(Unit::Second, seconds),
    }
}

/// The units that `total` seconds are shown in.
pub fn breakdown(total: u64) -> (parts: Breakdown)
    ensures
        parts == breakdown_of(total),
{
    let minutes = total / 60;
    let seconds = total % 60;
    if minutes > 60 {
        Breakdown::Hours { hours: minutes / 60, minutes: minutes % 60, seconds }
    } else if minutes > 0 {
        Breakdown::Minutes { minutes, seconds }
    } else {
        Breakdown::Seconds { seconds }
    }
}

/// The label of `value` units.
pub fn unit_label(unit: Unit, value: u64) -> (label: &'static str)
    ensures
        label@ == label_of(unit, value),
{
    match unit {
        Unit::Hour => if value == 1 {
            "hr"
        } else {
            "hrs"
        },
        Unit::Minute => if value == 1 {
            "min"
        } else {
            "mins"
        },
        Unit::Second => if value == 1 {
            "sec"
        } else {
            "secs"
        },
    }
}

fn push_part(text: &mut String, unit: Unit, value: u64)
    ensures
        final(text)@ == old(text)@ + part_text(unit, value),
{
    push_decimal(text, value);
    text.push(' ');
    text.append(unit_label(unit, value));
}

/// `total` seconds as text, such as `2 mins 5 secs`.
pub fn format_seconds(total: u64) -> (text: String)
    ensures
        text@ == breakdown_text(breakdown_of(total)),
{
    let mut text = String::new();
    match breakdown(total) {
        Breakdown::Seconds { seconds } => {
            push_part(&mut text, Unit::Second, seconds);
        },
        Breakdown::Minutes { minutes, seconds } => {
            push_part(&mut text, Unit::Minute, minutes);
            text.push(' ');
            push_part(&mut text, Unit::Second, seconds);
        },
        Breakdown::Hours { hours, minutes, seconds } => {
            push_part(&mut text, Unit::Hour, hours);
            text.push(' ');
            push_part(&mut text, Unit::Minute, minutes);
            text.push(' ');
            push_part(&mut text, Unit::Second, seconds);
        },
    }
    text
}

/// A duration as text, by its whole seconds.
pub fn format_duration(duration: Duration) -> (text: String)
    ensures
        text@ == breakdown_text(breakdown_of(whole_seconds(duration))),
{
    format_seconds(duration.as_secs())
}

} // verus!
