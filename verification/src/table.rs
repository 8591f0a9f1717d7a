//! The text of the cells of the client's process table and of the
//! monitor's details pane (uptimes, pids, statuses).
use vstd::prelude::*;
use crate::status::ProcessStatus;
use crate::text::{append_chars, chars_of, dec, i64_to_chars, dec_int, push_dec, string_of};

verus! {

pub const MINUTE: u64 = 60;
pub const HOUR: u64 = 3600;
pub const DAY: u64 = 86400;
pub const MONTH: u64 = 2592000;
pub const YEAR: u64 = 31536000;

/// `<n> <unit>`, with an `s` unless `n` is 1.
pub open spec fn counted(n: nat, unit: Seq<char>) -> Seq<char> {
    dec(n) + " "@ + unit + if n != 1 {
        "s"@
    } else {
        seq![]
    }
}

/// The table's uptime: the largest of years (365 days), months (30 days)
/// and days that is not zero, counted; else `<h>h <m>m`, `<m>m <s>s` or
/// `<s>s`.
pub open spec fn table_uptime_spec(secs: nat) -> Seq<char> {
    let years = secs / (YEAR as nat);
    let r1 = secs % (YEAR as nat);
    let months = r1 / (MONTH as nat);
    let r2 = r1 % (MONTH as nat);
    let days = r2 / (DAY as nat);
    let r3 = r2 % (DAY as nat);
    let hours = r3 / (HOUR as nat);
    let r4 = r3 % (HOUR as nat);
    let minutes = r4 / (MINUTE as nat);
    let seconds = r4 % (MINUTE as nat);
    if years > 0 {
        counted(years, "year"@)
    } else if months > 0 {
        counted(months, "month"@)
    } else if days > 0 {
        counted(days, "day"@)
    } else if hours > 0 {
        dec(hours) + "h "@ + dec(minutes) + "m"@
    } else if minutes > 0 {
        dec(minutes) + "m "@ + dec(seconds) + "s"@
    } else {
        dec(seconds) + "s"@
    }
}

fn push_str(out: &mut Vec<char>, s: &str)
    ensures
        final(out)@ == old(out)@ + s@,
{
    append_chars(out, &chars_of(s));
}

fn counted_exec(n: u64, unit: &str) -> (r: Vec<char>)
    ensures
        r@ == counted(n as nat, unit@),
{
    let mut out: Vec<char> = Vec::new();
    push_dec(&mut out, n);
    push_str(&mut out, " ");
    push_str(&mut out, unit);
    let ghost o = out@;
    if n != 1 {
        push_str(&mut out, "s");
    } else {
        assert(out@ =~= o + Seq::<char>::empty());
    }
    assert(out@ =~= counted(n as nat, unit@));
    out
}

/// The uptime cell of the process table; `-` when unknown.
pub fn fmt_uptime(sec: Option<u64>) -> (r: String)
    ensures
        r@ == match sec {
            Some(s) => table_uptime_spec(s as nat),
            None => "-"@,
        },
{
    let s = match sec {
        Some(v) => v,
        None => return string_of(&chars_of("-")),
    };
    let years = s / YEAR;
    let r1 = s % YEAR;
    let months = r1 / MONTH;
    let r2 = r1 % MONTH;
    let days = r2 / DAY;
    let r3 = r2 % DAY;
    let hours = r3 / HOUR;
    let r4 = r3 % HOUR;
    let minutes = r4 / MINUTE;
    let seconds = r4 % MINUTE;
    let mut out: Vec<char> = Vec::new();
    if years > 0 {
        out = counted_exec(years, "year");
    } else if months > 0 {
        out = counted_exec(months, "month");
    } else if days > 0 {
        out = counted_exec(days, "day");
    } else if hours > 0 {
        push_dec(&mut out, hours);
        push_str(&mut out, "h ");
        push_dec(&mut out, minutes);
        push_str(&mut out, "m");
    } else if minutes > 0 {
        push_dec(&mut out, minutes);
        push_str(&mut out, "m ");
        push_dec(&mut out, seconds);
        push_str(&mut out, "s");
    } else {
        push_dec(&mut out, seconds);
        push_str(&mut out, "s");
    }
    assert(out@ =~= table_uptime_spec(s as nat));
    string_of(&out)
}

/// A pid cell: the pid, or `-`.
pub fn fmt_pid(pid: Option<u32>) -> (r: String)
    ensures
        r@ == match pid {
            Some(p) => dec(p as nat),
            None => "-"@,
        },
{
    match pid {
        Some(p) => {
            let mut out: Vec<char> = Vec::new();
            push_dec(&mut out, p as u64);
            assert(out@ =~= dec(p as nat));
            string_of(&out)
        },
        None => string_of(&chars_of("-")),
    }
}

/// The status cell of the process table: `RUNNING`, `STOPPED`, or
/// `EXITED`, with the exit code in brackets when it is known.
pub fn status_cell(status: &ProcessStatus, exit_code: Option<i32>) -> (r: String)
    ensures
        r@ == match status {
            ProcessStatus::Running => "RUNNING"@,
            ProcessStatus::Stopped => "STOPPED"@,
            ProcessStatus::Exited => match exit_code {
                Some(c) => "EXITED ("@ + dec_int(c as int) + ")"@,
                None => "EXITED"@,
            },
        },
{
    match status {
        ProcessStatus::Running => string_of(&chars_of("RUNNING")),
        ProcessStatus::Stopped => string_of(&chars_of("STOPPED")),
        ProcessStatus::Exited => match exit_code {
            Some(c) => {
                let mut out = chars_of("EXITED (");
                append_chars(&mut out, &i64_to_chars(c as i64));
                push_str(&mut out, ")");
                string_of(&out)
            },
            None => string_of(&chars_of("EXITED")),
        },
    }
}

/// A cell for an optional text: the text, or `-`.
pub fn text_or_dash(v: &Option<String>) -> (r: String)
    ensures
        r@ == match v {
            Some(s) => s@,
            None => "-"@,
        },
{
    match v {
        Some(s) => string_of(&chars_of(s.as_str())),
        None => string_of(&chars_of("-")),
    }
}

/// The monitor's uptime: `<d>d <h>h`, `<h>h <m>m`, `<m>m <s>s` or `<s>s`,
/// by the largest unit that is not zero.
pub open spec fn monitor_uptime_spec(secs: nat) -> Seq<char> {
    let days = secs / (DAY as nat);
    let r1 = secs % (DAY as nat);
    let hours = r1 / (HOUR as nat);
    let r2 = r1 % (HOUR as nat);
    let minutes = r2 / (MINUTE as nat);
    let seconds = r2 % (MINUTE as nat);
    if days > 0 {
        dec(days) + "d "@ + dec(hours) + "h"@
    } else if hours > 0 {
        dec(hours) + "h "@ + dec(minutes) + "m"@
    } else if minutes > 0 {
        dec(minutes) + "m "@ + dec(seconds) + "s"@
    } else {
        dec(seconds) + "s"@
    }
}

/// The uptime line of the monitor's details pane; `-` when unknown.
pub fn monitor_uptime(sec: Option<u64>) -> (r: String)
    ensures
        r@ == match sec {
            Some(s) => monitor_uptime_spec(s as nat),
            None => "-"@,
        },
{
    let s = match sec {
        Some(v) => v,
        None => return string_of(&chars_of("-")),
    };
    let days = s / DAY;
    let r1 = s % DAY;
    let hours = r1 / HOUR;
    let r2 = r1 % HOUR;
    let minutes = r2 / MINUTE;
    let seconds = r2 % MINUTE;
    let mut out: Vec<char> = Vec::new();
    if days > 0 {
        push_dec(&mut out, days);
        push_str(&mut out, "d ");
        push_dec(&mut out, hours);
        push_str(&mut out, "h");
    } else if hours > 0 {
        push_dec(&mut out, hours);
        push_str(&mut out, "h ");
        push_dec(&mut out, minutes);
        push_str(&mut out, "m");
    } else if minutes > 0 {
        push_dec(&mut out, minutes);
        push_str(&mut out, "m ");
        push_dec(&mut out, seconds);
        push_str(&mut out, "s");
    } else {
        push_dec(&mut out, seconds);
        push_str(&mut out, "s");
    }
    assert(out@ =~= monitor_uptime_spec(s as nat));
    string_of(&out)
}

/// The monitor's label for a status.
pub fn status_label(s: &ProcessStatus) -> (r: &'static str)
    ensures
        r@ == match s {
            ProcessStatus::Running => "RUNNING"@,
            ProcessStatus::Stopped => "STOPPED"@,
            ProcessStatus::Exited => "EXITED"@,
        },
{
    match s {
        ProcessStatus::Running => "RUNNING",
        ProcessStatus::Stopped => "STOPPED",
        ProcessStatus::Exited => "EXITED",
    }
}

/// The exit-code line of the monitor's details pane: the code, or `-`.
pub fn exit_cell(code: Option<i32>) -> (r: String)
    ensures
        r@ == match code {
            Some(c) => dec_int(c as int),
            None => "-"@,
        },
{
    match code {
        Some(c) => string_of(&i64_to_chars(c as i64)),
        None => string_of(&chars_of("-")),
    }
}


/// The table's uptime cell, by the size of the uptime: under a minute,
/// `<s>s`; under an hour, `<m>m <s>s`; under a day, `<h>h <m>m` (the
/// seconds dropped); under 30 days, the whole days, counted; under 365
/// days, the whole months of 30 days, counted; else the whole years of 365
/// days, counted. A count reads `<n> <unit>`, with an `s` unless it is 1.
pub proof fn lemma_table_uptime_cell(secs: nat)
    ensures
        secs < 60 ==> table_uptime_spec(secs) == dec(secs) + "s"@,
        60 <= secs < 3600 ==> table_uptime_spec(secs) == dec(secs / 60) + "m "@ + dec(secs % 60)
            + "s"@,
        3600 <= secs < 86400 ==> table_uptime_spec(secs) == dec(secs / 3600) + "h "@ + dec(
            (secs % 3600) / 60,
        ) + "m"@,
        86400 <= secs < 2592000 ==> table_uptime_spec(secs) == dec(secs / 86400) + " day"@ + (
        if secs / 86400 == 1 {
            seq![]
        } else {
            "s"@
        }),
        2592000 <= secs < 31536000 ==> table_uptime_spec(secs) == dec(secs / 2592000) + " month"@
            + (if secs / 2592000 == 1 {
            seq![]
        } else {
            "s"@
        }),
        31536000 <= secs ==> table_uptime_spec(secs) == dec(secs / 31536000) + " year"@ + (
        if secs / 31536000 == 1 {
            seq![]
        } else {
            "s"@
        }),
{
    reveal_strlit("day");
    reveal_strlit(" day");
    reveal_strlit("month");
    reveal_strlit(" month");
    reveal_strlit("year");
    reveal_strlit(" year");
    reveal_strlit(" ");
    assert(" day"@ =~= " "@ + "day"@);
    assert(" month"@ =~= " "@ + "month"@);
    assert(" year"@ =~= " "@ + "year"@);
    if secs < 31536000 {
        assert(secs / 31536000 == 0);
        assert(secs % 31536000 == secs);
        if secs < 2592000 {
            assert(secs / 2592000 == 0);
            assert(secs % 2592000 == secs);
            if secs < 86400 {
                assert(secs / 86400 == 0);
                assert(secs % 86400 == secs);
            }
        }
    } else {
        assert(secs / 31536000 > 0);
    }
}

/// The monitor's uptime line, by the size of the uptime: under a minute,
/// `<s>s`; under an hour, `<m>m <s>s`; under a day, `<h>h <m>m`; else
/// `<d>d <h>h`, the hours being those of the last, unfinished day.
pub proof fn lemma_monitor_uptime_line(secs: nat)
    ensures
        secs < 60 ==> monitor_uptime_spec(secs) == dec(secs) + "s"@,
        60 <= secs < 3600 ==> monitor_uptime_spec(secs) == dec(secs / 60) + "m "@ + dec(secs % 60)
            + "s"@,
        3600 <= secs < 86400 ==> monitor_uptime_spec(secs) == dec(secs / 3600) + "h "@ + dec(
            (secs % 3600) / 60,
        ) + "m"@,
        86400 <= secs ==> monitor_uptime_spec(secs) == dec(secs / 86400) + "d "@ + dec(
            (secs % 86400) / 3600,
        ) + "h"@,
{
    if secs < 86400 {
        assert(secs / 86400 == 0);
        assert(secs % 86400 == secs);
    } else {
        assert(secs / 86400 > 0);
    }
}

} // verus!
