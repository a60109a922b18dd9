//! Human-readable rendering of durations: only the two most significant
//! units are shown ("2d 4h", "5h 5m", "20m 1s", "0s").

use vstd::prelude::*;
use crate::text::{append_u64, dec_digits, u64_to_string};

verus! {

pub const SECS_IN_MIN: u64 = 60;

pub const SECS_IN_HOUR: u64 = 3600;

pub const SECS_IN_DAY: u64 = 86400;

/// The exact character sequence `format_significant_duration` renders.
pub open spec fn spec_significant_duration(total_secs: nat) -> Seq<char> {
    let days = total_secs / 86400;
    let hours = (total_secs % 86400) / 3600;
    let mins = (total_secs % 3600) / 60;
    let secs = total_secs % 60;
    if days > 0 {
        dec_digits(days) + seq!['d', ' '] + dec_digits(hours) + seq!['h']
    } else if hours > 0 {
        dec_digits(hours) + seq!['h', ' '] + dec_digits(mins) + seq!['m']
    } else if mins > 0 {
        dec_digits(mins) + seq!['m', ' '] + dec_digits(secs) + seq!['s']
    } else {
        dec_digits(secs) + seq!['s']
    }
}

/// Renders a duration in whole seconds down to its two most significant
/// units, dropping everything smaller.
pub fn format_significant_duration(total_secs: u64) -> (r: String)
    ensures
        r@ == spec_significant_duration(total_secs as nat),
{
    proof {
        reveal_strlit("d ");
        reveal_strlit("h ");
        reveal_strlit("m ");
        reveal_strlit("h");
        reveal_strlit("m");
        reveal_strlit("s");
    }
    let days = total_secs / SECS_IN_DAY;
    let hours = (total_secs % SECS_IN_DAY) / SECS_IN_HOUR;
    let mins = (total_secs % SECS_IN_HOUR) / SECS_IN_MIN;
    let secs = total_secs % SECS_IN_MIN;

    if days > 0 {
        let mut s = u64_to_string(days);
        s.append("d ");
        append_u64(&mut s, hours);
        s.append("h");
        proof {
            assert("d "@ =~= seq!['d', ' ']);
            assert("h"@ =~= seq!['h']);
            assert(s@ =~= spec_significant_duration(total_secs as nat));
        }
        s
    } else if hours > 0 {
        let mut s = u64_to_string(hours);
        s.append("h ");
        append_u64(&mut s, mins);
        s.append("m");
        proof {
            assert("h "@ =~= seq!['h', ' ']);
            assert("m"@ =~= seq!['m']);
            assert(s@ =~= spec_significant_duration(total_secs as nat));
        }
        s
    } else if mins > 0 {
        let mut s = u64_to_string(mins);
        s.append("m ");
        append_u64(&mut s, secs);
        s.append("s");
        proof {
            assert("m "@ =~= seq!['m', ' ']);
            assert("s"@ =~= seq!['s']);
            assert(s@ =~= spec_significant_duration(total_secs as nat));
        }
        s
    } else {
        let mut s = u64_to_string(secs);
        s.append("s");
        proof {
            assert("s"@ =~= seq!['s']);
            assert(s@ =~= spec_significant_duration(total_secs as nat));
        }
        s
    }
}

} // verus!
