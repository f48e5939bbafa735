//! When the list of networks is downloaded again.
use vstd::prelude::*;
use chrono::{DateTime, Utc};
use crate::config::{Config, UpdateSchedule};

verus! {

/// What chrono's `str::parse::<DateTime<Utc>>` makes of a text: the instant
/// as its Unix timestamp and the nanoseconds within that second (a leap
/// second has 1_000_000_000 or more), or `None` when chrono's parser (a
/// relaxed form of RFC 3339) refuses the text.
pub uninterp spec fn utc_instant_of(s: Seq<char>) -> Option<(i64, u32)>;

/// `str::parse::<chrono::DateTime<chrono::Utc>>`, the instant taken as
/// `DateTime::timestamp` and `DateTime::timestamp_subsec_nanos`.
#[verifier::external_body]
fn parse_utc(s: &str) -> (r: Option<(i64, u32)>)
    ensures
        r == utc_instant_of(s@),
{
    match s.parse::<DateTime<Utc>>() {
        Ok(dt) => Some((dt.timestamp(), dt.timestamp_subsec_nanos())),
        Err(_) => None,
    }
}

/// The system clock against the Unix epoch:
/// `SystemTime::now().duration_since(UNIX_EPOCH)`, as whether the clock is
/// before the epoch and the distance from it in whole seconds and
/// nanoseconds.  The clock decides the value; `Duration::subsec_nanos` is
/// always below one billion.
#[verifier::external_body]
fn system_clock() -> (r: (bool, u64, u32))
    ensures
        r.2 < 1_000_000_000,
{
    match std::time::SystemTime::now().duration_since(std::time::UNIX_EPOCH) {
        Ok(d) => (false, d.as_secs(), d.subsec_nanos()),
        Err(e) => (true, e.duration().as_secs(), e.duration().subsec_nanos()),
    }
}

/// A clock reading (before the epoch, seconds, nanoseconds) as an instant:
/// seconds since the epoch (negative before it) and nanoseconds within that
/// second, as chrono's timestamps count.
pub open spec fn clock_instant(c: (bool, u64, u32)) -> (int, int) {
    if !c.0 {
        (c.1 as int, c.2 as int)
    } else if c.2 == 0 {
        (-(c.1 as int), 0)
    } else {
        (-(c.1 as int) - 1, 1_000_000_000 - c.2)
    }
}

/// The last second chrono can represent: 262142-12-31T23:59:59Z.
pub open spec fn latest_timestamp() -> int {
    8210266876799
}

/// The interval between updates, in seconds.
pub open spec fn threshold_secs(s: UpdateSchedule) -> int {
    match s {
        UpdateSchedule::Never => 0,
        UpdateSchedule::Daily => 86400,
        UpdateSchedule::Weekly => 604800int,
        UpdateSchedule::Monthly => 2592000int,
    }
}

/// The instant `secs` seconds after `at`, as chrono adds whole seconds: an
/// instant within a leap second first leaves the leap second.
pub open spec fn deadline(at: (i64, u32), secs: int) -> (int, int) {
    (at.0 + secs, if at.1 >= 1_000_000_000 {
        at.1 - 1_000_000_000
    } else {
        at.1 as int
    })
}

/// `a` is after `b`.
pub open spec fn later(a: (int, int), b: (int, int)) -> bool {
    a.0 > b.0 || (a.0 == b.0 && a.1 > b.1)
}

/// The next update's instant can be represented.
pub open spec fn deadline_in_range(at: (i64, u32), s: UpdateSchedule) -> bool {
    at.0 + threshold_secs(s) <= latest_timestamp()
}

/// Never with the `Never` schedule; always when there was no readable last
/// update; otherwise when `now` is after the last update plus the interval.
pub open spec fn update_due_spec(s: UpdateSchedule, last: Option<(i64, u32)>, now: (int, int)) -> bool {
    match s {
        UpdateSchedule::Never => false,
        _ => match last {
            None => true,
            Some(t) => later(now, deadline(t, threshold_secs(s))),
        },
    }
}

/// The last update as far as it can be read: `None` when there was none or
/// its time does not parse.
pub open spec fn last_instant(cfg: Config) -> Option<(i64, u32)> {
    match cfg.last_updated {
        None => None,
        Some(s) => utc_instant_of(s@),
    }
}

/// What [`should_update`] needs: where the schedule is not `Never` and the
/// last update was read, the next update's instant can be represented.
pub open spec fn schedule_computable(cfg: Config) -> bool {
    cfg.update_schedule != UpdateSchedule::Never ==> match last_instant(cfg) {
        None => true,
        Some(t) => deadline_in_range(t, cfg.update_schedule),
    }
}

/// Once an update is due it stays due as time goes on, until the last
/// update changes.
pub proof fn lemma_due_stays_due(s: UpdateSchedule, last: Option<(i64, u32)>, now: (int, int), later_now: (int, int))
    requires
        update_due_spec(s, last, now),
        later_now.0 > now.0 || (later_now.0 == now.0 && later_now.1 >= now.1),
    ensures
        update_due_spec(s, last, later_now),
{
}

/// With the `Never` schedule no update is ever due.
pub proof fn lemma_never_is_never_due(last: Option<(i64, u32)>, now: (int, int))
    ensures
        !update_due_spec(UpdateSchedule::Never, last, now),
{
}

fn threshold(s: UpdateSchedule) -> (r: i64)
    ensures
        r == threshold_secs(s),
{
    match s {
        UpdateSchedule::Never => 0,
        UpdateSchedule::Daily => 86400,
        UpdateSchedule::Weekly => 604800,
        UpdateSchedule::Monthly => 2592000,
    }
}

/// Whether an update is due at the clock reading `now` (before the epoch,
/// seconds, nanoseconds), from the schedule and the time of the last update
/// (`None`: none, or not readable).
pub fn update_due(schedule: UpdateSchedule, last: Option<(i64, u32)>, now: (bool, u64, u32)) -> (r: bool)
    requires
        now.2 < 1_000_000_000,
        schedule != UpdateSchedule::Never ==> match last {
            None => true,
            Some(t) => deadline_in_range(t, schedule),
        },
    ensures
        r == update_due_spec(schedule, last, clock_instant(now)),
{
    match schedule {
        UpdateSchedule::Never => false,
        _ => match last {
            None => true,
            Some((secs, nanos)) => {
                let d_secs: i128 = secs as i128 + threshold(schedule) as i128;
                let d_nanos: i128 = if nanos >= 1_000_000_000 {
                    nanos as i128 - 1_000_000_000
                } else {
                    nanos as i128
                };
                let (before, n_secs_abs, n_frac) = now;
                let n_secs: i128;
                let n_nanos: i128;
                if !before {
                    n_secs = n_secs_abs as i128;
                    n_nanos = n_frac as i128;
                } else if n_frac == 0 {
                    n_secs = -(n_secs_abs as i128);
                    n_nanos = 0;
                } else {
                    n_secs = -(n_secs_abs as i128) - 1;
                    n_nanos = 1_000_000_000 - n_frac as i128;
                }
                n_secs > d_secs || (n_secs == d_secs && n_nanos > d_nanos)
            },
        },
    }
}

fn read_last(cfg: &Config) -> (r: Option<(i64, u32)>)
    ensures
        r == last_instant(*cfg),
{
    match &cfg.last_updated {
        None => None,
        Some(s) => parse_utc(s.as_str()),
    }
}

/// Whether the scheduled update is due now.  `Never` never is; a missing or
/// unreadable last update always is; otherwise it is due once the interval
/// has passed since the last update, by the system clock ([`update_due`]
/// says exactly when, for every reading of the clock).
pub fn should_update(cfg: &Config) -> (r: bool)
    requires
        schedule_computable(*cfg),
    ensures
        cfg.update_schedule == UpdateSchedule::Never ==> !r,
        cfg.update_schedule != UpdateSchedule::Never && last_instant(*cfg) is None ==> r,
        exists|c: (bool, u64, u32)|
            c.2 < 1_000_000_000 && r == update_due_spec(
                cfg.update_schedule,
                last_instant(*cfg),
                #[trigger] clock_instant(c),
            ),
{
    if cfg.update_schedule == UpdateSchedule::Never {
        let ghost c: (bool, u64, u32) = (false, 0, 0);
        assert(!update_due_spec(cfg.update_schedule, last_instant(*cfg), clock_instant(c)));
        return false;
    }
    let last = read_last(cfg);
    let now = system_clock();
    let r = update_due(cfg.update_schedule, last, now);
    assert(r == update_due_spec(cfg.update_schedule, last_instant(*cfg), clock_instant(now)));
    r
}

/// [`should_update`] where the next update's instant can be represented;
/// `None` where it cannot (a last update in the last days chrono can
/// represent).
pub fn should_update_checked(cfg: &Config) -> (r: Option<bool>)
    ensures
        r is None <==> !schedule_computable(*cfg),
        cfg.update_schedule == UpdateSchedule::Never ==> r == Some(false),
        cfg.update_schedule != UpdateSchedule::Never && last_instant(*cfg) is None ==> r == Some(
            true,
        ),
        r matches Some(b) ==> exists|c: (bool, u64, u32)|
            c.2 < 1_000_000_000 && b == update_due_spec(
                cfg.update_schedule,
                last_instant(*cfg),
                #[trigger] clock_instant(c),
            ),
{
    if cfg.update_schedule != UpdateSchedule::Never {
        match read_last(cfg) {
            Some((secs, _)) => {
                if secs > 8210266876799 - threshold(cfg.update_schedule) {
                    return None;
                }
            },
            None => {},
        }
    }
    Some(should_update(cfg))
}

} // verus!
