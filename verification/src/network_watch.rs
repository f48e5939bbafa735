//! Following the default gateway: a change of network is noticed by polling
//! and the routes are reapplied, at most once per thirty seconds.
use vstd::prelude::*;
use crate::text::opt_view;

verus! {

/// The shortest time between two reapplications, in milliseconds.
pub const REAPPLY_INTERVAL_MS: u64 = 30000;

/// What the poll loop remembers.
pub struct GatewayWatch {
    last_gateway: Option<String>,
    last_reapply_ms: Option<u64>,
}

/// What is done about a network change.
#[derive(Clone, Debug)]
pub enum ReapplyPlan {
    /// The bypass is off: nothing.
    Skip,
    /// Move the routes from the previous gateway to the new one.
    ChangeFrom(String),
    /// No previous gateway was known: disable and enable again.
    Restart,
}


fn opt_eq(a: &Option<String>, b: &Option<String>) -> (r: bool)
    ensures
        r == (opt_view(*a) == opt_view(*b)),
{
    match (a, b) {
        (None, None) => true,
        (Some(x), Some(y)) => {
            let xs = crate::text::chars_of_string(x);
            let ys = crate::text::chars_of_string(y);
            crate::text::chars_eq(&xs, &ys)
        },
        _ => false,
    }
}

impl View for GatewayWatch {
    /// The gateway seen last, and when routes were last reapplied.
    type V = (Option<Seq<char>>, Option<u64>);

    closed spec fn view(&self) -> (Option<Seq<char>>, Option<u64>) {
        (opt_view(self.last_gateway), self.last_reapply_ms)
    }
}

impl GatewayWatch {
    /// Starts from the gateway detected at start; nothing reapplied yet.
    pub fn new(initial: Option<String>) -> (r: GatewayWatch)
        ensures
            r@ == (opt_view(initial), None::<u64>),
    {
        GatewayWatch { last_gateway: initial, last_reapply_ms: None }
    }

    /// A poll saw `current`.  When it differs from the gateway seen last, it
    /// becomes the one seen last and the previous one is given back.
    pub fn observe(&mut self, current: Option<String>) -> (r: Option<Option<String>>)
        ensures
            old(self)@.0 == opt_view(current) ==> r is None && final(self)@ == old(self)@,
            old(self)@.0 != opt_view(current) ==> (r matches Some(prev) && opt_view(prev) == old(
                self,
            )@.0) && final(self)@ == (opt_view(current), old(self)@.1),
    {
        if opt_eq(&self.last_gateway, &current) {
            return None;
        }
        let mut prev = current;
        std::mem::swap(&mut prev, &mut self.last_gateway);
        Some(prev)
    }

    /// Whether to reapply now, `now_ms` on a clock that does not go back:
    /// at most once per thirty seconds.
    pub fn should_reapply(&mut self, now_ms: u64) -> (r: bool)
        ensures
            r == match old(self)@.1 {
                None => true,
                Some(last) => now_ms >= last + REAPPLY_INTERVAL_MS,
            },
            r ==> final(self)@ == (old(self)@.0, Some(now_ms)),
            !r ==> final(self)@ == old(self)@,
    {
        let due = match self.last_reapply_ms {
            None => true,
            Some(last) => now_ms >= last && now_ms - last >= REAPPLY_INTERVAL_MS,
        };
        if due {
            self.last_reapply_ms = Some(now_ms);
        }
        due
    }
}

/// What to do about a network change: nothing when the bypass is off, else
/// move the routes from the previous gateway, or restart the bypass when no
/// previous gateway was known.
pub fn reapply_plan(bypass_enabled: bool, previous: Option<String>) -> (r: ReapplyPlan)
    ensures
        !bypass_enabled ==> r is Skip,
        bypass_enabled ==> match previous {
            Some(g) => r matches ReapplyPlan::ChangeFrom(x) && x@ == g@,
            None => r is Restart,
        },
{
    if !bypass_enabled {
        return ReapplyPlan::Skip;
    }
    match previous {
        Some(g) => ReapplyPlan::ChangeFrom(g),
        None => ReapplyPlan::Restart,
    }
}

} // verus!
