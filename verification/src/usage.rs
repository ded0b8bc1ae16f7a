//! Requests for a user's usage events, and the small types that go with
//! usage checks and key building.
use crate::config::Type;
use vstd::prelude::*;

verus! {

/// A number that travels as a string.
#[derive(Debug, Clone, Copy, PartialEq, Eq, Structural, Hash)]
pub struct Stringify<T>(pub T);

/// The kind of a usage event.
#[derive(Debug, Clone, Copy, PartialEq, Eq, Structural)]
pub enum UsageEventKind {
    Unspecified,
    UsageBased,
    UserApiKey,
    IncludedInPro,
    IncludedInBusiness,
    ErroredNotCharged,
    AbortedNotCharged,
    CustomSubscription,
    IncludedInProPlus,
    IncludedInUltra,
}

impl Default for UsageEventKind {
    fn default() -> (r: UsageEventKind)
        ensures
            r == UsageEventKind::Unspecified,
    {
        UsageEventKind::Unspecified
    }
}

/// A request for one page of a user's usage events.
#[derive(Debug, Clone)]
pub struct GetFilteredUsageEventsRequest {
    pub team_id: i32,
    pub start_date: Option<i64>,
    pub end_date: Option<i64>,
    pub user_id: Option<i32>,
    pub model_id: Option<&'static str>,
    pub page: i32,
    pub page_size: i32,
}

/// What to ask usage events for: a window in milliseconds since the epoch
/// (either end may be left to the default), a model and a page size.
#[derive(Debug, Clone)]
pub struct FilteredUsageArgs {
    pub start: Option<i64>,
    pub end: Option<i64>,
    pub model_id: Option<&'static str>,
    pub size: Option<i32>,
}

pub const DAY_MS: i64 = 86_400_000;

/// The offset of the billing day's time zone: 16 hours west of UTC.
pub const ZONE_MS: i64 = 16 * 3_600_000;

/// The default window for the time `now_ms`: from the start of the day
/// seven days before today to the last millisecond of today, days being
/// taken in the zone 16 hours west of UTC.
pub open spec fn spec_default_window(now_ms: int) -> (int, int) {
    let day: int = DAY_MS as int;
    let zone: int = ZONE_MS as int;
    let midnight = ((now_ms - zone) / day) * day + zone;
    (midnight - 7 * day, midnight + day - 1)
}

/// The default window for the time `now_ms`.
pub fn default_window(now_ms: i64) -> (r: (i64, i64))
    requires
        -1_000_000_000_000_000 <= now_ms <= 1_000_000_000_000_000,
    ensures
        r.0 == spec_default_window(now_ms as int).0,
        r.1 == spec_default_window(now_ms as int).1,
{
    let local = now_ms - ZONE_MS;
    let day: i64 = if local >= 0 {
        let q = local / DAY_MS;
        assert(q == (local as int) / (DAY_MS as int));
        q
    } else {
        // Days before the zone's epoch count down from -1.
        let back = (-1 - local) / DAY_MS;
        assert(-1 - back == (local as int) / (DAY_MS as int)) by (nonlinear_arith)
            requires
                local < 0,
                back == (-1 - local as int) / (DAY_MS as int),
        ;
        -1 - back
    };
    assert(day * DAY_MS <= local && local - day * DAY_MS < DAY_MS) by (nonlinear_arith)
        requires
            day == (local as int) / (DAY_MS as int),
    ;
    let midnight = day * DAY_MS + ZONE_MS;
    (midnight - 7 * DAY_MS, midnight + DAY_MS - 1)
}

impl FilteredUsageArgs {
    /// The request for page 1: the window's missing ends taken from the
    /// default window at `now_ms`, and 100 events per page unless a size is given.
    pub fn into_request(self, now_ms: i64) -> (r: GetFilteredUsageEventsRequest)
        requires
            (self.start is None || self.end is None) ==> -1_000_000_000_000_000 <= now_ms
                <= 1_000_000_000_000_000,
        ensures
            r.team_id == 0,
            r.user_id is None,
            r.model_id == self.model_id,
            r.page == 1,
            r.page_size == (match self.size {
                Some(n) => n,
                None => 100,
            }),
            r.start_date == Some(
                match self.start {
                    Some(a) => a as int,
                    None => spec_default_window(now_ms as int).0,
                } as i64,
            ),
            r.end_date == Some(
                match self.end {
                    Some(b) => b as int,
                    None => spec_default_window(now_ms as int).1,
                } as i64,
            ),
    {
        let start = match self.start {
            Some(a) => a,
            None => default_window(now_ms).0,
        };
        let end = match self.end {
            Some(b) => b,
            None => default_window(now_ms).1,
        };
        GetFilteredUsageEventsRequest {
            team_id: 0,
            start_date: Some(start),
            end_date: Some(end),
            user_id: None,
            model_id: self.model_id,
            page: 1,
            page_size: match self.size {
                Some(n) => n,
                None => 100,
            },
        }
    }
}

/// A usage check rule as a key-building request gives it.
#[derive(Debug, Clone)]
pub struct UsageCheckModelConfig {
    pub model_type: Type,
    pub model_ids: Vec<&'static str>,
}

/// The answer to a key-building request: the three keys, or why none was built.
#[derive(Debug, Clone)]
pub enum BuildKeyResponse {
    Keys([String; 3]),
    Error(&'static str),
}

} // verus!
