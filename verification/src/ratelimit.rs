//! Per-client request limits (abuse and cost control): at most `per_min`
//! requests in any 60-second window and at most `per_day` requests per UTC
//! day for each client address; `0` disables a limit.
use vstd::prelude::*;
use crate::strmap::StrMap;
use crate::text::owned;

verus! {

/// Length of the sliding window, in milliseconds.
pub const WINDOW_MS: u64 = 60_000;

/// Milliseconds in a day.
pub const DAY_MS: u64 = 86_400_000;

/// What the limiter remembers of one client.
struct Entry {
    /// Request times (ms) inside the current 60-second window.
    minute: Vec<u64>,
    /// The day (days since the epoch) that `day_count` counts.
    day_key: u64,
    /// Requests counted on `day_key`.
    day_count: u32,
}

/// The contents of a client's record.
pub struct EntryView {
    pub minute: Seq<u64>,
    pub day_key: u64,
    pub day_count: u32,
}

impl View for Entry {
    type V = EntryView;

    closed spec fn view(&self) -> EntryView {
        EntryView { minute: self.minute@, day_key: self.day_key, day_count: self.day_count }
    }
}

// ---------------------------------------------------------------------------
// Specification
// ---------------------------------------------------------------------------

/// The earliest request time still inside the window that ends at `now`.
pub open spec fn window_start(now: u64) -> u64 {
    if now >= WINDOW_MS {
        (now - WINDOW_MS) as u64
    } else {
        0
    }
}

/// The predicate "at or after `cutoff`".
pub open spec fn at_or_after(cutoff: u64) -> spec_fn(u64) -> bool {
    |t: u64| t >= cutoff
}

/// The record of `ip`, if the limiter has one.
pub open spec fn record_of(m: Map<Seq<char>, EntryView>, ip: Seq<char>) -> Option<EntryView> {
    if m.contains_key(ip) {
        Some(m[ip])
    } else {
        None
    }
}

/// A client's record brought up to date at time `now` on day `today`: a new
/// client starts empty, a new day resets the daily count, and requests older
/// than the window are forgotten.
pub open spec fn refreshed(old: Option<EntryView>, now: u64, today: u64) -> EntryView {
    let e = match old {
        Some(e) => e,
        None => EntryView { minute: seq![], day_key: today, day_count: 0 },
    };
    EntryView {
        minute: e.minute.filter(at_or_after(window_start(now))),
        day_key: today,
        day_count: if e.day_key != today {
            0
        } else {
            e.day_count
        },
    }
}

/// Whether an up-to-date record leaves room for one more request.
pub open spec fn admits(e: EntryView, per_min: u32, per_day: u32) -> bool {
    &&& !(per_min != 0 && (e.minute.len() as u32) >= per_min)
    &&& !(per_day != 0 && e.day_count >= per_day)
}

/// The record after a request at `now` is let through.
/// The daily count stops at `u32::MAX`, which only happens without a daily
/// limit (with one, a request is let through only below it).
pub open spec fn recorded(e: EntryView, now: u64) -> EntryView {
    EntryView {
        minute: e.minute.push(now),
        day_key: e.day_key,
        day_count: if e.day_count < u32::MAX {
            (e.day_count + 1) as u32
        } else {
            e.day_count
        },
    }
}

/// Whether the decision for a request `(ip, per_min, per_day)` at
/// `(now, today)` is `allowed` and takes the limiter from `before` to `after`.
pub open spec fn limiter_step(
    before: Map<Seq<char>, EntryView>,
    after: Map<Seq<char>, EntryView>,
    ip: Seq<char>,
    per_min: u32,
    per_day: u32,
    now: u64,
    today: u64,
    allowed: bool,
) -> bool {
    if per_min == 0 && per_day == 0 {
        allowed && after == before
    } else {
        let e = refreshed(record_of(before, ip), now, today);
        &&& allowed == admits(e, per_min, per_day)
        &&& after == before.insert(
            ip,
            if allowed {
                recorded(e, now)
            } else {
                e
            },
        )
    }
}

// ---------------------------------------------------------------------------
// Implementation
// ---------------------------------------------------------------------------

#[verifier::external_type_specification]
#[verifier::external_body]
pub struct ExSystemTime(std::time::SystemTime);

#[verifier::external_type_specification]
#[verifier::external_body]
pub struct ExSystemTimeError(std::time::SystemTimeError);

/// Reads the system clock (`SystemTime::now`); nothing is claimed of the
/// value, which depends on the moment of the call.
#[verifier::external_body]
fn clock_now() -> std::time::SystemTime {
    std::time::SystemTime::now()
}

/// The time elapsed from the Unix epoch to `t`
/// (`SystemTime::duration_since(UNIX_EPOCH)`), an error when `t` lies
/// before the epoch; nothing is claimed of the value.
#[verifier::external_body]
fn since_epoch(t: &std::time::SystemTime) -> Result<std::time::Duration, std::time::SystemTimeError> {
    t.duration_since(std::time::UNIX_EPOCH)
}

/// The whole milliseconds of a duration (`Duration::as_millis`); the
/// duration is opaque here, so nothing is claimed of the number.
#[verifier::external_body]
fn whole_millis(d: &std::time::Duration) -> u128 {
    d.as_millis()
}

/// Milliseconds since the Unix epoch by the system clock (0 if the clock is
/// before the epoch).
fn now_ms() -> u64 {
    match since_epoch(&clock_now()) {
        Ok(d) => whole_millis(&d) as u64,
        Err(_) => 0,
    }
}

/// The UTC day (days since the Unix epoch) of a time in milliseconds.
pub open spec fn day_of(ms: u64) -> u64 {
    ms / DAY_MS
}

/// The current UTC day, counted in days since the Unix epoch; the daily
/// count restarts whenever it changes. Whatever the clock reads, the result
/// is the day of that reading.
fn today_key() -> (res: u64)
    ensures
        exists|ms: u64| res == #[trigger] day_of(ms),
{
    let ms = now_ms();
    let day = ms / DAY_MS;
    assert(day == day_of(ms));
    day
}

/// The request times of `v` at or after `cutoff`, in order.
fn keep_recent(v: &Vec<u64>, cutoff: u64) -> (res: Vec<u64>)
    ensures
        res@ == v@.filter(at_or_after(cutoff)),
{
    let mut out: Vec<u64> = Vec::new();
    let mut i: usize = 0;
    while i < v.len()
        invariant
            i <= v.len(),
            out@ == v@.take(i as int).filter(at_or_after(cutoff)),
        decreases v.len() - i,
    {
        let ghost before = out@;
        proof {
            reveal_with_fuel(Seq::<_>::filter, 1);
            let t = v@.take(i + 1);
            assert(t.drop_last() == v@.take(i as int));
            assert(t.last() == v@[i as int]);
            assert(t.len() > 0);
            assert(t.filter(at_or_after(cutoff)) == if at_or_after(cutoff)(t.last()) {
                t.drop_last().filter(at_or_after(cutoff)).push(t.last())
            } else {
                t.drop_last().filter(at_or_after(cutoff))
            });
        }
        if v[i] >= cutoff {
            out.push(v[i]);
        }
        i = i + 1;
    }
    assert(v@.take(v.len() as int) == v@);
    out
}

/// Per-client request counters.
pub struct RateLimiter {
    state: StrMap<Entry>,
}

impl View for RateLimiter {
    type V = Map<Seq<char>, EntryView>;

    closed spec fn view(&self) -> Map<Seq<char>, EntryView> {
        self.state@
    }
}

impl RateLimiter {
    /// The limiter's invariant.
    #[verifier::type_invariant]
    closed spec fn inv(&self) -> bool {
        self.state.wf()
    }

    /// Stores the record of a client.
    fn store(&mut self, key: String, entry: Entry)
        ensures
            final(self)@ == old(self)@.insert(key@, entry@),
    {
        proof {
            use_type_invariant(&*self);
        }
        let mut st = StrMap::new();
        std::mem::swap(&mut st, &mut self.state);
        st.insert(key, entry);
        self.state = st;
    }

    /// A limiter that has seen no request.
    pub fn new() -> (res: Self)
        ensures
            res@ == Map::<Seq<char>, EntryView>::empty(),
    {
        RateLimiter { state: StrMap::new() }
    }

    /// Decides a request from `ip` made at `now` (ms since the epoch) on day
    /// `today`, and records it: `true` lets it through, `false` refuses it
    /// because the client already made `per_min` requests in the last 60
    /// seconds or `per_day` requests today. A limit of `0` is no limit; with
    /// both at `0` every request passes and nothing is recorded.
    pub fn check_and_record_at(
        &mut self,
        ip: &str,
        per_min: u32,
        per_day: u32,
        now: u64,
        today: u64,
    ) -> (res: bool)
        ensures
            limiter_step(old(self)@, final(self)@, ip@, per_min, per_day, now, today, res),
    {
        if per_min == 0 && per_day == 0 {
            return true;
        }
        proof {
            use_type_invariant(&*self);
        }
        let key = owned(ip);
        let cutoff = now.saturating_sub(WINDOW_MS);
        let mut entry = match self.state.get(&key) {
            Some(e) => Entry {
                minute: keep_recent(&e.minute, cutoff),
                day_key: today,
                day_count: if e.day_key != today {
                    0
                } else {
                    e.day_count
                },
            },
            None => {
                let empty: Vec<u64> = Vec::new();
                Entry { minute: keep_recent(&empty, cutoff), day_key: today, day_count: 0 }
            },
        };
        let ghost e = entry@;
        assert(e == refreshed(record_of(old(self)@, ip@), now, today));
        if per_min != 0 && entry.minute.len() as u32 >= per_min {
            self.store(key, entry);
            return false;
        }
        if per_day != 0 && entry.day_count >= per_day {
            self.store(key, entry);
            return false;
        }
        entry.minute.push(now);
        if entry.day_count < u32::MAX {
            entry.day_count = entry.day_count + 1;
        }
        self.store(key, entry);
        true
    }

    /// Decides and records a request from `ip` at the current time (see
    /// [`RateLimiter::check_and_record_at`]); the outcome is that of some
    /// reading of the clock.
    pub fn check_and_record(&mut self, ip: &str, per_min: u32, per_day: u32) -> (res: bool)
        ensures
            exists|now: u64, today: u64|
                limiter_step(old(self)@, final(self)@, ip@, per_min, per_day, now, today, res),
    {
        if per_min == 0 && per_day == 0 {
            assert(limiter_step(old(self)@, self@, ip@, per_min, per_day, 0, 0, true));
            return true;
        }
        let now = now_ms();
        let today = today_key();
        let res = self.check_and_record_at(ip, per_min, per_day, now, today);
        assert(limiter_step(old(self)@, self@, ip@, per_min, per_day, now, today, res));
        res
    }
}

// ---------------------------------------------------------------------------
// Laws
// ---------------------------------------------------------------------------

/// Filtering keeps a sequence whose elements all pass unchanged.
proof fn lemma_filter_all(s: Seq<u64>, p: spec_fn(u64) -> bool)
    requires
        forall|i: int| 0 <= i < s.len() ==> p(#[trigger] s[i]),
    ensures
        s.filter(p) == s,
    decreases s.len(),
{
    reveal_with_fuel(Seq::<_>::filter, 1);
    if s.len() > 0 {
        lemma_filter_all(s.drop_last(), p);
        assert(s.drop_last().push(s.last()) == s);
    }
}

/// Every element of a filtered sequence passes the filter, and filtering
/// never lengthens a sequence.
proof fn lemma_filter_facts(s: Seq<u64>, p: spec_fn(u64) -> bool)
    ensures
        s.filter(p).len() <= s.len(),
        forall|i: int| 0 <= i < s.filter(p).len() ==> p(#[trigger] s.filter(p)[i]),
{
    s.lemma_filter_len(p);
    assert forall|i: int| 0 <= i < s.filter(p).len() implies p(#[trigger] s.filter(p)[i]) by {
        s.lemma_filter_pred(p, i);
    }
}

impl Default for RateLimiter {
    /// A limiter that has seen no request.
    fn default() -> (res: Self)
        ensures
            res@ == Map::<Seq<char>, EntryView>::empty(),
    {
        RateLimiter::new()
    }
}

/// With both limits at zero every request passes and nothing is recorded.
pub proof fn law_unlimited_passes(
    before: Map<Seq<char>, EntryView>,
    after: Map<Seq<char>, EntryView>,
    ip: Seq<char>,
    now: u64,
    today: u64,
    allowed: bool,
)
    requires
        limiter_step(before, after, ip, 0, 0, now, today, allowed),
    ensures
        allowed,
        after == before,
{
}

/// A request that is let through leaves the client with at most `per_min`
/// requests, all inside the current 60-second window (as long as the record
/// held fewer than `u32::MAX` times, the range in which the count is exact).
pub proof fn law_window_cap(
    before: Map<Seq<char>, EntryView>,
    after: Map<Seq<char>, EntryView>,
    ip: Seq<char>,
    per_min: u32,
    per_day: u32,
    now: u64,
    today: u64,
)
    requires
        per_min != 0,
        limiter_step(before, after, ip, per_min, per_day, now, today, true),
        record_of(before, ip) matches Some(e) ==> e.minute.len() < u32::MAX,
    ensures
        after.contains_key(ip),
        after[ip].minute.len() <= per_min,
        forall|i: int|
            0 <= i < after[ip].minute.len() ==> #[trigger] after[ip].minute[i] >= window_start(now),
{
    let old_min = match record_of(before, ip) {
        Some(e) => e.minute,
        None => Seq::<u64>::empty(),
    };
    lemma_filter_facts(old_min, at_or_after(window_start(now)));
}

/// A request that is let through leaves the client with at most `per_day`
/// requests counted for the day.
pub proof fn law_daily_cap(
    before: Map<Seq<char>, EntryView>,
    after: Map<Seq<char>, EntryView>,
    ip: Seq<char>,
    per_min: u32,
    per_day: u32,
    now: u64,
    today: u64,
)
    requires
        per_day != 0,
        limiter_step(before, after, ip, per_min, per_day, now, today, true),
    ensures
        after.contains_key(ip),
        after[ip].day_key == today,
        after[ip].day_count <= per_day,
{
}

/// A refused request is not counted: the client's record is only brought up
/// to date (old times dropped, a new day's count reset).
pub proof fn law_refusal_not_counted(
    before: Map<Seq<char>, EntryView>,
    after: Map<Seq<char>, EntryView>,
    ip: Seq<char>,
    per_min: u32,
    per_day: u32,
    now: u64,
    today: u64,
)
    requires
        limiter_step(before, after, ip, per_min, per_day, now, today, false),
    ensures
        after == before.insert(ip, refreshed(record_of(before, ip), now, today)),
        before.contains_key(ip) && before[ip].day_key == today ==> after[ip].day_count
            == before[ip].day_count,
{
}

/// Requests from one client never change what the limiter holds for another.
pub proof fn law_clients_independent(
    before: Map<Seq<char>, EntryView>,
    after: Map<Seq<char>, EntryView>,
    ip: Seq<char>,
    other: Seq<char>,
    per_min: u32,
    per_day: u32,
    now: u64,
    today: u64,
    allowed: bool,
)
    requires
        limiter_step(before, after, ip, per_min, per_day, now, today, allowed),
        other != ip,
    ensures
        record_of(after, other) == record_of(before, other),
{
}

/// Requests let through at the same instant accumulate: the next request at
/// that instant finds one more request in the window and one more in the
/// day. With a per-minute limit `m`, the request after `m` passes at one
/// instant is therefore refused.
pub proof fn law_same_instant_accumulates(
    before: Map<Seq<char>, EntryView>,
    after: Map<Seq<char>, EntryView>,
    ip: Seq<char>,
    per_min: u32,
    per_day: u32,
    now: u64,
    today: u64,
)
    requires
        !(per_min == 0 && per_day == 0),
        limiter_step(before, after, ip, per_min, per_day, now, today, true),
    ensures
        refreshed(record_of(after, ip), now, today) == recorded(
            refreshed(record_of(before, ip), now, today),
            now,
        ),
{
    let e = refreshed(record_of(before, ip), now, today);
    let r = recorded(e, now);
    let p = at_or_after(window_start(now));
    let old_min = match record_of(before, ip) {
        Some(x) => x.minute,
        None => Seq::<u64>::empty(),
    };
    lemma_filter_facts(old_min, p);
    assert forall|i: int| 0 <= i < r.minute.len() implies p(#[trigger] r.minute[i]) by {
        if i < e.minute.len() {
            assert(r.minute[i] == e.minute[i]);
        }
    }
    lemma_filter_all(r.minute, p);
}

/// Filtering drops every element of a sequence none of whose elements pass.
proof fn lemma_filter_none(s: Seq<u64>, p: spec_fn(u64) -> bool)
    requires
        forall|i: int| 0 <= i < s.len() ==> !p(#[trigger] s[i]),
    ensures
        s.filter(p).len() == 0,
    decreases s.len(),
{
    reveal_with_fuel(Seq::<_>::filter, 1);
    if s.len() > 0 {
        lemma_filter_none(s.drop_last(), p);
        assert(!p(s[s.len() - 1]));
    }
}

/// Requests more than 60 seconds old no longer count: when every earlier
/// request of the client lies more than 60 000 ms before `now`, its window
/// is empty again, so without a daily limit the request passes and the
/// window then holds it alone.
pub proof fn law_window_expires(
    before: Map<Seq<char>, EntryView>,
    after: Map<Seq<char>, EntryView>,
    ip: Seq<char>,
    per_min: u32,
    now: u64,
    today: u64,
    allowed: bool,
)
    requires
        per_min != 0,
        limiter_step(before, after, ip, per_min, 0, now, today, allowed),
        record_of(before, ip) matches Some(e) ==> forall|i: int|
            0 <= i < e.minute.len() ==> #[trigger] e.minute[i] + 60_000 < now,
    ensures
        allowed,
        after.contains_key(ip),
        after[ip].minute == seq![now],
{
    let old_min = match record_of(before, ip) {
        Some(e) => e.minute,
        None => Seq::<u64>::empty(),
    };
    let p = at_or_after(window_start(now));
    assert forall|i: int| 0 <= i < old_min.len() implies !p(#[trigger] old_min[i]) by {}
    lemma_filter_none(old_min, p);
    let e = refreshed(record_of(before, ip), now, today);
    assert(e.minute.len() == 0);
    assert(recorded(e, now).minute =~= seq![now]);
}

// ---------------------------------------------------------------------------
// A client's requests over time
// ---------------------------------------------------------------------------

/// The times of the requests let through among the first `k` calls.
pub open spec fn passed_times(ts: Seq<u64>, ok: Seq<bool>, k: int) -> Seq<u64>
    decreases k,
{
    if k <= 0 {
        seq![]
    } else {
        let r = passed_times(ts, ok, k - 1);
        if ok[k - 1] {
            r.push(ts[k - 1])
        } else {
            r
        }
    }
}

/// How many of the first `k` calls were let through on day `day`.
pub open spec fn passed_on(ds: Seq<u64>, ok: Seq<bool>, k: int, day: u64) -> nat
    decreases k,
{
    if k <= 0 {
        0
    } else {
        passed_on(ds, ok, k - 1, day) + if ok[k - 1] && ds[k - 1] == day {
            1nat
        } else {
            0nat
        }
    }
}

/// Filtering with a weaker predicate first changes nothing.
proof fn lemma_filter_twice(s: Seq<u64>, a: u64, b: u64)
    requires
        a <= b,
    ensures
        s.filter(at_or_after(a)).filter(at_or_after(b)) == s.filter(at_or_after(b)),
    decreases s.len(),
{
    reveal_with_fuel(Seq::<_>::filter, 1);
    if s.len() > 0 {
        lemma_filter_twice(s.drop_last(), a, b);
        let x = s.last();
        assert(s == s.drop_last().push(x));
        s.drop_last().lemma_filter_push(x, at_or_after(a));
        s.drop_last().lemma_filter_push(x, at_or_after(b));
        s.drop_last().filter(at_or_after(a)).lemma_filter_push(x, at_or_after(b));
    }
}

/// No call before `k` falls on a day after all of them.
proof fn lemma_passed_on_later_day(ds: Seq<u64>, ok: Seq<bool>, k: int, day: u64)
    requires
        0 <= k <= ds.len(),
        k <= ok.len(),
        forall|j: int| 0 <= j < k ==> #[trigger] ds[j] < day,
    ensures
        passed_on(ds, ok, k, day) == 0,
    decreases k,
{
    if k > 0 {
        lemma_passed_on_later_day(ds, ok, k - 1, day);
    }
}

/// What the limiter holds for a client after the first `k` of its calls.
pub open spec fn record_after(
    states: Seq<Map<Seq<char>, EntryView>>,
    ip: Seq<char>,
    per_min: u32,
    per_day: u32,
    ts: Seq<u64>,
    ds: Seq<u64>,
    ok: Seq<bool>,
    k: int,
) -> bool {
    if k == 0 {
        !states[0].contains_key(ip)
    } else {
        &&& states[k].contains_key(ip)
        &&& states[k][ip].minute == passed_times(ts, ok, k).filter(at_or_after(window_start(ts[k - 1])))
        &&& states[k][ip].day_key == ds[k - 1]
        &&& per_day != 0 ==> states[k][ip].day_count == passed_on(ds, ok, k, ds[k - 1])
        &&& per_min != 0 ==> states[k][ip].minute.len() <= per_min
    }
}

/// One call keeps [`record_after`] and decides as the law says.
proof fn lemma_request_step(
    states: Seq<Map<Seq<char>, EntryView>>,
    ip: Seq<char>,
    per_min: u32,
    per_day: u32,
    ts: Seq<u64>,
    ds: Seq<u64>,
    ok: Seq<bool>,
    k: int,
)
    requires
        !(per_min == 0 && per_day == 0),
        ts.len() == ds.len() == ok.len(),
        states.len() == ok.len() + 1,
        0 <= k < ok.len(),
        k > 0 ==> ts[k - 1] <= ts[k] && ds[k - 1] <= ds[k],
        forall|j: int| 0 <= j < k ==> #[trigger] ds[j] <= ds[k - 1],
        limiter_step(states[k], states[k + 1], ip, per_min, per_day, ts[k], ds[k], ok[k]),
        record_after(states, ip, per_min, per_day, ts, ds, ok, k),
    ensures
        record_after(states, ip, per_min, per_day, ts, ds, ok, k + 1),
        ok[k] == ((per_min == 0 || passed_times(ts, ok, k).filter(
            at_or_after(window_start(ts[k])),
        ).len() < per_min) && (per_day == 0 || passed_on(ds, ok, k, ds[k]) < per_day)),
{
    let q = at_or_after(window_start(ts[k]));
    let e = refreshed(record_of(states[k], ip), ts[k], ds[k]);
    let p = passed_times(ts, ok, k);
    reveal_with_fuel(Seq::<_>::filter, 1);
    if k == 0 {
        assert(p == Seq::<u64>::empty());
        assert(e.minute == p.filter(q));
        assert(e.day_count == passed_on(ds, ok, k, ds[k]));
    } else {
        let e0 = states[k][ip];
        assert(window_start(ts[k - 1]) <= window_start(ts[k]));
        lemma_filter_twice(p, window_start(ts[k - 1]), window_start(ts[k]));
        assert(e.minute == p.filter(q));
        p.filter(at_or_after(window_start(ts[k - 1]))).lemma_filter_len(q);
        if ds[k - 1] != ds[k] {
            lemma_passed_on_later_day(ds, ok, k, ds[k]);
        }
        if per_day != 0 {
            assert(e.day_count == passed_on(ds, ok, k, ds[k]));
        }
    }
    assert(passed_times(ts, ok, k + 1) == if ok[k] {
        p.push(ts[k])
    } else {
        p
    });
    p.lemma_filter_push(ts[k], q);
    assert(q(ts[k]));
    assert(passed_on(ds, ok, k + 1, ds[k]) == passed_on(ds, ok, k, ds[k]) + if ok[k] {
        1nat
    } else {
        0nat
    });
}

/// The first `k` calls keep [`record_after`] and decide as the law says.
proof fn lemma_request_prefix(
    states: Seq<Map<Seq<char>, EntryView>>,
    ip: Seq<char>,
    per_min: u32,
    per_day: u32,
    ts: Seq<u64>,
    ds: Seq<u64>,
    ok: Seq<bool>,
    k: int,
)
    requires
        0 <= k <= ok.len(),
        ts.len() == ds.len() == ok.len(),
        states.len() == ok.len() + 1,
        !(per_min == 0 && per_day == 0),
        !states[0].contains_key(ip),
        forall|i: int, j: int| 0 <= i <= j < ts.len() ==> ts[i] <= ts[j] && ds[i] <= ds[j],
        forall|k: int|
            0 <= k < ok.len() ==> limiter_step(
                #[trigger] states[k],
                states[k + 1],
                ip,
                per_min,
                per_day,
                ts[k],
                ds[k],
                ok[k],
            ),
    ensures
        record_after(states, ip, per_min, per_day, ts, ds, ok, k),
        forall|j: int|
            0 <= j < k ==> #[trigger] ok[j] == ((per_min == 0 || passed_times(ts, ok, j).filter(
                at_or_after(window_start(ts[j])),
            ).len() < per_min) && (per_day == 0 || passed_on(ds, ok, j, ds[j]) < per_day)),
    decreases k,
{
    if k > 0 {
        let m = k - 1;
        lemma_request_prefix(states, ip, per_min, per_day, ts, ds, ok, m);
        assert(limiter_step(states[m], states[m + 1], ip, per_min, per_day, ts[m], ds[m], ok[m]));
        if m > 0 {
            assert(ts[m - 1] <= ts[m] && ds[m - 1] <= ds[m]);
        }
        assert forall|j: int| 0 <= j < m implies #[trigger] ds[j] <= ds[m - 1] by {
            assert(ds[j] <= ds[m - 1]);
        }
        lemma_request_step(states, ip, per_min, per_day, ts, ds, ok, m);
    }
}

/// A client's requests over time, with a per-minute limit `per_min` and a
/// daily limit `per_day` (not both off), at non-decreasing times `ts` and
/// days `ds`, starting with no record of the client: call `k` is let through
/// exactly when fewer than `per_min` earlier requests let through fall
/// inside the 60 seconds before it and fewer than `per_day` earlier requests
/// let through fall on its day (a limit of 0 being no limit). Refused calls
/// are never counted.
pub proof fn law_request_sequence(
    states: Seq<Map<Seq<char>, EntryView>>,
    ip: Seq<char>,
    per_min: u32,
    per_day: u32,
    ts: Seq<u64>,
    ds: Seq<u64>,
    ok: Seq<bool>,
)
    requires
        ts.len() == ds.len() == ok.len(),
        states.len() == ok.len() + 1,
        !states[0].contains_key(ip),
        forall|i: int, j: int| 0 <= i <= j < ts.len() ==> ts[i] <= ts[j] && ds[i] <= ds[j],
        forall|k: int|
            0 <= k < ok.len() ==> limiter_step(
                #[trigger] states[k],
                states[k + 1],
                ip,
                per_min,
                per_day,
                ts[k],
                ds[k],
                ok[k],
            ),
    ensures
        forall|k: int|
            0 <= k < ok.len() ==> #[trigger] ok[k] == ((per_min == 0 || passed_times(ts, ok, k).filter(
                at_or_after(window_start(ts[k])),
            ).len() < per_min) && (per_day == 0 || passed_on(ds, ok, k, ds[k]) < per_day)),
{
    if per_min == 0 && per_day == 0 {
        assert forall|k: int| 0 <= k < ok.len() implies #[trigger] ok[k] == ((per_min == 0
            || passed_times(ts, ok, k).filter(at_or_after(window_start(ts[k]))).len() < per_min)
            && (per_day == 0 || passed_on(ds, ok, k, ds[k]) < per_day)) by {
            assert(limiter_step(states[k], states[k + 1], ip, per_min, per_day, ts[k], ds[k], ok[k]));
        }
    } else {
        lemma_request_prefix(states, ip, per_min, per_day, ts, ds, ok, ok.len() as int);
    }
}

} // verus!
