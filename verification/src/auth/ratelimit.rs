//! The rate limiter: a log of the calls of each identity, and a count of the
//! calls that were turned away.

use vstd::prelude::*;
use vstd::relations::{sorted_by, total_ordering};
use vstd::seq_lib::{lemma_sorted_unique, to_multiset_build, to_multiset_insert};
use vstd::string::StringExecFns;

use crate::auth::moderation::{block_user, blocked_entry, BlockedView};
use crate::auth::user::{get_logged_in_superuser, is_superuser};
use crate::auth::Auth;
use crate::error::Error;
use crate::identity::Identity;
use crate::identity_map::IdentityMap;

verus! {

/// One day in nanoseconds.
pub const FILES_REFRESH_RATE_ONE_DAY: u64 = 86400000000000;

/// How many files an identity may create in a day.
pub const FILES_PER_DAY: u64 = 3;

/// Five minutes in nanoseconds.
pub const RATE_LIMIT: u64 = 300000000000;

/// How many calls an identity may make in five minutes.
pub const CALL_RATE_LIMIT_WINDOW: u64 = 50;

/// How many calls of an identity may be turned away before it is blocked.
pub const WARNINGS_BEFORE_BLOCK: i128 = 200;

/// The kinds of call that the limiter tells apart.
#[derive(Clone, Copy, Debug, PartialEq, Eq, Structural)]
pub enum RateLimitMessageType {
    CreateFile,
    DeleteFile,
    UpdateFile,
    GetFile,
}

/// A call as the log holds it.
#[derive(Debug)]
pub struct Call {
    pub time: u64,
    pub call_type: RateLimitMessageType,
    pub principal: Identity,
}

/// What an entry of the log holds.
pub struct CallView {
    pub time: u64,
    pub call_type: RateLimitMessageType,
    pub principal: Seq<u8>,
}

impl View for Call {
    type V = CallView;

    open spec fn view(&self) -> CallView {
        CallView { time: self.time, call_type: self.call_type, principal: self.principal@ }
    }
}

impl Clone for Call {
    fn clone(&self) -> (r: Self)
        ensures
            r@ == self@,
    {
        Call { time: self.time, call_type: self.call_type, principal: self.principal.clone() }
    }
}

/// How often an identity was turned away.
#[derive(Debug)]
pub struct Warning {
    pub number: i128,
    pub principal: Identity,
}

/// What a count of warnings holds.
pub struct WarningView {
    pub number: i128,
    pub principal: Seq<u8>,
}

impl View for Warning {
    type V = WarningView;

    open spec fn view(&self) -> WarningView {
        WarningView { number: self.number, principal: self.principal@ }
    }
}

impl Clone for Warning {
    fn clone(&self) -> (r: Self)
        ensures
            r@ == self@,
    {
        Warning { number: self.number, principal: self.principal.clone() }
    }
}

/// What each call of a log holds.
pub open spec fn call_views(calls: Seq<Call>) -> Seq<CallView> {
    Seq::new(calls.len(), |i: int| calls[i]@)
}

/// The order in which a later moment stands before an earlier one.
pub open spec fn later_first() -> spec_fn(u64, u64) -> bool {
    |a: u64, b: u64| a >= b
}

/// The moments of a list, the latest first.
pub open spec fn latest_first(times: Seq<u64>) -> Seq<u64> {
    times.sort_by(later_first())
}

/// Whether the moment `call_time` lies less than `window` before `now`.
pub open spec fn within(call_time: u64, now: u64, window: u64) -> bool {
    now - call_time < window
}

/// Whether the list has a moment at place `index`, counted from the latest,
/// and that moment lies less than `window` before `now`.
pub open spec fn lookback_hit(times: Seq<u64>, index: int, now: u64, window: u64) -> bool {
    index < times.len() && within(latest_first(times)[index], now, window)
}

/// The moments of all calls of a log.
pub open spec fn call_times(log: Seq<CallView>) -> Seq<u64> {
    Seq::new(log.len(), |i: int| log[i].time)
}

/// Whether a call created a file.
pub open spec fn is_create() -> spec_fn(CallView) -> bool {
    |c: CallView| c.call_type == RateLimitMessageType::CreateFile
}

/// The moments of those calls of a log that created a file.
pub open spec fn create_times(log: Seq<CallView>) -> Seq<u64> {
    call_times(log.filter(is_create()))
}

/// Whether the log holds too many calls of the last five minutes: its
/// fiftieth call, counted from the latest, lies less than five minutes back.
pub open spec fn burst_exceeded(log: Seq<CallView>, now: u64) -> bool {
    lookback_hit(call_times(log), CALL_RATE_LIMIT_WINDOW - 1, now, RATE_LIMIT)
}

/// Whether the log holds too many creations of the last day: its third
/// creation, counted from the latest, lies less than a day back.
pub open spec fn daily_exceeded(log: Seq<CallView>, now: u64) -> bool {
    lookback_hit(create_times(log), FILES_PER_DAY - 1, now, FILES_REFRESH_RATE_ONE_DAY)
}

/// The order of moments is a total one.
pub proof fn lemma_later_first_total()
    ensures
        total_ordering(later_first()),
{
}

/// The moments of `times`, the latest first.
pub fn sort_latest_first(times: &Vec<u64>) -> (sorted: Vec<u64>)
    ensures
        sorted@ == latest_first(times@),
        sorted@.len() == times@.len(),
{
    let mut out: Vec<u64> = Vec::new();
    let mut i: usize = 0;
    assert(times@.take(0) =~= Seq::<u64>::empty());
    while i < times.len()
        invariant
            i <= times@.len(),
            out@.len() == i,
            sorted_by(out@, later_first()),
            out@.to_multiset() == times@.take(i as int).to_multiset(),
        decreases times@.len() - i,
    {
        let x: u64 = times[i];
        let mut j: usize = 0;
        while j < out.len() && out[j] >= x
            invariant
                j <= out@.len(),
                forall|k: int| 0 <= k < j ==> out@[k] >= x,
            decreases out@.len() - j,
        {
            j += 1;
        }
        let ghost before = out@;
        out.insert(j, x);
        proof {
            to_multiset_insert(before, j as int, x);
            assert(times@.take(i + 1) =~= times@.take(i as int).push(x));
            to_multiset_build(times@.take(i as int), x);
            assert forall|a: int, b: int| 0 <= a < b < out@.len() implies #[trigger] later_first()(
                out@[a],
                out@[b],
            ) by {
                let a0 = if a < j { a } else { a - 1 };
                let b0 = if b < j { b } else { b - 1 };
                if a != j && b != j {
                    assert(later_first()(before[a0], before[b0]));
                } else if b == j {
                } else {
                    assert(b0 >= j);
                    if b0 > j {
                        assert(later_first()(before[j as int], before[b0]));
                    }
                }
            }
        }
        i += 1;
    }
    proof {
        assert(times@.take(i as int) =~= times@);
        lemma_later_first_total();
        times@.lemma_sort_by_ensures(later_first());
        lemma_sorted_unique(out@, latest_first(times@), later_first());
    }
    out
}

/// Whether the moment `call_time` lies less than `window` before `now`.
pub fn is_within(call_time: u64, now: u64, window: u64) -> (r: bool)
    ensures
        r == within(call_time, now, window),
{
    call_time > now || now - call_time < window
}

/// Whether `call_time` lies less than five minutes before `now`.
pub fn less_than_a_minute(call_time: u64, now: u64) -> (r: bool)
    ensures
        r == within(call_time, now, RATE_LIMIT),
{
    is_within(call_time, now, RATE_LIMIT)
}

/// Whether `call_time` lies less than a day before `now`.
pub fn less_than_a_day(call_time: u64, now: u64) -> (r: bool)
    ensures
        r == within(call_time, now, FILES_REFRESH_RATE_ONE_DAY),
{
    is_within(call_time, now, FILES_REFRESH_RATE_ONE_DAY)
}

/// The moments of all calls of a log.
fn times_of_calls(calls: &Vec<Call>) -> (times: Vec<u64>)
    ensures
        times@ == call_times(call_views(calls@)),
{
    let mut times: Vec<u64> = Vec::new();
    let mut i: usize = 0;
    while i < calls.len()
        invariant
            i <= calls@.len(),
            times@.len() == i,
            forall|j: int| 0 <= j < i ==> times@[j] == calls@[j].time,
        decreases calls@.len() - i,
    {
        times.push(calls[i].time);
        i += 1;
    }
    assert(times@ =~= call_times(call_views(calls@)));
    times
}

/// The moments of those calls of a log that created a file.
fn times_of_creates(calls: &Vec<Call>) -> (times: Vec<u64>)
    ensures
        times@ == create_times(call_views(calls@)),
{
    let mut times: Vec<u64> = Vec::new();
    let mut i: usize = 0;
    let ghost log = call_views(calls@);
    assert(log.take(0).filter(is_create()) =~= Seq::<CallView>::empty()) by {
        log.take(0).lemma_filter_len(is_create());
    }
    while i < calls.len()
        invariant
            i <= calls@.len(),
            log == call_views(calls@),
            times@ == call_times(log.take(i as int).filter(is_create())),
        decreases calls@.len() - i,
    {
        proof {
            assert(log.take(i + 1) =~= log.take(i as int).push(log[i as int]));
            log.take(i as int).lemma_filter_push(log[i as int], is_create());
        }
        if calls[i].call_type == RateLimitMessageType::CreateFile {
            times.push(calls[i].time);
            assert(times@ =~= call_times(log.take(i + 1).filter(is_create())));
        }
        i += 1;
    }
    assert(log.take(i as int) =~= log);
    times
}

/// Checks the calls of the last five minutes.
fn check_rate_limit(calls: &Vec<Call>, now: u64) -> (r: Result<String, Error>)
    ensures
        r is Err <==> burst_exceeded(call_views(calls@), now),
        r matches Ok(s) ==> s@ == "Rate limit okay"@,
        r is Err ==> r == Err::<String, Error>(Error::RateLimited),
{
    let sorted_calls = sort_latest_first(&times_of_calls(calls));
    let index: usize = (CALL_RATE_LIMIT_WINDOW - 1) as usize;
    if index < sorted_calls.len() && less_than_a_minute(sorted_calls[index], now) {
        return Err(Error::RateLimited);
    }
    Ok(String::from_str("Rate limit okay"))
}

/// Checks the creations of the last day.
fn check_last_three_signals(calls: &Vec<Call>, now: u64) -> (r: Result<String, Error>)
    ensures
        r is Err <==> daily_exceeded(call_views(calls@), now),
        r matches Ok(s) ==> s@ == "Rate limit okay"@,
        r is Err ==> r == Err::<String, Error>(Error::DailyLimitReached),
{
    let sorted_calls = sort_latest_first(&times_of_creates(calls));
    let index: usize = (FILES_PER_DAY - 1) as usize;
    if index < sorted_calls.len() && less_than_a_day(sorted_calls[index], now) {
        return Err(Error::DailyLimitReached);
    }
    Ok(String::from_str("Rate limit okay"))
}

/// The log of each identity's calls, the earliest first.
pub struct RateLimit {
    logs: IdentityMap<Vec<Call>>,
}

impl RateLimit {
    /// No identity has two logs.
    pub closed spec fn wf(&self) -> bool {
        self.logs.wf()
    }

    /// The logs by the bytes of each identity.
    pub closed spec fn view(&self) -> Map<Seq<u8>, Seq<CallView>> {
        self.logs.map().map_values(|log: Vec<Call>| call_views(log@))
    }

    /// A limiter that has seen no call.
    pub fn new() -> (s: Self)
        ensures
            s.wf(),
            s@ == Map::<Seq<u8>, Seq<CallView>>::empty(),
    {
        let s = RateLimit { logs: IdentityMap::new() };
        assert(s@ =~= Map::<Seq<u8>, Seq<CallView>>::empty());
        s
    }
}

/// The counts of the calls that were turned away, by identity.
pub struct Warnings {
    counts: IdentityMap<Warning>,
}

impl Warnings {
    /// No identity has two counts.
    pub closed spec fn wf(&self) -> bool {
        self.counts.wf()
    }

    /// The counts by the bytes of each identity.
    pub closed spec fn view(&self) -> Map<Seq<u8>, WarningView> {
        self.counts.map().map_values(|w: Warning| w@)
    }

    /// The identities that were warned, in the order in which they are
    /// listed.
    pub closed spec fn order(&self) -> Seq<Seq<u8>> {
        self.counts.order()
    }

    /// No identity was turned away yet.
    pub fn new() -> (s: Self)
        ensures
            s.wf(),
            s@ == Map::<Seq<u8>, WarningView>::empty(),
            s.order() == Seq::<Seq<u8>>::empty(),
    {
        let s = Warnings { counts: IdentityMap::new() };
        assert(s@ =~= Map::<Seq<u8>, WarningView>::empty());
        s
    }

    /// The listing names each warned identity, once.
    pub proof fn lemma_order(&self)
        requires
            self.wf(),
        ensures
            forall|i: int, j: int|
                0 <= i < j < self.order().len() ==> self.order()[i] != self.order()[j],
            forall|k: Seq<u8>| self@.dom().contains(k) <==> self.order().contains(k),
    {
        self.counts.lemma_order();
    }
}

/// The log of `who`: empty where the limiter has none.
pub open spec fn calls_of(logs: Map<Seq<u8>, Seq<CallView>>, who: Seq<u8>) -> Seq<CallView> {
    if logs.dom().contains(who) {
        logs[who]
    } else {
        Seq::empty()
    }
}

/// How often `who` was turned away.
pub open spec fn warnings_of(counts: Map<Seq<u8>, WarningView>, who: Seq<u8>) -> i128 {
    if counts.dom().contains(who) {
        counts[who].number
    } else {
        0
    }
}

/// Whether the call at place `i` is the latest creation of the log: the
/// first of those that no other creation follows in time.
pub open spec fn is_latest_create(log: Seq<CallView>, i: int) -> bool {
    &&& 0 <= i < log.len()
    &&& log[i].call_type == RateLimitMessageType::CreateFile
    &&& forall|j: int|
        0 <= j < log.len() && (#[trigger] log[j]).call_type == RateLimitMessageType::CreateFile
            ==> log[j].time <= log[i].time
    &&& forall|j: int|
        0 <= j < i && (#[trigger] log[j]).call_type == RateLimitMessageType::CreateFile
            ==> log[j].time < log[i].time
}

/// The log without its latest creation; the log itself where it holds no
/// creation.
pub open spec fn without_latest_create(log: Seq<CallView>) -> Seq<CallView> {
    if exists|i: int| is_latest_create(log, i) {
        log.remove(choose|i: int| is_latest_create(log, i))
    } else {
        log
    }
}

/// A log has one latest creation at most.
pub proof fn lemma_latest_create_unique(log: Seq<CallView>, a: int, b: int)
    requires
        is_latest_create(log, a),
        is_latest_create(log, b),
    ensures
        a == b,
{
    if a < b {
        assert(log[a].time < log[b].time);
        assert(log[b].time <= log[a].time);
    } else if b < a {
        assert(log[b].time < log[a].time);
        assert(log[a].time <= log[b].time);
    }
}

/// What the limiter makes of a call.
#[derive(Clone, Copy, Debug, PartialEq, Eq, Structural)]
pub enum Verdict {
    /// The caller is a superuser: the call is let through and not logged.
    Exempt,
    /// The call is let through and logged.
    Accepted,
    /// Too many calls in the last five minutes.
    TooFast,
    /// Too many files created in the last day.
    TooManyFiles,
}

/// What the limiter makes of a call of kind `call_type` at the moment `now`,
/// by an identity with the log `log`.
pub open spec fn verdict_of(
    exempt: bool,
    log: Seq<CallView>,
    call_type: RateLimitMessageType,
    now: u64,
) -> Verdict {
    if exempt {
        Verdict::Exempt
    } else if burst_exceeded(log, now) {
        Verdict::TooFast
    } else if call_type == RateLimitMessageType::CreateFile && daily_exceeded(log, now) {
        Verdict::TooManyFiles
    } else {
        Verdict::Accepted
    }
}

/// Whether the verdict turns the call away.
pub open spec fn turned_away(verdict: Verdict) -> bool {
    verdict == Verdict::TooFast || verdict == Verdict::TooManyFiles
}

/// The log after a call. A call that is let through or turned away is added
/// at the end; a deletion that is let through first takes the latest creation
/// out of the log.
pub open spec fn log_after(log: Seq<CallView>, verdict: Verdict, call: CallView) -> Seq<
    CallView,
> {
    match verdict {
        Verdict::Exempt => log,
        Verdict::Accepted => if call.call_type == RateLimitMessageType::DeleteFile {
            without_latest_create(log).push(call)
        } else {
            log.push(call)
        },
        _ => log.push(call),
    }
}

/// The count of warnings after one more.
pub open spec fn one_more(number: i128) -> i128 {
    if number < i128::MAX {
        (number + 1) as i128
    } else {
        number
    }
}

/// What the call leaves to the caller.
pub open spec fn answer_of(verdict: Verdict) -> Result<Seq<char>, Error> {
    match verdict {
        Verdict::Exempt => Ok("Superuser"@),
        Verdict::Accepted => Ok("Rate limit okay"@),
        Verdict::TooFast => Err(Error::RateLimited),
        Verdict::TooManyFiles => Err(Error::DailyLimitReached),
    }
}

/// The logs after a call.
pub open spec fn logs_after(
    logs: Map<Seq<u8>, Seq<CallView>>,
    verdict: Verdict,
    call: CallView,
) -> Map<Seq<u8>, Seq<CallView>> {
    if verdict == Verdict::Exempt {
        logs
    } else {
        logs.insert(call.principal, log_after(calls_of(logs, call.principal), verdict, call))
    }
}

/// The counts of warnings after a call.
pub open spec fn counts_after(counts: Map<Seq<u8>, WarningView>, verdict: Verdict, who: Seq<u8>)
    -> Map<Seq<u8>, WarningView> {
    if turned_away(verdict) {
        counts.insert(
            who,
            WarningView { number: one_more(warnings_of(counts, who)), principal: who },
        )
    } else {
        counts
    }
}

/// The blocklist after a call: an identity that was turned away more than
/// two hundred times is blocked.
pub open spec fn blocklist_after(
    blocked: Map<Seq<u8>, BlockedView>,
    counts: Map<Seq<u8>, WarningView>,
    verdict: Verdict,
    who: Seq<u8>,
) -> Map<Seq<u8>, BlockedView> {
    if turned_away(verdict) && one_more(warnings_of(counts, who)) > WARNINGS_BEFORE_BLOCK {
        blocked.insert(who, blocked_entry(who))
    } else {
        blocked
    }
}

/// The place of the latest creation in a log.
fn latest_create_index(calls: &Vec<Call>) -> (r: Option<usize>)
    ensures
        r matches Some(i) ==> is_latest_create(call_views(calls@), i as int),
        r is None ==> !exists|i: int| is_latest_create(call_views(calls@), i),
{
    let ghost log = call_views(calls@);
    let mut best: Option<usize> = None;
    let mut i: usize = 0;
    while i < calls.len()
        invariant
            i <= calls@.len(),
            log == call_views(calls@),
            best matches Some(b) ==> b < i && is_latest_create(log.take(i as int), b as int),
            best is None ==> forall|j: int|
                0 <= j < i ==> (#[trigger] log[j]).call_type != RateLimitMessageType::CreateFile,
        decreases calls@.len() - i,
    {
        let ghost before = log.take(i as int);
        let ghost after = log.take(i + 1);
        assert(forall|j: int| 0 <= j < i ==> #[trigger] after[j] == before[j]);
        assert(after[i as int] == log[i as int]);
        if calls[i].call_type == RateLimitMessageType::CreateFile {
            match best {
                Some(b) => {
                    if calls[i].time > calls[b].time {
                        best = Some(i);
                        assert(is_latest_create(after, i as int)) by {
                            assert forall|j: int|
                                0 <= j < after.len() && (#[trigger] after[j]).call_type
                                    == RateLimitMessageType::CreateFile implies after[j].time
                                <= after[i as int].time by {
                                if j < i {
                                    assert(before[j].call_type == RateLimitMessageType::CreateFile);
                                }
                            }
                            assert forall|j: int|
                                0 <= j < i && (#[trigger] after[j]).call_type
                                    == RateLimitMessageType::CreateFile implies after[j].time
                                < after[i as int].time by {
                                assert(before[j].call_type == RateLimitMessageType::CreateFile);
                            }
                        }
                    } else {
                        assert(is_latest_create(after, b as int)) by {
                            assert forall|j: int|
                                0 <= j < after.len() && (#[trigger] after[j]).call_type
                                    == RateLimitMessageType::CreateFile implies after[j].time
                                <= after[b as int].time by {
                                if j < i {
                                    assert(before[j].call_type == RateLimitMessageType::CreateFile);
                                }
                            }
                            assert forall|j: int|
                                0 <= j < b && (#[trigger] after[j]).call_type
                                    == RateLimitMessageType::CreateFile implies after[j].time
                                < after[b as int].time by {
                                assert(before[j].call_type == RateLimitMessageType::CreateFile);
                            }
                        }
                    }
                },
                None => {
                    best = Some(i);
                    assert(is_latest_create(after, i as int));
                },
            }
        } else {
            match best {
                Some(b) => {
                    assert(is_latest_create(after, b as int)) by {
                        assert forall|j: int|
                            0 <= j < after.len() && (#[trigger] after[j]).call_type
                                == RateLimitMessageType::CreateFile implies after[j].time
                            <= after[b as int].time by {
                            if j < i {
                                assert(before[j].call_type == RateLimitMessageType::CreateFile);
                            }
                        }
                        assert forall|j: int|
                            0 <= j < b && (#[trigger] after[j]).call_type
                                == RateLimitMessageType::CreateFile implies after[j].time
                            < after[b as int].time by {
                            assert(before[j].call_type == RateLimitMessageType::CreateFile);
                        }
                    }
                },
                None => {},
            }
        }
        i += 1;
    }
    assert(log.take(i as int) =~= log);
    proof {
        if best is None {
            assert forall|k: int| !is_latest_create(log, k) by {
                if 0 <= k < log.len() {
                    assert(log[k].call_type != RateLimitMessageType::CreateFile);
                }
            }
        }
    }
    best
}

/// Takes the latest creation out of a log.
fn drop_latest_create(calls: &mut Vec<Call>)
    ensures
        call_views(final(calls)@) == without_latest_create(call_views(old(calls)@)),
{
    match latest_create_index(calls) {
        Some(i) => {
            let ghost log = call_views(calls@);
            proof {
                let chosen = choose|k: int| is_latest_create(log, k);
                lemma_latest_create_unique(log, i as int, chosen);
            }
            calls.remove(i);
            assert(call_views(calls@) =~= log.remove(i as int));
        },
        None => {},
    }
}

/// A copy of the log of `principal`.
fn get_calls(limits: &RateLimit, principal: &Identity) -> (calls: Vec<Call>)
    requires
        limits.wf(),
    ensures
        call_views(calls@) == calls_of(limits@, principal@),
{
    let mut calls: Vec<Call> = Vec::new();
    match limits.logs.get(principal) {
        Some(log) => {
            let mut i: usize = 0;
            while i < log.len()
                invariant
                    i <= log@.len(),
                    calls@.len() == i,
                    forall|j: int| 0 <= j < i ==> (#[trigger] calls@[j])@ == log@[j]@,
                decreases log@.len() - i,
            {
                calls.push(log[i].clone());
                i += 1;
            }
            assert(call_views(calls@) =~= call_views(log@));
        },
        None => {
            assert(call_views(calls@) =~= Seq::<CallView>::empty());
        },
    }
    calls
}

/// How often `principal` was turned away.
fn get_number_of_warnings(warnings: &Warnings, principal: &Identity) -> (n: i128)
    requires
        warnings.wf(),
    ensures
        n == warnings_of(warnings@, principal@),
{
    match warnings.counts.get(principal) {
        Some(warning) => warning.number,
        None => 0,
    }
}

/// Adds a call at the end of the log of `principal`.
fn insert_call(limits: &mut RateLimit, principal: &Identity, call: Call)
    requires
        old(limits).wf(),
    ensures
        final(limits).wf(),
        final(limits)@ == old(limits)@.insert(
            principal@,
            calls_of(old(limits)@, principal@).push(call@),
        ),
{
    let mut new_calls = match limits.logs.remove(principal) {
        Some(calls) => calls,
        None => Vec::new(),
    };
    let ghost before = call_views(new_calls@);
    assert(before =~= calls_of(old(limits)@, principal@));
    new_calls.push(call);
    assert(call_views(new_calls@) =~= before.push(call@));
    limits.logs.insert(principal.clone(), new_calls);
    assert(limits@ =~= old(limits)@.insert(
        principal@,
        calls_of(old(limits)@, principal@).push(call@),
    ));
}

/// Takes the latest creation out of the log of `principal`.
fn remove_last_create_call(limits: &mut RateLimit, principal: &Identity)
    requires
        old(limits).wf(),
    ensures
        final(limits).wf(),
        final(limits)@ == if old(limits)@.dom().contains(principal@) {
            old(limits)@.insert(principal@, without_latest_create(old(limits)@[principal@]))
        } else {
            old(limits)@
        },
{
    match limits.logs.remove(principal) {
        Some(calls) => {
            let mut new_calls = calls;
            drop_latest_create(&mut new_calls);
            limits.logs.insert(principal.clone(), new_calls);
            assert(limits@ =~= old(limits)@.insert(
                principal@,
                without_latest_create(old(limits)@[principal@]),
            ));
        },
        None => {
            assert(limits@ =~= old(limits)@);
        },
    }
}

/// Counts one more warning for `principal`.
fn insert_warning(warnings: &mut Warnings, principal: &Identity)
    requires
        old(warnings).wf(),
    ensures
        final(warnings).wf(),
        final(warnings)@ == old(warnings)@.insert(
            principal@,
            WarningView {
                number: one_more(warnings_of(old(warnings)@, principal@)),
                principal: principal@,
            },
        ),
{
    let number_of_warnings = get_number_of_warnings(warnings, principal);
    let number: i128 = if number_of_warnings < i128::MAX {
        number_of_warnings + 1
    } else {
        number_of_warnings
    };
    warnings.counts.insert(principal.clone(), Warning { number, principal: principal.clone() });
    assert(warnings@ =~= old(warnings)@.insert(
        principal@,
        WarningView {
            number: one_more(warnings_of(old(warnings)@, principal@)),
            principal: principal@,
        },
    ));
}

/// What each count of a list holds.
pub open spec fn warning_views(warnings: Seq<Warning>) -> Seq<WarningView> {
    Seq::new(warnings.len(), |i: int| warnings[i]@)
}

/// The counts of all identities that were turned away, in the order in which
/// they are listed.
pub fn get_warnings(warnings: &Warnings) -> (r: Vec<Warning>)
    requires
        warnings.wf(),
    ensures
        r@.len() == warnings.order().len(),
        forall|i: int|
            0 <= i < r@.len() ==> warnings@.dom().contains(#[trigger] warnings.order()[i])
                && r@[i]@ == warnings@[warnings.order()[i]],
{
    let mut all: Vec<Warning> = Vec::new();
    let mut i: usize = 0;
    while i < warnings.counts.len()
        invariant
            warnings.wf(),
            i <= warnings.order().len(),
            all@.len() == i,
            forall|j: int|
                0 <= j < i ==> warnings@.dom().contains(#[trigger] warnings.order()[j])
                    && all@[j]@ == warnings@[warnings.order()[j]],
        decreases warnings.order().len() - i,
    {
        all.push(warnings.counts.value_at(i).clone());
        i += 1;
    }
    all
}

/// What the limiter makes of a call by `principal`.
fn judge(auth: &Auth, principal: &Identity, message_type: RateLimitMessageType, now: u64) -> (v:
    Verdict)
    requires
        auth.wf(),
    ensures
        v == verdict_of(
            is_superuser(auth.admins@, principal@),
            calls_of(auth.calls@, principal@),
            message_type,
            now,
        ),
{
    match get_logged_in_superuser(&auth.admins, principal) {
        Ok(_) => Verdict::Exempt,
        Err(_) => {
            let calls = get_calls(&auth.calls, principal);
            match check_rate_limit(&calls, now) {
                Ok(_) => {
                    if message_type == RateLimitMessageType::CreateFile {
                        match check_last_three_signals(&calls, now) {
                            Ok(_) => Verdict::Accepted,
                            Err(_) => Verdict::TooManyFiles,
                        }
                    } else {
                        Verdict::Accepted
                    }
                },
                Err(_) => Verdict::TooFast,
            }
        },
    }
}

/// Passes a call of `principal` by the limiter. A superuser is let through
/// and leaves no trace. Any other call is logged, whether it is let through
/// or turned away; a deletion that is let through takes the latest creation
/// out of the log. A call that is turned away counts as a warning, and more
/// than two hundred warnings block the identity.
pub fn rate_limit(
    auth: &mut Auth,
    principal: &Identity,
    message_type: RateLimitMessageType,
    now: u64,
) -> (r: Result<String, Error>)
    requires
        old(auth).wf(),
    ensures
        final(auth).wf(),
        final(auth).admins == old(auth).admins,
        match r {
            Ok(s) => answer_of(call_verdict(old(auth), principal@, message_type, now)) == Ok::<
                Seq<char>,
                Error,
            >(s@),
            Err(e) => answer_of(call_verdict(old(auth), principal@, message_type, now)) == Err::<
                Seq<char>,
                Error,
            >(e),
        },
        final(auth).calls@ == logs_after(
            old(auth).calls@,
            call_verdict(old(auth), principal@, message_type, now),
            CallView { time: now, call_type: message_type, principal: principal@ },
        ),
        final(auth).warnings@ == counts_after(
            old(auth).warnings@,
            call_verdict(old(auth), principal@, message_type, now),
            principal@,
        ),
        final(auth).blocked@ == blocklist_after(
            old(auth).blocked@,
            old(auth).warnings@,
            call_verdict(old(auth), principal@, message_type, now),
            principal@,
        ),
{
    let verdict = judge(auth, principal, message_type, now);
    let new_call = Call { time: now, call_type: message_type, principal: principal.clone() };
    match verdict {
        Verdict::Exempt => Ok(String::from_str("Superuser")),
        Verdict::Accepted => {
            if message_type == RateLimitMessageType::DeleteFile {
                remove_last_create_call(&mut auth.calls, principal);
                assert(!exists|i: int| is_latest_create(Seq::<CallView>::empty(), i));
            }
            insert_call(&mut auth.calls, principal, new_call);
            assert(auth.calls@ =~= logs_after(old(auth).calls@, verdict, new_call@));
            Ok(String::from_str("Rate limit okay"))
        },
        _ => {
            insert_call(&mut auth.calls, principal, new_call);
            insert_warning(&mut auth.warnings, principal);
            if get_number_of_warnings(&auth.warnings, principal) > WARNINGS_BEFORE_BLOCK {
                block_user(&mut auth.blocked, principal);
            }
            if verdict == Verdict::TooFast {
                Err(Error::RateLimited)
            } else {
                Err(Error::DailyLimitReached)
            }
        },
    }
}

/// What the limiter makes of a call of kind `call_type` by `who` at the
/// moment `now`.
pub open spec fn call_verdict(
    auth: &Auth,
    who: Seq<u8>,
    call_type: RateLimitMessageType,
    now: u64,
) -> Verdict {
    verdict_of(is_superuser(auth.admins@, who), calls_of(auth.calls@, who), call_type, now)
}

/// How many of the moments lie less than `window` before `now`.
pub open spec fn recent_count(times: Seq<u64>, now: u64, window: u64) -> nat
    decreases times.len(),
{
    if times.len() == 0 {
        0
    } else {
        recent_count(times.drop_last(), now, window) + if within(times.last(), now, window) {
            1nat
        } else {
            0nat
        }
    }
}

/// Taking a moment out of a list takes it out of the count, if it counted.
pub proof fn lemma_recent_count_remove(times: Seq<u64>, i: int, now: u64, window: u64)
    requires
        0 <= i < times.len(),
    ensures
        recent_count(times, now, window) == recent_count(times.remove(i), now, window) + if within(
            times[i],
            now,
            window,
        ) {
            1nat
        } else {
            0nat
        },
    decreases times.len(),
{
    if i == times.len() - 1 {
        assert(times.remove(i) =~= times.drop_last());
    } else {
        lemma_recent_count_remove(times.drop_last(), i, now, window);
        assert(times.remove(i).drop_last() =~= times.drop_last().remove(i));
        assert(times.remove(i).last() == times.last());
    }
}

/// The count does not depend on the order of the moments.
pub proof fn lemma_recent_count_order(x: Seq<u64>, y: Seq<u64>, now: u64, window: u64)
    requires
        x.to_multiset() == y.to_multiset(),
    ensures
        recent_count(x, now, window) == recent_count(y, now, window),
    decreases x.len(),
{
    vstd::seq_lib::to_multiset_len(x);
    vstd::seq_lib::to_multiset_len(y);
    if x.len() > 0 {
        let a = x.last();
        let front = x.drop_last();
        assert(x =~= front.push(a));
        to_multiset_build(front, a);
        vstd::seq_lib::to_multiset_contains(y, a);
        assert(x.to_multiset().count(a) > 0);
        let i = choose|i: int| 0 <= i < y.len() && y[i] == a;
        vstd::seq_lib::to_multiset_remove(y, i);
        assert(front.to_multiset() =~= x.to_multiset().remove(a));
        lemma_recent_count_order(front, y.remove(i), now, window);
        lemma_recent_count_remove(y, i, now, window);
    }
}

/// Where every moment of a list lies inside the window, all count.
pub proof fn lemma_recent_count_all(times: Seq<u64>, now: u64, window: u64)
    requires
        forall|i: int| 0 <= i < times.len() ==> within(#[trigger] times[i], now, window),
    ensures
        recent_count(times, now, window) == times.len(),
    decreases times.len(),
{
    if times.len() > 0 {
        assert(forall|i: int|
            0 <= i < times.len() - 1 ==> #[trigger] times.drop_last()[i] == times[i]);
        lemma_recent_count_all(times.drop_last(), now, window);
    }
}

/// In a list with the latest moment first, the moment at a place lies inside
/// the window just when more moments than that place's number do.
pub proof fn lemma_recent_count_sorted(s: Seq<u64>, k: int, now: u64, window: u64)
    requires
        sorted_by(s, later_first()),
        0 <= k,
    ensures
        (k < s.len() && within(s[k], now, window)) <==> recent_count(s, now, window) > k,
        recent_count(s, now, window) <= s.len(),
    decreases s.len(),
{
    if s.len() > 0 {
        let front = s.drop_last();
        assert(sorted_by(front, later_first())) by {
            assert forall|i: int, j: int| 0 <= i < j < front.len() implies #[trigger] later_first()(
                front[i],
                front[j],
            ) by {
                assert(later_first()(s[i], s[j]));
            }
        }
        lemma_recent_count_sorted(front, k, now, window);
        if within(s.last(), now, window) {
            assert forall|i: int| 0 <= i < s.len() implies within(#[trigger] s[i], now, window) by {
                if i < s.len() - 1 {
                    assert(later_first()(s[i], s[s.len() - 1]));
                }
            }
            lemma_recent_count_all(s, now, window);
        } else {
            if k < front.len() {
                assert(front[k] == s[k]);
            }
        }
    }
}

/// The look back to a place of the list hits just when more moments than the
/// place's number lie inside the window.
pub proof fn lemma_lookback_counts(times: Seq<u64>, index: int, now: u64, window: u64)
    requires
        0 <= index,
    ensures
        lookback_hit(times, index, now, window) <==> recent_count(times, now, window) > index,
{
    lemma_later_first_total();
    times.lemma_sort_by_ensures(later_first());
    let s = latest_first(times);
    vstd::seq_lib::to_multiset_len(times);
    vstd::seq_lib::to_multiset_len(s);
    lemma_recent_count_order(times, s, now, window);
    lemma_recent_count_sorted(s, index, now, window);
}

/// How many calls of the log lie less than five minutes before `now`.
pub open spec fn recent_calls(log: Seq<CallView>, now: u64) -> nat {
    recent_count(call_times(log), now, RATE_LIMIT)
}

/// How many creations of the log lie less than a day before `now`.
pub open spec fn recent_creates(log: Seq<CallView>, now: u64) -> nat {
    recent_count(create_times(log), now, FILES_REFRESH_RATE_ONE_DAY)
}

/// A call is turned away for haste just when the log holds fifty calls or
/// more of the last five minutes: fifty calls within five minutes pass, the
/// next does not, and it passes again once fewer than fifty lie inside the
/// window.
pub proof fn lemma_burst_is_fifty_recent(log: Seq<CallView>, now: u64)
    ensures
        burst_exceeded(log, now) <==> recent_calls(log, now) >= CALL_RATE_LIMIT_WINDOW,
        log.len() < CALL_RATE_LIMIT_WINDOW ==> !burst_exceeded(log, now),
{
    lemma_lookback_counts(call_times(log), CALL_RATE_LIMIT_WINDOW - 1, now, RATE_LIMIT);
    lemma_later_first_total();
    call_times(log).lemma_sort_by_ensures(later_first());
}

/// A creation is turned away for the day's cap just when the log holds three
/// creations or more of the last day.
pub proof fn lemma_daily_is_three_recent(log: Seq<CallView>, now: u64)
    ensures
        daily_exceeded(log, now) <==> recent_creates(log, now) >= FILES_PER_DAY,
{
    lemma_lookback_counts(create_times(log), FILES_PER_DAY - 1, now, FILES_REFRESH_RATE_ONE_DAY);
}

/// The moments of the creations of a log with one call more.
pub proof fn lemma_create_times_push(log: Seq<CallView>, call: CallView)
    ensures
        create_times(log.push(call)) == if call.call_type == RateLimitMessageType::CreateFile {
            create_times(log).push(call.time)
        } else {
            create_times(log)
        },
{
    log.lemma_filter_push(call, is_create());
    if call.call_type == RateLimitMessageType::CreateFile {
        assert(create_times(log.push(call)) =~= create_times(log).push(call.time));
    }
}

/// Taking a creation out of a log takes its moment out of the moments of the
/// creations.
pub proof fn lemma_create_times_remove(log: Seq<CallView>, i: int) -> (j: int)
    requires
        0 <= i < log.len(),
        log[i].call_type == RateLimitMessageType::CreateFile,
    ensures
        0 <= j < create_times(log).len(),
        create_times(log)[j] == log[i].time,
        create_times(log.remove(i)) == create_times(log).remove(j),
    decreases log.len(),
{
    let front = log.drop_last();
    let last = log.last();
    assert(log =~= front.push(last));
    lemma_create_times_push(front, last);
    if i == log.len() - 1 {
        assert(log.remove(i) =~= front);
        let j = create_times(front).len() as int;
        assert(create_times(log).remove(j) =~= create_times(front));
        j
    } else {
        let j = lemma_create_times_remove(front, i);
        assert(front[i] == log[i]);
        assert(log.remove(i) =~= front.remove(i).push(last));
        lemma_create_times_push(front.remove(i), last);
        if last.call_type == RateLimitMessageType::CreateFile {
            assert(create_times(front).remove(j).push(last.time) =~= create_times(
                front,
            ).push(last.time).remove(j));
        }
        j
    }
}

/// Where no creation of a log lies inside the window, none counts.
pub proof fn lemma_no_recent_creates(log: Seq<CallView>, now: u64, window: u64)
    requires
        forall|m: int|
            0 <= m < log.len() && (#[trigger] log[m]).call_type == RateLimitMessageType::CreateFile
                ==> !within(log[m].time, now, window),
    ensures
        recent_count(create_times(log), now, window) == 0,
    decreases log.len(),
{
    if log.len() == 0 {
        log.lemma_filter_len(is_create());
        assert(create_times(log) =~= Seq::<u64>::empty());
    } else {
        let front = log.drop_last();
        let last = log.last();
        assert(log =~= front.push(last));
        assert(forall|m: int| 0 <= m < front.len() ==> #[trigger] front[m] == log[m]);
        lemma_no_recent_creates(front, now, window);
        lemma_create_times_push(front, last);
        if last.call_type == RateLimitMessageType::CreateFile {
            assert(log[log.len() - 1] == last);
            assert(create_times(log).drop_last() =~= create_times(front));
        }
    }
}

/// A deletion makes up for the latest creation: once it is logged, the
/// creations that count inside any window are one fewer than before, or none
/// where none counted.
pub proof fn lemma_delete_makes_up(log: Seq<CallView>, now: u64, window: u64)
    ensures
        recent_count(create_times(without_latest_create(log)), now, window) == if recent_count(
            create_times(log),
            now,
            window,
        ) > 0 {
            (recent_count(create_times(log), now, window) - 1) as nat
        } else {
            0nat
        },
{
    if exists|i: int| is_latest_create(log, i) {
        let i = choose|i: int| is_latest_create(log, i);
        let j = lemma_create_times_remove(log, i);
        lemma_recent_count_remove(create_times(log), j, now, window);
        if !within(log[i].time, now, window) {
            assert forall|m: int|
                0 <= m < log.len() && (#[trigger] log[m]).call_type
                    == RateLimitMessageType::CreateFile implies !within(
                log[m].time,
                now,
                window,
            ) by {
                assert(log[m].time <= log[i].time);
            }
            lemma_no_recent_creates(log, now, window);
        }
    } else {
        assert forall|m: int|
            0 <= m < log.len() && (#[trigger] log[m]).call_type
                == RateLimitMessageType::CreateFile implies !within(log[m].time, now, window) by {
            lemma_some_latest_create(log, m);
        }
        lemma_no_recent_creates(log, now, window);
    }
}

/// A log that holds a creation has a latest one.
pub proof fn lemma_some_latest_create(log: Seq<CallView>, m: int)
    requires
        0 <= m < log.len(),
        log[m].call_type == RateLimitMessageType::CreateFile,
    ensures
        exists|i: int| is_latest_create(log, i),
    decreases log.len(),
{
    let front = log.drop_last();
    let n = log.len() - 1;
    assert(forall|k: int| 0 <= k < n ==> #[trigger] front[k] == log[k]);
    if exists|k: int|
        0 <= k < n && (#[trigger] log[k]).call_type == RateLimitMessageType::CreateFile {
        let k = choose|k: int|
            0 <= k < n && (#[trigger] log[k]).call_type == RateLimitMessageType::CreateFile;
        assert(front[k].call_type == RateLimitMessageType::CreateFile);
        lemma_some_latest_create(front, k);
        let b = choose|b: int| is_latest_create(front, b);
        if log[n].call_type == RateLimitMessageType::CreateFile && log[n].time > log[b].time {
            assert(is_latest_create(log, n)) by {
                assert forall|q: int|
                    0 <= q < log.len() && (#[trigger] log[q]).call_type
                        == RateLimitMessageType::CreateFile implies log[q].time <= log[n].time by {
                    if q < n {
                        assert(front[q].call_type == RateLimitMessageType::CreateFile);
                    }
                }
                assert forall|q: int|
                    0 <= q < n && (#[trigger] log[q]).call_type
                        == RateLimitMessageType::CreateFile implies log[q].time < log[n].time by {
                    assert(front[q].call_type == RateLimitMessageType::CreateFile);
                }
            }
        } else {
            assert(is_latest_create(log, b)) by {
                assert forall|q: int|
                    0 <= q < log.len() && (#[trigger] log[q]).call_type
                        == RateLimitMessageType::CreateFile implies log[q].time <= log[b].time by {
                    if q < n {
                        assert(front[q].call_type == RateLimitMessageType::CreateFile);
                    }
                }
                assert forall|q: int|
                    0 <= q < b && (#[trigger] log[q]).call_type
                        == RateLimitMessageType::CreateFile implies log[q].time < log[b].time by {
                    assert(front[q].call_type == RateLimitMessageType::CreateFile);
                }
            }
        }
    } else {
        assert(m == n);
        assert(is_latest_create(log, n));
    }
}

/// The counts of warnings after a run of calls of `who`, one after the
/// other.
pub open spec fn counts_after_all(
    counts: Map<Seq<u8>, WarningView>,
    verdicts: Seq<Verdict>,
    who: Seq<u8>,
) -> Map<Seq<u8>, WarningView>
    decreases verdicts.len(),
{
    if verdicts.len() == 0 {
        counts
    } else {
        counts_after(counts_after_all(counts, verdicts.drop_last(), who), verdicts.last(), who)
    }
}

/// The blocklist after a run of calls of `who`, one after the other.
pub open spec fn blocklist_after_all(
    blocked: Map<Seq<u8>, BlockedView>,
    counts: Map<Seq<u8>, WarningView>,
    verdicts: Seq<Verdict>,
    who: Seq<u8>,
) -> Map<Seq<u8>, BlockedView>
    decreases verdicts.len(),
{
    if verdicts.len() == 0 {
        blocked
    } else {
        blocklist_after(
            blocklist_after_all(blocked, counts, verdicts.drop_last(), who),
            counts_after_all(counts, verdicts.drop_last(), who),
            verdicts.last(),
            who,
        )
    }
}

/// Each call that is turned away counts, and once an identity was turned
/// away more than two hundred times in a row it is blocked: 201 such calls
/// block an identity that had no warning.
pub proof fn lemma_escalation(
    blocked: Map<Seq<u8>, BlockedView>,
    counts: Map<Seq<u8>, WarningView>,
    verdicts: Seq<Verdict>,
    who: Seq<u8>,
)
    requires
        forall|i: int| 0 <= i < verdicts.len() ==> turned_away(#[trigger] verdicts[i]),
        warnings_of(counts, who) + verdicts.len() <= i128::MAX,
    ensures
        warnings_of(counts_after_all(counts, verdicts, who), who) == warnings_of(counts, who)
            + verdicts.len(),
        verdicts.len() > 0 && warnings_of(counts, who) + verdicts.len() > WARNINGS_BEFORE_BLOCK
            ==> blocklist_after_all(blocked, counts, verdicts, who).dom().contains(who),
    decreases verdicts.len(),
{
    if verdicts.len() > 0 {
        let front = verdicts.drop_last();
        assert(forall|i: int| 0 <= i < front.len() ==> #[trigger] front[i] == verdicts[i]);
        lemma_escalation(blocked, counts, front, who);
        assert(turned_away(verdicts[verdicts.len() - 1]));
    }
}

/// The verdict on a call, by what the log holds of the last five minutes and
/// of the last day.
pub proof fn lemma_verdict_by_counts(
    exempt: bool,
    log: Seq<CallView>,
    call_type: RateLimitMessageType,
    now: u64,
)
    ensures
        verdict_of(exempt, log, call_type, now) == if exempt {
            Verdict::Exempt
        } else if recent_calls(log, now) >= CALL_RATE_LIMIT_WINDOW {
            Verdict::TooFast
        } else if call_type == RateLimitMessageType::CreateFile && recent_creates(log, now)
            >= FILES_PER_DAY {
            Verdict::TooManyFiles
        } else {
            Verdict::Accepted
        },
{
    lemma_burst_is_fifty_recent(log, now);
    lemma_daily_is_three_recent(log, now);
}

/// Whether a call lies less than a day before `now`.
pub open spec fn fresh_at(now: u64) -> spec_fn(CallView) -> bool {
    |c: CallView| within(c.time, now, FILES_REFRESH_RATE_ONE_DAY)
}

/// The calls of a log that lie less than a day before `now`, in their order.
pub open spec fn fresh_calls(log: Seq<CallView>, now: u64) -> Seq<CallView> {
    log.filter(fresh_at(now))
}

/// The logs with nothing left in them but the calls of the last day.
pub open spec fn logs_compacted(logs: Map<Seq<u8>, Seq<CallView>>, now: u64) -> Map<
    Seq<u8>,
    Seq<CallView>,
> {
    logs.map_values(|log: Seq<CallView>| fresh_calls(log, now))
}

/// The calls of a log that lie less than a day before `now`.
fn keep_fresh(calls: &Vec<Call>, now: u64) -> (kept: Vec<Call>)
    ensures
        call_views(kept@) == fresh_calls(call_views(calls@), now),
{
    let mut kept: Vec<Call> = Vec::new();
    let mut i: usize = 0;
    let ghost log = call_views(calls@);
    assert(call_views(kept@) =~= log.take(0).filter(fresh_at(now))) by {
        log.take(0).lemma_filter_len(fresh_at(now));
    }
    while i < calls.len()
        invariant
            i <= calls@.len(),
            log == call_views(calls@),
            call_views(kept@) == log.take(i as int).filter(fresh_at(now)),
        decreases calls@.len() - i,
    {
        proof {
            assert(log.take(i + 1) =~= log.take(i as int).push(log[i as int]));
            log.take(i as int).lemma_filter_push(log[i as int], fresh_at(now));
        }
        if less_than_a_day(calls[i].time, now) {
            let ghost before = call_views(kept@);
            kept.push(calls[i].clone());
            assert(call_views(kept@) =~= before.push(log[i as int]));
        }
        i += 1;
    }
    assert(log.take(i as int) =~= log);
    kept
}

/// Drops from every log the calls that lie a day or more before `now`. As
/// long as time does not run backwards, no later call is judged otherwise
/// for it.
pub fn forget_old_calls(limits: &mut RateLimit, now: u64)
    requires
        old(limits).wf(),
    ensures
        final(limits).wf(),
        final(limits)@ == logs_compacted(old(limits)@, now),
{
    let mut i: usize = 0;
    let n: usize = limits.logs.len();
    proof {
        old(limits).logs.lemma_order();
    }
    while i < n
        invariant
            i <= n == limits.logs.order().len(),
            limits.wf(),
            limits.logs.order() == old(limits).logs.order(),
            limits@.dom() == old(limits)@.dom(),
            forall|a: int, b: int|
                0 <= a < b < n ==> limits.logs.order()[a] != limits.logs.order()[b],
            forall|k: Seq<u8>|
                limits.logs.map().dom().contains(k) <==> limits.logs.order().contains(k),
            forall|j: int|
                0 <= j < i ==> limits@[#[trigger] limits.logs.order()[j]] == fresh_calls(
                    old(limits)@[limits.logs.order()[j]],
                    now,
                ),
            forall|j: int|
                i <= j < n ==> limits@[#[trigger] limits.logs.order()[j]]
                    == old(limits)@[limits.logs.order()[j]],
        decreases n - i,
    {
        let ghost before = limits@;
        let ghost key = limits.logs.order()[i as int];
        let kept = keep_fresh(limits.logs.value_at(i), now);
        assert(before[key] == old(limits)@[key]);
        limits.logs.set_value_at(i, kept);
        proof {
            assert(limits@ =~= before.insert(key, call_views(kept@)));
            limits.logs.lemma_order();
            assert forall|j: int| 0 <= j < i + 1 implies limits@[#[trigger] limits.logs.order()[j]]
                == fresh_calls(old(limits)@[limits.logs.order()[j]], now) by {
                if j < i {
                    assert(limits.logs.order()[j] != key);
                    assert(before[limits.logs.order()[j]] == fresh_calls(
                        old(limits)@[limits.logs.order()[j]],
                        now,
                    ));
                }
            }
            assert forall|j: int| i + 1 <= j < n implies limits@[#[trigger] limits.logs.order()[j]]
                == old(limits)@[limits.logs.order()[j]] by {
                assert(limits.logs.order()[j] != key);
                assert(before[limits.logs.order()[j]] == old(limits)@[limits.logs.order()[j]]);
            }
        }
        i += 1;
    }
    proof {
        assert forall|k: Seq<u8>| limits@.dom().contains(k) implies #[trigger] limits@[k]
            == fresh_calls(old(limits)@[k], now) by {
            assert(limits.logs.order().contains(k));
            let j = choose|j: int| 0 <= j < n && limits.logs.order()[j] == k;
            assert(limits@[limits.logs.order()[j]] == fresh_calls(
                old(limits)@[limits.logs.order()[j]],
                now,
            ));
        }
        assert(limits@ =~= logs_compacted(old(limits)@, now));
    }
}

/// The moments of a log with one call more.
pub proof fn lemma_call_times_push(log: Seq<CallView>, call: CallView)
    ensures
        call_times(log.push(call)) == call_times(log).push(call.time),
{
    assert(call_times(log.push(call)) =~= call_times(log).push(call.time));
}

/// One moment more counts where it lies inside the window.
pub proof fn lemma_recent_count_push(times: Seq<u64>, t: u64, now: u64, window: u64)
    ensures
        recent_count(times.push(t), now, window) == recent_count(times, now, window) + if within(
            t,
            now,
            window,
        ) {
            1nat
        } else {
            0nat
        },
{
    assert(times.push(t).drop_last() =~= times);
}

/// The calls that are dropped from a log count in no window of a day or less
/// that ends at `now` or later: the calls and the creations that count are
/// those that counted.
pub proof fn lemma_fresh_calls_count(log: Seq<CallView>, now: u64, later: u64, window: u64)
    requires
        now <= later,
        window <= FILES_REFRESH_RATE_ONE_DAY,
    ensures
        recent_count(call_times(fresh_calls(log, now)), later, window) == recent_count(
            call_times(log),
            later,
            window,
        ),
        recent_count(create_times(fresh_calls(log, now)), later, window) == recent_count(
            create_times(log),
            later,
            window,
        ),
    decreases log.len(),
{
    if log.len() == 0 {
        log.lemma_filter_len(fresh_at(now));
        assert(fresh_calls(log, now) =~= log);
    } else {
        let front = log.drop_last();
        let last = log.last();
        assert(log =~= front.push(last));
        lemma_fresh_calls_count(front, now, later, window);
        front.lemma_filter_push(last, fresh_at(now));
        lemma_call_times_push(front, last);
        lemma_create_times_push(front, last);
        lemma_recent_count_push(call_times(front), last.time, later, window);
        lemma_recent_count_push(create_times(front), last.time, later, window);
        if fresh_at(now)(last) {
            let kept = fresh_calls(front, now);
            lemma_call_times_push(kept, last);
            lemma_create_times_push(kept, last);
            lemma_recent_count_push(call_times(kept), last.time, later, window);
            lemma_recent_count_push(create_times(kept), last.time, later, window);
        }
    }
}

/// How many calls of a log count in a window, and how many creations.
pub open spec fn counts_at(log: Seq<CallView>, now: u64, window: u64) -> (nat, nat) {
    (recent_count(call_times(log), now, window), recent_count(create_times(log), now, window))
}

/// Two logs are alike from `now` on where, in every window of a day or less
/// that ends at `now` or later, as many calls of one count as of the other,
/// and as many creations.
pub open spec fn alike(a: Seq<CallView>, b: Seq<CallView>, now: u64) -> bool {
    forall|later: u64, window: u64|
        now <= later && window <= FILES_REFRESH_RATE_ONE_DAY ==> #[trigger] counts_at(
            a,
            later,
            window,
        ) == counts_at(b, later, window)
}

/// A log and what is left of it once the old calls are dropped are alike.
pub proof fn lemma_compacted_alike(log: Seq<CallView>, now: u64)
    ensures
        alike(fresh_calls(log, now), log, now),
{
    assert forall|later: u64, window: u64|
        now <= later && window <= FILES_REFRESH_RATE_ONE_DAY implies #[trigger] counts_at(
        fresh_calls(log, now),
        later,
        window,
    ) == counts_at(log, later, window) by {
        lemma_fresh_calls_count(log, now, later, window);
    }
}

/// Calls on logs that are alike get the same verdict.
pub proof fn lemma_alike_same_verdict(
    a: Seq<CallView>,
    b: Seq<CallView>,
    now: u64,
    exempt: bool,
    call_type: RateLimitMessageType,
    later: u64,
)
    requires
        alike(a, b, now),
        now <= later,
    ensures
        verdict_of(exempt, a, call_type, later) == verdict_of(exempt, b, call_type, later),
{
    lemma_verdict_by_counts(exempt, a, call_type, later);
    lemma_verdict_by_counts(exempt, b, call_type, later);
    assert(counts_at(a, later, RATE_LIMIT) == counts_at(b, later, RATE_LIMIT));
    assert(counts_at(a, later, FILES_REFRESH_RATE_ONE_DAY) == counts_at(
        b,
        later,
        FILES_REFRESH_RATE_ONE_DAY,
    ));
}

/// Once the latest creation is taken out of a log, the calls that count in a
/// window are one fewer where a creation counted, and as many as before
/// where none did.
pub proof fn lemma_calls_without_latest_create(log: Seq<CallView>, now: u64, window: u64)
    ensures
        recent_count(call_times(without_latest_create(log)), now, window) == recent_count(
            call_times(log),
            now,
            window,
        ) - if recent_count(create_times(log), now, window) > 0 {
            1int
        } else {
            0int
        },
{
    if exists|i: int| is_latest_create(log, i) {
        let i = choose|i: int| is_latest_create(log, i);
        assert(call_times(log.remove(i)) =~= call_times(log).remove(i));
        lemma_recent_count_remove(call_times(log), i, now, window);
        let j = lemma_create_times_remove(log, i);
        lemma_recent_count_remove(create_times(log), j, now, window);
        if !within(log[i].time, now, window) {
            assert forall|m: int|
                0 <= m < log.len() && (#[trigger] log[m]).call_type
                    == RateLimitMessageType::CreateFile implies !within(
                log[m].time,
                now,
                window,
            ) by {
                assert(log[m].time <= log[i].time);
            }
            lemma_no_recent_creates(log, now, window);
        }
    } else {
        assert forall|m: int|
            0 <= m < log.len() && (#[trigger] log[m]).call_type
                == RateLimitMessageType::CreateFile implies !within(log[m].time, now, window) by {
            lemma_some_latest_create(log, m);
        }
        lemma_no_recent_creates(log, now, window);
    }
}

/// Logs that are alike stay so as the same calls are made on both.
pub proof fn lemma_alike_stays(
    a: Seq<CallView>,
    b: Seq<CallView>,
    now: u64,
    verdict: Verdict,
    call: CallView,
)
    requires
        alike(a, b, now),
    ensures
        alike(log_after(a, verdict, call), log_after(b, verdict, call), now),
{
    let a2 = log_after(a, verdict, call);
    let b2 = log_after(b, verdict, call);
    assert forall|later: u64, window: u64|
        now <= later && window <= FILES_REFRESH_RATE_ONE_DAY implies #[trigger] counts_at(
        a2,
        later,
        window,
    ) == counts_at(b2, later, window) by {
        assert(counts_at(a, later, window) == counts_at(b, later, window));
        if verdict != Verdict::Exempt {
            let removes = verdict == Verdict::Accepted && call.call_type
                == RateLimitMessageType::DeleteFile;
            let a1 = if removes {
                without_latest_create(a)
            } else {
                a
            };
            let b1 = if removes {
                without_latest_create(b)
            } else {
                b
            };
            if removes {
                lemma_calls_without_latest_create(a, later, window);
                lemma_calls_without_latest_create(b, later, window);
                lemma_delete_makes_up(a, later, window);
                lemma_delete_makes_up(b, later, window);
            }
            lemma_call_times_push(a1, call);
            lemma_call_times_push(b1, call);
            lemma_create_times_push(a1, call);
            lemma_create_times_push(b1, call);
            lemma_recent_count_push(call_times(a1), call.time, later, window);
            lemma_recent_count_push(call_times(b1), call.time, later, window);
            lemma_recent_count_push(create_times(a1), call.time, later, window);
            lemma_recent_count_push(create_times(b1), call.time, later, window);
        }
    }
}

} // verus!
